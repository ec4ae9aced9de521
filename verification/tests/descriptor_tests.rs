use tile::descriptor::MapDescriptor;

#[test]
fn new_descriptor_defaults() {
    let d = MapDescriptor::new();
    assert_eq!(d.enabled(), false);
    assert_eq!(d.alpha_255(), 255);
    assert_eq!(d.map_id().as_str(), "");
    assert_eq!(d.title().as_str(), "");
    assert_eq!(d.min_zoom(), 0);
    assert_eq!(d.max_zoom(), 0);
    assert_eq!(d.invert_y(), true);
    assert_eq!(d.lower_corner(), (-180_000_000, -85_000_000));
    assert_eq!(d.upper_corner(), (180_000_000, 85_000_000));
    assert_eq!(d.expire_sec(), 0);
    assert!(d.server_parts().is_none());
}

#[test]
fn zoom_pair_set_in_order() {
    let mut d = MapDescriptor::new();
    d.set_min_zoom(5);
    d.set_max_zoom(10);
    assert_eq!(d.min_zoom(), 5);
    assert_eq!(d.max_zoom(), 10);
}

#[test]
fn min_zoom_above_max_raises_max() {
    let mut d = MapDescriptor::new();
    d.set_max_zoom(4);
    d.set_min_zoom(9);
    assert_eq!(d.min_zoom(), 9);
    assert_eq!(d.max_zoom(), 9);
}

#[test]
fn max_zoom_below_min_lowers_min() {
    let mut d = MapDescriptor::new();
    d.set_min_zoom(12);
    d.set_max_zoom(3);
    assert_eq!(d.min_zoom(), 3);
    assert_eq!(d.max_zoom(), 3);
}

#[test]
fn zoom_clamped_to_24() {
    let mut d = MapDescriptor::new();
    d.set_min_zoom(200);
    assert_eq!(d.min_zoom(), 24);
    assert_eq!(d.max_zoom(), 24);
}

#[test]
fn alpha_quantization_error_within_one_step() {
    // a sweep of fractions v = num/den in [0, 1]
    for den in 1u32..40 {
        for num in 0..=den {
            let mut d = MapDescriptor::new();
            d.set_alpha(num, den);
            let stored = d.alpha_255() as f64 / 255.0;
            let v = num as f64 / den as f64;
            assert!((stored - v).abs() <= 1.0 / 255.0 + 1e-12);
        }
    }
}

#[test]
fn alpha_half_rounds_up() {
    let mut d = MapDescriptor::new();
    d.set_alpha(1, 2);
    assert_eq!(d.alpha_255(), 128);
    d.set_alpha(3, 10);
    assert_eq!(d.alpha_255(), 77);
    d.set_alpha(0, 1);
    assert_eq!(d.alpha_255(), 0);
    d.set_alpha(1, 1);
    assert_eq!(d.alpha_255(), 255);
}

#[test]
fn lower_corner_clamped() {
    // degrees (200, -90) in micro-degrees land on (180, -85)
    let mut d = MapDescriptor::new();
    d.set_lower_corner(200_000_000, -90_000_000);
    assert_eq!(d.lower_corner(), (180_000_000, -85_000_000));
}

#[test]
fn upper_corner_clamped_independently() {
    let mut d = MapDescriptor::new();
    d.set_upper_corner(-200_000_000, 90_000_000);
    assert_eq!(d.upper_corner(), (-180_000_000, 85_000_000));
}

#[test]
fn string_setters_store_unchecked() {
    // direct field writes carry no validation; only the parse path checks
    let mut d = MapDescriptor::new();
    d.set_tile_format(String::from("BMP"));
    d.set_url_template(String::from("no placeholders"));
    d.set_coord_sys(String::from("epsg:3857"));
    assert_eq!(d.tile_format().as_str(), "BMP");
    assert_eq!(d.url_template().as_str(), "no placeholders");
    assert_eq!(d.coord_sys().as_str(), "epsg:3857");
}
