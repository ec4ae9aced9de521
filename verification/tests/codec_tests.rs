use tile::codec::{Field, Warning};
use tile::descriptor::MapDescriptor;
use tile::xml::{read_xml, save_xml, ReadError};

fn doc_with(min: &str, max: &str, tile: &str, url: &str, extra: &str) -> String {
    let mut s = String::from("<customMapSource>");
    s.push_str("<name>Test Map</name>");
    s.push_str(&format!("<minZoom>{}</minZoom>", min));
    s.push_str(&format!("<maxZoom>{}</maxZoom>", max));
    s.push_str(&format!("<tileType>{}</tileType>", tile));
    s.push_str("<tileUpdate></tileUpdate>");
    s.push_str(&format!("<url>{}</url>", url));
    s.push_str(extra);
    s.push_str("</customMapSource>");
    s
}

const GOOD_URL: &str = "http://tile.example/{$z}/{$x}/{$y}.png";

#[test]
fn valid_document_reads() {
    let xml = doc_with("3", "17", "jpg", GOOD_URL, "");
    let mut d = MapDescriptor::new();
    let w = read_xml(&mut d, &xml, "alpha").expect("read should succeed");
    assert!(w.is_empty());
    assert_eq!(d.map_id().as_str(), "alpha");
    assert_eq!(d.title().as_str(), "Test Map");
    assert_eq!(d.min_zoom(), 3);
    assert_eq!(d.max_zoom(), 17);
    assert_eq!(d.tile_format().as_str(), "jpg");
    assert_eq!(d.url_template().as_str(), GOOD_URL);
    // defaults for everything the document does not carry
    assert_eq!(d.invert_y(), false);
    assert_eq!(d.coord_sys().as_str(), "EPSG:4326");
    assert_eq!(d.lower_corner(), (-180_000_000, -85_000_000));
    assert_eq!(d.upper_corner(), (180_000_000, 85_000_000));
    assert_eq!(d.expire_sec(), 0);
}

#[test]
fn uppercase_png_is_folded() {
    let xml = doc_with("0", "24", "PNG", GOOD_URL, "");
    let mut d = MapDescriptor::new();
    read_xml(&mut d, &xml, "m").expect("PNG must parse");
    assert_eq!(d.tile_format().as_str(), "png");
}

#[test]
fn url_without_z_placeholder_is_fatal() {
    let xml = doc_with("0", "24", "png", "http://tile.example/{$x}/{$y}.png", "");
    let mut d = MapDescriptor::new();
    match read_xml(&mut d, &xml, "m") {
        Err(ReadError::Invalid(e)) => {
            assert_eq!(e.field, Field::Url);
            assert_eq!(e.map_id.as_str(), "m");
        }
        _ => panic!("expected a validation error citing url"),
    }
    // the descriptor is untouched on a fatal error
    assert_eq!(d.title().as_str(), "");
}

#[test]
fn url_with_all_placeholders_succeeds() {
    let xml = doc_with("0", "24", "png", GOOD_URL, "");
    let mut d = MapDescriptor::new();
    assert!(read_xml(&mut d, &xml, "m").is_ok());
}

#[test]
fn missing_name_is_fatal() {
    let xml = "<customMapSource><tileType>png</tileType>\
               <url>a{$x}{$y}{$z}</url></customMapSource>";
    let mut d = MapDescriptor::new();
    match read_xml(&mut d, xml, "m") {
        Err(ReadError::Invalid(e)) => assert_eq!(e.field, Field::Name),
        _ => panic!("expected a validation error citing name"),
    }
}

#[test]
fn empty_id_is_fatal() {
    let xml = doc_with("0", "24", "png", GOOD_URL, "");
    let mut d = MapDescriptor::new();
    match read_xml(&mut d, &xml, "") {
        Err(ReadError::Invalid(e)) => assert_eq!(e.field, Field::Id),
        _ => panic!("expected a validation error citing the id"),
    }
}

#[test]
fn min_above_max_is_fatal() {
    let xml = doc_with("10", "5", "png", GOOD_URL, "");
    let mut d = MapDescriptor::new();
    match read_xml(&mut d, &xml, "m") {
        Err(ReadError::Invalid(e)) => assert_eq!(e.field, Field::Zoom),
        _ => panic!("expected a validation error citing the zoom pair"),
    }
}

#[test]
fn bad_tile_type_is_fatal() {
    let xml = doc_with("0", "24", "gif", GOOD_URL, "");
    let mut d = MapDescriptor::new();
    match read_xml(&mut d, &xml, "m") {
        Err(ReadError::Invalid(e)) => assert_eq!(e.field, Field::TileType),
        _ => panic!("expected a validation error citing the tile type"),
    }
}

#[test]
fn unparsable_zoom_defaults_with_warning() {
    let xml = doc_with("abc", "24", "png", GOOD_URL, "");
    let mut d = MapDescriptor::new();
    let w = read_xml(&mut d, &xml, "m").expect("zoom text must not be fatal");
    assert_eq!(w, vec![Warning::MinZoom]);
    assert_eq!(d.min_zoom(), 0);
}

#[test]
fn out_of_range_zoom_clamps_silently() {
    let xml = doc_with("30", "99", "png", GOOD_URL, "");
    let mut d = MapDescriptor::new();
    let w = read_xml(&mut d, &xml, "m").expect("out-of-range zoom clamps");
    assert!(w.is_empty());
    assert_eq!(d.min_zoom(), 24);
    assert_eq!(d.max_zoom(), 24);
}

#[test]
fn bad_lower_corner_defaults_with_warning() {
    let xml = doc_with(
        "0",
        "24",
        "png",
        GOOD_URL,
        "<lowerCorner>not a number</lowerCorner>",
    );
    let mut d = MapDescriptor::new();
    let w = read_xml(&mut d, &xml, "m").expect("a bad corner must not abort the read");
    assert_eq!(w, vec![Warning::LowerCorner]);
    assert_eq!(d.lower_corner(), (-180_000_000, -85_000_000));
}

#[test]
fn corner_text_parses_and_clamps() {
    let xml = doc_with(
        "0",
        "24",
        "png",
        GOOD_URL,
        "<lowerCorner>12.5 -30.25</lowerCorner>",
    );
    let mut d = MapDescriptor::new();
    let w = read_xml(&mut d, &xml, "m").unwrap();
    assert!(w.is_empty());
    assert_eq!(d.lower_corner(), (12_500_000, -30_250_000));

    let xml2 = doc_with("0", "24", "png", GOOD_URL, "<lowerCorner>200 -90</lowerCorner>");
    let mut d2 = MapDescriptor::new();
    read_xml(&mut d2, &xml2, "m").unwrap();
    assert_eq!(d2.lower_corner(), (180_000_000, -85_000_000));
}

#[test]
fn server_parts_split_on_spaces() {
    let xml = doc_with(
        "0",
        "24",
        "png",
        GOOD_URL,
        "<serverParts>a b c</serverParts>",
    );
    let mut d = MapDescriptor::new();
    read_xml(&mut d, &xml, "m").unwrap();
    let parts = d.server_parts().as_ref().expect("parts must be present");
    let got: Vec<&str> = parts.iter().map(|p| p.as_str()).collect();
    assert_eq!(got, vec!["a", "b", "c"]);
}

#[test]
fn invert_flag_words_and_warning() {
    let xml = doc_with(
        "0",
        "24",
        "png",
        GOOD_URL,
        "<invertYCoordinate>true</invertYCoordinate>",
    );
    let mut d = MapDescriptor::new();
    assert!(read_xml(&mut d, &xml, "m").unwrap().is_empty());
    assert_eq!(d.invert_y(), true);

    let xml2 = doc_with(
        "0",
        "24",
        "png",
        GOOD_URL,
        "<invertYCoordinate>banana</invertYCoordinate>",
    );
    let mut d2 = MapDescriptor::new();
    let w = read_xml(&mut d2, &xml2, "m").unwrap();
    assert_eq!(w, vec![Warning::InvertY]);
    assert_eq!(d2.invert_y(), false);
}

#[test]
fn coordinate_system_is_uppercased() {
    let xml = doc_with(
        "0",
        "24",
        "png",
        GOOD_URL,
        "<coordinatesystem>epsg:3857</coordinatesystem>",
    );
    let mut d = MapDescriptor::new();
    read_xml(&mut d, &xml, "m").unwrap();
    assert_eq!(d.coord_sys().as_str(), "EPSG:3857");
}

#[test]
fn expire_days_fractional() {
    let xml = doc_with("0", "24", "png", GOOD_URL, "<expireDays>1.5</expireDays>");
    let mut d = MapDescriptor::new();
    read_xml(&mut d, &xml, "m").unwrap();
    assert_eq!(d.expire_sec(), 129_600);
}

#[test]
fn expire_days_unparsable_warns() {
    let xml = doc_with("0", "24", "png", GOOD_URL, "<expireDays>soon</expireDays>");
    let mut d = MapDescriptor::new();
    let w = read_xml(&mut d, &xml, "m").unwrap();
    assert_eq!(w, vec![Warning::ExpireDays]);
    assert_eq!(d.expire_sec(), 0);
}

#[test]
fn pretty_printed_document_is_trimmed() {
    let xml = "<customMapSource>\n  <name>\n    Indented Map\n  </name>\n  \
               <tileType>png</tileType>\n  <url>a{$x}{$y}{$z}</url>\n</customMapSource>";
    let mut d = MapDescriptor::new();
    read_xml(&mut d, xml, "m").unwrap();
    assert_eq!(d.title().as_str(), "Indented Map");
}

#[test]
fn malformed_markup_is_an_xml_error() {
    let xml = "<customMapSource><name>oops";
    let mut d = MapDescriptor::new();
    match read_xml(&mut d, xml, "m") {
        Err(ReadError::Xml) => {}
        Err(ReadError::Invalid(_)) => {
            // an unterminated document may also surface as missing fields;
            // what matters is that it does not succeed
        }
        Ok(_) => panic!("a truncated document must not read"),
    }
}

#[test]
fn saved_document_bytes_match_template() {
    let mut d = MapDescriptor::new();
    d.set_title(String::from("T"));
    d.set_max_zoom(5);
    d.set_tile_format(String::from("png"));
    d.set_url_template(String::from("u{$x}{$y}{$z}"));
    d.set_invert_y(true);
    d.set_coord_sys(String::from("EPSG:4326"));
    let bytes = save_xml(&d);
    let text = String::from_utf8(bytes).unwrap();
    let expected = "<customMapSource><name>T</name><minZoom>0</minZoom>\
                    <maxZoom>5</maxZoom><tileType>png</tileType>\
                    <tileUpdate></tileUpdate><url>u{$x}{$y}{$z}</url>\
                    <serverParts></serverParts>\
                    <invertYCoordinate>true</invertYCoordinate>\
                    <coordinatesystem>EPSG:4326</coordinatesystem>\
                    <lowerCorner>-180 -85</lowerCorner>\
                    <expireDays>0</expireDays>\
                    <backgroundColor></backgroundColor></customMapSource>";
    assert_eq!(text, expected);
}

#[test]
fn unparsable_max_zoom_defaults_with_warning() {
    let xml = doc_with("1", "high", "png", GOOD_URL, "");
    let mut d = MapDescriptor::new();
    let w = read_xml(&mut d, &xml, "m").unwrap();
    assert_eq!(w, vec![Warning::MaxZoom]);
    assert_eq!(d.max_zoom(), 24);
}

#[test]
fn bad_upper_corner_defaults_with_warning() {
    let xml = doc_with("0", "24", "png", GOOD_URL, "<upperCorner>1 2 3</upperCorner>");
    let mut d = MapDescriptor::new();
    let w = read_xml(&mut d, &xml, "m").unwrap();
    assert_eq!(w, vec![Warning::UpperCorner]);
    assert_eq!(d.upper_corner(), (180_000_000, 85_000_000));
}

#[test]
fn warnings_come_in_rule_order() {
    let xml = doc_with(
        "bad",
        "also bad",
        "png",
        GOOD_URL,
        "<lowerCorner>x y</lowerCorner><expireDays>soon</expireDays>",
    );
    let mut d = MapDescriptor::new();
    let w = read_xml(&mut d, &xml, "m").unwrap();
    assert_eq!(
        w,
        vec![
            Warning::MinZoom,
            Warning::MaxZoom,
            Warning::LowerCorner,
            Warning::ExpireDays
        ]
    );
}

#[test]
fn saved_bytes_escape_special_characters() {
    let mut d = MapDescriptor::new();
    d.set_title(String::from("A&B"));
    let bytes = save_xml(&d);
    let text = String::from_utf8(bytes).unwrap();
    assert!(text.contains("<name>A&amp;B</name>"));
}

#[test]
fn round_trip_reproduces_fields() {
    let mut d = MapDescriptor::new();
    d.set_map_id(String::from("trip"));
    d.set_title(String::from("A Map"));
    d.set_min_zoom(2);
    d.set_max_zoom(19);
    d.set_tile_format(String::from("jpg"));
    d.set_url_template(String::from("http://t.example/{$z}/{$x}/{$y}.jpg"));
    d.set_server_parts(Some(vec![
        String::from("s1"),
        String::from("s2"),
        String::from("s3"),
    ]));
    d.set_invert_y(false);
    d.set_coord_sys(String::from("EPSG:3857"));
    d.set_lower_corner(-12_345_678, 9_000_001);
    d.set_expire_sec(200_000);
    d.set_alpha(1, 4);
    d.set_enabled(true);

    let bytes = save_xml(&d);
    let xml = String::from_utf8(bytes).unwrap();
    let mut e = MapDescriptor::new();
    let w = read_xml(&mut e, &xml, "trip").expect("a saved descriptor must read back");
    assert!(w.is_empty());
    assert_eq!(e.map_id().as_str(), "trip");
    assert_eq!(e.title().as_str(), "A Map");
    assert_eq!(e.min_zoom(), 2);
    assert_eq!(e.max_zoom(), 19);
    assert_eq!(e.tile_format().as_str(), "jpg");
    assert_eq!(e.url_template().as_str(), "http://t.example/{$z}/{$x}/{$y}.jpg");
    let parts = e.server_parts().as_ref().unwrap();
    let got: Vec<&str> = parts.iter().map(|p| p.as_str()).collect();
    assert_eq!(got, vec!["s1", "s2", "s3"]);
    assert_eq!(e.invert_y(), false);
    assert_eq!(e.coord_sys().as_str(), "EPSG:3857");
    assert_eq!(e.lower_corner(), (-12_345_678, 9_000_001));
    // the template carries no upper corner tag, so the default returns
    assert_eq!(e.upper_corner(), (180_000_000, 85_000_000));
    // expiry survives only at whole-day granularity
    assert_eq!(e.expire_sec(), 86_400 * (200_000 / 86_400));
    assert_eq!(e.expire_sec(), 172_800);
}

#[test]
fn round_trip_escapes_markup_in_texts() {
    let mut d = MapDescriptor::new();
    d.set_title(String::from("A&B <C> \"q\""));
    d.set_tile_format(String::from("png"));
    d.set_url_template(String::from("http://t/{$x}&{$y}&{$z}"));
    let bytes = save_xml(&d);
    let xml = String::from_utf8(bytes).unwrap();
    let mut e = MapDescriptor::new();
    read_xml(&mut e, &xml, "esc").unwrap();
    assert_eq!(e.title().as_str(), "A&B <C> \"q\"");
    assert_eq!(e.url_template().as_str(), "http://t/{$x}&{$y}&{$z}");
}
