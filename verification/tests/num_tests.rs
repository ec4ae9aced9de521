use tile::num::{format_micro, format_u64, parse_int_range, parse_micro_range};
use tile::text::{join_spaces, split_spaces, trim_str};

#[test]
fn format_u64_decimal() {
    assert_eq!(format_u64(0).as_str(), "0");
    assert_eq!(format_u64(7).as_str(), "7");
    assert_eq!(format_u64(240).as_str(), "240");
    assert_eq!(format_u64(18_446_744_073_709_551_615).as_str(), "18446744073709551615");
}

#[test]
fn format_micro_strips_trailing_zeros() {
    assert_eq!(format_micro(0).as_str(), "0");
    assert_eq!(format_micro(-180_000_000).as_str(), "-180");
    assert_eq!(format_micro(12_340_000).as_str(), "12.34");
    assert_eq!(format_micro(-500_000).as_str(), "-0.5");
    assert_eq!(format_micro(1).as_str(), "0.000001");
}

#[test]
fn parse_int_signed() {
    let s = "-42";
    assert_eq!(parse_int_range(s, 0, s.len()), Some(-42));
    let t = "007";
    assert_eq!(parse_int_range(t, 0, t.len()), Some(7));
    let u = "4.5";
    assert_eq!(parse_int_range(u, 0, u.len()), None);
    let v = "";
    assert_eq!(parse_int_range(v, 0, v.len()), None);
}

#[test]
fn parse_micro_decimal() {
    let a = "12.34";
    assert_eq!(parse_micro_range(a, 0, a.len()), Some(12_340_000));
    let b = "-0.5";
    assert_eq!(parse_micro_range(b, 0, b.len()), Some(-500_000));
    let c = "180";
    assert_eq!(parse_micro_range(c, 0, c.len()), Some(180_000_000));
    // fraction digits past the sixth are truncated
    let d = "1.23456789";
    assert_eq!(parse_micro_range(d, 0, d.len()), Some(1_234_567));
    let e = "nope";
    assert_eq!(parse_micro_range(e, 0, e.len()), None);
}

#[test]
fn trim_and_split_helpers() {
    assert_eq!(trim_str("  a b \t\n").as_str(), "a b");
    assert_eq!(trim_str("").as_str(), "");
    assert_eq!(trim_str(" \n ").as_str(), "");
    let parts = split_spaces("a  b");
    let got: Vec<&str> = parts.iter().map(|p| p.as_str()).collect();
    assert_eq!(got, vec!["a", "", "b"]);
    let joined = join_spaces(&vec![String::from("x"), String::from("y")]);
    assert_eq!(joined.as_str(), "x y");
}
