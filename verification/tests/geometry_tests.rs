use font_thingy::geometry::Position;
use font_thingy::geometry::WindowPos;
use font_thingy::numtext::parse_i32;

#[test]
fn save_os_default() {
    let p = WindowPos { pos: Position::OsDefault, width: 800, height: 600 };
    assert_eq!(p.save(), "default\n800, 600");
}

#[test]
fn save_centered() {
    let p = WindowPos { pos: Position::Centered, width: 800, height: 600 };
    assert_eq!(p.save(), "centered\n800, 600");
}

#[test]
fn save_specific() {
    let p = WindowPos { pos: Position::Specific(50, 60), width: 1024, height: 768 };
    assert_eq!(p.save(), "50, 60\n1024, 768");
}

#[test]
fn save_negative_coordinates() {
    let p = WindowPos { pos: Position::Specific(-5, -7), width: 640, height: 480 };
    assert_eq!(p.save(), "-5, -7\n640, 480");
}

#[test]
fn load_empty_is_default_placement() {
    let p = WindowPos::load("");
    assert_eq!(p, WindowPos { pos: Position::Centered, width: 800, height: 600 });
}

#[test]
fn load_centered_decodes_to_os_default() {
    let p = WindowPos::load("centered\n800, 600");
    assert_eq!(p.pos, Position::OsDefault);
    assert_eq!((p.width, p.height), (800, 600));
}

#[test]
fn load_default_decodes_to_centered() {
    let p = WindowPos::load("default\n320, 200");
    assert_eq!(p, WindowPos { pos: Position::Centered, width: 320, height: 200 });
}

#[test]
fn load_bad_size_keeps_position() {
    let p = WindowPos::load("50, 60\nnotanumber, 60");
    assert_eq!(p.pos, Position::Specific(50, 60));
    assert_eq!((p.width, p.height), (800, 600));
}

#[test]
fn load_missing_size_line_keeps_position() {
    let p = WindowPos::load("50, 60");
    assert_eq!(p, WindowPos { pos: Position::Specific(50, 60), width: 800, height: 600 });
}

#[test]
fn load_keywords_ignore_ascii_case() {
    let p = WindowPos::load("DeFaUlT\n10, 20");
    assert_eq!(p, WindowPos { pos: Position::Centered, width: 10, height: 20 });
    let q = WindowPos::load("CENTERED\n10, 20");
    assert_eq!(q.pos, Position::OsDefault);
}

#[test]
fn load_bad_position_falls_back_to_centered() {
    let p = WindowPos::load("somewhere\n10, 20");
    assert_eq!(p, WindowPos { pos: Position::Centered, width: 10, height: 20 });
}

#[test]
fn load_skips_fields_that_are_no_number() {
    // A field that is no number is passed over; the first two numeric
    // fields still win.
    let p = WindowPos::load("a, 1, 2\n30, 40");
    assert_eq!(p, WindowPos { pos: Position::Specific(1, 2), width: 30, height: 40 });
}

#[test]
fn load_out_of_range_number_is_no_number() {
    let p = WindowPos::load("2147483648, 5\n1, 2");
    assert_eq!(p.pos, Position::Centered);
    assert_eq!((p.width, p.height), (1, 2));
}

#[test]
fn round_trip_specific_is_exact() {
    let p = WindowPos { pos: Position::Specific(-123, 456), width: 1920, height: 1080 };
    assert_eq!(WindowPos::load(&p.save()), p);
}

#[test]
fn round_trip_swaps_keyword_positions() {
    let d = WindowPos { pos: Position::OsDefault, width: 300, height: 200 };
    let back = WindowPos::load(&d.save());
    assert_eq!(back, WindowPos { pos: Position::Centered, width: 300, height: 200 });

    let c = WindowPos { pos: Position::Centered, width: 300, height: 200 };
    let back = WindowPos::load(&c.save());
    assert_eq!(back, WindowPos { pos: Position::OsDefault, width: 300, height: 200 });
}

#[test]
fn round_trip_extreme_coordinates() {
    let p = WindowPos { pos: Position::Specific(i32::MIN, i32::MAX), width: 1, height: 1 };
    assert_eq!(WindowPos::load(&p.save()), p);
}

#[test]
fn default_is_centered_800_by_600() {
    let p = WindowPos::default();
    assert_eq!(p, WindowPos { pos: Position::Centered, width: 800, height: 600 });
}

#[test]
fn parse_i32_grammar() {
    assert_eq!(parse_i32("0"), Some(0));
    assert_eq!(parse_i32("+42"), Some(42));
    assert_eq!(parse_i32("-42"), Some(-42));
    assert_eq!(parse_i32("007"), Some(7));
    assert_eq!(parse_i32("2147483647"), Some(2147483647));
    assert_eq!(parse_i32("-2147483648"), Some(-2147483648));
    assert_eq!(parse_i32("2147483648"), None);
    assert_eq!(parse_i32("-2147483649"), None);
    assert_eq!(parse_i32(""), None);
    assert_eq!(parse_i32("-"), None);
    assert_eq!(parse_i32("4x"), None);
    assert_eq!(parse_i32(" 4"), None);
    assert_eq!(parse_i32("99999999999999999999"), None);
}
