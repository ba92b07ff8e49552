use baikal::binary_prefix::BinaryPrefix;
use baikal::conversion_table::ConversionTable;
use baikal::error::Error;

#[test]
fn it_works() {
    assert_eq!(2 + 2, 4);
}

#[test]
fn one_kib_is_1024_bytes() {
    assert_eq!(ConversionTable::from_bytes(1, BinaryPrefix::KiB).unwrap().b, 1024);
    assert_eq!(ConversionTable::from_bytes(1, BinaryPrefix::kB).unwrap().b, 1000);
}

#[test]
fn exact_byte_count_per_unit() {
    let cases: Vec<(BinaryPrefix, u128)> = vec![
        (BinaryPrefix::B, 1),
        (BinaryPrefix::KiB, 1024),
        (BinaryPrefix::MiB, 1048576),
        (BinaryPrefix::GiB, 1073741824),
        (BinaryPrefix::TiB, 1099511627776),
        (BinaryPrefix::kB, 1000),
        (BinaryPrefix::MB, 1000000),
        (BinaryPrefix::GB, 1000000000),
        (BinaryPrefix::TB, 1000000000000),
    ];
    for (u, scale) in cases {
        let t = ConversionTable::from_bytes(37, u).unwrap();
        assert_eq!(t.b, 37 * scale);
    }
}

#[test]
fn zero_amount_of_every_unit_is_zero_bytes() {
    let units = vec![
        BinaryPrefix::B,
        BinaryPrefix::KiB,
        BinaryPrefix::MiB,
        BinaryPrefix::GiB,
        BinaryPrefix::TiB,
        BinaryPrefix::kB,
        BinaryPrefix::MB,
        BinaryPrefix::GB,
        BinaryPrefix::TB,
    ];
    for u in units {
        assert_eq!(ConversionTable::from_bytes(0, u).unwrap().b, 0);
    }
}

#[test]
fn originating_unit_field_is_exact() {
    let t = ConversionTable::from_bytes(5, BinaryPrefix::GiB).unwrap();
    assert_eq!(t.gib, 5);
    assert_eq!(t.b, 5368709120);
    assert_eq!(t.kib, 5242880);
    assert_eq!(t.mib, 5120);
    assert_eq!(t.tib, 0);
    assert_eq!(t.kb, 5368709);
    assert_eq!(t.mb, 5368);
    assert_eq!(t.gb, 5);
    assert_eq!(t.tb, 0);
}

#[test]
fn round_trip_through_bytes() {
    let t = ConversionTable::from_bytes(7, BinaryPrefix::MB).unwrap();
    let back = ConversionTable::from_bytes(t.b, BinaryPrefix::B).unwrap();
    assert_eq!(back.b, t.b);
}

#[test]
fn overflowing_amount_is_an_error() {
    let too_big = u128::MAX / 1000000000000 + 1;
    let r = ConversionTable::from_bytes(too_big, BinaryPrefix::TB);
    assert!(matches!(r, Err(Error::OverflowError)));
    let too_big_iec = (u128::MAX >> 40) + 1;
    let r = ConversionTable::from_bytes(too_big_iec, BinaryPrefix::TiB);
    assert!(matches!(r, Err(Error::OverflowError)));
}

#[test]
fn largest_byte_count_still_converts() {
    let t = ConversionTable::from_bytes(u128::MAX, BinaryPrefix::B).unwrap();
    assert_eq!(t.b, u128::MAX);
    assert_eq!(t.tb, u128::MAX / 1000000000000);
}

#[test]
fn render_marks_exact_and_approximate_lines() {
    let t = ConversionTable::from_bytes(4, BinaryPrefix::B).unwrap();
    let report = t.render();
    let lines: Vec<&str> = report.lines().collect();
    assert_eq!(lines.len(), 11);
    assert_eq!(lines[0], "\u{2261}                4 B");
    assert!(lines[1].contains("IEC standard (base-2)"));
    for (i, suffix) in [(2, " KiB"), (3, " MiB"), (4, " GiB"), (5, " TiB")] {
        assert!(lines[i].starts_with("\u{2248} "));
        assert!(lines[i].ends_with(suffix));
        assert!(lines[i].contains(" 0 "));
    }
    assert!(lines[6].contains("SI standard (base-10)"));
    for (i, suffix) in [(7, " kB"), (8, " MB"), (9, " GB"), (10, " TB")] {
        assert!(lines[i].starts_with("\u{2248} "));
        assert!(lines[i].ends_with(suffix));
        assert!(lines[i].contains(" 0 "));
    }
}

#[test]
fn render_right_aligns_values() {
    let t = ConversionTable::from_bytes(1, BinaryPrefix::KiB).unwrap();
    let report = t.render();
    let lines: Vec<&str> = report.lines().collect();
    assert_eq!(lines[0], "\u{2261}             1024 B");
    assert_eq!(lines[2], "\u{2248}                1 KiB");
    assert_eq!(lines[7], "\u{2248}                1 kB");
}

#[test]
fn unit_tokens_parse_in_any_case() {
    assert_eq!(BinaryPrefix::from_token("KiB"), Ok(BinaryPrefix::KiB));
    assert_eq!(BinaryPrefix::from_token("kib"), Ok(BinaryPrefix::KiB));
    assert_eq!(BinaryPrefix::from_token("KB"), Ok(BinaryPrefix::kB));
    assert_eq!(BinaryPrefix::from_token("kb"), Ok(BinaryPrefix::kB));
    assert_eq!(BinaryPrefix::from_token("B"), Ok(BinaryPrefix::B));
    assert_eq!(BinaryPrefix::from_token("b"), Ok(BinaryPrefix::B));
    assert_eq!(BinaryPrefix::from_token("Tib"), Ok(BinaryPrefix::TiB));
    assert_eq!(BinaryPrefix::from_token("mB"), Ok(BinaryPrefix::MB));
}

#[test]
fn bad_unit_tokens_are_errors() {
    assert_eq!(
        BinaryPrefix::from_token("xyz"),
        Err(Error::UnitParseError("xyz".to_string()))
    );
    assert_eq!(
        BinaryPrefix::from_token("kibs"),
        Err(Error::UnitParseError("kibs".to_string()))
    );
    assert_eq!(
        BinaryPrefix::from_token(""),
        Err(Error::UnitParseError("".to_string()))
    );
}

#[test]
fn calculation_error_carries_detail() {
    let e = Error::CalculationError("division by zero".to_string());
    assert!(matches!(e, Error::CalculationError(_)));
}
