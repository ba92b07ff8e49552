use baikal::conversion_table::ConversionTable;
use baikal::error::Error;
use baikal::substitute::substitute;

#[test]
fn replacing() {
    assert_eq!(
        ConversionTable::replace_units("56 gb / 6 + 4kib * 5 -4 mb + 4 B".to_string()).unwrap(),
        "56000000000 / 6 + 4096 * 5 -4000000 + 4"
    )
}

#[test]
fn case_of_a_unit_token_does_not_matter() {
    let upper = ConversionTable::replace_units("5GB".to_string()).unwrap();
    let lower = ConversionTable::replace_units("5gb".to_string()).unwrap();
    let mixed = ConversionTable::replace_units("5Gb".to_string()).unwrap();
    assert_eq!(upper, "5000000000");
    assert_eq!(lower, "5000000000");
    assert_eq!(mixed, "5000000000");
}

#[test]
fn text_without_unit_tokens_is_unchanged() {
    for t in [
        "",
        "foo + 17 - bar",
        "12 + 34",
        "(1 + 2) * 3 / 4",
        "12x + 1",
        "340282366920938463463374607431768211456 + 1",
    ] {
        assert_eq!(ConversionTable::replace_units(t.to_string()).unwrap(), t);
    }
}

#[test]
fn whitespace_between_amount_and_unit() {
    assert_eq!(substitute("7 \t kib").unwrap(), "7168");
    assert_eq!(substitute("7\nkb").unwrap(), "7000");
    assert_eq!(substitute("7\r\nmib").unwrap(), "7340032");
}

#[test]
fn adjacent_matches_replace_independently() {
    assert_eq!(substitute("4kib5gb").unwrap(), "40965000000000");
}

#[test]
fn bare_b_counts_as_bytes() {
    assert_eq!(substitute("3b").unwrap(), "3");
    assert_eq!(substitute("3 B").unwrap(), "3");
}

#[test]
fn iec_units_scale_by_powers_of_1024() {
    assert_eq!(substitute("5 mib").unwrap(), "5242880");
    assert_eq!(substitute("2tib").unwrap(), "2199023255552");
    assert_eq!(substitute("1gib").unwrap(), "1073741824");
}

#[test]
fn unparsable_amount_before_a_unit_is_an_error() {
    // One more than the largest representable byte count.
    let r = substitute("340282366920938463463374607431768211456b");
    match r {
        Err(Error::UnitParseError(run)) => {
            assert_eq!(run, "340282366920938463463374607431768211456");
        }
        other => panic!("expected a unit parse error, got {:?}", other),
    }
}

#[test]
fn amount_whose_byte_count_overflows_is_an_error() {
    let r = substitute("999999999999999999999999999tb");
    assert!(matches!(r, Err(Error::OverflowError)));
}

#[test]
fn first_failing_match_wins() {
    let r = substitute("1kb + 999999999999999999999999999tb");
    assert!(matches!(r, Err(Error::OverflowError)));
    let r = substitute(
        "340282366920938463463374607431768211456b + 999999999999999999999999999tb",
    );
    assert!(matches!(r, Err(Error::UnitParseError(_))));
}
