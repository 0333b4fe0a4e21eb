use fhc::structs::{HTTPFilters, HttpData, StatusFilter};

#[test]
fn an_empty_filter_accepts_everything() {
    let filter = StatusFilter::new(None, None);
    for code in [200, 301, 404, 500] {
        assert!(filter.accepts(code));
    }
}

#[test]
fn only_the_listed_codes_get_through() {
    let filter = StatusFilter::new(Some("200,301"), None);
    assert!(filter.accepts(200));
    assert!(filter.accepts(301));
    assert!(!filter.accepts(404));
}

#[test]
fn an_excluded_code_is_dropped() {
    let filter = StatusFilter::new(None, Some("404,500"));
    assert!(filter.accepts(200));
    assert!(!filter.accepts(404));
    assert!(!filter.accepts(500));
}

#[test]
fn a_code_is_matched_whole_and_not_as_a_substring() {
    let filter = StatusFilter::new(Some("40"), None);
    assert!(!filter.accepts(404), "404 is not the code 40");
    assert!(filter.accepts(40), "40 itself still matches");
}

#[test]
fn spacing_and_rubbish_in_the_list_are_tolerated() {
    let filter = StatusFilter::new(Some(" 200 , not-a-code ,301"), None);
    assert!(filter.accepts(200));
    assert!(filter.accepts(301));
    assert!(!filter.accepts(404));
}

#[test]
fn exclusion_wins_over_inclusion() {
    let filter = StatusFilter::new(Some("200,404"), Some("404"));
    assert!(filter.accepts(200));
    assert!(!filter.accepts(404));
}

#[test]
fn a_list_of_nothing_but_rubbish_lets_everything_through() {
    let filter = StatusFilter::new(Some("x,,  ,-1,65536"), None);
    assert!(filter.accepts(200));
    assert!(filter.accepts(0));
    assert!(filter.accepts(65535));
}

#[test]
fn codes_read_as_from_str_reads_them() {
    let filter = StatusFilter::new(Some("+201,0302,65535,65536,2 00,\t\u{a0}418\u{3000}\n"), None);
    assert!(filter.accepts(201), "a leading plus sign is read");
    assert!(filter.accepts(302), "leading zeros are read");
    assert!(filter.accepts(65535), "the largest u16 is read");
    assert!(filter.accepts(418), "unicode whitespace is trimmed");
    assert!(!filter.accepts(0), "a number too large for u16 is passed over");
    assert!(!filter.accepts(200), "a code with a space inside is passed over");
    assert!(!filter.accepts(2), "a code with a space inside is passed over");
}

#[test]
fn a_trailing_comma_or_a_lone_sign_names_nothing() {
    let filter = StatusFilter::new(Some("+,-,500,"), None);
    assert!(filter.accepts(500));
    assert!(!filter.accepts(0));
    let blocked = StatusFilter::new(None, Some("-500"));
    assert!(blocked.accepts(500), "an unsigned code has no minus sign");
}

#[test]
fn a_new_record_holds_only_its_host() {
    let data = HttpData::new("example.com".to_owned());
    assert_eq!(data.checked_host, "example.com");
    assert_eq!(data, HttpData { checked_host: "example.com".to_owned(), ..HttpData::default() });
}

#[test]
fn empty_filters_hold_nothing() {
    assert_eq!(HTTPFilters::empty(), HTTPFilters::default());
}

#[test]
fn a_cloned_filter_decides_alike() {
    let filter = StatusFilter::new(Some("200,301,404"), Some("404"));
    let copy = filter.clone();
    for code in [0, 200, 301, 404, 500] {
        assert_eq!(copy.accepts(code), filter.accepts(code));
    }
}
