use brel::selector::{SegmentQualifier, SelectorError, SelectorSegment, VersionSelector, parse_selector};

#[test]
fn parses_key_selector() {
    let selector = parse_selector("version").unwrap();
    assert_eq!(
        selector,
        VersionSelector {
            segments: vec![SelectorSegment {
                key: "version".to_string(),
                qualifier: None
            }]
        }
    );
}

#[test]
fn parses_nested_selector() {
    let selector = parse_selector("package.version").unwrap();
    assert_eq!(
        selector,
        VersionSelector {
            segments: vec![
                SelectorSegment {
                    key: "package".to_string(),
                    qualifier: None
                },
                SelectorSegment {
                    key: "version".to_string(),
                    qualifier: None
                }
            ]
        }
    );
}

#[test]
fn parses_selector_with_index() {
    let selector = parse_selector("packages[0].version").unwrap();
    assert_eq!(
        selector,
        VersionSelector {
            segments: vec![
                SelectorSegment {
                    key: "packages".to_string(),
                    qualifier: Some(SegmentQualifier::Index(0))
                },
                SelectorSegment {
                    key: "version".to_string(),
                    qualifier: None
                }
            ]
        }
    );
}

#[test]
fn parses_selector_with_filter() {
    let selector = parse_selector("package[name=brel].version").unwrap();
    assert_eq!(
        selector,
        VersionSelector {
            segments: vec![
                SelectorSegment {
                    key: "package".to_string(),
                    qualifier: Some(SegmentQualifier::Filter {
                        field: "name".to_string(),
                        value: "brel".to_string()
                    })
                },
                SelectorSegment {
                    key: "version".to_string(),
                    qualifier: None
                }
            ]
        }
    );
}

#[test]
fn parses_selector_with_quoted_filter_value() {
    let selector = parse_selector("package[name=\"brel\"].version").unwrap();
    assert_eq!(
        selector,
        VersionSelector {
            segments: vec![
                SelectorSegment {
                    key: "package".to_string(),
                    qualifier: Some(SegmentQualifier::Filter {
                        field: "name".to_string(),
                        value: "brel".to_string()
                    })
                },
                SelectorSegment {
                    key: "version".to_string(),
                    qualifier: None
                }
            ]
        }
    );
}

#[test]
fn rejects_empty_selector() {
    let err = parse_selector(" ").unwrap_err();
    assert!(err.message(" ").contains("cannot be empty"));
}

#[test]
fn rejects_empty_path_segment() {
    let err = parse_selector("package..version").unwrap_err();
    assert!(err.message("package..version").contains("empty path segment"));
}

#[test]
fn rejects_malformed_brackets() {
    let err = parse_selector("package[name=brel.version").unwrap_err();
    assert!(err.message("package[name=brel.version").contains("unmatched `[`"));
}

#[test]
fn rejects_missing_filter_equals() {
    let err = parse_selector("package[name].version").unwrap_err();
    assert!(
        err.message("package[name].version")
            .contains("must be either an array index or `field=value`")
    );
}

#[test]
fn rejects_negative_index() {
    let err = parse_selector("package[-1].version").unwrap_err();
    assert!(
        err.message("package[-1].version")
            .contains("must be either an array index or `field=value`")
    );
}

#[test]
fn rejects_non_numeric_index() {
    let err = parse_selector("package[abc].version").unwrap_err();
    assert!(
        err.message("package[abc].version")
            .contains("must be either an array index or `field=value`")
    );
}

#[test]
fn rejects_nested_open_bracket() {
    let err = parse_selector("a[b[c]].d").unwrap_err();
    assert_eq!(err, SelectorError::NestedOpenBracket);
}

#[test]
fn rejects_unmatched_close_bracket() {
    let err = parse_selector("a]b").unwrap_err();
    assert_eq!(err, SelectorError::UnmatchedCloseBracket);
}

#[test]
fn rejects_key_with_bad_character_after_qualifier() {
    let err = parse_selector("a[0]b[1]").unwrap_err();
    assert_eq!(err, SelectorError::MalformedQualifier);
}

#[test]
fn rejects_empty_qualifier() {
    let err = parse_selector("a[].b").unwrap_err();
    assert_eq!(err, SelectorError::EmptyQualifier);
}

#[test]
fn rejects_empty_filter_value() {
    let err = parse_selector("a[b=].c").unwrap_err();
    assert_eq!(err, SelectorError::EmptyFilterValue);
}

#[test]
fn rejects_quoted_empty_filter_value() {
    let err = parse_selector("a[b=\"\"].c").unwrap_err();
    assert_eq!(err, SelectorError::EmptyFilterValue);
}

#[test]
fn rejects_segment_not_ending_with_bracket() {
    let err = parse_selector("a[0]x").unwrap_err();
    assert_eq!(err, SelectorError::MissingQualifierClose);
}

#[test]
fn parses_large_index_and_rejects_overflow() {
    let sel = parse_selector("a[42]").unwrap();
    assert_eq!(
        sel.segments[0].qualifier,
        Some(SegmentQualifier::Index(42))
    );
    let err = parse_selector("a[99999999999999999999999999]").unwrap_err();
    assert_eq!(err, SelectorError::IndexOutOfRange);
}

#[test]
fn trims_segments_and_filter_values() {
    let sel = parse_selector("  a . b[ c = 'v 1' ]  ").unwrap();
    assert_eq!(sel.segments[0].key, "a".to_string());
    assert_eq!(sel.segments[1].key, "b".to_string());
    assert_eq!(
        sel.segments[1].qualifier,
        Some(SegmentQualifier::Filter {
            field: "c".to_string(),
            value: "v 1".to_string()
        })
    );
}
