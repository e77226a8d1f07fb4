use quadly::document::Document;
use quadly::parser::{parse_quadlet, serialize_quadlet, ParseError};

fn flatten(d: &Document) -> Vec<(String, Vec<(String, String)>)> {
    d.sections
        .iter()
        .map(|s| {
            (
                s.name.clone(),
                s.entries.iter().map(|e| (e.key.clone(), e.value.clone())).collect(),
            )
        })
        .collect()
}

#[test]
fn duplicate_keys_merge_in_order() {
    let d = parse_quadlet("[Container]\nVolume=a:b\nVolume=c:d\n").unwrap();
    assert_eq!(d.get("Container", "Volume").map(|s| s.as_str()), Some("a:b, c:d"));
    assert_eq!(d.sections[0].entries.len(), 1);
}

#[test]
fn empty_input_is_rejected() {
    assert_eq!(parse_quadlet("").unwrap_err(), ParseError::EmptyDocument);
    assert_eq!(parse_quadlet("\n  \ntext before any section\n").unwrap_err(), ParseError::EmptyDocument);
}

#[test]
fn malformed_header_is_rejected_with_its_line() {
    assert_eq!(
        parse_quadlet("[Container]\nImage=x\n[Unit\n").unwrap_err(),
        ParseError::MalformedSection { line: 3 }
    );
    assert_eq!(parse_quadlet("[\n").unwrap_err(), ParseError::MalformedSection { line: 1 });
    assert_eq!(parse_quadlet("[a[b]\n").unwrap_err(), ParseError::MalformedSection { line: 1 });
}

#[test]
fn entry_without_equals_is_rejected() {
    assert_eq!(
        parse_quadlet("[Container]\nImage\n").unwrap_err(),
        ParseError::MalformedEntry { line: 2 }
    );
    assert_eq!(
        parse_quadlet("[Container]\n=value\n").unwrap_err(),
        ParseError::MalformedEntry { line: 2 }
    );
}

#[test]
fn leading_lines_before_first_section_are_ignored() {
    let d = parse_quadlet("garbage line\nKey=ignored\n[Container]\nImage=x\n").unwrap();
    assert_eq!(
        flatten(&d),
        vec![("Container".to_string(), vec![("Image".to_string(), "x".to_string())])]
    );
}

#[test]
fn empty_section_and_trimming() {
    let d = parse_quadlet("[Unit]\n\n[Container]\n  Image = quay.io/x:1  \r\nExec=a=b\n")
        .unwrap();
    assert_eq!(
        flatten(&d),
        vec![
            ("Unit".to_string(), vec![]),
            (
                "Container".to_string(),
                vec![
                    ("Image".to_string(), "quay.io/x:1".to_string()),
                    ("Exec".to_string(), "a=b".to_string()),
                ],
            ),
        ]
    );
}

#[test]
fn repeated_section_header_continues_that_section() {
    let d = parse_quadlet("[A]\nk=1\n[B]\nj=2\n[A]\nk=3\n").unwrap();
    assert_eq!(
        flatten(&d),
        vec![
            ("A".to_string(), vec![("k".to_string(), "1, 3".to_string())]),
            ("B".to_string(), vec![("j".to_string(), "2".to_string())]),
        ]
    );
}

#[test]
fn empty_first_occurrence_keeps_separator() {
    let d = parse_quadlet("[A]\nk=\nk=v\n").unwrap();
    assert_eq!(d.get("A", "k").map(|s| s.as_str()), Some(", v"));
    let d = parse_quadlet("[A]\nk=a\nk=\nk=c\n").unwrap();
    assert_eq!(d.get("A", "k").map(|s| s.as_str()), Some("a, , c"));
}

#[test]
fn empty_section_name_is_a_section() {
    let d = parse_quadlet("[]\nk=v\n").unwrap();
    assert_eq!(
        flatten(&d),
        vec![(String::new(), vec![("k".to_string(), "v".to_string())])]
    );
}

#[test]
fn hash_lines_are_not_comments() {
    assert_eq!(
        parse_quadlet("[Container]\n# note\n").unwrap_err(),
        ParseError::MalformedEntry { line: 2 }
    );
    let d = parse_quadlet("[Container]\n#k=v\n").unwrap();
    assert_eq!(d.get("Container", "#k").map(|s| s.as_str()), Some("v"));
}

#[test]
fn unicode_whitespace_is_trimmed() {
    let d = parse_quadlet("\u{3000}[A]\u{A0}\nk\u{2003}=\u{85}v\u{202F}\n").unwrap();
    assert_eq!(d.get("A", "k").map(|s| s.as_str()), Some("v"));
}

#[test]
fn serializer_writes_one_line_per_piece() {
    let d = parse_quadlet("[Container]\nImage=x\nVolume=a:b\nVolume=c:d\n[Install]\nWantedBy=default.target\n")
        .unwrap();
    assert_eq!(
        serialize_quadlet(&d),
        "[Container]\nImage=x\nVolume=a:b\nVolume=c:d\n\n[Install]\nWantedBy=default.target\n\n"
    );
}

#[test]
fn serializer_on_empty_document_and_section() {
    assert_eq!(serialize_quadlet(&Document::new()), "");
    let mut d = Document::new();
    d.add_section("Unit");
    assert_eq!(serialize_quadlet(&d), "[Unit]\n\n");
}

#[test]
fn round_trip_keeps_document() {
    let mut d = Document::new();
    let c = d.add_section("Container");
    d.add_occurrence(c, "Image", "docker.io/library/nginx:latest");
    d.add_occurrence(c, "ContainerName", "web");
    d.add_occurrence(c, "Environment", "A=1");
    let i = d.add_section("Install");
    d.add_occurrence(i, "WantedBy", "default.target");
    let back = parse_quadlet(&serialize_quadlet(&d)).unwrap();
    assert_eq!(flatten(&back), flatten(&d));
}

#[test]
fn round_trip_of_merged_values() {
    let d = parse_quadlet("[Container]\nVolume=a:b\nVolume=c:d\n").unwrap();
    let back = parse_quadlet(&serialize_quadlet(&d)).unwrap();
    assert_eq!(flatten(&back), flatten(&d));
}

#[test]
fn document_lookup() {
    let mut d = Document::new();
    assert!(!d.contains_section("Container"));
    let c = d.add_section("Container");
    assert_eq!(d.add_section("Container"), c);
    d.add_occurrence(c, "Image", "x");
    assert!(d.contains_section("Container"));
    assert_eq!(d.get("Container", "Image").map(|s| s.as_str()), Some("x"));
    assert_eq!(d.get("Container", "Other"), None);
    assert_eq!(d.get("Other", "Image"), None);
}

#[test]
fn parse_errors_describe_their_line() {
    assert_eq!(ParseError::EmptyDocument.message(), "empty or invalid file");
    assert_eq!(
        ParseError::MalformedSection { line: 12 }.message(),
        "line 12: malformed section header"
    );
    assert_eq!(ParseError::MalformedEntry { line: 7 }.message(), "line 7: expected key=value");
    assert_eq!(ParseError::MalformedEntry { line: 0 }.message(), "line 0: expected key=value");
    assert_eq!(ParseError::MalformedEntry { line: 100 }.message(), "line 100: expected key=value");
}
