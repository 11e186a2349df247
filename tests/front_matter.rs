use md_blog::date::{parse_date, Date};
use md_blog::front_matter::{
    decode_metadata, extract_yaml_and_content, parse_document, FrontMatterError,
};
use md_blog::text::trim;

#[test]
fn well_formed_document_gives_title_date_and_trimmed_body() {
    let doc = parse_document("---\ntitle: Hello\ndate: 2024-01-01\n---\n# Hi\n").unwrap();
    assert_eq!(doc.metadata.title, "Hello");
    assert_eq!(doc.metadata.date, Some(Date { year: 2024, month: 1, day: 1 }));
    assert_eq!(doc.body, "# Hi");
}

#[test]
fn document_without_date_has_none() {
    let doc = parse_document("---\ntitle: Plain\n---\n\n  text  \n\n").unwrap();
    assert_eq!(doc.metadata.title, "Plain");
    assert_eq!(doc.metadata.date, None);
    assert_eq!(doc.body, "text");
}

#[test]
fn split_returns_trimmed_parts() {
    let (head, body) = extract_yaml_and_content("---\n  title: A  \n---\n\nBody text\n").unwrap();
    assert_eq!(head, "title: A");
    assert_eq!(body, "Body text");
}

#[test]
fn later_markers_stay_in_body() {
    let (head, body) = extract_yaml_and_content("---\ntitle: A\n---\none\n---\ntwo ---\n").unwrap();
    assert_eq!(head, "title: A");
    assert_eq!(body, "one\n---\ntwo ---");
}

#[test]
fn no_marker_is_malformed() {
    assert_eq!(
        extract_yaml_and_content("just text").unwrap_err(),
        FrontMatterError::MalformedDocument
    );
    assert_eq!(
        parse_document("").err(),
        Some(FrontMatterError::MalformedDocument)
    );
}

#[test]
fn one_marker_is_malformed() {
    assert_eq!(
        parse_document("---\ntitle: A\nbody").err(),
        Some(FrontMatterError::MalformedDocument)
    );
}

#[test]
fn missing_title_is_invalid_metadata() {
    assert_eq!(
        parse_document("---\ndate: 2024-01-01\n---\nbody").err(),
        Some(FrontMatterError::InvalidMetadata)
    );
}

#[test]
fn bad_date_is_invalid_metadata() {
    assert_eq!(
        parse_document("---\ntitle: A\ndate: 2024-13-01\n---\nbody").err(),
        Some(FrontMatterError::InvalidMetadata)
    );
    assert_eq!(
        parse_document("---\ntitle: A\ndate: yesterday\n---\nbody").err(),
        Some(FrontMatterError::InvalidMetadata)
    );
}

#[test]
fn metadata_reads_yaml_fields() {
    let m = decode_metadata("title: \"Quoted: title\"\ndate: 2023-12-31").unwrap();
    assert_eq!(m.title, "Quoted: title");
    assert_eq!(m.date, Some(Date { year: 2023, month: 12, day: 31 }));
    assert!(decode_metadata("not: [valid").is_err());
}

#[test]
fn dates_follow_the_calendar() {
    assert_eq!(parse_date("2024-02-29"), Some(Date { year: 2024, month: 2, day: 29 }));
    assert_eq!(parse_date("2023-02-29"), None);
    assert_eq!(parse_date("1900-02-29"), None);
    assert_eq!(parse_date("2000-02-29"), Some(Date { year: 2000, month: 2, day: 29 }));
    assert_eq!(parse_date("2024-04-31"), None);
    assert_eq!(parse_date("2024-1-01"), None);
    assert_eq!(parse_date("2024-01-00"), None);
    assert_eq!(parse_date(""), None);
}

#[test]
fn dates_compare_in_time() {
    let a = Date { year: 2024, month: 1, day: 31 };
    let b = Date { year: 2024, month: 2, day: 1 };
    assert!(a.is_before(&b));
    assert!(!b.is_before(&a));
    assert!(!a.is_before(&a));
}

#[test]
fn trim_removes_outer_whitespace_only() {
    assert_eq!(trim("  a b \n\t"), "a b");
    assert_eq!(trim("\u{a0}x\u{3000}"), "x");
    assert_eq!(trim("   "), "");
    assert_eq!(trim(""), "");
}
