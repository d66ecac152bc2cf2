use rustynzb::entities::NzbFileBuilder;
use rustynzb::entities::Segment;
use rustynzb::entities::SegmentBuilder;
use rustynzb::errors::ParseError;
use rustynzb::parser::extract_quoted;
use rustynzb::parser::parse_nzb;
use rustynzb::parser::parse_u32;
use rustynzb::parser::parse_usize;
use rustynzb::parser::resolve_reference;

fn sample_doc() -> String {
    let mut doc = String::new();
    doc.push_str("<?xml version=\"1.0\" encoding=\"utf-8\"?>\n");
    doc.push_str("<nzb>\n");
    doc.push_str("<file poster=\"someone\" subject=\"Here is &quot;archive.part01.rar&quot; yEnc (1/2)\">\n");
    doc.push_str("<groups><group>alt.binaries.test</group><group>alt.binaries.other</group></groups>\n");
    doc.push_str("<segments>");
    doc.push_str("<segment bytes=\"1024\" number=\"1\">part1of2@example.invalid</segment>");
    doc.push_str("<segment bytes=\"512\" number=\"2\">part2of2@example.invalid</segment>");
    doc.push_str("</segments>\n");
    doc.push_str("</file>\n");
    doc.push_str("<file subject='and now \"second.bin\" follows'>");
    doc.push_str("<groups><group>alt.binaries.test</group></groups>");
    doc.push_str("<segments><segment bytes=\"7\" number=\"1\">one@example.invalid</segment></segments>");
    doc.push_str("</file>\n");
    doc.push_str("</nzb>\n");
    doc
}

#[test]
fn parses_one_entry_per_file_element_in_document_order() {
    let doc = sample_doc();
    let files = parse_nzb(doc.as_bytes()).expect("well-formed document must parse");
    assert_eq!(files.len(), 2);
    assert_eq!(files[0].filename, "archive.part01.rar");
    assert_eq!(files[1].filename, "second.bin");
    assert_eq!(files[0].groups, vec!["alt.binaries.test".to_string(), "alt.binaries.other".to_string()]);
    assert_eq!(files[1].groups, vec!["alt.binaries.test".to_string()]);
    assert_eq!(files[0].segments.len(), 2);
    assert_eq!(files[0].segments[0].bytes, 1024);
    assert_eq!(files[0].segments[0].number, 1);
    assert_eq!(files[0].segments[0].article_id, "part1of2@example.invalid");
    assert_eq!(files[0].segments[1].bytes, 512);
    assert_eq!(files[0].segments[1].number, 2);
    assert_eq!(files[0].segments[1].article_id, "part2of2@example.invalid");
    assert_eq!(files[1].segments.len(), 1);
    assert_eq!(files[1].segments[0].article_id, "one@example.invalid");
}

#[test]
fn whitespace_between_elements_is_not_taken_for_content() {
    let doc = "<nzb>\n  <file subject='a \"x.bin\" b'>\n    <groups>\n      <group>g.a</group>\n      <group>g.b</group>\n    </groups>\n    <segments>\n      <segment bytes=\"5\" number=\"1\">id@x</segment>\n    </segments>\n  </file>\n</nzb>\n";
    let files = parse_nzb(doc.as_bytes()).unwrap();
    assert_eq!(files.len(), 1);
    assert_eq!(files[0].groups, vec!["g.a".to_string(), "g.b".to_string()]);
    assert_eq!(files[0].segments.len(), 1);
    assert_eq!(files[0].segments[0].article_id, "id@x");
}

#[test]
fn extracts_filename_between_first_pair_of_quotes() {
    let r = extract_quoted("Some post \"archive.part01.rar\" yEnc (1/10)");
    assert_eq!(r, Some("archive.part01.rar".to_string()));
}

#[test]
fn extraction_fails_without_a_quoted_substring() {
    assert_eq!(extract_quoted("no quotes here"), None);
    assert_eq!(extract_quoted("only \"one quote"), None);
    assert_eq!(extract_quoted(""), None);
}

#[test]
fn extraction_of_empty_quoted_substring() {
    assert_eq!(extract_quoted("an \"\" empty name"), Some(String::new()));
}

#[test]
fn segment_missing_bytes_attribute_fails_with_parse_error() {
    let doc = "<nzb><file subject='a \"x.bin\" b'><groups><group>g.a</group></groups>\
               <segments><segment number=\"1\">id@x</segment></segments></file></nzb>";
    let r = parse_nzb(doc.as_bytes());
    assert_eq!(r.unwrap_err(), ParseError::IncompleteSegment);
}

#[test]
fn segment_missing_number_attribute_fails_with_parse_error() {
    let doc = "<nzb><file subject='a \"x.bin\" b'><groups><group>g.a</group></groups>\
               <segments><segment bytes=\"10\">id@x</segment></segments></file></nzb>";
    let r = parse_nzb(doc.as_bytes());
    assert_eq!(r.unwrap_err(), ParseError::IncompleteSegment);
}

#[test]
fn file_with_zero_groups_fails_with_parse_error() {
    let doc = "<nzb><file subject='a \"x.bin\" b'><groups></groups>\
               <segments><segment bytes=\"10\" number=\"1\">id@x</segment></segments></file></nzb>";
    let r = parse_nzb(doc.as_bytes());
    assert_eq!(r.unwrap_err(), ParseError::MissingGroup);
}

#[test]
fn file_without_subject_fails_with_missing_filename() {
    let doc = "<nzb><file poster=\"p\"><groups><group>g.a</group></groups></file></nzb>";
    let r = parse_nzb(doc.as_bytes());
    assert_eq!(r.unwrap_err(), ParseError::MissingFilename);
}

#[test]
fn subject_without_quotes_fails_at_stream_offset() {
    let doc = "<nzb><file subject=\"no quotes at all\"></file></nzb>";
    match parse_nzb(doc.as_bytes()) {
        Err(ParseError::FilenameNotQuoted { position }) => {
            assert!(position > 0);
        },
        other => panic!("expected FilenameNotQuoted, got {:?}", other),
    }
}

#[test]
fn malformed_xml_fails_with_parse_error() {
    let doc = "<nzb><file subject='a \"x\" b'></nzb>";
    let r = parse_nzb(doc.as_bytes());
    assert_eq!(r.unwrap_err(), ParseError::MalformedXml);
}

#[test]
fn malformed_integer_attributes_are_silently_ignored() {
    // A malformed "bytes" leaves the field unset, so the segment is
    // incomplete; the number alone does not save it.
    let doc = "<nzb><file subject='a \"x.bin\" b'><groups><group>g</group></groups>\
               <segments><segment bytes=\"12kb\" number=\"1\">id@x</segment></segments></file></nzb>";
    assert_eq!(parse_nzb(doc.as_bytes()).unwrap_err(), ParseError::IncompleteSegment);
}

#[test]
fn entity_references_in_attribute_values_are_unescaped() {
    let doc = "<nzb><file subject='with &quot;a&amp;b.bin&quot; inside'>\
               <groups><group>g</group></groups></file></nzb>";
    let files = parse_nzb(doc.as_bytes()).unwrap();
    assert_eq!(files[0].filename, "a&b.bin");
}

#[test]
fn entity_references_in_text_content_are_resolved() {
    let doc = "<nzb><file subject='a \"x.bin\" b'><groups><group>g</group></groups>\
               <segments><segment bytes=\"1\" number=\"1\">id&amp;more&#64;host</segment></segments>\
               </file></nzb>";
    let files = parse_nzb(doc.as_bytes()).unwrap();
    assert_eq!(files[0].segments[0].article_id, "id&more@host");
}

#[test]
fn resolve_reference_handles_predefined_and_numeric_forms() {
    assert_eq!(resolve_reference("amp"), Some("&".to_string()));
    assert_eq!(resolve_reference("lt"), Some("<".to_string()));
    assert_eq!(resolve_reference("gt"), Some(">".to_string()));
    assert_eq!(resolve_reference("apos"), Some("'".to_string()));
    assert_eq!(resolve_reference("quot"), Some("\"".to_string()));
    assert_eq!(resolve_reference("#65"), Some("A".to_string()));
    assert_eq!(resolve_reference("#x41"), Some("A".to_string()));
    assert_eq!(resolve_reference("#x2603"), Some("\u{2603}".to_string()));
    assert_eq!(resolve_reference("nbsp"), None);
    assert_eq!(resolve_reference("#xD800"), None);
    assert_eq!(resolve_reference("#99999999999999999999"), None);
}

#[test]
fn parse_u32_accepts_digits_and_rejects_the_rest() {
    assert_eq!(parse_u32("0"), Some(0));
    assert_eq!(parse_u32("123"), Some(123));
    assert_eq!(parse_u32("4294967295"), Some(u32::MAX));
    assert_eq!(parse_u32("4294967296"), None);
    assert_eq!(parse_u32(""), None);
    assert_eq!(parse_u32("12a"), None);
    assert_eq!(parse_u32("-1"), None);
}

#[test]
fn parse_usize_accepts_digits_and_rejects_the_rest() {
    assert_eq!(parse_usize("0"), Some(0));
    assert_eq!(parse_usize("1048576"), Some(1048576));
    assert_eq!(parse_usize(""), None);
    assert_eq!(parse_usize("1.5"), None);
}

#[test]
fn file_builder_validates_and_resets() {
    let mut b = NzbFileBuilder::default();
    assert_eq!(b.create().unwrap_err(), ParseError::MissingFilename);
    b.set_filename("a.bin".to_string());
    assert_eq!(b.create().unwrap_err(), ParseError::MissingGroup);
    b.add_group("g.a".to_string());
    b.add_segment(Segment::new(10, 1, "id@x".to_string()));
    let f = b.create().unwrap();
    assert_eq!(f.filename, "a.bin");
    assert_eq!(f.groups, vec!["g.a".to_string()]);
    assert_eq!(f.segments.len(), 1);
    // The builder was reset by the successful create.
    assert_eq!(b.create().unwrap_err(), ParseError::MissingFilename);
}

#[test]
fn file_builder_rejects_empty_filename() {
    let mut b = NzbFileBuilder::default();
    b.set_filename(String::new());
    b.add_group("g.a".to_string());
    assert_eq!(b.create().unwrap_err(), ParseError::MissingFilename);
}

#[test]
fn file_builder_clear_drops_everything() {
    let mut b = NzbFileBuilder::default();
    b.set_filename("a.bin".to_string());
    b.add_group("g.a".to_string());
    b.clear();
    assert_eq!(b.create().unwrap_err(), ParseError::MissingFilename);
}

#[test]
fn segment_builder_requires_all_three_fields() {
    let mut b = SegmentBuilder::default();
    assert!(b.is_empty());
    assert_eq!(b.create().unwrap_err(), ParseError::IncompleteSegment);
    b.set_bytes(100);
    assert!(!b.is_empty());
    assert_eq!(b.create().unwrap_err(), ParseError::IncompleteSegment);
    b.set_number(1);
    b.set_article_id("id@x".to_string());
    let s = b.create().unwrap();
    assert_eq!(s.bytes, 100);
    assert_eq!(s.number, 1);
    assert_eq!(s.article_id, "id@x");
    // The builder was reset by the successful create.
    assert!(b.is_empty());
}

#[test]
fn segment_builder_clear_resets() {
    let mut b = SegmentBuilder::default();
    b.set_bytes(1);
    b.set_number(2);
    b.set_article_id("x".to_string());
    b.clear();
    assert!(b.is_empty());
}

#[test]
fn wrapped_article_id_adds_angle_brackets() {
    let s = Segment::new(1, 1, "abc@host".to_string());
    assert_eq!(s.wrapped_article_id(), "<abc@host>");
}
