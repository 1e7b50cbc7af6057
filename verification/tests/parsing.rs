use py_cheat::parse_content;

const EXAMPLE: &str = "# ----\n# 1. Variables\n# ----\nx = 5  # comment";

#[test]
fn parse_concrete_example() {
    let sheet = parse_content(EXAMPLE).unwrap();
    assert_eq!(sheet.sections.len(), 1);
    assert_eq!(sheet.sections[0].title, "Variables");
    assert_eq!(sheet.sections[0].content, EXAMPLE);
}

#[test]
fn parse_round_trip_two_sections() {
    let doc = "preamble line\n# ----\n# 1. One\n# ----\nbody a\n# ----\n# 2. Two\n# ----\nbody b\n";
    let sheet = parse_content(doc).unwrap();
    assert_eq!(sheet.sections.len(), 2);
    assert_eq!(sheet.sections[0].title, "One");
    assert_eq!(sheet.sections[1].title, "Two");
    let mut joined = String::new();
    for sec in &sheet.sections {
        joined.push_str(&sec.content);
    }
    // Byte-for-byte the document from the first section start to the end.
    assert_eq!(joined, &doc["preamble line\n".len()..]);
}

#[test]
fn parse_round_trip_without_preamble() {
    let doc = "# ----\n# 1. A\n# ----\nx = 1\n\n# ----\n# 2. B\n# ----\ny = 2";
    let sheet = parse_content(doc).unwrap();
    assert_eq!(sheet.sections.len(), 2);
    let mut joined = String::new();
    for sec in &sheet.sections {
        joined.push_str(&sec.content);
    }
    assert_eq!(joined, doc);
    assert_eq!(sheet.sections[0].content, "# ----\n# 1. A\n# ----\nx = 1\n\n");
    assert_eq!(sheet.sections[1].content, "# ----\n# 2. B\n# ----\ny = 2");
}

#[test]
fn malformed_header_number_is_no_section() {
    let doc = "# ----\n# abc. Title\n# ----\nbody\n";
    let sheet = parse_content(doc).unwrap();
    assert_eq!(sheet.sections.len(), 0);
}

#[test]
fn header_number_zero_is_no_section() {
    let doc = "# ----\n# 0. Title\n# ----\nbody\n";
    let sheet = parse_content(doc).unwrap();
    assert_eq!(sheet.sections.len(), 0);
}

#[test]
fn header_without_dot_space_is_no_section() {
    let doc = "# ----\n# just a comment\n# ----\nbody\n";
    let sheet = parse_content(doc).unwrap();
    assert_eq!(sheet.sections.len(), 0);
}

#[test]
fn missing_closing_delimiter_is_no_section() {
    let doc = "# ----\n# 1. Title\nno closing delimiter\n";
    let sheet = parse_content(doc).unwrap();
    assert_eq!(sheet.sections.len(), 0);
}

#[test]
fn empty_document_yields_no_sections() {
    let sheet = parse_content("").unwrap();
    assert_eq!(sheet.sections.len(), 0);
}

#[test]
fn repeated_markers_strip_before_number() {
    // The header marker may repeat; every leading `# ` is stripped.
    let doc = "# ----\n# # 2. Nested\n# ----\nbody";
    let sheet = parse_content(doc).unwrap();
    assert_eq!(sheet.sections.len(), 1);
    assert_eq!(sheet.sections[0].title, "Nested");
}

#[test]
fn title_takes_text_after_first_dot_space() {
    let doc = "# ----\n# 12. A. B. C\n# ----\nbody";
    let sheet = parse_content(doc).unwrap();
    assert_eq!(sheet.sections.len(), 1);
    assert_eq!(sheet.sections[0].title, "A. B. C");
}

#[test]
fn parse_is_deterministic() {
    let doc = "# ----\n# 1. One\n# ----\nbody a\n";
    let a = parse_content(doc).unwrap();
    let b = parse_content(doc).unwrap();
    assert_eq!(a.sections.len(), b.sections.len());
    for (x, y) in a.sections.iter().zip(b.sections.iter()) {
        assert_eq!(x.title, y.title);
        assert_eq!(x.content, y.content);
    }
}
