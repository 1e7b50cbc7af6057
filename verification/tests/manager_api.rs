use py_cheat::get_sheet_content;
use py_cheat::manager::{CheatSheetManager, CheatError, BASICS_DOC, INTERMEDIATE_DOC, ADVANCED_DOC};
use py_cheat::parse_content;
use py_cheat::render::{format_header, highlight};
use py_cheat::text::dec_string;

#[test]
fn known_sheets_are_found() {
    assert_eq!(get_sheet_content("Basics"), Some(BASICS_DOC));
    assert_eq!(get_sheet_content("Intermediate"), Some(INTERMEDIATE_DOC));
    assert_eq!(get_sheet_content("Advanced"), Some(ADVANCED_DOC));
}

#[test]
fn unknown_sheet_is_not_found() {
    assert_eq!(get_sheet_content("basics"), None);
    assert_eq!(get_sheet_content("Expert"), None);
    assert_eq!(get_sheet_content(""), None);
}

#[test]
fn manager_lookup_matches_free_lookup() {
    let manager = CheatSheetManager::new();
    assert_eq!(manager.get_sheet_content("Basics").map(String::as_str), Some(BASICS_DOC));
    assert_eq!(manager.get_sheet_content("Advanced").map(String::as_str), Some(ADVANCED_DOC));
    assert!(manager.get_sheet_content("Expert").is_none());
}

#[test]
fn unknown_document_error_for_both_requests() {
    let manager = CheatSheetManager::new();
    assert_eq!(
        manager.section_text("Expert", "1").unwrap_err(),
        CheatError::UnknownDocument
    );
    assert_eq!(
        manager.full_sheet_text("Expert").unwrap_err(),
        CheatError::UnknownDocument
    );
}

#[test]
fn section_index_zero_is_out_of_range() {
    let manager = CheatSheetManager::new();
    assert_eq!(
        manager.section_text("Basics", "0").unwrap_err(),
        CheatError::SectionIndexOutOfRange
    );
}

#[test]
fn section_index_past_last_is_out_of_range() {
    let manager = CheatSheetManager::new();
    assert_eq!(
        manager.section_text("Basics", "99").unwrap_err(),
        CheatError::SectionIndexOutOfRange
    );
    assert_eq!(
        manager.section_text("Basics", "99999999999999999999999999").unwrap_err(),
        CheatError::SectionIndexOutOfRange
    );
}

#[test]
fn non_numeric_index_is_invalid() {
    let manager = CheatSheetManager::new();
    assert_eq!(
        manager.section_text("Basics", "abc").unwrap_err(),
        CheatError::InvalidSectionIndex
    );
    assert_eq!(
        manager.section_text("Basics", "").unwrap_err(),
        CheatError::InvalidSectionIndex
    );
    assert_eq!(
        manager.section_text("Basics", "1a").unwrap_err(),
        CheatError::InvalidSectionIndex
    );
}

#[test]
fn section_text_renders_the_addressed_section() {
    let manager = CheatSheetManager::new();
    let sheet = parse_content(BASICS_DOC).unwrap();
    assert!(sheet.sections.len() >= 2);
    let expected = highlight(&sheet.sections[1].content);
    assert_eq!(manager.section_text("Basics", "2").unwrap(), expected);
}

#[test]
fn full_sheet_text_renders_whole_document() {
    let manager = CheatSheetManager::new();
    let expected = highlight(INTERMEDIATE_DOC);
    assert_eq!(manager.full_sheet_text("Intermediate").unwrap(), expected);
}

#[test]
fn listing_text_composes_headers_and_entries() {
    let manager = CheatSheetManager::new();
    let mut expected = String::new();
    for (name, doc) in [
        ("Basics", BASICS_DOC),
        ("Intermediate", INTERMEDIATE_DOC),
        ("Advanced", ADVANCED_DOC),
    ] {
        expected.push('\n');
        expected.push_str(&format_header(name, true));
        expected.push('\n');
        let sheet = parse_content(doc).unwrap();
        let total = sheet.sections.len();
        for (i, sec) in sheet.sections.iter().enumerate() {
            let prefix = if i + 1 == total { "\u{2514}\u{2500}\u{2500} " } else {
                "\u{251c}\u{2500}\u{2500} "
            };
            let mut entry = String::from(prefix);
            entry.push_str(&dec_string((i + 1) as u64));
            entry.push_str(". ");
            entry.push_str(&sec.title);
            expected.push_str(&format_header(&entry, false));
            expected.push('\n');
        }
    }
    assert_eq!(manager.listing_text(), expected);
}

#[test]
fn listing_is_deterministic() {
    let manager = CheatSheetManager::new();
    assert_eq!(manager.listing_text(), manager.listing_text());
}

#[test]
fn error_messages_are_fixed() {
    assert_eq!(CheatError::UnknownDocument.message(), "Could not find sheet");
    assert_eq!(
        CheatError::InvalidSectionIndex.message(),
        "Section number must be a positive integer"
    );
    assert_eq!(CheatError::SectionIndexOutOfRange.message(), "Invalid section number");
}

#[test]
fn manager_format_error_styles_message() {
    let manager = CheatSheetManager::new();
    assert_eq!(
        manager.format_error("Could not find sheet"),
        "\u{1b}[1;31mCould not find sheet\u{1b}[0m"
    );
}

#[test]
fn embedded_documents_parse_into_three_sections_each() {
    for doc in [BASICS_DOC, INTERMEDIATE_DOC, ADVANCED_DOC] {
        let sheet = parse_content(doc).unwrap();
        assert_eq!(sheet.sections.len(), 3);
    }
}

#[test]
fn embedded_documents_round_trip_through_sectioning() {
    // Each embedded document opens with its first section, so concatenating
    // the parsed contents reproduces the whole document.
    for doc in [BASICS_DOC, INTERMEDIATE_DOC, ADVANCED_DOC] {
        let sheet = parse_content(doc).unwrap();
        let mut joined = String::new();
        for sec in &sheet.sections {
            joined.push_str(&sec.content);
        }
        assert_eq!(joined, doc);
    }
}

#[test]
fn selector_with_sign_is_invalid() {
    // The selector grammar is digits only.
    let manager = CheatSheetManager::new();
    assert_eq!(
        manager.section_text("Basics", "+1").unwrap_err(),
        CheatError::InvalidSectionIndex
    );
    assert_eq!(
        manager.section_text("Basics", "-1").unwrap_err(),
        CheatError::InvalidSectionIndex
    );
}

#[test]
fn selector_with_leading_zeros_counts_by_value() {
    let manager = CheatSheetManager::new();
    let plain = manager.section_text("Basics", "2").unwrap();
    let padded = manager.section_text("Basics", "002").unwrap();
    assert_eq!(plain, padded);
}

#[test]
fn dec_string_formats_decimal() {
    assert_eq!(dec_string(0), "0");
    assert_eq!(dec_string(7), "7");
    assert_eq!(dec_string(10), "10");
    assert_eq!(dec_string(345), "345");
    assert_eq!(dec_string(u64::MAX), "18446744073709551615");
}
