use genlint::marker::{classify_marker, leading_run, marker_role, MarkerRole};
use genlint::lint::whole_lines_len;
use genlint::render::{
    diagnostic_annotations, is_severity_name, pos_to_annotation, severity_to_level,
    AnnotationKind, Level,
};
use genlint::rules::check_control_chars;
use genlint::text::{chars_of, same_text, split_into_lines, string_of};
use genlint::types::{ConflictMarkerStyle, Diagnostic, Helper, Severity};
use genlint::util::{
    byte_col_at_visual_width, byte_offset, char_columns, coord_to_pos, display_width,
    find_non_space_col, utf8_len,
};
use unicode_width::UnicodeWidthChar;

#[test]
fn display_width_sums_columns() {
    assert_eq!(display_width(""), 0);
    assert_eq!(display_width("abc"), 3);
    assert_eq!(display_width("a\tb"), 6);
    assert_eq!(display_width("\u{6f22}\u{5b57}"), 4);
    assert_eq!(display_width("e\u{301}"), 1);
    assert_eq!(display_width("\u{1}\u{7f}"), 0);
    assert_eq!(display_width("\u{17d8}"), 3);
}

#[test]
fn every_character_has_its_measured_width() {
    for code in 0..=0x10ffffu32 {
        if let Some(c) = char::from_u32(code) {
            let expected = if c == '\t' { 4 } else { c.width().unwrap_or(0) };
            assert_eq!(char_columns(c), expected);
        }
    }
}

#[test]
fn column_at_width_is_where_the_limit_is_first_exceeded() {
    assert_eq!(byte_col_at_visual_width("abcdef", 3), 3);
    assert_eq!(byte_col_at_visual_width("abcdef", 0), 0);
    assert_eq!(byte_col_at_visual_width("abcdef", 6), 6);
    assert_eq!(byte_col_at_visual_width("abcdef", 100), 6);
    assert_eq!(byte_col_at_visual_width("abc", 10), 3);
    assert_eq!(byte_col_at_visual_width("", 0), 0);
    assert_eq!(byte_col_at_visual_width("", 7), 0);
    assert_eq!(byte_col_at_visual_width("a\tb", 4), 1);
    assert_eq!(byte_col_at_visual_width("a\tb", 5), 2);
}

#[test]
fn column_at_width_counts_characters_not_bytes() {
    assert_eq!(byte_col_at_visual_width("\u{65e5}\u{672c}\u{8a9e}", 2), 1);
    assert_eq!(byte_col_at_visual_width("\u{65e5}\u{672c}\u{8a9e}", 1), 0);
    assert_eq!(byte_col_at_visual_width("\u{65e5}\u{672c}\u{8a9e}", 5), 2);
    assert_eq!(byte_col_at_visual_width("\u{65e5}\u{672c}\u{8a9e}", 6), 3);
    assert_eq!(byte_col_at_visual_width("\u{6f22}\u{5b57}abc", 3), 1);
    assert_eq!(byte_col_at_visual_width("\u{6f22}\u{5b57}abc", 4), 2);
    assert_eq!(byte_col_at_visual_width("\u{e9}\u{e9}\u{e9}", 1), 1);
    assert_eq!(byte_col_at_visual_width("\u{6f22}", 10), 1);
}

#[test]
fn character_offsets_turn_into_byte_offsets() {
    let source = "a\u{e9}\u{6f22}\u{1f600}z";
    assert_eq!(byte_offset(source, 0), 0);
    assert_eq!(byte_offset(source, 1), 1);
    assert_eq!(byte_offset(source, 2), 3);
    assert_eq!(byte_offset(source, 3), 6);
    assert_eq!(byte_offset(source, 4), 10);
    assert_eq!(byte_offset(source, 5), 11);
    assert_eq!(byte_offset(source, 6), 11);
    assert_eq!(byte_offset(source, usize::MAX), 11);
    assert_eq!(byte_offset("", 0), 0);
    for (chars, (bytes, _)) in source.char_indices().enumerate() {
        assert_eq!(byte_offset(source, chars), bytes);
    }
}

#[test]
fn every_character_has_the_length_of_its_encoding() {
    for code in 0..=0x10ffffu32 {
        if let Some(c) = char::from_u32(code) {
            assert_eq!(utf8_len(c), c.len_utf8());
        }
    }
}

#[test]
fn whitespace_is_the_white_space_set() {
    let set = [
        0x09u32, 0x0a, 0x0b, 0x0c, 0x0d, 0x20, 0x85, 0xa0, 0x1680, 0x2000, 0x2001, 0x2002,
        0x2003, 0x2004, 0x2005, 0x2006, 0x2007, 0x2008, 0x2009, 0x200a, 0x2028, 0x2029, 0x202f,
        0x205f, 0x3000,
    ];
    for code in 0..=0x10ffffu32 {
        if let Some(c) = char::from_u32(code) {
            let text = format!("{c}");
            let expected = if set.contains(&code) { None } else { Some(0) };
            assert_eq!(find_non_space_col(&text), expected);
        }
    }
}

#[test]
fn control_codes_are_the_two_ranges() {
    for code in 0..=0x10ffffu32 {
        if let Some(c) = char::from_u32(code) {
            let line: Vec<char> = vec![c, 'x'];
            let reported = (code <= 0x1f || (0x7f..=0x9f).contains(&code)) && c != '\t';
            let found = check_control_chars("f", 0, &line);
            assert_eq!(found.len(), if reported { 1 } else { 0 });
        }
    }
}

#[test]
fn an_input_cut_short_keeps_its_whole_lines() {
    assert_eq!(whole_lines_len(b"ab\ncd\nef", 10), 6);
    assert_eq!(whole_lines_len(b"ab\ncd\nef", 8), 6);
    assert_eq!(whole_lines_len(b"ab\ncd\nef", 6), 6);
    assert_eq!(whole_lines_len(b"ab\ncd\nef", 5), 3);
    assert_eq!(whole_lines_len(b"ab\ncd\nef", 3), 3);
    assert_eq!(whole_lines_len(b"ab\ncd\nef", 2), 0);
    assert_eq!(whole_lines_len(b"ab\ncd\nef", 0), 0);
    assert_eq!(whole_lines_len(b"ab\ncd\n", 100), 6);
    assert_eq!(whole_lines_len(b"abc", 3), 0);
    assert_eq!(whole_lines_len(b"", 0), 0);
    assert_eq!(whole_lines_len(b"\n", 1), 1);
    let bytes = b"ok \nbad \xff line\nlater \n";
    let valid = std::str::from_utf8(bytes).unwrap_err().valid_up_to();
    assert_eq!(valid, 8);
    assert_eq!(whole_lines_len(bytes, valid), 4);
}

#[test]
fn first_non_space_is_a_character_index() {
    assert_eq!(find_non_space_col("  x"), Some(2));
    assert_eq!(find_non_space_col("x"), Some(0));
    assert_eq!(find_non_space_col("   "), None);
    assert_eq!(find_non_space_col(""), None);
    assert_eq!(find_non_space_col("\u{3000}\u{a0}\tx"), Some(3));
    assert_eq!(find_non_space_col(" \u{200b}"), Some(1));
}

#[test]
fn coordinates_resolve_to_offsets_in_the_snippet() {
    let source = "ab\nc\u{e9}d\n\nxyz";
    assert_eq!(coord_to_pos(source, 10, 10, 0), 0);
    assert_eq!(coord_to_pos(source, 10, 10, 1), 1);
    assert_eq!(coord_to_pos(source, 10, 11, 0), 3);
    assert_eq!(coord_to_pos(source, 10, 11, 2), 5);
    assert_eq!(coord_to_pos(source, 10, 12, 0), 7);
    assert_eq!(coord_to_pos(source, 10, 13, 1), 9);
}

#[test]
fn coordinates_outside_the_snippet_are_clamped() {
    let source = "ab\nc\u{e9}d\n\nxyz";
    assert_eq!(coord_to_pos(source, 10, 14, 0), 10);
    assert_eq!(coord_to_pos(source, 10, 9, 0), 10);
    assert_eq!(coord_to_pos(source, 10, 0, 5), 10);
    assert_eq!(coord_to_pos("", 0, 1, 0), 0);
    assert_eq!(coord_to_pos("", 3, 3, 7), 7);
    assert_eq!(coord_to_pos("a\nb", 0, 1, usize::MAX), usize::MAX);
    assert_eq!(coord_to_pos("a\nb", usize::MAX, 0, 0), 2);
}

#[test]
fn strings_and_characters_convert_both_ways() {
    let chars = chars_of("h\u{e9}\u{6f22}\n");
    assert_eq!(chars, ['h', '\u{e9}', '\u{6f22}', '\n']);
    assert_eq!(string_of(&chars), "h\u{e9}\u{6f22}\n");
    assert!(same_text("abc", "abc"));
    assert!(!same_text("abc", "abd"));
    assert!(!same_text("abc", "ab"));
    assert!(same_text("", ""));
}

#[test]
fn lines_keep_their_line_feeds() {
    let text: Vec<char> = "a\n\nbc\r\nd".chars().collect();
    let lines: Vec<String> = split_into_lines(&text).iter().map(|l| string_of(l)).collect();
    assert_eq!(lines, ["a\n", "\n", "bc\r\n", "d"]);
    assert!(split_into_lines(&[]).is_empty());
    let text: Vec<char> = "\n".chars().collect();
    assert_eq!(split_into_lines(&text), [vec!['\n']]);
}

#[test]
fn marker_roles_follow_the_first_character() {
    assert_eq!(marker_role('<'), Some(MarkerRole::Start));
    assert_eq!(marker_role('|'), Some(MarkerRole::Diff3Base));
    assert_eq!(marker_role('%'), Some(MarkerRole::JjBase));
    assert_eq!(marker_role('='), Some(MarkerRole::Separator));
    assert_eq!(marker_role('+'), Some(MarkerRole::JjSideA));
    assert_eq!(marker_role('-'), Some(MarkerRole::JjSnapshot));
    assert_eq!(marker_role('\\'), Some(MarkerRole::JjSideB));
    assert_eq!(marker_role('>'), Some(MarkerRole::End));
    assert_eq!(marker_role('#'), None);
    assert_eq!(marker_role(' '), None);
}

#[test]
fn a_marker_needs_seven_repeated_characters() {
    let line: Vec<char> = "<<<<<< HEAD".chars().collect();
    assert_eq!(leading_run(&line), 6);
    assert!(classify_marker(&line, ConflictMarkerStyle::Git).is_none());
    let line: Vec<char> = "<<<<<<<< HEAD".chars().collect();
    assert_eq!(leading_run(&line), 8);
    let marker = classify_marker(&line, ConflictMarkerStyle::Git).unwrap();
    assert_eq!(marker.role, MarkerRole::Start);
    assert_eq!(marker.label, " HEAD");
    assert_eq!(marker.message, "Git conflict marker: <<<<<<<< HEAD");
    let line: Vec<char> = " <<<<<<<".chars().collect();
    assert!(classify_marker(&line, ConflictMarkerStyle::Git).is_none());
    assert!(classify_marker(&[], ConflictMarkerStyle::Git).is_none());
    assert_eq!(leading_run(&[]), 0);
}

#[test]
fn a_stray_separator_line_is_a_marker() {
    let line: Vec<char> = "=======".chars().collect();
    let marker = classify_marker(&line, ConflictMarkerStyle::Git).unwrap();
    assert_eq!(marker.role, MarkerRole::Separator);
    assert_eq!(marker.label, "");
    assert_eq!(marker.message, "Git conflict marker: =======");
    assert!(classify_marker(&line, ConflictMarkerStyle::Jj).is_none());
    assert!(classify_marker(&line, ConflictMarkerStyle::JjSnapshot).is_none());
    let marker = classify_marker(&line, ConflictMarkerStyle::JjDiff3).unwrap();
    assert_eq!(marker.message, "Jujutsu diff3 conflict marker: =======");
}

#[test]
fn severity_names_map_to_levels() {
    assert_eq!(severity_to_level("error"), Level::Error);
    assert_eq!(severity_to_level("warning"), Level::Warning);
    assert_eq!(severity_to_level("information"), Level::Info);
    assert_eq!(severity_to_level("hint"), Level::Note);
    assert_eq!(severity_to_level("help"), Level::Help);
    for severity in [Severity::Error, Severity::Warning, Severity::Information] {
        assert!(is_severity_name(severity.as_str()));
        assert_eq!(severity_to_level(severity.as_str()), severity.level());
    }
    assert_eq!(Severity::Information.as_str(), "information");
}

#[test]
fn only_five_severity_names_are_known() {
    for name in ["error", "warning", "information", "hint", "help"] {
        assert!(is_severity_name(name));
    }
    for name in ["", "fatal", "Error", "info", "errors", "hel", "hint "] {
        assert!(!is_severity_name(name));
    }
}

#[test]
fn an_annotation_ends_after_its_last_character() {
    let a = pos_to_annotation(3, 7, Some("here"), AnnotationKind::Context);
    assert_eq!((a.start, a.end), (3, 8));
    assert_eq!(a.label.as_deref(), Some("here"));
    assert_eq!(a.kind, AnnotationKind::Context);
    let a = pos_to_annotation(0, usize::MAX, None, AnnotationKind::Primary);
    assert_eq!((a.start, a.end), (0, usize::MAX));
    assert!(a.label.is_none());
}

#[test]
fn a_diagnostic_gives_one_span_and_one_per_helper() {
    let d = Diagnostic {
        file: "f".to_string(),
        lnum: 4,
        end_lnum: 5,
        col: 0,
        end_col: 0,
        severity: Severity::Information,
        source: "ab\n\n\ncd\n".to_string(),
        source_lnum: 3,
        code: "consecutive-blank".to_string(),
        message: "Too many consecutive blank lines (2/1)".to_string(),
        helpers: Some(vec![
            Helper {
                message: "Previous non-blank line".to_string(),
                lnum: 3,
                end_lnum: 3,
                col: 0,
                end_col: 1,
            },
            Helper {
                message: "Next non-blank line".to_string(),
                lnum: 6,
                end_lnum: 6,
                col: 0,
                end_col: 1,
            },
        ]),
    };
    let spans = diagnostic_annotations(&d);
    assert_eq!(spans.len(), 3);
    assert_eq!((spans[0].start, spans[0].end), (3, 5));
    assert_eq!(spans[0].kind, AnnotationKind::Primary);
    assert!(spans[0].label.is_none());
    assert_eq!((spans[1].start, spans[1].end), (0, 2));
    assert_eq!(spans[1].label.as_deref(), Some("Previous non-blank line"));
    assert_eq!(spans[1].kind, AnnotationKind::Context);
    assert_eq!((spans[2].start, spans[2].end), (5, 7));
    assert_eq!(spans[2].label.as_deref(), Some("Next non-blank line"));

    let plain = Diagnostic { helpers: None, ..d };
    assert_eq!(diagnostic_annotations(&plain).len(), 1);
}
