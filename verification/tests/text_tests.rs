use handwriter_service::text::{accomodate_list_to_character_limit, try_accomodate_list_to_character_limit, LINE_LIMIT};

fn strs(v: &[&str]) -> Vec<String> {
    v.iter().map(|s| s.to_string()).collect()
}

#[test]
fn short_lines_are_kept() {
    assert_eq!(accomodate_list_to_character_limit("hello\nworld"), strs(&["hello", "world"]));
}

#[test]
fn empty_text_has_no_lines() {
    assert_eq!(accomodate_list_to_character_limit(""), Vec::<String>::new());
}

#[test]
fn final_line_end_adds_no_line() {
    assert_eq!(accomodate_list_to_character_limit("x\n"), strs(&["x"]));
    assert_eq!(accomodate_list_to_character_limit("\n\n"), strs(&["", ""]));
}

#[test]
fn carriage_return_dropped_only_before_newline() {
    assert_eq!(accomodate_list_to_character_limit("a\r\nb\r"), strs(&["a", "b\r"]));
}

#[test]
fn line_of_exactly_the_limit_is_kept() {
    let line = "a".repeat(70);
    assert_eq!(accomodate_list_to_character_limit(&line), vec![line.clone()]);
}

#[test]
fn long_line_without_space_is_cut_at_limit() {
    let line = "a".repeat(80);
    assert_eq!(accomodate_list_to_character_limit(&line), vec!["a".repeat(70), "a".repeat(10)]);
}

#[test]
fn long_line_is_cut_after_last_space() {
    let line = format!("aaaaaaaaa {}", "b".repeat(65));
    assert_eq!(
        accomodate_list_to_character_limit(&line),
        vec!["aaaaaaaaa ".to_string(), "b".repeat(65)]
    );
}

#[test]
fn words_are_kept_together() {
    let line = "word ".repeat(15);
    assert_eq!(
        accomodate_list_to_character_limit(&line),
        vec!["word ".repeat(14), "word ".to_string()]
    );
}

#[test]
fn remainder_of_exactly_the_limit_leaves_an_empty_piece() {
    let line = "a".repeat(140);
    assert_eq!(
        accomodate_list_to_character_limit(&line),
        vec!["a".repeat(70), "a".repeat(70), String::new()]
    );
}

#[test]
fn multibyte_text_cut_on_a_boundary() {
    let line = "é".repeat(40);
    assert_eq!(
        accomodate_list_to_character_limit(&line),
        vec!["é".repeat(35), "é".repeat(5)]
    );
}

#[test]
fn cut_inside_a_character_is_refused() {
    let line = format!("a{}", "é".repeat(40));
    assert_eq!(try_accomodate_list_to_character_limit(&line), None);
}

#[test]
fn checked_form_agrees_on_safe_text() {
    let text = format!("first\n{}\nlast", "x ".repeat(50));
    assert_eq!(
        try_accomodate_list_to_character_limit(&text),
        Some(accomodate_list_to_character_limit(&text))
    );
}

#[test]
fn every_piece_within_limit_and_text_kept() {
    let text = format!("{}\r\n{}\nshort", "lorem ipsum dolor sit amet ".repeat(9), "z".repeat(150));
    let pieces = accomodate_list_to_character_limit(&text);
    for p in &pieces {
        assert!(p.len() <= LINE_LIMIT);
        assert!(!p.contains('\n'));
    }
    let joined: String = pieces.concat();
    let lines: String = text.lines().collect::<Vec<_>>().concat();
    assert_eq!(joined, lines);
}

#[test]
fn lines_are_cut_each_on_their_own() {
    let a = format!("{}\nsecond", "q ".repeat(40));
    let b = "w".repeat(90);
    let joined = accomodate_list_to_character_limit(&format!("{}\n{}", a, b));
    let mut parts = accomodate_list_to_character_limit(&a);
    parts.extend(accomodate_list_to_character_limit(&b));
    assert_eq!(joined, parts);
}
