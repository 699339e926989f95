use staccato::line_ranges;

fn pieces(text: &str) -> Vec<&str> {
    line_ranges(text.as_bytes()).into_iter().map(|(a, b)| &text[a..b]).collect()
}

#[test]
fn lines_of_empty_text() {
    assert!(line_ranges(b"").is_empty());
}

#[test]
fn lines_without_final_newline() {
    assert_eq!(vec![(0, 3), (4, 7)], line_ranges(b"9.8\n4.5"));
}

#[test]
fn lines_with_final_newline_and_blank_line() {
    assert_eq!(vec!["asdf", "4.5", "", "xyz"], pieces("asdf\n4.5\n\nxyz\n"));
}

#[test]
fn lines_agree_with_std_on_plain_text() {
    for text in ["", "\n", "a", "a\n", "a\nb", "\n\nb\n", "9.8\n4.5\n5.6\n", "é\nü\n"] {
        let ours = pieces(text);
        let theirs: Vec<&str> = text.lines().collect();
        assert_eq!(theirs, ours, "input {:?}", text);
    }
}
