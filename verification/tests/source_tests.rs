use jclang::source::{source_excerpt, ExcerptLine};

fn lines(v: &[ExcerptLine]) -> Vec<(u32, String, bool)> {
    v.iter().map(|l| (l.number, l.text.clone(), l.current)).collect()
}

#[test]
fn excerpt_around_a_middle_line() {
    let src = "one\ntwo\nthree\nfour\nfive";
    assert_eq!(
        lines(&source_excerpt(src, 3)),
        vec![
            (2, "two".to_string(), false),
            (3, "three".to_string(), true),
            (4, "four".to_string(), false),
        ]
    );
}

#[test]
fn excerpt_of_the_first_lines() {
    let src = "one\ntwo\nthree\nfour";
    assert_eq!(
        lines(&source_excerpt(src, 1)),
        vec![(1, "one".to_string(), true), (2, "two".to_string(), false)]
    );
    assert_eq!(
        lines(&source_excerpt(src, 2)),
        vec![
            (1, "one".to_string(), false),
            (2, "two".to_string(), true),
            (3, "three".to_string(), false),
        ]
    );
}

#[test]
fn excerpt_of_the_last_line() {
    let src = "one\ntwo\nthree\n";
    assert_eq!(
        lines(&source_excerpt(src, 3)),
        vec![(2, "two".to_string(), false), (3, "three".to_string(), true)]
    );
}

#[test]
fn excerpt_beyond_the_text_is_empty() {
    assert!(source_excerpt("one\ntwo", 9).is_empty());
    assert!(source_excerpt("", 1).is_empty());
}

#[test]
fn excerpt_expands_tabs_and_drops_carriage_returns() {
    let src = "a\r\n\tb\tc\r\nd";
    assert_eq!(
        lines(&source_excerpt(src, 2)),
        vec![
            (1, "a".to_string(), false),
            (2, "   b   c".to_string(), true),
            (3, "d".to_string(), false),
        ]
    );
}

#[test]
fn excerpt_keeps_empty_lines() {
    let src = "a\n\nc";
    assert_eq!(
        lines(&source_excerpt(src, 2)),
        vec![
            (1, "a".to_string(), false),
            (2, "".to_string(), true),
            (3, "c".to_string(), false),
        ]
    );
}

#[test]
fn excerpt_for_line_zero_shows_the_first_line() {
    assert_eq!(lines(&source_excerpt("a\nb", 0)), vec![(1, "a".to_string(), false)]);
}
