use hangman::layout::{draw_box, text_box};

fn rows(out: &str) -> Vec<String> {
    out.split('\x1b').filter(|s| !s.is_empty()).map(|s| s.to_string()).collect()
}

fn body(row: &str) -> String {
    row.splitn(2, 'H').nth(1).unwrap().to_string()
}

#[test]
fn box_around_two_lines() {
    let out = text_box("ab\nc", (40, 12), 5, 2).unwrap();
    let expected = [
        "[9;34H┏━━━━━━━━━━━━┓",
        "[10;34H┃            ┃",
        "[11;34H┃            ┃",
        "[12;34H┃     ab     ┃",
        "[13;34H┃     c      ┃",
        "[14;34H┃            ┃",
        "[15;34H┃            ┃",
        "[16;34H┗━━━━━━━━━━━━┛",
    ];
    assert_eq!(rows(&out), expected.iter().map(|s| s.to_string()).collect::<Vec<_>>());
}

#[test]
fn every_row_has_the_box_width() {
    let out = text_box("hello\nhi\n\nworld!!", (50, 20), 3, 1).unwrap();
    let rs = rows(&out);
    assert_eq!(rs.len(), 4 + 2 * 1 + 2);
    for r in &rs {
        assert_eq!(body(r).chars().count(), 7 + 2 * 3 + 2);
    }
}

#[test]
fn odd_padding_puts_the_extra_space_right() {
    let out = text_box("abc\nab", (20, 10), 1, 0).unwrap();
    let rs = rows(&out);
    assert_eq!(body(&rs[1]), "┃ abc ┃");
    assert_eq!(body(&rs[2]), "┃ ab  ┃");
}

#[test]
fn empty_text_gives_an_empty_line() {
    let out = text_box("", (10, 10), 1, 0).unwrap();
    let bodies: Vec<String> = rows(&out).iter().map(|r| body(r)).collect();
    assert_eq!(bodies, vec!["┏━━┓", "┃  ┃", "┗━━┛"]);
}

#[test]
fn box_that_would_leave_the_screen_is_refused() {
    assert!(text_box("abcdef", (2, 10), 5, 2).is_none());
    assert!(text_box("a", (10, 1), 0, 2).is_none());
    assert!(text_box("a", (10, 65534), 0, 0).is_none());
    assert!(text_box("a", (10, 65533), 0, 0).is_some());
}

#[test]
fn draw_box_moves_to_each_line() {
    assert_eq!(draw_box("a\nbc", (3, 4)).unwrap(), "\x1b[4;3Ha\x1b[5;3Hbc");
    assert_eq!(draw_box("x", (1, 65535)).unwrap(), "\x1b[65535;1Hx");
    assert!(draw_box("x\ny", (1, 65535)).is_none());
}
