use ocode::input::InputBuffer;

fn typed(s: &str) -> InputBuffer {
    let mut b = InputBuffer::new();
    for c in s.chars() {
        if c == '\n' {
            b.insert_newline();
        } else {
            b.insert_char(c);
        }
    }
    b
}

#[test]
fn new_buffer_is_empty() {
    let b = InputBuffer::new();
    assert!(b.is_empty());
    assert_eq!(b.text(), "");
    assert_eq!(b.line_count(), 1);
    assert_eq!((b.row, b.col), (0, 0));
    assert!(b.cursor_on_boundary());
}

#[test]
fn typing_gives_the_text() {
    let b = typed("fn main() {\n    ok\n}");
    assert_eq!(b.text(), "fn main() {\n    ok\n}");
    assert_eq!(b.line_count(), 3);
    assert_eq!((b.row, b.col), (2, 1));
    assert!(!b.is_empty());
}

#[test]
fn multibyte_column_is_in_bytes() {
    let b = typed("héllo");
    assert_eq!(b.col, 6);
    let mut c = typed("é");
    c.move_left();
    assert_eq!(c.col, 0);
    c.move_right();
    assert_eq!(c.col, 2);
}

#[test]
fn backspace_undoes_a_character() {
    let mut b = typed("ab\ncd");
    b.move_left();
    let before = b.text();
    let (row, col) = (b.row, b.col);
    b.insert_char('ü');
    assert_eq!(b.text(), "ab\ncüd");
    b.backspace();
    assert_eq!(b.text(), before);
    assert_eq!((b.row, b.col), (row, col));
}

#[test]
fn backspace_joins_rows() {
    let mut b = typed("ab\ncd");
    b.move_home();
    b.backspace();
    assert_eq!(b.text(), "abcd");
    assert_eq!((b.row, b.col), (0, 2));
    b.move_home();
    b.backspace();
    assert_eq!(b.text(), "abcd");
    assert_eq!((b.row, b.col), (0, 0));
}

#[test]
fn delete_forward_removes_and_joins() {
    let mut b = typed("ab\ncd");
    b.move_up();
    b.move_home();
    b.delete_forward();
    assert_eq!(b.text(), "b\ncd");
    b.move_end();
    b.delete_forward();
    assert_eq!(b.text(), "bcd");
    b.move_end();
    b.delete_forward();
    assert_eq!(b.text(), "bcd");
}

#[test]
fn left_then_right_comes_back() {
    let mut b = typed("x\nyz");
    let start = (b.row, b.col);
    b.move_left();
    b.move_right();
    assert_eq!((b.row, b.col), start);
    b.move_home();
    b.move_left();
    assert_eq!((b.row, b.col), (0, 1));
    b.move_right();
    assert_eq!((b.row, b.col), (1, 0));
}

#[test]
fn up_and_down_clamp_the_column() {
    let mut b = typed("a\nlonger");
    assert_eq!(b.col, 6);
    b.move_up();
    assert_eq!((b.row, b.col), (0, 1));
    b.move_up();
    assert_eq!((b.row, b.col), (0, 1));
    b.move_down();
    assert_eq!((b.row, b.col), (1, 1));
    b.move_down();
    assert_eq!((b.row, b.col), (1, 1));
}

#[test]
fn newline_splits_at_cursor() {
    let mut b = typed("abcd");
    b.move_left();
    b.move_left();
    b.insert_newline();
    assert_eq!(b.lines, vec!["ab".to_string(), "cd".to_string()]);
    assert_eq!((b.row, b.col), (1, 0));
}

#[test]
fn clear_resets() {
    let mut b = typed("some\ntext");
    b.clear();
    assert!(b.is_empty());
    assert_eq!(b.line_count(), 1);
    assert_eq!((b.row, b.col), (0, 0));
}

#[test]
fn cursor_inside_a_character_is_reported() {
    let mut b = typed("é\nab");
    b.move_up();
    assert_eq!(b.col, 2);
    assert!(b.cursor_on_boundary());
    let mut c = typed("éé\nx");
    c.row = 0;
    c.col = 1;
    assert!(!c.cursor_on_boundary());
}

#[test]
fn vertical_moves_land_between_characters() {
    let mut b = typed("é\nab");
    b.move_left();
    assert_eq!((b.row, b.col), (1, 1));
    b.move_up();
    assert_eq!((b.row, b.col), (0, 0));
    assert!(b.cursor_on_boundary());
    let mut c = typed("ab\néé");
    c.move_home();
    c.move_up();
    c.move_right();
    assert_eq!((c.row, c.col), (0, 1));
    c.move_down();
    assert_eq!((c.row, c.col), (1, 0));
    assert!(c.cursor_on_boundary());
    c.move_up();
    c.move_end();
    c.move_down();
    assert_eq!((c.row, c.col), (1, 2));
    c.insert_char('x');
    assert_eq!(c.lines, vec!["ab".to_string(), "éxé".to_string()]);
}

#[test]
fn delete_after_left_is_backspace() {
    for (text, ups) in [("ab\ncé", 0), ("ab\ncd", 1)] {
        let mut a = typed(text);
        let mut b = typed(text);
        for _ in 0..ups {
            a.move_up();
            b.move_up();
        }
        a.move_left();
        a.delete_forward();
        b.backspace();
        assert_eq!((a.lines.clone(), a.row, a.col), (b.lines.clone(), b.row, b.col));
    }
    let mut a = typed("ab\ncd");
    let mut b = typed("ab\ncd");
    a.move_home();
    b.move_home();
    a.move_left();
    a.delete_forward();
    b.backspace();
    assert_eq!((a.lines.clone(), a.row, a.col), (b.lines.clone(), b.row, b.col));
}

#[test]
fn left_undoes_right() {
    let mut b = typed("xé\nz");
    b.move_up();
    b.move_home();
    for _ in 0..3 {
        let before = (b.row, b.col);
        b.move_right();
        b.move_left();
        assert_eq!((b.row, b.col), before);
        b.move_right();
    }
}

#[test]
fn empty_means_only_newlines() {
    let b = typed("\n\n");
    assert!(b.is_empty());
    assert!(b.text().chars().all(|c| c == '\n'));
    let c = typed("\na");
    assert!(!c.is_empty());
    assert!(!c.text().chars().all(|c| c == '\n'));
}
