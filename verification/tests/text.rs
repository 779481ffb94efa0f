use lib::compiler::text::{lines_of, push_decimal, split_newlines, trim_string};

#[test]
fn decimal_numerals() {
    let mut s = String::from("#");
    push_decimal(&mut s, 0);
    push_decimal(&mut s, -42);
    push_decimal(&mut s, 1234567890);
    push_decimal(&mut s, i128::MIN);
    assert_eq!(s, format!("#0-421234567890{}", i128::MIN));
}

#[test]
fn split_keeps_every_piece() {
    assert_eq!(split_newlines("a\nb\n"), vec!["a", "b", ""]);
    assert_eq!(split_newlines(""), vec![""]);
    // Joining the pieces gives the text back.
    let text = "x\n\ny\r\nz";
    assert_eq!(split_newlines(text).join("\n"), text);
}

#[test]
fn lines_like_str_lines() {
    for text in ["a\r\nb\n", "", "\n", "one", "\nx\n\ny", "a\rb\n"] {
        let expected: Vec<&str> = text.lines().collect();
        assert_eq!(lines_of(text), expected);
    }
}

#[test]
fn trimming() {
    assert_eq!(trim_string("  x y \n\t"), "x y");
    assert_eq!(trim_string("\u{3000}z\u{a0}"), "z");
    assert_eq!(trim_string(" \n "), "");
    for text in ["\n.global\n", "a", " b", "c\t"] {
        assert_eq!(trim_string(text), text.trim());
    }
}
