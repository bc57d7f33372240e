use bo_lang::bo_error::BoError;
use bo_lang::scanner::Scanner;

#[test]
fn render_on_first_line() {
    let err = BoError {
        message: "Oops".to_string(),
        char_idx: 2,
    };
    let r = err.render("abcd");
    assert_eq!(r.line_number, 1);
    assert_eq!(r.message, "Oops");
    assert_eq!(r.line, "abcd");
    assert_eq!(r.caret, "--^-");
}

#[test]
fn render_on_second_line() {
    let err = BoError {
        message: "Oops".to_string(),
        char_idx: 3,
    };
    let r = err.render("ab\ncd");
    assert_eq!(r.line_number, 2);
    assert_eq!(r.line, "cd");
    assert_eq!(r.caret, "^-");
}

#[test]
fn render_at_end_of_input() {
    let err = BoError {
        message: "Oops".to_string(),
        char_idx: 2,
    };
    let r = err.render("ab");
    assert_eq!(r.line_number, 1);
    assert_eq!(r.line, "ab");
    assert_eq!(r.caret, "--^");
}

#[test]
fn render_at_line_feed() {
    let err = BoError {
        message: "Oops".to_string(),
        char_idx: 1,
    };
    let r = err.render("a\nb");
    assert_eq!(r.line_number, 1);
    assert_eq!(r.line, "a");
    assert_eq!(r.caret, "-^");
}

#[test]
fn render_position_past_the_end_is_clamped() {
    let err = BoError {
        message: "Oops".to_string(),
        char_idx: 99,
    };
    let r = err.render("ab");
    assert_eq!(r.line_number, 1);
    assert_eq!(r.line, "ab");
    assert_eq!(r.caret, "--^");
}

#[test]
fn render_scan_error_against_its_source() {
    let src = "let x = $;";
    let e = Scanner::scan(src).unwrap_err();
    assert_eq!(e.message, "Unexpected character");
    assert_eq!(e.char_idx, 8);
    let r = e.render(src);
    assert_eq!(r.line_number, 1);
    assert_eq!(r.line, "let x = $;");
    assert_eq!(r.caret, "--------^-");
}

#[test]
fn render_error_on_later_line() {
    let src = "let a = 1;\nlet b = ?;\nlet c = 3;";
    let e = Scanner::scan(src).unwrap_err();
    assert_eq!(e.message, "Unexpected character");
    assert_eq!(e.char_idx, 19);
    let r = e.render(src);
    assert_eq!(r.line_number, 2);
    assert_eq!(r.line, "let b = ?;");
    assert_eq!(r.caret, "--------^-");
}
