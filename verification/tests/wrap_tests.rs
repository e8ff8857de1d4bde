use rxtui::style::TextWrap;
use rxtui::wrap::wrap_text;

fn wrapped(text: &str, width: u16, mode: TextWrap) -> Vec<String> {
    wrap_text(text, width, mode)
}

#[test]
fn word_break_fills_lines_and_breaks_long_words() {
    assert_eq!(wrapped("hello world", 5, TextWrap::WordBreak), vec!["hello", "world"]);
    assert_eq!(wrapped("abcdefgh ij", 3, TextWrap::WordBreak), vec!["abc", "def", "gh", "ij"]);
    assert_eq!(wrapped("a bb c", 4, TextWrap::WordBreak), vec!["a bb", "c"]);
}

#[test]
fn word_wrap_keeps_long_words_whole() {
    assert_eq!(wrapped("hello world", 8, TextWrap::Word), vec!["hello", "world"]);
    assert_eq!(wrapped("abcdefgh ij", 3, TextWrap::Word), vec!["abcdefgh", "ij"]);
    assert_eq!(wrapped("a  b", 10, TextWrap::Word), vec!["a b"]);
}

#[test]
fn character_wrap_cuts_anywhere() {
    assert_eq!(wrapped("abcdefgh", 3, TextWrap::Character), vec!["abc", "def", "gh"]);
    assert_eq!(wrapped("\u{65e5}\u{672c}\u{8a9e}", 4, TextWrap::Character), vec!["\u{65e5}\u{672c}", "\u{8a9e}"]);
    assert_eq!(wrapped("\u{65e5}a", 1, TextWrap::Character), vec!["\u{65e5}", "a"]);
}

#[test]
fn line_breaks_end_lines_and_empty_text_is_one_line() {
    assert_eq!(wrapped("a\nb", 10, TextWrap::Word), vec!["a", "b"]);
    assert_eq!(wrapped("a\n\nb", 10, TextWrap::Character), vec!["a", "", "b"]);
    assert_eq!(wrapped("", 5, TextWrap::WordBreak), vec![""]);
    assert_eq!(wrapped("no wrap here", 3, TextWrap::NoWrap), vec!["no wrap here"]);
}

#[test]
fn wrapped_lines_fit_the_width() {
    let text = "The quick brown fox jumps over the extraordinarily lazy dog";
    for width in 1..20u16 {
        for mode in [TextWrap::Character, TextWrap::WordBreak] {
            for line in wrapped(text, width, mode) {
                assert!(line.chars().count() <= width as usize, "{:?} {} {:?}", mode, width, line);
            }
        }
    }
}
