use icemodoro::text::trim;

#[test]
fn trim_removes_white_space_at_both_ends() {
    assert_eq!(trim("  read the paper \n"), "read the paper");
    assert_eq!(trim("\t\ttabs"), "tabs");
    assert_eq!(trim("tail   "), "tail");
    assert_eq!(trim("a"), "a");
    assert_eq!(trim(" a b  c "), "a b  c");
}

#[test]
fn trim_of_nothing_but_white_space_is_empty() {
    assert_eq!(trim(""), "");
    assert_eq!(trim(" "), "");
    assert_eq!(trim("   "), "");
    assert_eq!(trim(" \t\r\n\u{b}\u{c}"), "");
    assert_eq!(trim("\u{a0}\u{3000}\u{2028}\u{85}"), "");
}

#[test]
fn trim_keeps_what_is_not_white_space() {
    assert_eq!(trim("\u{200b}"), "\u{200b}");
    assert_eq!(trim(" \u{200b} "), "\u{200b}");
    assert_eq!(trim("é"), "é");
    assert_eq!(trim("\u{3000}日本語 テキスト\u{a0}"), "日本語 テキスト");
}

#[test]
fn trim_agrees_with_the_standard_library() {
    let pieces = [
        "", " ", "\t", "\n", "a", "xyz", "é", "\u{a0}", "\u{1680}", "\u{2003}", "\u{202f}", "\u{205f}",
        "\u{3000}", "\u{200b}", "\u{feff}", "\u{180e}", "\u{85}", "\u{1f}", "\u{1c}", "😀",
    ];
    for first in pieces {
        for second in pieces {
            for third in pieces {
                let text = format!("{first}{second}{third}");
                assert_eq!(trim(&text), text.trim(), "for {text:?}");
            }
        }
    }
}
