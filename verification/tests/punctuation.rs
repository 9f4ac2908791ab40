use translate::{split_last_char, split_punctuation};

#[test]
fn test_split_punctuation() {
    let (w, p) = split_punctuation("foo");
    assert_eq!(w, "foo");
    assert_eq!(p, "");

    let (w, p) = split_punctuation("foo,");
    assert_eq!(w, "foo");
    assert_eq!(p, ",");

    let (w, p) = split_punctuation("");
    assert_eq!(w, "");
    assert_eq!(p, "");
}

#[test]
fn split_punctuation_strips_one_character_only() {
    assert_eq!(split_punctuation("word..."), ("word..", "."));
    assert_eq!(split_punctuation("wait?!"), ("wait?", "!"));
    assert_eq!(split_punctuation("."), ("", "."));
    assert_eq!(split_punctuation(".."), (".", "."));
}

#[test]
fn split_punctuation_leaves_the_front_and_the_middle() {
    assert_eq!(split_punctuation("(foo"), ("(foo", ""));
    assert_eq!(split_punctuation("don't"), ("don't", ""));
    assert_eq!(split_punctuation("\"foo\""), ("\"foo", "\""));
}

#[test]
fn split_punctuation_keeps_letters_and_digits() {
    assert_eq!(split_punctuation("a"), ("a", ""));
    assert_eq!(split_punctuation("R2D2"), ("R2D2", ""));
    assert_eq!(split_punctuation("caf\u{e9}"), ("caf\u{e9}", ""));
    assert_eq!(split_punctuation("\u{4e2d}\u{6587}"), ("\u{4e2d}\u{6587}", ""));
}

#[test]
fn split_punctuation_strips_a_character_of_several_bytes() {
    assert_eq!(split_punctuation("foo\u{2026}"), ("foo", "\u{2026}"));
    assert_eq!(split_punctuation("caf\u{e9}\u{3002}"), ("caf\u{e9}", "\u{3002}"));
    assert_eq!(split_punctuation("\u{2026}"), ("", "\u{2026}"));
}

#[test]
fn split_punctuation_takes_whitespace_for_punctuation() {
    assert_eq!(split_punctuation("foo\t"), ("foo", "\t"));
    assert_eq!(split_punctuation("foo\n"), ("foo", "\n"));
}

#[test]
fn split_last_char_parts_before_any_last_character() {
    assert_eq!(split_last_char("foo"), ("fo", "o"));
    assert_eq!(split_last_char("foo,"), ("foo", ","));
    assert_eq!(split_last_char("x"), ("", "x"));
    assert_eq!(split_last_char(""), ("", ""));
    assert_eq!(split_last_char("na\u{ef}ve\u{e9}"), ("na\u{ef}ve", "\u{e9}"));
}

#[test]
fn parts_make_the_word() {
    for word in ["foo", "foo,", "", ".", "a.b.", "x!?", "caf\u{e9}\u{2026}"] {
        let (core, trailing) = split_punctuation(word);
        assert_eq!(format!("{}{}", core, trailing), word);
        assert!(trailing.chars().count() <= 1);
    }
}
