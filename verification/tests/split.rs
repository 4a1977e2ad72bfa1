use libtz::token::split_args;

#[test]
fn text_without_delimiter_is_one_token() {
    assert_eq!(split_args("hello"), vec!["hello"]);
    assert_eq!(split_args("{hello}"), vec!["{hello}"]);
    assert_eq!(split_args(" {"), vec![" {"]);
    assert_eq!(split_args("{ "), vec!["{ "]);
    assert_eq!(split_args("a {b"), vec!["a {b"]);
    assert_eq!(split_args("a{ b"), vec!["a{ b"]);
}

#[test]
fn empty_text_is_one_empty_token() {
    assert_eq!(split_args(""), vec![""]);
}

#[test]
fn short_texts_hold_no_delimiter() {
    assert_eq!(split_args(" "), vec![" "]);
    assert_eq!(split_args(" {"), vec![" {"]);
    assert_eq!(split_args("{ "), vec!["{ "]);
}

#[test]
fn delimiter_alone_gives_two_empty_tokens() {
    assert_eq!(split_args(" { "), vec!["", ""]);
}

#[test]
fn delimiter_at_either_end_gives_an_empty_token() {
    assert_eq!(split_args(" { a"), vec!["", "a"]);
    assert_eq!(split_args("a { "), vec!["a", ""]);
    assert_eq!(split_args(" { a { "), vec!["", "a", ""]);
}

#[test]
fn delimiters_in_a_row_give_empty_tokens() {
    assert_eq!(split_args("a {  { b"), vec!["a", "", "b"]);
    assert_eq!(split_args(" {  {  { "), vec!["", "", "", ""]);
}

#[test]
fn delimiters_that_share_a_space_are_found_from_the_left() {
    assert_eq!(split_args(" { { "), vec!["", "{ "]);
    assert_eq!(split_args("a { { b"), vec!["a", "{ b"]);
    assert_eq!(split_args("a { { { b"), vec!["a", "{", "b"]);
}

#[test]
fn tokens_keep_their_spaces_and_braces() {
    assert_eq!(split_args("  a  {  b  "), vec!["  a ", " b  "]);
    assert_eq!(split_args("a } { b }"), vec!["a }", "b }"]);
    assert_eq!(split_args("{ a { b {"), vec!["{ a", "b {"]);
}

#[test]
fn tokens_may_hold_any_unicode_text() {
    assert_eq!(split_args("héllo { wörld"), vec!["héllo", "wörld"]);
    assert_eq!(split_args("日本 { 語 { 😀"), vec!["日本", "語", "😀"]);
    assert_eq!(split_args("é { "), vec!["é", ""]);
    assert_eq!(split_args(" { é"), vec!["", "é"]);
}

#[test]
fn other_spaces_and_braces_do_not_delimit() {
    // NO-BREAK SPACE and FULLWIDTH LEFT CURLY BRACKET
    assert_eq!(split_args("a\u{a0}{\u{a0}b"), vec!["a\u{a0}{\u{a0}b"]);
    assert_eq!(split_args("a \u{ff5b} b"), vec!["a \u{ff5b} b"]);
    assert_eq!(split_args("a\t{\tb"), vec!["a\t{\tb"]);
}

#[test]
fn many_arguments_come_out_in_order() {
    let parts: Vec<String> = (0..200).map(|i| format!("arg{}", i)).collect();
    let frame = parts.join(" { ");
    let args = split_args(frame.as_str());
    assert_eq!(args.len(), 200);
    for (i, arg) in args.iter().enumerate() {
        assert_eq!(*arg, parts[i].as_str());
    }
}

#[test]
fn joining_the_tokens_gives_the_text_back() {
    let texts = ["", "a", " { ", "a { b", " { { ", "x {  { y { ", "日本 { 語", "{ { { {", "   "];
    for text in texts {
        assert_eq!(split_args(text).join(" { "), text);
    }
}

#[test]
fn no_token_holds_the_delimiter() {
    let texts = [" { { ", " {  { { ", "a { { { b", "  {  {  {  ", " { { { { { "];
    for text in texts {
        for token in split_args(text) {
            assert!(!token.contains(" { "));
        }
    }
}

#[test]
fn agrees_with_the_standard_split() {
    let alphabet = [" ", "{", "a", "é", "}"];
    let mut texts: Vec<String> = vec![String::new()];
    let mut start = 0;
    for _ in 0..6 {
        let end = texts.len();
        for i in start..end {
            for piece in alphabet {
                let longer = format!("{}{}", texts[i], piece);
                texts.push(longer);
            }
        }
        start = end;
    }
    assert_eq!(texts.len(), 19531);
    for text in &texts {
        let expected: Vec<&str> = text.split(" { ").collect();
        assert_eq!(split_args(text.as_str()), expected);
    }
}

#[test]
fn tokens_borrow_from_the_text() {
    let text = String::from("0 { foo { bar");
    let args = split_args(text.as_str());
    let range = text.as_bytes().as_ptr_range();
    for arg in args {
        let inner = arg.as_bytes().as_ptr_range();
        assert!(range.start <= inner.start && inner.end <= range.end);
    }
}
