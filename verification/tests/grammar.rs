use clap_subopt_parser::grammar::{split_tokens, Token, KEY_VALUE_DELIMITER, TOKEN_DELIMITER};

#[test]
fn delimiters_are_colon_and_equals() {
    assert_eq!(TOKEN_DELIMITER, ':');
    assert_eq!(KEY_VALUE_DELIMITER, '=');
}

#[test]
fn split_two_pairs() {
    assert_eq!(split_tokens("source=0:offset=1000"), vec!["source=0", "offset=1000"]);
}

#[test]
fn split_without_delimiter_is_one_token() {
    assert_eq!(split_tokens("abc"), vec!["abc"]);
}

#[test]
fn split_empty_input_is_one_empty_token() {
    assert_eq!(split_tokens(""), vec![""]);
}

#[test]
fn split_keeps_empty_token_between_delimiters() {
    assert_eq!(split_tokens("source=1::offset=2"), vec!["source=1", "", "offset=2"]);
}

#[test]
fn split_keeps_empty_tokens_at_both_ends() {
    assert_eq!(split_tokens(":a:"), vec!["", "a", ""]);
    assert_eq!(split_tokens(":"), vec!["", ""]);
    assert_eq!(split_tokens(":::"), vec!["", "", "", ""]);
}

#[test]
fn split_leaves_other_text_alone() {
    assert_eq!(
        split_tokens("a b=c,d;e:\tf=\"g\":h\\:i"),
        vec!["a b=c,d;e", "\tf=\"g\"", "h\\", "i"]
    );
}

#[test]
fn split_text_beyond_ascii() {
    assert_eq!(
        split_tokens("ключ=значение:日本語:é=ü:𝄞"),
        vec!["ключ=значение", "日本語", "é=ü", "𝄞"]
    );
    assert_eq!(split_tokens("ä:"), vec!["ä", ""]);
    assert_eq!(split_tokens(":ä"), vec!["", "ä"]);
    // U+FF1A and U+A789 look like a colon and are none
    assert_eq!(split_tokens("a：b꞉c"), vec!["a：b꞉c"]);
}

#[test]
fn split_agrees_with_std_split() {
    let inputs = [
        "",
        ":",
        "::",
        "a",
        "a:b",
        "a::b",
        ":a",
        "a:",
        "source=0:offset=1000",
        "k=v=w:x",
        "é:ü=ö::𝄞=:=",
        "a=b:c=d:e=f:g=h:i=j",
    ];
    for input in inputs {
        let expected: Vec<&str> = input.split(':').collect();
        assert_eq!(split_tokens(input), expected, "input {:?}", input);
    }
}

#[test]
fn split_then_join_gives_input_back() {
    let inputs = ["", ":", "a::b", "source=0:offset=1000", "é:ü=ö::𝄞=:="];
    for input in inputs {
        assert_eq!(split_tokens(input).join(":"), input);
    }
}

#[test]
fn classify_bare_value() {
    assert_eq!(Token::classify("abc"), Token::Value("abc"));
}

#[test]
fn classify_empty_token_is_empty_value() {
    assert_eq!(Token::classify(""), Token::Value(""));
}

#[test]
fn classify_pair() {
    assert_eq!(Token::classify("source=0"), Token::Pair("source", "0"));
}

#[test]
fn classify_cuts_at_first_equals_only() {
    assert_eq!(Token::classify("k=v=w"), Token::Pair("k", "v=w"));
    assert_eq!(Token::classify("k=="), Token::Pair("k", "="));
}

#[test]
fn classify_empty_key_and_empty_value() {
    assert_eq!(Token::classify("=v"), Token::Pair("", "v"));
    assert_eq!(Token::classify("k="), Token::Pair("k", ""));
    assert_eq!(Token::classify("="), Token::Pair("", ""));
}

#[test]
fn classify_text_beyond_ascii() {
    assert_eq!(Token::classify("ключ=значение"), Token::Pair("ключ", "значение"));
    assert_eq!(Token::classify("日本語"), Token::Value("日本語"));
    assert_eq!(Token::classify("𝄞=é"), Token::Pair("𝄞", "é"));
    // U+FF1D looks like an equals sign and is none
    assert_eq!(Token::classify("a＝b"), Token::Value("a＝b"));
}

#[test]
fn classify_agrees_with_std_split_once() {
    let inputs = ["", "=", "==", "a", "a=b", "a=b=c", "=a", "a=", "é=ü", "𝄞", "a:b=c"];
    for input in inputs {
        let expected = match input.split_once('=') {
            Some((k, v)) => Token::Pair(k, v),
            None => Token::Value(input),
        };
        assert_eq!(Token::classify(input), expected, "input {:?}", input);
    }
}
