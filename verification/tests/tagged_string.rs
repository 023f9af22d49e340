use ascii_terminal::strings::tagged_string::try_wrap_tagged_line_count;
use ascii_terminal::strings::tagged_string::try_wrap_tagged_string;
use ascii_terminal::color;
use ascii_terminal::strings::{
    wrap_line_count, wrap_string, wrap_tagged_line_count, wrap_tagged_string, Token, TokenError,
    TokenErrorKind, TokenIterator,
};

fn collect_tokens(input: &str) -> Vec<Token<'_>> {
    let mut iter = TokenIterator::new(input);
    let mut tokens = Vec::new();
    while let Some(res) = iter.next() {
        tokens.push(res.expect("Error parsing token"));
    }
    tokens
}

#[test]
fn parsing_tests() -> Result<(), TokenError<'static>> {
    let input = "Hello <fg=blue>Wor<bg=orange>ld!</fg>.\n<fg=red>How</fg></bg>'s it going?";

    let expected = [
        Token::Text("Hello"),
        Token::Space,
        Token::FgStart(color::BLUE, "blue"),
        Token::Text("Wor"),
        Token::BgStart(color::ORANGE, "orange"),
        Token::Text("ld!"),
        Token::FgEnd,
        Token::Text("."),
        Token::Newline,
        Token::FgStart(color::RED, "red"),
        Token::Text("How"),
        Token::FgEnd,
        Token::BgEnd,
        Token::Text("'s"),
        Token::Space,
        Token::Text("it"),
        Token::Space,
        Token::Text("going?"),
    ];
    let tokens = collect_tokens(input);
    assert_eq!(tokens, expected);

    Ok(())
}

#[test]
fn empty_string() -> Result<(), TokenError<'static>> {
    let input = "             \n       \t\t \n\n              \n \t";
    let (wrapped, count, remaining) = wrap_tagged_string(input, 15, true)?;

    assert_eq!("", wrapped);
    assert_eq!(0, count);
    assert_eq!("", remaining);
    Ok(())
}

#[test]
fn wrapped_tagged_string_test() -> Result<(), TokenError<'static>> {
    let input = r"A <bg=yellow><fg=blue>nice long string.</fg>
With some</bg> <bg=gray>tags that we want</bg> to wrap!
Also this line in particular is particularly long!";

    let (wrapped, count, remaining) = wrap_tagged_string(input, 15, true)?;

    assert_eq!(11, count);
    assert_eq!(wrapped, "A <bg=yellow><fg=blue>nice long");
    assert_eq!(
        remaining,
        r"string.</fg>
With some</bg> <bg=gray>tags that we want</bg> to wrap!
Also this line in particular is particularly long!"
    );

    let (wrapped, count, remaining) = wrap_tagged_string(remaining, 15, true)?;
    assert_eq!(7, count);
    assert_eq!(wrapped, "string.</fg>");
    assert_eq!(
        remaining,
        r"With some</bg> <bg=gray>tags that we want</bg> to wrap!
Also this line in particular is particularly long!"
    );

    let (wrapped, count, remaining) = wrap_tagged_string(remaining, 15, true)?;
    assert_eq!(14, count);
    assert_eq!(wrapped, "With some</bg> <bg=gray>tags");
    assert_eq!(
        remaining,
        r"that we want</bg> to wrap!
Also this line in particular is particularly long!"
    );

    let (wrapped, count, remaining) = wrap_tagged_string(remaining, 15, true)?;
    assert_eq!(15, count);
    assert_eq!(wrapped, "that we want</bg> to");
    assert_eq!(
        remaining,
        r"wrap!
Also this line in particular is particularly long!"
    );

    let (wrapped, count, remaining) = wrap_tagged_string(remaining, 15, true)?;
    assert_eq!(5, count);
    assert_eq!(wrapped, "wrap!");
    assert_eq!(
        remaining,
        "Also this line in particular is particularly long!"
    );

    let (wrapped, count, remaining) = wrap_tagged_string(remaining, 15, true)?;
    assert_eq!(14, count);
    assert_eq!(wrapped, "Also this line");
    assert_eq!(remaining, "in particular is particularly long!");

    let (wrapped, count, remaining) = wrap_tagged_string(remaining, 15, true)?;
    assert_eq!(13, count);
    assert_eq!(wrapped, "in particular");
    assert_eq!(remaining, "is particularly long!");

    let (wrapped, count, remaining) = wrap_tagged_string(remaining, 15, true)?;
    assert_eq!(15, count);
    assert_eq!(wrapped, "is particularly");
    assert_eq!(remaining, "long!");

    let (wrapped, count, remaining) = wrap_tagged_string(remaining, 15, true)?;
    assert_eq!(5, count);
    assert_eq!(wrapped, "long!");
    assert_eq!(remaining, "");

    Ok(())
}

#[test]
fn plain_text_shorter_than_max_len() -> Result<(), TokenError<'static>> {
    let (wrapped, count, rem) = wrap_tagged_string("hello", 10, true)?;
    assert_eq!("hello", wrapped);
    assert_eq!(5, count);
    assert_eq!("", rem);
    Ok(())
}

#[test]
fn wraps_at_word_boundary_before_max_len() -> Result<(), TokenError<'static>> {
    let (wrapped, count, rem) = wrap_tagged_string("hello world", 8, true)?;
    assert_eq!("hello", wrapped);
    assert_eq!(5, count);
    assert_eq!("world", rem);
    Ok(())
}

#[test]
fn hard_wraps_without_spaces() -> Result<(), TokenError<'static>> {
    let (wrapped, count, rem) = wrap_tagged_string("hellothere", 5, true)?;
    assert_eq!("hello", wrapped);
    assert_eq!(5, count);
    assert_eq!("there", rem);
    Ok(())
}

#[test]
fn trailing_spaces_not_counted() -> Result<(), TokenError<'static>> {
    let (wrapped, count, rem) = wrap_tagged_string("hi    ", 10, true)?;
    assert_eq!("hi", wrapped);
    assert_eq!(2, count);
    assert_eq!("", rem);
    Ok(())
}

#[test]
fn leading_spaces_trimmed_in_remaining() -> Result<(), TokenError<'static>> {
    let (wrapped, count, rem) = wrap_tagged_string("hello     world", 8, true)?;
    assert_eq!("hello", wrapped);
    assert_eq!(5, count);
    assert_eq!("world", rem);
    Ok(())
}

#[test]
fn newline_breaks_the_line() -> Result<(), TokenError<'static>> {
    let (wrapped, count, rem) = wrap_tagged_string("foo\nbar", 20, true)?;
    assert_eq!("foo", wrapped);
    assert_eq!(3, count);
    assert_eq!("bar", rem);
    Ok(())
}

#[test]
fn fg_tag_bytes_not_counted_in_char_count() -> Result<(), TokenError<'static>> {
    let (wrapped, count, rem) = wrap_tagged_string("<fg=red>Red</fg>", 10, true)?;
    assert_eq!("<fg=red>Red</fg>", wrapped);
    assert_eq!(3, count);
    assert_eq!("", rem);
    Ok(())
}

#[test]
fn wrap_respects_char_count_not_byte_count_with_fg_tags() -> Result<(), TokenError<'static>> {
    let (wrapped, count, rem) = wrap_tagged_string("<fg=red>Hi</fg> there", 5, true)?;
    assert_eq!("<fg=red>Hi</fg>", wrapped);
    assert_eq!(2, count);
    assert_eq!("there", rem);
    Ok(())
}

#[test]
fn multibyte_unicode_characters_count_as_one_char_each() -> Result<(), TokenError<'static>> {
    // "héllo" — é is 2 bytes but 1 char
    let (wrapped, count, rem) = wrap_tagged_string("héllo wörld", 5, true)?;
    assert_eq!("héllo", wrapped);
    assert_eq!(5, count);
    assert_eq!("wörld", rem);
    Ok(())
}

#[test]
fn long_tagged_string() -> Result<(), TokenError<'static>> {
    let input = "Normal <fg=red><bg=blue>Red on Blue</bg> Back to Red</fg> <fg=dark_magenta>Back to</fg> normal.";
    let (wrapped, count, rem) = wrap_tagged_string(input, 38, true)?;
    assert_eq!(
        "Normal <fg=red><bg=blue>Red on Blue</bg> Back to Red</fg> <fg=dark_magenta>Back to</fg>",
        wrapped
    );
    assert_eq!(38, count);
    assert_eq!("normal.", rem);
    Ok(())
}

#[test]
fn long_string() -> Result<(), TokenError<'static>> {
    let input = "This is what a really long string with no tags looks like.\nExplicit newline there. Otherwise it's just one loooooong string.";

    let (wrapped, _count, rem) = wrap_tagged_string(input, 38, true)?;
    assert_eq!("This is what a really long string with", wrapped);

    let (wrapped, _, rem) = wrap_tagged_string(rem, 38, true)?;
    assert_eq!("no tags looks like.", wrapped);

    let (wrapped, count, _) = wrap_tagged_string(rem, 38, true)?;
    assert_eq!(38, count);
    assert_eq!("Explicit newline there. Otherwise it's", wrapped);

    Ok(())
}

#[test]
fn no_word_wrap() -> Result<(), TokenError<'static>> {
    let input = "Here's a string but we're not word wrapping.";

    let (wrapped, _count, rem) = wrap_tagged_string(input, 12, false)?;
    assert_eq!("Here's a str", wrapped);

    let (wrapped, _count, rem) = wrap_tagged_string(rem, 12, false)?;
    assert_eq!("ing but we'r", wrapped);

    let (wrapped, _count, rem) = wrap_tagged_string(rem, 12, false)?;
    assert_eq!("e not word w", wrapped);

    let (wrapped, _count, _rem) = wrap_tagged_string(rem, 8, false)?;
    assert_eq!("rapping.", wrapped);

    Ok(())
}

#[test]
fn wrap_untagged_string_test() {
    let input = "This is what a really long string with no tags looks like.\nExplicit newline there. Otherwise it's just one loooooong string.";

    let (wrapped, rem) = wrap_string(input, 38, true);
    assert_eq!("This is what a really long string with", wrapped);

    let (wrapped, rem) = wrap_string(rem, 38, true);
    assert_eq!("no tags looks like.", wrapped);

    let (wrapped, _) = wrap_string(rem, 38, true);

    assert_eq!("Explicit newline there. Otherwise it's", wrapped);
}

#[test]
fn no_word_wrap_untagged() {
    let input = "Here's a string but we're not word wrapping.";

    let (wrapped, rem) = wrap_string(input, 12, false);
    assert_eq!("Here's a str", wrapped);

    let (wrapped, rem) = wrap_string(rem, 12, false);
    assert_eq!("ing but we'r", wrapped);

    let (wrapped, rem) = wrap_string(rem, 12, false);
    assert_eq!("e not word w", wrapped);

    let (wrapped, _rem) = wrap_string(rem, 8, false);
    assert_eq!("rapping.", wrapped);
}

#[test]
fn small_untagged_string_wraps_to_two_lines() {
    let string = "Hello, how are";
    let count = wrap_line_count(string, 10, true);
    assert_eq!(count, 2);
}

#[test]
fn escaped_bracket_and_slash_are_text() {
    let tokens = collect_tokens("a/<b/c");
    assert_eq!(
        tokens,
        vec![
            Token::Text("a"),
            Token::Text("<"),
            Token::Text("b"),
            Token::Text("/"),
            Token::Text("c"),
        ]
    );
}

#[test]
fn tag_errors() {
    let mut iter = TokenIterator::new("<fg=nocolor>x");
    assert_eq!(
        iter.next(),
        Some(Err(TokenError {
            kind: TokenErrorKind::InvalidColor,
            text: "fg=nocolor",
            position: [0, 0],
        }))
    );
    assert_eq!(iter.next(), Some(Ok(Token::Text("x"))));

    let mut iter = TokenIterator::new("<hello>x");
    assert_eq!(
        iter.next(),
        Some(Err(TokenError { kind: TokenErrorKind::UnknownTag, text: "hello", position: [0, 0] }))
    );

    let mut iter = TokenIterator::new("<fg=red");
    let unclosed = TokenError {
        kind: TokenErrorKind::NoClosingBrace,
        text: "<fg=red",
        position: [0, 0],
    };
    assert_eq!(iter.next(), Some(Err(unclosed)));
    // The reader does not move past an unclosed tag.
    assert_eq!(iter.next(), Some(Err(unclosed)));

    assert_eq!(
        wrap_tagged_string("ok <bg=nope>x", 10, true),
        Err(TokenError { kind: TokenErrorKind::InvalidColor, text: "bg=nope", position: [3, 0] })
    );
}

#[test]
fn errors_report_the_position_of_their_token() {
    let mut iter = TokenIterator::new("ab\n <fg=red>x</fg> <what>");
    for _ in 0..7 {
        assert!(matches!(iter.next(), Some(Ok(_))));
    }
    assert_eq!(
        iter.next(),
        Some(Err(TokenError { kind: TokenErrorKind::UnknownTag, text: "what", position: [16, 1] }))
    );
    assert_eq!(iter.next(), None);

    let mut iter = TokenIterator::new("a/<b <zz>");
    for _ in 0..4 {
        assert!(matches!(iter.next(), Some(Ok(_))));
    }
    assert_eq!(
        iter.next(),
        Some(Err(TokenError { kind: TokenErrorKind::UnknownTag, text: "zz", position: [5, 0] }))
    );

    assert_eq!(
        wrap_tagged_line_count("one\ntwo <x>", 20, true),
        Err(TokenError { kind: TokenErrorKind::UnknownTag, text: "x", position: [4, 0] })
    );
}

#[test]
fn hex_and_uppercase_color_tags() {
    let tokens = collect_tokens("<FG=#0000FF>a</FG><bg=#11223344>b");
    assert_eq!(
        tokens,
        vec![
            Token::FgStart(color::BLUE, "#0000FF"),
            Token::Text("a"),
            Token::FgEnd,
            Token::BgStart(0x11223344, "#11223344"),
            Token::Text("b"),
        ]
    );
}

#[test]
fn tagged_line_count() {
    assert_eq!(Ok(0), wrap_tagged_line_count("", 10, true));
    assert_eq!(Ok(2), wrap_tagged_line_count("<fg=red>hello</fg> world", 8, true));
    let input = r"A <bg=yellow><fg=blue>nice long string.</fg>
With some</bg> <bg=gray>tags that we want</bg> to wrap!
Also this line in particular is particularly long!";
    assert_eq!(Ok(9), wrap_tagged_line_count(input, 15, true));
}

#[test]
fn hard_break_count_is_that_of_the_wrapped_line() -> Result<(), TokenError<'static>> {
    let (wrapped, count, rem) =
        wrap_tagged_string("Here's a string but we're not word wrapping.", 12, false)?;
    assert_eq!(wrapped, "Here's a str");
    assert_eq!(count, 12);
    assert_eq!(rem, "ing but we're not word wrapping.");
    Ok(())
}

#[test]
fn escape_takes_up_both_of_its_bytes() -> Result<(), TokenError<'static>> {
    assert_eq!(wrap_tagged_string("a/<b", 10, true)?, ("a/<b", 3, ""));
    Ok(())
}

#[test]
fn tagged_wrapping_to_width_one_ends() -> Result<(), TokenError<'static>> {
    let input = " a <fg=red>bc</fg> d\n e";
    let mut steps = 0;
    let mut rest = input;
    while !rest.is_empty() {
        let (_, _, rem) = wrap_tagged_string(rest, 1, true)?;
        assert!(rem.len() < rest.len());
        rest = rem;
        steps += 1;
    }
    assert_eq!(wrap_tagged_line_count(input, 1, true)?, steps);
    Ok(())
}

#[test]
fn checked_wrapping_reports_panicking_inputs() {
    assert!(try_wrap_tagged_string("<aaé>x", 10, true).is_none());
    assert_eq!(try_wrap_tagged_string("hello", 3, false), Some(Ok(("hel", 3, "lo"))));
    assert_eq!(
        try_wrap_tagged_string("<fg=nope>x", 3, false),
        Some(Err(TokenError { kind: TokenErrorKind::InvalidColor, text: "fg=nope", position: [0, 0] }))
    );
}

#[test]
fn checked_line_count_reports_endless_wrapping() -> Result<(), TokenError<'static>> {
    assert_eq!(try_wrap_tagged_line_count("abc", 0, true), None);
    assert_eq!(try_wrap_tagged_line_count("", 0, true), Some(Ok(0)));
    assert_eq!(
        try_wrap_tagged_line_count("a b c", 1, true),
        Some(Ok(wrap_tagged_line_count("a b c", 1, true)?))
    );
    Ok(())
}

#[test]
fn can_read_next_token() {
    assert!(!TokenIterator::new("<aaé>x").can_read_next());
    assert!(TokenIterator::new("<fg=red>x").can_read_next());
    assert!(TokenIterator::new("plain").can_read_next());
    assert!(TokenIterator::new("<no closing").can_read_next());
}

#[test]
fn reading_tokens_ends_within_the_length() {
    for input in ["", "ab <fg=red>c</fg>\n", "/</ / x", "<bg=blue>   </bg>"] {
        let mut iter = TokenIterator::new(input);
        let mut count = 0;
        while let Some(res) = iter.next() {
            assert!(res.is_ok());
            count += 1;
            assert!(count <= input.len());
        }
        if input.is_empty() {
            assert_eq!(count, 0);
        }
    }
    let mut iter = TokenIterator::new("ab <fg=red>c</fg>\n");
    let mut count = 0;
    while let Some(Ok(_)) = iter.next() {
        count += 1;
    }
    assert_eq!(count, 6);
}
