use jsx::error::Error;
use jsx::lex::{Lexer, Token};

fn chars(source: &str) -> Vec<char> {
    source.chars().collect()
}

/// Every token of `source` with its range, and the failure that ended the run.
fn tokens(source: &str) -> (Vec<(Token, usize, usize)>, Error) {
    let code = chars(source);
    let mut lexer = Lexer::new(&code);
    let mut found = Vec::new();
    loop {
        match lexer.consume() {
            Ok(()) => found.push((lexer.token, lexer.start(), lexer.end())),
            Err(e) => return (found, e),
        }
    }
}

#[test]
fn empty_input_starts_at_the_end() {
    let code = chars("");
    let mut lexer = Lexer::new(&code);
    assert_eq!(lexer.token, Token::EndOfProgram);
    assert_eq!(lexer.loc(), (0, 0));
    assert_eq!(lexer.consume(), Err(Error::EndOfProgram));
    assert_eq!(lexer.token, Token::EndOfProgram);
}

#[test]
fn fresh_lexer_has_no_token_yet() {
    let code = chars("<a/>");
    let lexer = Lexer::new(&code);
    assert_eq!(lexer.token, Token::UnexpectedToken);
    assert_eq!(lexer.token(), Token::UnexpectedToken);
    assert_eq!(lexer.start(), 0);
    assert_eq!(lexer.end(), 0);
}

#[test]
fn end_between_tokens_is_reported_again_and_again() {
    let code = chars("a  \n");
    let mut lexer = Lexer::new(&code);
    assert_eq!(lexer.consume(), Ok(()));
    assert_eq!(lexer.token, Token::Identifier);
    assert_eq!(lexer.loc(), (0, 1));
    assert_eq!(lexer.consume(), Err(Error::EndOfProgram));
    assert_eq!(lexer.token, Token::EndOfProgram);
    assert_eq!(lexer.loc(), (4, 4));
    assert_eq!(lexer.consume(), Err(Error::EndOfProgram));
    assert_eq!(lexer.consume(), Err(Error::EndOfProgram));
    assert_eq!(lexer.loc(), (4, 4));
}

#[test]
fn self_closing_element_tokens() {
    let (found, end) = tokens("<div a=\"x\" />");
    assert_eq!(
        found,
        vec![
            (Token::ElementOpen, 0, 1),
            (Token::Identifier, 1, 4),
            (Token::Identifier, 5, 6),
            (Token::Assign, 6, 7),
            (Token::LiteralString, 7, 10),
            (Token::SelfClosingElementClose, 11, 13),
        ]
    );
    assert_eq!(end, Error::EndOfProgram);
}

#[test]
fn single_character_tokens() {
    let (found, end) = tokens("> = { } , :");
    assert_eq!(
        found,
        vec![
            (Token::ElementClose, 0, 1),
            (Token::Assign, 2, 3),
            (Token::BraceOpen, 4, 5),
            (Token::BraceClose, 6, 7),
            (Token::Comma, 8, 9),
            (Token::Colon, 10, 11),
        ]
    );
    assert_eq!(end, Error::EndOfProgram);
}

#[test]
fn a_token_may_end_the_input() {
    for (source, token) in [
        ("=", Token::Assign),
        ("{", Token::BraceOpen),
        (",", Token::Comma),
        (":", Token::Colon),
        (">", Token::ElementClose),
        ("}", Token::BraceClose),
        ("<>", Token::FragmentOpen),
        ("</>", Token::FragmentClose),
        ("/>", Token::SelfClosingElementClose),
        ("...", Token::Spread),
    ] {
        let (found, end) = tokens(source);
        assert_eq!(found, vec![(token, 0, source.len())]);
        assert_eq!(end, Error::EndOfProgram);
    }
}

#[test]
fn fragment_tokens_allow_spaces() {
    assert_eq!(tokens("<>").0, vec![(Token::FragmentOpen, 0, 2)]);
    assert_eq!(tokens("<  >").0, vec![(Token::FragmentOpen, 0, 4)]);
    assert_eq!(tokens("</>").0, vec![(Token::FragmentClose, 0, 3)]);
    assert_eq!(tokens("< / >").0, vec![(Token::FragmentClose, 0, 5)]);
    assert_eq!(tokens("</ >").0, vec![(Token::FragmentClose, 0, 4)]);
}

#[test]
fn only_spaces_join_the_parts_of_a_token() {
    let (found, end) = tokens("<\n>");
    assert_eq!(found, vec![(Token::ElementOpen, 0, 1), (Token::ElementClose, 2, 3)]);
    assert_eq!(end, Error::EndOfProgram);
}

#[test]
fn closing_element_open_ends_behind_the_slash() {
    let (found, end) = tokens("</div>");
    assert_eq!(
        found,
        vec![
            (Token::ClosingElementOpen, 0, 2),
            (Token::Identifier, 2, 5),
            (Token::ElementClose, 5, 6),
        ]
    );
    assert_eq!(end, Error::EndOfProgram);
    let (found, _) = tokens("<  /  div>");
    assert_eq!(
        found,
        vec![
            (Token::ClosingElementOpen, 0, 4),
            (Token::Identifier, 6, 9),
            (Token::ElementClose, 9, 10),
        ]
    );
}

#[test]
fn element_open_is_one_character() {
    let (found, _) = tokens("<   div");
    assert_eq!(found, vec![(Token::ElementOpen, 0, 1), (Token::Identifier, 4, 7)]);
}

#[test]
fn self_closing_close_allows_spaces() {
    assert_eq!(tokens("/>").0, vec![(Token::SelfClosingElementClose, 0, 2)]);
    assert_eq!(tokens("/  >").0, vec![(Token::SelfClosingElementClose, 0, 4)]);
}

#[test]
fn slash_without_angle_is_malformed() {
    let code = chars("a / b");
    let mut lexer = Lexer::new(&code);
    assert_eq!(lexer.consume(), Ok(()));
    assert_eq!(lexer.consume(), Err(Error::UnexpectedToken));
    assert_eq!(lexer.token, Token::UnexpectedToken);
    assert_eq!(lexer.loc(), (2, 4));
}

#[test]
fn truncated_constructs_end_unexpectedly() {
    for source in ["<", "<  ", "</", "< / ", "/", "/  ", ".", "..", "\"abc", "'abc", "\"abc\\", "\"a\\\""] {
        let code = chars(source);
        let mut lexer = Lexer::new(&code);
        assert_eq!(lexer.consume(), Err(Error::UnexpectedEndOfProgram));
        assert_eq!(lexer.token, Token::UnexpectedToken);
        assert_eq!(lexer.loc(), (0, code.len()));
        assert_eq!(lexer.consume(), Err(Error::EndOfProgram));
        assert_eq!(lexer.token, Token::EndOfProgram);
    }
}

#[test]
fn string_literals() {
    assert_eq!(tokens("\"abc\"").0, vec![(Token::LiteralString, 0, 5)]);
    assert_eq!(tokens("'abc'").0, vec![(Token::LiteralString, 0, 5)]);
    assert_eq!(tokens("\"\"").0, vec![(Token::LiteralString, 0, 2)]);
    assert_eq!(tokens("\"it's\"").0, vec![(Token::LiteralString, 0, 6)]);
    assert_eq!(tokens("'say \"x\"' a").0, vec![(Token::LiteralString, 0, 9), (Token::Identifier, 10, 11)]);
}

#[test]
fn backslash_escapes_the_next_character() {
    // "a\"b"
    assert_eq!(tokens("\"a\\\"b\"").0, vec![(Token::LiteralString, 0, 6)]);
    // "a\\" then b
    assert_eq!(
        tokens("\"a\\\\\"b").0,
        vec![(Token::LiteralString, 0, 5), (Token::Identifier, 5, 6)]
    );
    // '\q' : any character may follow the backslash
    assert_eq!(tokens("'\\q'").0, vec![(Token::LiteralString, 0, 4)]);
}

#[test]
fn dots() {
    assert_eq!(tokens(".x").0, vec![(Token::Dit, 0, 1), (Token::Identifier, 1, 2)]);
    assert_eq!(tokens("...x").0, vec![(Token::Spread, 0, 3), (Token::Identifier, 3, 4)]);
    assert_eq!(
        tokens("..x").0,
        vec![(Token::Dit, 0, 1), (Token::Dit, 1, 2), (Token::Identifier, 2, 3)]
    );
    assert_eq!(
        tokens("....x").0,
        vec![(Token::Spread, 0, 3), (Token::Dit, 3, 4), (Token::Identifier, 4, 5)]
    );
}

#[test]
fn identifiers() {
    assert_eq!(tokens("abc").0, vec![(Token::Identifier, 0, 3)]);
    assert_eq!(tokens("a1_b2 c").0, vec![(Token::Identifier, 0, 5), (Token::Identifier, 6, 7)]);
    assert_eq!(tokens("Tag>").0, vec![(Token::Identifier, 0, 3), (Token::ElementClose, 3, 4)]);
}

#[test]
fn identifiers_start_with_a_letter() {
    // A digit and an underscore continue an identifier and start none.
    assert_eq!(tokens("1abc").0, vec![(Token::Identifier, 1, 4)]);
    assert_eq!(tokens("_abc").0, vec![(Token::Identifier, 1, 4)]);
    assert_eq!(tokens("a-b").0, vec![(Token::Identifier, 0, 1), (Token::Identifier, 2, 3)]);
    assert_eq!(tokens("$ 42 ! _").0, vec![]);
}

#[test]
fn identifiers_beyond_ascii() {
    assert_eq!(tokens("héllo").0, vec![(Token::Identifier, 0, 5)]);
    assert_eq!(tokens("日本語 x").0, vec![(Token::Identifier, 0, 3), (Token::Identifier, 4, 5)]);
    // U+00B7 continues an identifier and starts none.
    assert_eq!(tokens("a\u{b7}b").0, vec![(Token::Identifier, 0, 3)]);
    assert_eq!(tokens("\u{b7}b").0, vec![(Token::Identifier, 1, 2)]);
    // U+25B3, a triangle, is no part of an identifier.
    assert_eq!(tokens("a\u{25b3}b").0, vec![(Token::Identifier, 0, 1), (Token::Identifier, 2, 3)]);
}

#[test]
fn filler_is_passed_over() {
    let (found, end) = tokens("  \t\n a \r\n 12 b");
    assert_eq!(found, vec![(Token::Identifier, 5, 6), (Token::Identifier, 13, 14)]);
    assert_eq!(end, Error::EndOfProgram);
}

#[test]
fn tokens_follow_one_another() {
    let source = "<a.b c:d={ x } e='1' {...f}> text </a.b> <></>";
    let (found, end) = tokens(source);
    assert_eq!(end, Error::EndOfProgram);
    let mut last = 0;
    for (_, start, stop) in found {
        assert!(last <= start);
        assert!(start < stop);
        assert!(stop <= source.len());
        last = stop;
    }
}

#[test]
fn slice_source_gives_the_text_of_a_token() {
    let code = chars("<Tag attr=\"value\">");
    let mut lexer = Lexer::new(&code);
    let mut texts: Vec<String> = Vec::new();
    while lexer.consume().is_ok() {
        texts.push(lexer.slice_source(lexer.start(), lexer.end()).iter().collect());
    }
    assert_eq!(texts, vec!["<", "Tag", "attr", "=", "\"value\"", ">"]);
    assert_eq!(lexer.slice_source(0, 0), &[] as &[char]);
    assert_eq!(lexer.slice_source(1, 4), &['T', 'a', 'g']);
    assert_eq!(lexer.slice_source(0, code.len()), &code[..]);
}

#[test]
fn lexing_goes_on_behind_a_malformed_token() {
    let code = chars("/x>");
    let mut lexer = Lexer::new(&code);
    assert_eq!(lexer.consume(), Err(Error::UnexpectedToken));
    assert_eq!(lexer.loc(), (0, 1));
    assert_eq!(lexer.consume(), Ok(()));
    assert_eq!(lexer.token, Token::Identifier);
    assert_eq!(lexer.loc(), (1, 2));
}
