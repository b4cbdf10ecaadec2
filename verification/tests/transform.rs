use jsx::lex::{Lexer, Token};
use jsx::transform::{handle_elem, handle_fragment, Element, Leaf, Node};

fn chars(source: &str) -> Vec<char> {
    source.chars().collect()
}

#[test]
fn head_of_an_element() {
    let code = chars("  <div class=\"a\">");
    let mut lexer = Lexer::new(&code);
    lexer.consume().unwrap();
    assert_eq!(lexer.token, Token::ElementOpen);
    let elem = handle_elem(&mut lexer);
    assert_eq!(
        elem,
        Some(Element {
            nodes: vec![Leaf::Token(Node { start: 2, end: 3, token: Token::ElementOpen })]
        })
    );
    // The token behind the name is current.
    assert_eq!(lexer.token, Token::Identifier);
    assert_eq!(lexer.loc(), (7, 12));
}

#[test]
fn head_of_an_element_needs_a_name() {
    let code = chars("<\"div\">");
    let mut lexer = Lexer::new(&code);
    lexer.consume().unwrap();
    assert_eq!(handle_elem(&mut lexer), None);
    assert_eq!(lexer.token, Token::LiteralString);
    assert_eq!(lexer.loc(), (1, 6));
}

#[test]
fn head_of_an_element_needs_a_token_behind_the_name() {
    let code = chars("<div");
    let mut lexer = Lexer::new(&code);
    lexer.consume().unwrap();
    assert_eq!(handle_elem(&mut lexer), None);
    assert_eq!(lexer.token, Token::EndOfProgram);
    let code = chars("<");
    let mut lexer = Lexer::new(&code);
    assert!(lexer.consume().is_err());
    let code = chars("<a /b");
    let mut lexer = Lexer::new(&code);
    lexer.consume().unwrap();
    assert_eq!(handle_elem(&mut lexer), None);
    assert_eq!(lexer.token, Token::UnexpectedToken);
    assert_eq!(lexer.loc(), (3, 4));
}

#[test]
fn fragment_reads_on_to_the_first_failure() {
    let code = chars("<> a b </> c");
    let mut lexer = Lexer::new(&code);
    lexer.consume().unwrap();
    assert_eq!(lexer.token, Token::FragmentOpen);
    assert_eq!(handle_fragment(&mut lexer), None);
    assert_eq!(lexer.token, Token::EndOfProgram);
    assert_eq!(lexer.loc(), (12, 12));

    let code = chars("<> a /b c");
    let mut lexer = Lexer::new(&code);
    lexer.consume().unwrap();
    assert_eq!(handle_fragment(&mut lexer), None);
    assert_eq!(lexer.token, Token::UnexpectedToken);
    assert_eq!(lexer.loc(), (5, 6));
}
