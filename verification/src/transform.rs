//! The first step of rewriting markup into calls: the tokens with which an
//! element or a fragment begins, taken straight from the lexer.

use crate::lex::{lemma_lex_step, lex_step, Cursor, Lexer, Token};
use vstd::prelude::*;

verus! {

/// A token with its range.
#[derive(Debug, PartialEq, Clone, Copy)]
pub struct Node {
    pub start: usize,
    pub end: usize,
    pub token: Token,
}

/// A token, or an element or a fragment made of leaves.
#[derive(Debug, PartialEq)]
pub enum Leaf {
    Token(Node),
    Element(Element),
    Fragment(Fragment),
}

/// The leaves of an element.
#[derive(Debug, PartialEq)]
pub struct Element {
    pub nodes: Vec<Leaf>,
}

/// The leaves of a fragment.
#[derive(Debug, PartialEq)]
pub struct Fragment {
    pub nodes: Vec<Leaf>,
}

/// Where the lexer stands once it has read on from `cursor` up to its first
/// failure.
pub open spec fn drained(code: Seq<char>, cursor: Cursor) -> Cursor
    decreases code.len() - cursor.end,
{
    let next = lex_step(code, cursor);
    if next.result is Ok {
        proof {
            lemma_lex_step(code, cursor);
        }
        drained(code, next.cursor)
    } else {
        next.cursor
    }
}

/// A lexer that has read on to its first failure has no token.
pub proof fn lemma_drained(code: Seq<char>, cursor: Cursor)
    ensures
        drained(code, cursor).token == Token::EndOfProgram || drained(code, cursor).token
            == Token::UnexpectedToken,
        lex_step(code, cursor).result is Ok ==> cursor.end < drained(code, cursor).end,
    decreases code.len() - cursor.end,
{
    lemma_lex_step(code, cursor);
    let next = lex_step(code, cursor);
    if next.result is Ok {
        lemma_drained(code, next.cursor);
        lemma_lex_step(code, next.cursor);
        if lex_step(code, next.cursor).result is Err {
            assert(drained(code, next.cursor) == lex_step(code, next.cursor).cursor);
        }
    }
}

/// Where the lexer stands once the head of an element has been read from
/// its `<` at `cursor`, and whether a head was there: an identifier, and a
/// token behind it.
pub open spec fn elem_head(code: Seq<char>, cursor: Cursor) -> (Cursor, bool) {
    let name = lex_step(code, cursor);
    let next = lex_step(code, name.cursor);
    if name.result is Err || name.cursor.token != Token::Identifier {
        (name.cursor, false)
    } else {
        (next.cursor, next.result is Ok)
    }
}

/// Reads on from a `<>` to the first failure of the lexer. No fragment is
/// put together yet.
pub fn handle_fragment(lexer: &mut Lexer) -> (r: Option<Fragment>)
    requires
        old(lexer).wf(),
        old(lexer)@.token == Token::FragmentOpen,
    ensures
        r is None,
        final(lexer).wf(),
        final(lexer).source() == old(lexer).source(),
        final(lexer)@ == drained(old(lexer).source(), old(lexer)@),
{
    let mut nodes: Vec<Leaf> = Vec::new();
    nodes.push(Leaf::Token(Node { start: lexer.start(), end: lexer.end(), token: lexer.token() }));
    loop
        invariant
            lexer.wf(),
            lexer.source() == old(lexer).source(),
            drained(lexer.source(), lexer@) == drained(old(lexer).source(), old(lexer)@),
        decreases lexer.source().len() - lexer@.end,
    {
        proof {
            lemma_lex_step(lexer.source(), lexer@);
        }
        if lexer.consume().is_err() {
            return None;
        }
    }
}

/// Reads the head of an element from its `<`: the name, which must be an
/// identifier, and the token behind it. The element that is returned holds
/// the `<` alone.
pub fn handle_elem(lexer: &mut Lexer) -> (r: Option<Element>)
    requires
        old(lexer).wf(),
        old(lexer)@.token == Token::ElementOpen,
    ensures
        final(lexer).wf(),
        final(lexer).source() == old(lexer).source(),
        final(lexer)@ == elem_head(old(lexer).source(), old(lexer)@).0,
        (r is Some) == elem_head(old(lexer).source(), old(lexer)@).1,
        r matches Some(e) ==> e.nodes@ == seq![
            Leaf::Token(
                Node {
                    start: old(lexer)@.start as usize,
                    end: old(lexer)@.end as usize,
                    token: Token::ElementOpen,
                },
            ),
        ],
{
    proof {
        lexer.lemma_wf();
    }
    let mut nodes: Vec<Leaf> = Vec::new();
    nodes.push(Leaf::Token(Node { start: lexer.start(), end: lexer.end(), token: lexer.token() }));
    if lexer.consume().is_err() {
        return None;
    }
    if lexer.token() != Token::Identifier {
        return None;
    }
    if lexer.consume().is_err() {
        return None;
    }
    Some(Element { nodes })
}

} // verus!
