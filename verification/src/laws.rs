//! What holds of the grammar on every source.

use crate::ast::{AttributeView, ChildView, NodeView};
use crate::error::Error;
use crate::grammar::{
    advance, assignment_expression, children, children_from, closing_elem, elem, elem_attr,
    elem_attr_name, elem_attr_value, elem_attrs, elem_name, expect, expression_from, fragment,
    identifier, members, names_match, namespaced, onward, opening_or_self_closing_elem, program,
    spread, with_text, Outcome,
};
use crate::lex::{lemma_lex_step, lemma_lex_step_placed, lex_step, placed, Cursor, Token};
use crate::loc::Loc;
use vstd::prelude::*;

verus! {

/// What a production may leave behind: a cursor as the lexer places it,
/// not before the one that the production started from. To a production the
/// end of the input is always unexpected: it reports so, and nothing else,
/// where it has brought the lexer to the end; and it reports so only with
/// the lexer at the end.
pub open spec fn sound<T>(code: Seq<char>, from: Cursor, out: Outcome<T>) -> bool {
    &&& placed(code, out.cursor)
    &&& onward(code, from, out.cursor)
    &&& out.result != Err::<T, Error>(Error::EndOfProgram)
    &&& out.result == Err::<T, Error>(Error::UnexpectedEndOfProgram) ==> out.cursor.end
        == code.len()
    &&& out.cursor.token == Token::EndOfProgram ==> from.token == Token::EndOfProgram
        || out.result == Err::<T, Error>(Error::UnexpectedEndOfProgram)
}

/// As `sound`; and where something was read, the cursor has moved.
pub open spec fn sound_step<T>(code: Seq<char>, from: Cursor, out: Outcome<T>) -> bool {
    &&& sound(code, from, out)
    &&& out.result is Ok ==> from.end < out.cursor.end
}

/// A step of the lexer that a production asks for is sound, and a token that
/// it finds is none of the two markers.
pub proof fn lemma_advance(code: Seq<char>, cursor: Cursor)
    requires
        placed(code, cursor),
    ensures
        sound_step(
            code,
            cursor,
            Outcome { cursor: advance(code, cursor).cursor, result: advance(code, cursor).result },
        ),
        advance(code, cursor).result is Ok ==> advance(code, cursor).cursor.token
            != Token::EndOfProgram && advance(code, cursor).cursor.token
            != Token::UnexpectedToken,
{
    lemma_lex_step(code, cursor);
    lemma_lex_step_placed(code, cursor);
}

/// Passing a token that is asked for is sound.
pub proof fn lemma_expect(code: Seq<char>, cursor: Cursor, token: Token)
    requires
        placed(code, cursor),
    ensures
        sound_step(
            code,
            cursor,
            Outcome {
                cursor: expect(code, cursor, token).cursor,
                result: expect(code, cursor, token).result,
            },
        ),
{
    lemma_advance(code, cursor);
}

/// Taking an identifier is sound.
pub proof fn lemma_identifier_sound(code: Seq<char>, cursor: Cursor)
    requires
        placed(code, cursor),
    ensures
        sound_step(code, cursor, identifier(code, cursor)),
{
    lemma_advance(code, cursor);
}

proof fn lemma_members_sound(code: Seq<char>, cursor: Cursor, list: Seq<Loc<Token>>)
    requires
        placed(code, cursor),
    ensures
        sound_step(code, cursor, members(code, cursor, list)),
    decreases code.len() - cursor.end,
{
    reveal_with_fuel(members, 1);
    lemma_advance(code, cursor);
    let dot = advance(code, cursor);
    if dot.result is Ok {
        lemma_identifier_sound(code, dot.cursor);
        let member = identifier(code, dot.cursor);
        if member.result is Ok && member.cursor.token == Token::Dit {
            lemma_members_sound(code, member.cursor, list.push(member.result->Ok_0));
        }
    }
}

proof fn lemma_namespaced_sound(code: Seq<char>, cursor: Cursor, ns: Loc<Token>)
    requires
        placed(code, cursor),
    ensures
        sound_step(code, cursor, namespaced(code, cursor, ns)),
{
    reveal(namespaced);
    lemma_advance(code, cursor);
    if advance(code, cursor).result is Ok {
        lemma_identifier_sound(code, advance(code, cursor).cursor);
    }
}

/// Reading the name of an element is sound.
pub proof fn lemma_elem_name_sound(code: Seq<char>, cursor: Cursor)
    requires
        placed(code, cursor),
    ensures
        sound_step(code, cursor, elem_name(code, cursor)),
{
    reveal(elem_name);
    lemma_identifier_sound(code, cursor);
    let first = identifier(code, cursor);
    if first.result is Ok {
        lemma_members_sound(code, first.cursor, seq![first.result->Ok_0]);
        lemma_namespaced_sound(code, first.cursor, first.result->Ok_0);
    }
}

/// Reading the name of an attribute is sound.
pub proof fn lemma_elem_attr_name_sound(code: Seq<char>, cursor: Cursor)
    requires
        placed(code, cursor),
    ensures
        sound_step(code, cursor, elem_attr_name(code, cursor)),
{
    reveal(elem_attr_name);
    lemma_identifier_sound(code, cursor);
    let first = identifier(code, cursor);
    if first.result is Ok {
        lemma_namespaced_sound(code, first.cursor, first.result->Ok_0);
    }
}

/// Reading a spread attribute is sound.
pub proof fn lemma_spread_sound(code: Seq<char>, cursor: Cursor)
    requires
        placed(code, cursor),
    ensures
        sound_step(code, cursor, spread(code, cursor)),
{
    reveal(spread);
    lemma_advance(code, cursor);
    let open = advance(code, cursor);
    if open.result is Ok {
        lemma_expect(code, open.cursor, Token::Spread);
        let dots = expect(code, open.cursor, Token::Spread);
        if dots.result is Ok {
            lemma_identifier_sound(code, dots.cursor);
            let name = identifier(code, dots.cursor);
            if name.result is Ok {
                lemma_expect(code, name.cursor, Token::BraceClose);
            }
        }
    }
}

/// Reading a closing tag is sound.
pub proof fn lemma_closing_elem_sound(code: Seq<char>, cursor: Cursor)
    requires
        placed(code, cursor),
    ensures
        sound_step(code, cursor, closing_elem(code, cursor)),
{
    reveal(closing_elem);
    lemma_expect(code, cursor, Token::ClosingElementOpen);
    let open = expect(code, cursor, Token::ClosingElementOpen);
    if open.result is Ok {
        lemma_elem_name_sound(code, open.cursor);
    }
}

/// Reading what stands behind an attribute's name is sound.
pub proof fn lemma_elem_attr_value_sound(code: Seq<char>, cursor: Cursor)
    requires
        placed(code, cursor),
    ensures
        sound(code, cursor, elem_attr_value(code, cursor)),
    decreases code.len() - cursor.end, 0nat,
{
    if cursor.token == Token::Assign {
        lemma_advance(code, cursor);
        let assign = advance(code, cursor);
        let at = assign.cursor;
        if assign.result is Ok {
            match at.token {
                Token::LiteralString => {
                    lemma_advance(code, at);
                },
                Token::BraceOpen => {
                    lemma_assignment_expression_sound(code, at);
                    let inner = assignment_expression(code, at);
                    if inner.result is Ok {
                        lemma_advance(code, inner.cursor);
                    }
                },
                Token::ElementOpen => {
                    lemma_elem_sound(code, at);
                    let inner = elem(code, at);
                    if inner.result is Ok {
                        lemma_advance(code, inner.cursor);
                    }
                },
                Token::FragmentOpen => {
                    lemma_fragment_sound(code, at);
                    let inner = fragment(code, at);
                    if inner.result is Ok {
                        lemma_advance(code, inner.cursor);
                    }
                },
                _ => {},
            }
        }
    }
}

/// Reading an attribute is sound, and an attribute that was read has moved
/// the cursor.
pub proof fn lemma_elem_attr_sound(code: Seq<char>, cursor: Cursor)
    requires
        placed(code, cursor),
    ensures
        sound(code, cursor, elem_attr(code, cursor)),
        elem_attr(code, cursor).result matches Ok(Some(_)) ==> cursor.end < elem_attr(
            code,
            cursor,
        ).cursor.end,
    decreases code.len() - cursor.end, 1nat,
{
    match cursor.token {
        Token::BraceOpen => {
            lemma_spread_sound(code, cursor);
        },
        Token::Identifier => {
            lemma_elem_attr_name_sound(code, cursor);
            let name = elem_attr_name(code, cursor);
            if name.result is Ok {
                lemma_elem_attr_value_sound(code, name.cursor);
            }
        },
        _ => {},
    }
}

proof fn lemma_elem_attrs_sound(code: Seq<char>, cursor: Cursor, attrs: Seq<AttributeView>)
    requires
        placed(code, cursor),
    ensures
        sound(code, cursor, elem_attrs(code, cursor, attrs)),
    decreases code.len() - cursor.end, 2nat,
{
    lemma_elem_attr_sound(code, cursor);
    let read = elem_attr(code, cursor);
    match read.result {
        Ok(Some(attr)) => {
            lemma_elem_attrs_sound(code, read.cursor, attrs.push(attr));
        },
        _ => {},
    }
}

/// Reading a tag that opens an element, or is one, is sound.
pub proof fn lemma_opening_sound(code: Seq<char>, cursor: Cursor)
    requires
        placed(code, cursor),
    ensures
        sound_step(code, cursor, opening_or_self_closing_elem(code, cursor)),
    decreases code.len() - cursor.end, 3nat,
{
    lemma_expect(code, cursor, Token::ElementOpen);
    let open = expect(code, cursor, Token::ElementOpen);
    if open.result is Ok {
        lemma_elem_name_sound(code, open.cursor);
        let name = elem_name(code, open.cursor);
        if name.result is Ok {
            lemma_elem_attrs_sound(code, name.cursor, Seq::empty());
        }
    }
}

/// An element that was read, or the failure to read one, leaves the cursor
/// within the source and behind where it was.
pub proof fn lemma_elem_sound(code: Seq<char>, cursor: Cursor)
    requires
        placed(code, cursor),
    ensures
        sound_step(code, cursor, elem(code, cursor)),
    decreases code.len() - cursor.end, 4nat,
{
    lemma_opening_sound(code, cursor);
    let tag = opening_or_self_closing_elem(code, cursor);
    match tag.result {
        Ok(open) => {
            if !open.is_self_closing {
                lemma_children_sound(code, tag.cursor);
                let inner = children(code, tag.cursor);
                if inner.result is Ok {
                    lemma_closing_elem_sound(code, inner.cursor);
                }
            }
        },
        _ => {},
    }
}

/// Reading children is sound.
pub proof fn lemma_children_sound(code: Seq<char>, cursor: Cursor)
    requires
        placed(code, cursor),
    ensures
        sound_step(code, cursor, children(code, cursor)),
    decreases code.len() - cursor.end, 1nat,
{
    lemma_children_from_sound(code, cursor, cursor.end, Seq::empty());
}

proof fn lemma_children_from_sound(
    code: Seq<char>,
    cursor: Cursor,
    text_start: nat,
    list: Seq<ChildView>,
)
    requires
        placed(code, cursor),
    ensures
        sound_step(code, cursor, children_from(code, cursor, text_start, list)),
    decreases code.len() - cursor.end, 0nat,
{
    lemma_advance(code, cursor);
    let next = advance(code, cursor);
    let at = next.cursor;
    if next.result is Ok {
        match at.token {
            Token::ClosingElementOpen | Token::FragmentClose => {},
            Token::ElementOpen => {
                lemma_elem_sound(code, at);
                let inner = elem(code, at);
                match inner.result {
                    Ok(e) => {
                        lemma_children_from_sound(
                            code,
                            inner.cursor,
                            inner.cursor.end,
                            with_text(list, text_start, at.start).push(ChildView::Element(e)),
                        );
                    },
                    _ => {},
                }
            },
            Token::BraceOpen => {
                lemma_assignment_expression_sound(code, at);
                let inner = assignment_expression(code, at);
                match inner.result {
                    Ok(e) => {
                        lemma_children_from_sound(
                            code,
                            inner.cursor,
                            inner.cursor.end,
                            with_text(list, text_start, at.start).push(
                                ChildView::ChildExpression(e),
                            ),
                        );
                    },
                    _ => {},
                }
            },
            _ => {
                lemma_children_from_sound(code, at, text_start, list);
            },
        }
    }
}

/// A fragment that was read, or the failure to read one, leaves the cursor
/// within the source and behind where it was.
pub proof fn lemma_fragment_sound(code: Seq<char>, cursor: Cursor)
    requires
        placed(code, cursor),
    ensures
        sound(code, cursor, fragment(code, cursor)),
        fragment(code, cursor).result is Ok ==> cursor.end < fragment(code, cursor).cursor.end,
    decreases code.len() - cursor.end, 2nat,
{
    if cursor.token == Token::FragmentOpen {
        lemma_children_sound(code, cursor);
    }
}

/// Reading a host expression is sound.
pub proof fn lemma_assignment_expression_sound(code: Seq<char>, cursor: Cursor)
    requires
        placed(code, cursor),
    ensures
        sound_step(code, cursor, assignment_expression(code, cursor)),
    decreases code.len() - cursor.end, 1nat,
{
    lemma_expression_from_sound(code, cursor, cursor.end, 0);
}

proof fn lemma_expression_from_sound(code: Seq<char>, cursor: Cursor, start: nat, depth: nat)
    requires
        placed(code, cursor),
    ensures
        sound_step(code, cursor, expression_from(code, cursor, start, depth)),
    decreases code.len() - cursor.end, 0nat,
{
    lemma_advance(code, cursor);
    let next = advance(code, cursor);
    let at = next.cursor;
    if next.result is Ok {
        match at.token {
            Token::BraceClose => {
                if depth != 0 {
                    lemma_expression_from_sound(code, at, start, (depth - 1) as nat);
                }
            },
            Token::BraceOpen => {
                lemma_expression_from_sound(code, at, start, depth + 1);
            },
            Token::ElementOpen => {
                lemma_elem_sound(code, at);
                if elem(code, at).result is Ok {
                    lemma_expression_from_sound(code, elem(code, at).cursor, start, depth);
                }
            },
            Token::FragmentOpen => {
                lemma_fragment_sound(code, at);
                if fragment(code, at).result is Ok {
                    lemma_expression_from_sound(code, fragment(code, at).cursor, start, depth);
                }
            },
            _ => {
                lemma_expression_from_sound(code, at, start, depth);
            },
        }
    }
}

/// The closing tag decides whether an element is read: with the name of the
/// opening tag the element is read, with any other name the failure is
/// `UnexpectedToken`. So an element that was read with an opening tag has a
/// closing tag of the same name.
pub proof fn lemma_closing_tag_decides(code: Seq<char>, cursor: Cursor)
    requires
        placed(code, cursor),
    ensures
        ({
            let tag = opening_or_self_closing_elem(code, cursor);
            let inner = children(code, tag.cursor);
            let close = closing_elem(code, inner.cursor);
            let read = elem(code, cursor);
            let open = tag.result->Ok_0;
            let name = close.result->Ok_0;
            &&& tag.result is Ok && !open.is_self_closing && inner.result is Ok && close.result is Ok
                ==> {
                &&& read.cursor == close.cursor
                &&& names_match(code, open.name, name) ==> read.result is Ok
                &&& !names_match(code, open.name, name) ==> read.result == Err::<
                    crate::ast::ElementExpressionView,
                    Error,
                >(Error::UnexpectedToken)
            }
            &&& read.result is Ok && !read.result->Ok_0.is_self_closing ==> {
                &&& tag.result is Ok
                &&& open.name == read.result->Ok_0.name
                &&& close.result is Ok
                &&& names_match(code, open.name, name)
            }
        }),
{
    lemma_opening_sound(code, cursor);
}

/// An element that was read is self-closing exactly when it has no list of
/// children.
pub proof fn lemma_self_closing_has_no_children(code: Seq<char>, cursor: Cursor)
    ensures
        elem(code, cursor).result matches Ok(e) ==> (e.is_self_closing <==> e.children is None),
{
}

/// A host expression whose closing brace the input does not hold fails with
/// `UnexpectedEndOfProgram`, with the lexer at the end of the input.
pub proof fn lemma_unterminated_brace(code: Seq<char>, cursor: Cursor)
    requires
        placed(code, cursor),
        cursor.token == Token::BraceOpen,
    ensures
        ({
            let read = assignment_expression(code, cursor);
            &&& read.cursor.token == Token::EndOfProgram ==> read.result == Err::<
                crate::ast::AssignmentExpression,
                Error,
            >(Error::UnexpectedEndOfProgram)
            &&& read.result == Err::<crate::ast::AssignmentExpression, Error>(
                Error::UnexpectedEndOfProgram,
            ) ==> read.cursor.end == code.len()
        }),
{
    lemma_assignment_expression_sound(code, cursor);
}

/// The top level reads on to the end of the input or to the first failure,
/// and never reports that the input has merely ended.
pub proof fn lemma_program(code: Seq<char>, cursor: Cursor, nodes: Seq<Loc<NodeView>>)
    requires
        placed(code, cursor),
    ensures
        ({
            let read = program(code, cursor, nodes);
            &&& placed(code, read.cursor)
            &&& onward(code, cursor, read.cursor)
            &&& read.result is Ok ==> read.cursor.token == Token::EndOfProgram
            &&& read.result != Err::<Seq<Loc<NodeView>>, Error>(Error::EndOfProgram)
        }),
    decreases code.len() - cursor.end,
{
    reveal_with_fuel(program, 1);
    lemma_lex_step(code, cursor);
    lemma_lex_step_placed(code, cursor);
    let next = lex_step(code, cursor);
    let at = next.cursor;
    if next.result is Ok {
        match at.token {
            Token::FragmentOpen => {
                lemma_fragment_sound(code, at);
                let inner = fragment(code, at);
                match inner.result {
                    Ok(f) => {
                        lemma_program(
                            code,
                            inner.cursor,
                            nodes.push(
                                Loc {
                                    start: at.start as usize,
                                    end: inner.cursor.end as usize,
                                    item: NodeView::Fragment(f),
                                },
                            ),
                        );
                    },
                    _ => {},
                }
            },
            Token::ElementOpen => {
                lemma_elem_sound(code, at);
                let inner = elem(code, at);
                match inner.result {
                    Ok(e) => {
                        lemma_program(
                            code,
                            inner.cursor,
                            nodes.push(
                                Loc {
                                    start: at.start as usize,
                                    end: inner.cursor.end as usize,
                                    item: NodeView::Element(e),
                                },
                            ),
                        );
                    },
                    _ => {},
                }
            },
            _ => {
                lemma_program(code, at, nodes);
            },
        }
    }
}

} // verus!
