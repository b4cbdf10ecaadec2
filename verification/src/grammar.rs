//! The grammar, as functions from a source and a cursor to the syntax that
//! is read there and the cursor behind it. Each production of the parser has
//! the function of the same name as its specification.
//!
//! A production starts with the lexer on its first token. Where it fails,
//! the cursor is left on the token that it failed at.

use crate::ast::{
    AttributeView, ChildView, ElementExpressionView, ElementNameView, FragmentExpressionView,
    NodeView, NormalAttributeInitializerView, NormalAttributeView, OpeningView,
};
use crate::ast::{AssignmentExpression, NamespacedName, NormalAttributeName, Text};
use crate::error::Error;
use crate::lex::{lemma_lex_step, lex_step, Cursor, Scan, Token};
use crate::loc::Loc;
use vstd::prelude::*;

verus! {

/// What a production yields, and where it leaves the lexer.
pub struct Outcome<T> {
    pub cursor: Cursor,
    pub result: Result<T, Error>,
}

/// `value` was read, and the lexer stands at `cursor`.
pub open spec fn done<T>(cursor: Cursor, value: T) -> Outcome<T> {
    Outcome { cursor, result: Ok(value) }
}

/// Nothing was read, for the reason `error`, and the lexer stands at `cursor`.
pub open spec fn fail<T>(cursor: Cursor, error: Error) -> Outcome<T> {
    Outcome { cursor, result: Err(error) }
}

/// The lexer's step as a production sees it: a production needs the token
/// that it asks for, so an input that ends here has ended too early.
pub open spec fn advance(code: Seq<char>, cursor: Cursor) -> Scan {
    let next = lex_step(code, cursor);
    if next.result == Err::<(), Error>(Error::EndOfProgram) {
        Scan { cursor: next.cursor, result: Err(Error::UnexpectedEndOfProgram) }
    } else {
        next
    }
}

/// The cursor `to` does not stand before `from`, nor beyond the source. This
/// holds of the cursor that any production leaves behind, as the lemmas of
/// `laws` show; the grammar asks for it where it goes on from such a cursor,
/// so that it is seen to end.
pub open spec fn onward(code: Seq<char>, from: Cursor, to: Cursor) -> bool {
    from.end <= to.end <= code.len()
}

/// The current token with its range.
pub open spec fn token_loc(cursor: Cursor) -> Loc<Token> {
    Loc { start: cursor.start as usize, end: cursor.end as usize, item: cursor.token }
}

/// The current token, which must be `token`, is passed.
pub open spec fn expect(code: Seq<char>, cursor: Cursor, token: Token) -> Scan {
    if cursor.token != token {
        Scan { cursor, result: Err(Error::UnexpectedToken) }
    } else {
        advance(code, cursor)
    }
}

/// The current token, which must be an identifier, is taken and passed.
pub open spec fn identifier(code: Seq<char>, cursor: Cursor) -> Outcome<Loc<Token>> {
    let next = expect(code, cursor, Token::Identifier);
    match next.result {
        Ok(_) => done(next.cursor, token_loc(cursor)),
        Err(e) => fail(next.cursor, e),
    }
}

/// From a `.` behind the identifiers `members`: one identifier more, and so
/// on as long as another `.` follows.
#[verifier::opaque]
pub open spec fn members(code: Seq<char>, cursor: Cursor, members: Seq<Loc<Token>>) -> Outcome<
    Seq<Loc<Token>>,
>
    decreases code.len() - cursor.end,
{
    let dot = advance(code, cursor);
    match dot.result {
        Err(e) => fail(dot.cursor, e),
        Ok(_) => {
            let member = identifier(code, dot.cursor);
            match member.result {
                Err(e) => fail(member.cursor, e),
                Ok(name) => {
                    if member.cursor.token == Token::Dit {
                        proof {
                            lemma_lex_step(code, cursor);
                            lemma_lex_step(code, dot.cursor);
                        }
                        self::members(code, member.cursor, members.push(name))
                    } else {
                        done(member.cursor, members.push(name))
                    }
                },
            }
        },
    }
}

/// From a `:` behind the identifier `ns`: the one identifier that follows.
#[verifier::opaque]
pub open spec fn namespaced(code: Seq<char>, cursor: Cursor, ns: Loc<Token>) -> Outcome<
    NamespacedName,
> {
    let colon = advance(code, cursor);
    match colon.result {
        Err(e) => fail(colon.cursor, e),
        Ok(_) => {
            let read = identifier(code, colon.cursor);
            match read.result {
                Err(e) => fail(read.cursor, e),
                Ok(name) => done(read.cursor, NamespacedName { ns, name }),
            }
        },
    }
}

/// `a`, `a:b`, or `a.b` with any number of further members.
#[verifier::opaque]
pub open spec fn elem_name(code: Seq<char>, cursor: Cursor) -> Outcome<ElementNameView> {
    let first = identifier(code, cursor);
    match first.result {
        Err(e) => fail(first.cursor, e),
        Ok(ns) => match first.cursor.token {
            Token::Dit => {
                let rest = members(code, first.cursor, seq![ns]);
                match rest.result {
                    Err(e) => fail(rest.cursor, e),
                    Ok(list) => done(rest.cursor, ElementNameView::MemberExpression(list)),
                }
            },
            Token::Colon => {
                let rest = namespaced(code, first.cursor, ns);
                match rest.result {
                    Err(e) => fail(rest.cursor, e),
                    Ok(name) => done(rest.cursor, ElementNameView::NamespacedName(name)),
                }
            },
            _ => done(first.cursor, ElementNameView::Identifier(ns)),
        },
    }
}

/// `a` or `a:b`.
#[verifier::opaque]
pub open spec fn elem_attr_name(code: Seq<char>, cursor: Cursor) -> Outcome<NormalAttributeName> {
    let first = identifier(code, cursor);
    match first.result {
        Err(e) => fail(first.cursor, e),
        Ok(ns) => match first.cursor.token {
            Token::Colon => {
                let rest = namespaced(code, first.cursor, ns);
                match rest.result {
                    Err(e) => fail(rest.cursor, e),
                    Ok(name) => done(rest.cursor, NormalAttributeName::NamespacedName(name)),
                }
            },
            _ => done(first.cursor, NormalAttributeName::Identifier(ns)),
        },
    }
}

/// `{ ...identifier }`, from the `{`.
#[verifier::opaque]
pub open spec fn spread(code: Seq<char>, cursor: Cursor) -> Outcome<Loc<Token>> {
    let open = advance(code, cursor);
    let dots = expect(code, open.cursor, Token::Spread);
    let name = identifier(code, dots.cursor);
    let close = expect(code, name.cursor, Token::BraceClose);
    match (open.result, dots.result, name.result, close.result) {
        (Err(e), _, _, _) => fail(open.cursor, e),
        (_, Err(e), _, _) => fail(dots.cursor, e),
        (_, _, Err(e), _) => fail(name.cursor, e),
        (_, _, _, Err(e)) => fail(close.cursor, e),
        (_, _, Ok(taken), _) => done(close.cursor, taken),
    }
}

/// `</name>`, from the `</` up to the `>`, which stays current.
#[verifier::opaque]
pub open spec fn closing_elem(code: Seq<char>, cursor: Cursor) -> Outcome<ElementNameView> {
    let open = expect(code, cursor, Token::ClosingElementOpen);
    let name = elem_name(code, open.cursor);
    match (open.result, name.result) {
        (Err(e), _) => fail(open.cursor, e),
        (_, Err(e)) => fail(name.cursor, e),
        (_, Ok(n)) => if name.cursor.token == Token::ElementClose {
            done(name.cursor, n)
        } else {
            fail(name.cursor, Error::UnexpectedToken)
        },
    }
}

/// The characters that a token was read from.
pub open spec fn text_of(code: Seq<char>, token: Loc<Token>) -> Seq<char> {
    code.subrange(token.start as int, token.end as int)
}

/// Two lists of tokens of one length, each token of the one read from the
/// same characters as the token at its place in the other.
pub open spec fn texts_match(code: Seq<char>, a: Seq<Loc<Token>>, b: Seq<Loc<Token>>) -> bool {
    &&& a.len() == b.len()
    &&& forall|i: int| 0 <= i < a.len() ==> text_of(code, #[trigger] a[i]) == text_of(code, b[i])
}

/// The name of a closing tag is that of its opening tag: of the same form,
/// and part for part read from the same characters.
pub open spec fn names_match(
    code: Seq<char>,
    opening: ElementNameView,
    closing: ElementNameView,
) -> bool {
    match (opening, closing) {
        (ElementNameView::Identifier(a), ElementNameView::Identifier(b)) => text_of(code, a)
            == text_of(code, b),
        (ElementNameView::NamespacedName(a), ElementNameView::NamespacedName(b)) => text_of(
            code,
            a.ns,
        ) == text_of(code, b.ns) && text_of(code, a.name) == text_of(code, b.name),
        (ElementNameView::MemberExpression(a), ElementNameView::MemberExpression(b)) => texts_match(
            code,
            a,
            b,
        ),
        _ => false,
    }
}

/// The text `[start, end)` as a child, behind `children`; nothing where it
/// is empty.
pub open spec fn with_text(children: Seq<ChildView>, start: nat, end: nat) -> Seq<ChildView> {
    if end > start {
        children.push(
            ChildView::Text(
                Loc {
                    start: start as usize,
                    end: end as usize,
                    item: Text { start: start as usize, end: end as usize },
                },
            ),
        )
    } else {
        children
    }
}

/// What stands behind an attribute's name: nothing, or `=` and a string, a
/// host expression in braces, an element or a fragment.
pub open spec fn elem_attr_value(code: Seq<char>, cursor: Cursor) -> Outcome<
    Option<NormalAttributeInitializerView>,
>
    decreases code.len() - cursor.end, 0nat,
{
    if cursor.token != Token::Assign {
        done(cursor, None)
    } else {
        let assign = advance(code, cursor);
        let at = assign.cursor;
        match assign.result {
            Err(e) => fail(at, e),
            Ok(_) => {
                proof {
                    lemma_lex_step(code, cursor);
                }
                match at.token {
                    Token::LiteralString => passed(
                        code,
                        done(at, NormalAttributeInitializerView::LiteralString(token_loc(at))),
                    ),
                    Token::BraceOpen => {
                        let inner = assignment_expression(code, at);
                        passed(
                            code,
                            Outcome {
                                cursor: inner.cursor,
                                result: match inner.result {
                                    Ok(e) => Ok(
                                        NormalAttributeInitializerView::AssignmentExpression(
                                            spanned(at, inner.cursor, e),
                                        ),
                                    ),
                                    Err(e) => Err(e),
                                },
                            },
                        )
                    },
                    Token::ElementOpen => {
                        let inner = elem(code, at);
                        passed(
                            code,
                            Outcome {
                                cursor: inner.cursor,
                                result: match inner.result {
                                    Ok(e) => Ok(
                                        NormalAttributeInitializerView::ElementExpression(
                                            spanned(at, inner.cursor, e),
                                        ),
                                    ),
                                    Err(e) => Err(e),
                                },
                            },
                        )
                    },
                    Token::FragmentOpen => {
                        let inner = fragment(code, at);
                        passed(
                            code,
                            Outcome {
                                cursor: inner.cursor,
                                result: match inner.result {
                                    Ok(e) => Ok(
                                        NormalAttributeInitializerView::FragmentExpression(
                                            spanned(at, inner.cursor, e),
                                        ),
                                    ),
                                    Err(e) => Err(e),
                                },
                            },
                        )
                    },
                    _ => fail(at, Error::UnexpectedToken),
                }
            },
        }
    }
}

/// `item`, read from the start of the token at `first` up to the end of
/// the token at `last`.
pub open spec fn spanned<T>(first: Cursor, last: Cursor, item: T) -> Loc<T> {
    Loc { start: first.start as usize, end: last.end as usize, item }
}

/// A value that was read, once the token that ends it has been passed.
pub open spec fn passed<T>(code: Seq<char>, read: Outcome<T>) -> Outcome<Option<T>> {
    match read.result {
        Err(e) => fail(read.cursor, e),
        Ok(value) => {
            let next = advance(code, read.cursor);
            match next.result {
                Err(e) => fail(next.cursor, e),
                Ok(_) => done(next.cursor, Some(value)),
            }
        },
    }
}

/// One attribute: `{ ...identifier }`, or a name and what stands behind it.
/// `None`, with nothing read, before any token that begins neither.
pub open spec fn elem_attr(code: Seq<char>, cursor: Cursor) -> Outcome<Option<AttributeView>>
    decreases code.len() - cursor.end, 1nat,
{
    match cursor.token {
        Token::BraceOpen => {
            let read = spread(code, cursor);
            match read.result {
                Err(e) => fail(read.cursor, e),
                Ok(name) => done(read.cursor, Some(AttributeView::Spread(name))),
            }
        },
        Token::Identifier => {
            let name = elem_attr_name(code, cursor);
            match name.result {
                Err(e) => fail(name.cursor, e),
                Ok(n) => {
                    proof {
                        lemma_elem_attr_name(code, cursor);
                    }
                    let value = elem_attr_value(code, name.cursor);
                    match value.result {
                        Err(e) => fail(value.cursor, e),
                        Ok(init) => done(
                            value.cursor,
                            Some(AttributeView::Normal(NormalAttributeView { name: n, init })),
                        ),
                    }
                },
            }
        },
        _ => done(cursor, None),
    }
}

/// The attributes from the cursor on, behind `attrs`, up to the first token
/// that begins none.
pub open spec fn elem_attrs(code: Seq<char>, cursor: Cursor, attrs: Seq<AttributeView>) -> Outcome<
    Seq<AttributeView>,
>
    decreases code.len() - cursor.end, 2nat,
{
    let read = elem_attr(code, cursor);
    match read.result {
        Err(e) => fail(read.cursor, e),
        Ok(None) => done(read.cursor, attrs),
        Ok(Some(attr)) => if cursor.end < read.cursor.end && onward(code, cursor, read.cursor) {
            elem_attrs(code, read.cursor, attrs.push(attr))
        } else {
            fail(read.cursor, Error::UnexpectedToken)
        },
    }
}

/// `<name attributes>` or `<name attributes/>`, from the `<` up to the `>`
/// or `/>`, which stays current.
pub open spec fn opening_or_self_closing_elem(code: Seq<char>, cursor: Cursor) -> Outcome<
    OpeningView,
>
    decreases code.len() - cursor.end, 3nat,
{
    let open = expect(code, cursor, Token::ElementOpen);
    match open.result {
        Err(e) => fail(open.cursor, e),
        Ok(_) => {
            let name = elem_name(code, open.cursor);
            match name.result {
                Err(e) => fail(name.cursor, e),
                Ok(n) => {
                    proof {
                        lemma_lex_step(code, cursor);
                        lemma_elem_name(code, open.cursor);
                    }
                    let attrs = elem_attrs(code, name.cursor, Seq::empty());
                    match attrs.result {
                        Err(e) => fail(attrs.cursor, e),
                        Ok(list) => match attrs.cursor.token {
                            Token::ElementClose => done(
                                attrs.cursor,
                                OpeningView { is_self_closing: false, name: n, attrs: list },
                            ),
                            Token::SelfClosingElementClose => done(
                                attrs.cursor,
                                OpeningView { is_self_closing: true, name: n, attrs: list },
                            ),
                            _ => fail(attrs.cursor, Error::UnexpectedToken),
                        },
                    }
                },
            }
        },
    }
}

/// An element, from its `<` up to the `/>` that ends it, or the `>` of its
/// closing tag; either stays current. An opening tag is followed by
/// children and by the closing tag of the same name.
pub open spec fn elem(code: Seq<char>, cursor: Cursor) -> Outcome<ElementExpressionView>
    decreases code.len() - cursor.end, 4nat,
{
    let tag = opening_or_self_closing_elem(code, cursor);
    match tag.result {
        Err(e) => fail(tag.cursor, e),
        Ok(open) => if open.is_self_closing {
            done(
                tag.cursor,
                ElementExpressionView {
                    is_self_closing: true,
                    name: open.name,
                    attrs: open.attrs,
                    children: None,
                },
            )
        } else if !onward(code, cursor, tag.cursor) {
            fail(tag.cursor, Error::UnexpectedToken)
        } else {
            let inner = children(code, tag.cursor);
            match inner.result {
                Err(e) => fail(inner.cursor, e),
                Ok(list) => {
                    let close = closing_elem(code, inner.cursor);
                    match close.result {
                        Err(e) => fail(close.cursor, e),
                        Ok(name) => if names_match(code, open.name, name) {
                            done(
                                close.cursor,
                                ElementExpressionView {
                                    is_self_closing: false,
                                    name: open.name,
                                    attrs: open.attrs,
                                    children: Some(list),
                                },
                            )
                        } else {
                            fail(close.cursor, Error::UnexpectedToken)
                        },
                    }
                },
            }
        },
    }
}

/// The children behind the current token, the `>` of an opening tag or a
/// `<>`, up to the `</` or `</>` that ends them, which becomes current.
pub open spec fn children(code: Seq<char>, cursor: Cursor) -> Outcome<Seq<ChildView>>
    decreases code.len() - cursor.end, 1nat,
{
    children_from(code, cursor, cursor.end, Seq::empty())
}

/// The children that follow `children`, where the text since `text_start`
/// has not been made a child yet. An element and a host expression in braces
/// are children of their own; what stands between them is text, of which
/// only the extent is kept.
pub open spec fn children_from(
    code: Seq<char>,
    cursor: Cursor,
    text_start: nat,
    children: Seq<ChildView>,
) -> Outcome<Seq<ChildView>>
    decreases code.len() - cursor.end, 0nat,
{
    let next = advance(code, cursor);
    let at = next.cursor;
    match next.result {
        Err(e) => fail(at, e),
        Ok(_) => {
            proof {
                lemma_lex_step(code, cursor);
            }
            match at.token {
                Token::ClosingElementOpen | Token::FragmentClose => done(
                    at,
                    with_text(children, text_start, at.start),
                ),
                Token::ElementOpen => {
                    let inner = elem(code, at);
                    match inner.result {
                        Err(e) => fail(inner.cursor, e),
                        Ok(e) => if onward(code, at, inner.cursor) {
                            children_from(
                                code,
                                inner.cursor,
                                inner.cursor.end,
                                with_text(children, text_start, at.start).push(
                                    ChildView::Element(e),
                                ),
                            )
                        } else {
                            fail(inner.cursor, Error::UnexpectedToken)
                        },
                    }
                },
                Token::BraceOpen => {
                    let inner = assignment_expression(code, at);
                    match inner.result {
                        Err(e) => fail(inner.cursor, e),
                        Ok(e) => if onward(code, at, inner.cursor) {
                            children_from(
                                code,
                                inner.cursor,
                                inner.cursor.end,
                                with_text(children, text_start, at.start).push(
                                    ChildView::ChildExpression(e),
                                ),
                            )
                        } else {
                            fail(inner.cursor, Error::UnexpectedToken)
                        },
                    }
                },
                _ => children_from(code, at, text_start, children),
            }
        },
    }
}

/// A fragment, from its `<>` up to its `</>`, which stays current.
pub open spec fn fragment(code: Seq<char>, cursor: Cursor) -> Outcome<FragmentExpressionView>
    decreases code.len() - cursor.end, 2nat,
{
    if cursor.token != Token::FragmentOpen {
        fail(cursor, Error::UnexpectedToken)
    } else {
        let inner = children(code, cursor);
        match inner.result {
            Err(e) => fail(inner.cursor, e),
            Ok(list) => if inner.cursor.token == Token::FragmentClose {
                done(inner.cursor, FragmentExpressionView { children: list })
            } else {
                fail(inner.cursor, Error::UnexpectedToken)
            },
        }
    }
}

/// The host expression behind the current token, a `{`, up to the `}` that
/// closes it, which becomes current. Its extent is all that is kept.
pub open spec fn assignment_expression(code: Seq<char>, cursor: Cursor) -> Outcome<
    AssignmentExpression,
>
    decreases code.len() - cursor.end, 1nat,
{
    expression_from(code, cursor, cursor.end, 0)
}

/// The rest of a host expression that started at `start`, inside `depth`
/// braces of its own that are still open. An element or a fragment in it is
/// read as one, so that the braces in it are not counted.
pub open spec fn expression_from(code: Seq<char>, cursor: Cursor, start: nat, depth: nat) -> Outcome<
    AssignmentExpression,
>
    decreases code.len() - cursor.end, 0nat,
{
    let next = advance(code, cursor);
    let at = next.cursor;
    match next.result {
        Err(e) => fail(at, e),
        Ok(_) => {
            proof {
                lemma_lex_step(code, cursor);
            }
            match at.token {
                Token::BraceClose => if depth == 0 {
                    done(
                        at,
                        AssignmentExpression { start: start as usize, end: at.start as usize },
                    )
                } else {
                    expression_from(code, at, start, (depth - 1) as nat)
                },
                Token::BraceOpen => expression_from(code, at, start, depth + 1),
                Token::ElementOpen => {
                    let inner = elem(code, at);
                    match inner.result {
                        Err(e) => fail(inner.cursor, e),
                        Ok(_) => if onward(code, at, inner.cursor) {
                            expression_from(code, inner.cursor, start, depth)
                        } else {
                            fail(inner.cursor, Error::UnexpectedToken)
                        },
                    }
                },
                Token::FragmentOpen => {
                    let inner = fragment(code, at);
                    match inner.result {
                        Err(e) => fail(inner.cursor, e),
                        Ok(_) => if onward(code, at, inner.cursor) {
                            expression_from(code, inner.cursor, start, depth)
                        } else {
                            fail(inner.cursor, Error::UnexpectedToken)
                        },
                    }
                },
                _ => expression_from(code, at, start, depth),
            }
        },
    }
}

/// The constructs of the top level from the cursor on, behind `nodes`, up to
/// the end of the input. What stands between them is passed over. Only here
/// is the end of the input no failure.
#[verifier::opaque]
pub open spec fn program(code: Seq<char>, cursor: Cursor, nodes: Seq<Loc<NodeView>>) -> Outcome<
    Seq<Loc<NodeView>>,
>
    decreases code.len() - cursor.end,
{
    let next = lex_step(code, cursor);
    let at = next.cursor;
    match next.result {
        Err(Error::EndOfProgram) => done(at, nodes),
        Err(e) => fail(at, e),
        Ok(_) => {
            proof {
                lemma_lex_step(code, cursor);
            }
            match at.token {
                Token::FragmentOpen => {
                    let inner = fragment(code, at);
                    match inner.result {
                        Err(e) => fail(inner.cursor, e),
                        Ok(f) => if onward(code, at, inner.cursor) {
                            program(
                                code,
                                inner.cursor,
                                nodes.push(
                                    Loc {
                                        start: at.start as usize,
                                        end: inner.cursor.end as usize,
                                        item: NodeView::Fragment(f),
                                    },
                                ),
                            )
                        } else {
                            fail(inner.cursor, Error::UnexpectedToken)
                        },
                    }
                },
                Token::ElementOpen => {
                    let inner = elem(code, at);
                    match inner.result {
                        Err(e) => fail(inner.cursor, e),
                        Ok(e) => if onward(code, at, inner.cursor) {
                            program(
                                code,
                                inner.cursor,
                                nodes.push(
                                    Loc {
                                        start: at.start as usize,
                                        end: inner.cursor.end as usize,
                                        item: NodeView::Element(e),
                                    },
                                ),
                            )
                        } else {
                            fail(inner.cursor, Error::UnexpectedToken)
                        },
                    }
                },
                _ => program(code, at, nodes),
            }
        },
    }
}

/// What a production returned is what the grammar reads.
pub open spec fn reads<T: View>(returned: Result<T, Error>, read: Result<T::V, Error>) -> bool {
    match returned {
        Ok(value) => read == Ok::<T::V, Error>(value@),
        Err(e) => read == Err::<T::V, Error>(e),
    }
}

/// What a production returned is what the grammar reads, where there may be
/// nothing to read.
pub open spec fn reads_option<T: View>(
    returned: Result<Option<T>, Error>,
    read: Result<Option<T::V>, Error>,
) -> bool {
    match returned {
        Ok(Some(value)) => read == Ok::<Option<T::V>, Error>(Some(value@)),
        Ok(None) => read == Ok::<Option<T::V>, Error>(None),
        Err(e) => read == Err::<Option<T::V>, Error>(e),
    }
}

/// An identifier that was taken ends behind where it starts, within the
/// source, and the cursor has moved behind it.
proof fn lemma_identifier(code: Seq<char>, cursor: Cursor)
    ensures
        identifier(code, cursor).result is Ok ==> cursor.end < identifier(code, cursor).cursor.end
            <= code.len(),
{
    lemma_lex_step(code, cursor);
}

proof fn lemma_members(code: Seq<char>, cursor: Cursor, list: Seq<Loc<Token>>)
    ensures
        members(code, cursor, list).result is Ok ==> cursor.end < members(
            code,
            cursor,
            list,
        ).cursor.end <= code.len(),
    decreases code.len() - cursor.end,
{
    reveal_with_fuel(members, 1);
    lemma_lex_step(code, cursor);
    let dot = advance(code, cursor);
    if dot.result is Ok {
        lemma_lex_step(code, dot.cursor);
        let member = identifier(code, dot.cursor);
        if member.result is Ok && member.cursor.token == Token::Dit {
            lemma_members(code, member.cursor, list.push(member.result->Ok_0));
        }
    }
}

proof fn lemma_namespaced(code: Seq<char>, cursor: Cursor, ns: Loc<Token>)
    ensures
        namespaced(code, cursor, ns).result is Ok ==> cursor.end < namespaced(
            code,
            cursor,
            ns,
        ).cursor.end <= code.len(),
{
    reveal(namespaced);
    lemma_lex_step(code, cursor);
    lemma_lex_step(code, advance(code, cursor).cursor);
}

/// A name that was read has moved the cursor on, within the source.
pub proof fn lemma_elem_name(code: Seq<char>, cursor: Cursor)
    ensures
        elem_name(code, cursor).result is Ok ==> cursor.end < elem_name(code, cursor).cursor.end
            <= code.len(),
{
    reveal(elem_name);
    lemma_identifier(code, cursor);
    let first = identifier(code, cursor);
    if first.result is Ok {
        lemma_members(code, first.cursor, seq![first.result->Ok_0]);
        lemma_namespaced(code, first.cursor, first.result->Ok_0);
    }
}

/// An attribute's name that was read has moved the cursor on, within the
/// source.
pub proof fn lemma_elem_attr_name(code: Seq<char>, cursor: Cursor)
    ensures
        elem_attr_name(code, cursor).result is Ok ==> cursor.end < elem_attr_name(
            code,
            cursor,
        ).cursor.end <= code.len(),
{
    reveal(elem_attr_name);
    lemma_identifier(code, cursor);
    let first = identifier(code, cursor);
    if first.result is Ok {
        lemma_namespaced(code, first.cursor, first.result->Ok_0);
    }
}

} // verus!
