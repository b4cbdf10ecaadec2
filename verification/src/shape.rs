//! What every tree that the grammar reads from a source looks like: each
//! range in it lies within the source, each token in it is written there at
//! its range, and an element has children exactly when it is not
//! self-closing.

use crate::ast::{
    AssignmentExpression, AttributeView, ChildView, ElementExpressionView, ElementNameView,
    FragmentExpressionView, NamespacedName, NodeView, NormalAttributeInitializerView,
    NormalAttributeName,
};
use crate::grammar::{
    advance, assignment_expression, children, children_from, closing_elem, elem, elem_attr,
    elem_attr_name, elem_attr_value, elem_attrs, elem_name, expect, expression_from, fragment,
    identifier, members, namespaced, opening_or_self_closing_elem, program, spread, text_of,
    token_loc, with_text,
};
use crate::laws::{
    lemma_advance, lemma_assignment_expression_sound, lemma_children_sound,
    lemma_elem_attr_name_sound,
    lemma_elem_attr_sound, lemma_elem_name_sound, lemma_elem_sound, lemma_expect,
    lemma_fragment_sound, lemma_identifier_sound, lemma_opening_sound,
};
use crate::lex::{
    lemma_lex_step, lemma_lex_step_placed, lex_step, placed, spelled, spells, Cursor, Token,
};
use crate::loc::Loc;
use vstd::prelude::*;

verus! {

/// `token` is a token of the kind `kind`, written in `code` at its range.
pub open spec fn token_of(code: Seq<char>, token: Loc<Token>, kind: Token) -> bool {
    &&& token.item == kind
    &&& token.within(code.len())
    &&& spells(kind, text_of(code, token))
}

/// Each of `tokens` is an identifier written in `code` at its range.
pub open spec fn identifiers(code: Seq<char>, tokens: Seq<Loc<Token>>) -> bool {
    forall|i: int| 0 <= i < tokens.len() ==> token_of(code, #[trigger] tokens[i], Token::Identifier)
}

/// Each of `tokens` ends where a later one starts, or before.
pub open spec fn in_order(tokens: Seq<Loc<Token>>) -> bool {
    forall|i: int, j: int|
        0 <= i < j < tokens.len() ==> (#[trigger] tokens[i]).end <= (#[trigger] tokens[j]).start
}

/// The range `[start, end)` of `code` begins with `<` and ends with `>`.
pub open spec fn bracketed(code: Seq<char>, start: usize, end: usize) -> bool {
    &&& start < end <= code.len()
    &&& code[start as int] == '<'
    &&& code[end - 1] == '>'
}

/// The lexer on the token `token`.
pub open spec fn cursor_on(token: Loc<Token>) -> Cursor {
    Cursor { token: token.item, start: token.start as nat, end: token.end as nat }
}

/// Behind the token `a` the source goes on with a token of the kind `by`
/// and then with the token `b`.
pub open spec fn joined(code: Seq<char>, a: Loc<Token>, b: Loc<Token>, by: Token) -> bool {
    let between = lex_step(code, cursor_on(a));
    let next = lex_step(code, between.cursor);
    &&& between.result is Ok
    &&& between.cursor.token == by
    &&& next.result is Ok
    &&& next.cursor == cursor_on(b)
}

/// Each of `tokens` is joined to the next one by a `.`.
pub open spec fn dotted(code: Seq<char>, tokens: Seq<Loc<Token>>) -> bool {
    forall|i: int, j: int|
        0 <= i && j == i + 1 && j < tokens.len() ==> joined(
            code,
            #[trigger] tokens[i],
            #[trigger] tokens[j],
            Token::Dit,
        )
}

/// Both parts are identifiers of the source, joined by a `:`.
pub open spec fn proper_namespaced(code: Seq<char>, name: NamespacedName) -> bool {
    &&& token_of(code, name.ns, Token::Identifier)
    &&& token_of(code, name.name, Token::Identifier)
    &&& name.ns.end <= name.name.start
    &&& joined(code, name.ns, name.name, Token::Colon)
}

/// The parts of a name are identifiers of the source, in the order in which
/// they stand there; a member expression has two of them or more.
pub open spec fn proper_name(code: Seq<char>, name: ElementNameView) -> bool {
    match name {
        ElementNameView::Identifier(a) => token_of(code, a, Token::Identifier),
        ElementNameView::NamespacedName(n) => proper_namespaced(code, n),
        ElementNameView::MemberExpression(m) => m.len() >= 2 && identifiers(code, m) && in_order(
            m,
        ) && dotted(code, m),
    }
}

/// The parts of an attribute's name are identifiers of the source.
pub open spec fn proper_attr_name(code: Seq<char>, name: NormalAttributeName) -> bool {
    match name {
        NormalAttributeName::Identifier(a) => token_of(code, a, Token::Identifier),
        NormalAttributeName::NamespacedName(n) => proper_namespaced(code, n),
    }
}

/// A host expression lies within the source.
pub open spec fn proper_expression(code: Seq<char>, e: AssignmentExpression) -> bool {
    e.start <= e.end <= code.len()
}

/// A string is a string literal of the source. The range of a host
/// expression is that of the expression and the two braces around it. The
/// range of an element or of a fragment is bracketed, and the element or the
/// fragment is proper in itself.
pub open spec fn proper_initializer(code: Seq<char>, init: NormalAttributeInitializerView) -> bool
    decreases init,
{
    match init {
        NormalAttributeInitializerView::LiteralString(s) => token_of(
            code,
            s,
            Token::LiteralString,
        ),
        NormalAttributeInitializerView::AssignmentExpression(e) => {
            &&& e.start + 1 == e.item.start
            &&& e.item.start <= e.item.end
            &&& e.item.end + 1 == e.end
            &&& e.end <= code.len()
            &&& code[e.start as int] == '{'
            &&& code[e.item.end as int] == '}'
        },
        NormalAttributeInitializerView::ElementExpression(e) => bracketed(code, e.start, e.end)
            && proper_element(code, e.item),
        NormalAttributeInitializerView::FragmentExpression(f) => bracketed(code, f.start, f.end)
            && proper_fragment(code, f.item),
    }
}

/// A spread names an identifier of the source; the name and the initializer
/// of any other attribute are proper.
pub open spec fn proper_attribute(code: Seq<char>, attr: AttributeView) -> bool
    decreases attr,
{
    match attr {
        AttributeView::Spread(name) => token_of(code, name, Token::Identifier),
        AttributeView::Normal(a) => proper_attr_name(code, a.name) && match a.init {
            Some(init) => proper_initializer(code, init),
            None => true,
        },
    }
}

/// Each of `attrs` is proper.
pub open spec fn proper_attributes(code: Seq<char>, attrs: Seq<AttributeView>) -> bool
    decreases attrs,
{
    forall|i: int| 0 <= i < attrs.len() ==> proper_attribute(code, #[trigger] attrs[i])
}

/// A text is not empty and lies within the source.
pub open spec fn proper_child(code: Seq<char>, child: ChildView) -> bool
    decreases child,
{
    match child {
        ChildView::Text(t) => {
            &&& t.start < t.end <= code.len()
            &&& t.item.start == t.start
            &&& t.item.end == t.end
        },
        ChildView::Element(e) => proper_element(code, e),
        ChildView::ChildExpression(e) => proper_expression(code, e),
    }
}

/// Each of `list` is proper.
pub open spec fn proper_children(code: Seq<char>, list: Seq<ChildView>) -> bool
    decreases list,
{
    forall|i: int| 0 <= i < list.len() ==> proper_child(code, #[trigger] list[i])
}

/// The children of a fragment are proper.
pub open spec fn proper_fragment(code: Seq<char>, f: FragmentExpressionView) -> bool
    decreases f,
{
    proper_children(code, f.children)
}

/// An element has a list of children exactly when it is not self-closing;
/// its name, its attributes and its children are proper.
pub open spec fn proper_element(code: Seq<char>, e: ElementExpressionView) -> bool
    decreases e,
{
    &&& proper_name(code, e.name)
    &&& proper_attributes(code, e.attrs)
    &&& e.is_self_closing <==> e.children is None
    &&& match e.children {
        Some(list) => proper_children(code, list),
        None => true,
    }
}

/// The range of a construct of the top level is bracketed, and the
/// construct is proper.
pub open spec fn proper_node(code: Seq<char>, node: Loc<NodeView>) -> bool {
    &&& bracketed(code, node.start, node.end)
    &&& match node.item {
        NodeView::Element(e) => proper_element(code, e),
        NodeView::Fragment(f) => proper_fragment(code, f),
    }
}

/// Each of `nodes` is proper.
pub open spec fn proper_nodes(code: Seq<char>, nodes: Seq<Loc<NodeView>>) -> bool {
    forall|i: int| 0 <= i < nodes.len() ==> proper_node(code, #[trigger] nodes[i])
}

/// A `<` or a `<>` begins with `<`; a `>`, a `/>` and a `</>` end with `>`.
proof fn lemma_brackets(code: Seq<char>, cursor: Cursor)
    requires
        placed(code, cursor),
    ensures
        cursor.token == Token::ElementOpen || cursor.token == Token::FragmentOpen ==> cursor.start
            < cursor.end && code[cursor.start as int] == '<',
        cursor.token == Token::ElementClose || cursor.token == Token::SelfClosingElementClose
            || cursor.token == Token::FragmentClose ==> cursor.start < cursor.end && code[cursor.end
            - 1] == '>',
        cursor.token == Token::BraceOpen ==> cursor.start + 1 == cursor.end
            && code[cursor.start as int] == '{',
        cursor.token == Token::BraceClose ==> cursor.start + 1 == cursor.end
            && code[cursor.start as int] == '}',
{
    reveal(spelled);
    let text = code.subrange(cursor.start as int, cursor.end as int);
    if cursor.token != Token::EndOfProgram && cursor.token != Token::UnexpectedToken {
        assert(spells(cursor.token, text));
        if text.len() > 0 {
            assert(text[0] == code[cursor.start as int]);
            assert(text[text.len() - 1] == code[cursor.end - 1]);
        }
    }
}

/// The current token, taken with its range, is a token of the source.
proof fn lemma_token_loc(code: Seq<char>, cursor: Cursor)
    requires
        placed(code, cursor),
        code.len() <= usize::MAX,
        cursor.token != Token::EndOfProgram,
        cursor.token != Token::UnexpectedToken,
    ensures
        token_of(code, token_loc(cursor), cursor.token),
        token_loc(cursor).start == cursor.start,
        token_loc(cursor).end == cursor.end,
{
    reveal(spelled);
}

proof fn lemma_identifier_proper(code: Seq<char>, cursor: Cursor)
    requires
        placed(code, cursor),
        code.len() <= usize::MAX,
    ensures
        identifier(code, cursor).result matches Ok(name) ==> {
            &&& token_of(code, name, Token::Identifier)
            &&& cursor_on(name) == cursor
            &&& name.end <= identifier(code, cursor).cursor.start
            &&& lex_step(code, cursor).result is Ok
            &&& lex_step(code, cursor).cursor == identifier(code, cursor).cursor
        },
{
    lemma_lex_step(code, cursor);
    if cursor.token == Token::Identifier {
        lemma_token_loc(code, cursor);
    }
}

proof fn lemma_members_proper(code: Seq<char>, cursor: Cursor, list: Seq<Loc<Token>>)
    requires
        placed(code, cursor),
        code.len() <= usize::MAX,
        identifiers(code, list),
        in_order(list),
        dotted(code, list),
        list.len() >= 1,
        list.last().end <= cursor.start,
        cursor.token == Token::Dit,
        lex_step(code, cursor_on(list.last())).result is Ok,
        lex_step(code, cursor_on(list.last())).cursor == cursor,
    ensures
        members(code, cursor, list).result matches Ok(all) ==> {
            &&& all.len() >= 2
            &&& identifiers(code, all)
            &&& in_order(all)
            &&& dotted(code, all)
        },
    decreases code.len() - cursor.end,
{
    reveal_with_fuel(members, 1);
    lemma_advance(code, cursor);
    lemma_lex_step(code, cursor);
    let dot = advance(code, cursor);
    if dot.result is Ok {
        lemma_identifier_sound(code, dot.cursor);
        lemma_identifier_proper(code, dot.cursor);
        let member = identifier(code, dot.cursor);
        match member.result {
            Ok(name) => {
                let longer = list.push(name);
                assert(identifiers(code, longer));
                assert(in_order(longer)) by {
                    assert forall|i: int, j: int| 0 <= i < j < longer.len() implies (
                    #[trigger] longer[i]).end <= (#[trigger] longer[j]).start by {
                        if j == list.len() {
                            assert(list[i].within(code.len()));
                            assert(list.last().within(code.len()));
                            if i < list.len() - 1 {
                                assert(list[i].end <= list[list.len() - 1].start);
                            }
                        } else {
                            assert(list[i].end <= list[j].start);
                        }
                    }
                }
                assert(dotted(code, longer)) by {
                    assert forall|i: int, j: int|
                        0 <= i && j == i + 1 && j < longer.len() implies joined(
                        code,
                        #[trigger] longer[i],
                        #[trigger] longer[j],
                        Token::Dit,
                    ) by {
                        if j < list.len() {
                            assert(joined(code, list[i], list[j], Token::Dit));
                        }
                    }
                }
                if member.cursor.token == Token::Dit {
                    lemma_members_proper(code, member.cursor, longer);
                }
            },
            _ => {},
        }
    }
}

proof fn lemma_namespaced_proper(code: Seq<char>, cursor: Cursor, ns: Loc<Token>)
    requires
        placed(code, cursor),
        code.len() <= usize::MAX,
        token_of(code, ns, Token::Identifier),
        ns.end <= cursor.start,
        cursor.token == Token::Colon,
        lex_step(code, cursor_on(ns)).result is Ok,
        lex_step(code, cursor_on(ns)).cursor == cursor,
    ensures
        namespaced(code, cursor, ns).result matches Ok(name) ==> proper_namespaced(code, name),
{
    reveal(namespaced);
    lemma_advance(code, cursor);
    lemma_lex_step(code, cursor);
    if advance(code, cursor).result is Ok {
        lemma_identifier_proper(code, advance(code, cursor).cursor);
    }
}

/// The name of an element that was read is proper.
pub proof fn lemma_elem_name_proper(code: Seq<char>, cursor: Cursor)
    requires
        placed(code, cursor),
        code.len() <= usize::MAX,
    ensures
        elem_name(code, cursor).result matches Ok(name) ==> proper_name(code, name),
{
    reveal(elem_name);
    lemma_identifier_sound(code, cursor);
    lemma_identifier_proper(code, cursor);
    let first = identifier(code, cursor);
    match first.result {
        Ok(ns) => {
            assert(identifiers(code, seq![ns]));
            assert(in_order(seq![ns]));
            assert(dotted(code, seq![ns]));
            if first.cursor.token == Token::Dit {
                lemma_members_proper(code, first.cursor, seq![ns]);
            } else if first.cursor.token == Token::Colon {
                lemma_namespaced_proper(code, first.cursor, ns);
            }
        },
        _ => {},
    }
}

/// The name of an attribute that was read is proper.
pub proof fn lemma_elem_attr_name_proper(code: Seq<char>, cursor: Cursor)
    requires
        placed(code, cursor),
        code.len() <= usize::MAX,
    ensures
        elem_attr_name(code, cursor).result matches Ok(name) ==> proper_attr_name(code, name),
{
    reveal(elem_attr_name);
    lemma_identifier_sound(code, cursor);
    lemma_identifier_proper(code, cursor);
    let first = identifier(code, cursor);
    match first.result {
        Ok(ns) => {
            if first.cursor.token == Token::Colon {
                lemma_namespaced_proper(code, first.cursor, ns);
            }
        },
        _ => {},
    }
}

/// The identifier of a spread attribute that was read is one of the source.
pub proof fn lemma_spread_proper(code: Seq<char>, cursor: Cursor)
    requires
        placed(code, cursor),
        code.len() <= usize::MAX,
    ensures
        spread(code, cursor).result matches Ok(name) ==> token_of(code, name, Token::Identifier),
{
    reveal(spread);
    lemma_advance(code, cursor);
    let open = advance(code, cursor);
    if open.result is Ok {
        lemma_expect(code, open.cursor, Token::Spread);
        let dots = expect(code, open.cursor, Token::Spread);
        if dots.result is Ok {
            lemma_identifier_proper(code, dots.cursor);
        }
    }
}

/// The name in a closing tag that was read is proper.
pub proof fn lemma_closing_elem_proper(code: Seq<char>, cursor: Cursor)
    requires
        placed(code, cursor),
        code.len() <= usize::MAX,
    ensures
        closing_elem(code, cursor).result matches Ok(name) ==> proper_name(code, name),
        closing_elem(code, cursor).result is Ok ==> closing_elem(code, cursor).cursor.token
            == Token::ElementClose,
{
    reveal(closing_elem);
    lemma_expect(code, cursor, Token::ClosingElementOpen);
    let open = expect(code, cursor, Token::ClosingElementOpen);
    if open.result is Ok {
        lemma_elem_name_proper(code, open.cursor);
    }
}

/// What was read behind an attribute's name is proper.
pub proof fn lemma_elem_attr_value_proper(code: Seq<char>, cursor: Cursor)
    requires
        placed(code, cursor),
        code.len() <= usize::MAX,
    ensures
        elem_attr_value(code, cursor).result matches Ok(Some(init)) ==> proper_initializer(
            code,
            init,
        ),
    decreases code.len() - cursor.end, 0nat,
{
    if cursor.token == Token::Assign {
        lemma_advance(code, cursor);
        let assign = advance(code, cursor);
        let at = assign.cursor;
        if assign.result is Ok {
            match at.token {
                Token::LiteralString => {
                    lemma_token_loc(code, at);
                },
                Token::BraceOpen => {
                    lemma_assignment_expression_sound(code, at);
                    lemma_assignment_expression_proper(code, at);
                    lemma_brackets(code, at);
                    lemma_brackets(code, assignment_expression(code, at).cursor);
                },
                Token::ElementOpen => {
                    lemma_elem_sound(code, at);
                    lemma_elem_proper(code, at);
                },
                Token::FragmentOpen => {
                    lemma_fragment_sound(code, at);
                    lemma_fragment_proper(code, at);
                },
                _ => {},
            }
        }
    }
}

/// An attribute that was read is proper.
pub proof fn lemma_elem_attr_proper(code: Seq<char>, cursor: Cursor)
    requires
        placed(code, cursor),
        code.len() <= usize::MAX,
    ensures
        elem_attr(code, cursor).result matches Ok(Some(attr)) ==> proper_attribute(code, attr),
    decreases code.len() - cursor.end, 1nat,
{
    match cursor.token {
        Token::BraceOpen => {
            lemma_spread_proper(code, cursor);
        },
        Token::Identifier => {
            lemma_elem_attr_name_sound(code, cursor);
            lemma_elem_attr_name_proper(code, cursor);
            let name = elem_attr_name(code, cursor);
            if name.result is Ok {
                lemma_elem_attr_value_proper(code, name.cursor);
            }
        },
        _ => {},
    }
}

proof fn lemma_elem_attrs_proper(code: Seq<char>, cursor: Cursor, attrs: Seq<AttributeView>)
    requires
        placed(code, cursor),
        code.len() <= usize::MAX,
        proper_attributes(code, attrs),
    ensures
        elem_attrs(code, cursor, attrs).result matches Ok(all) ==> proper_attributes(code, all),
    decreases code.len() - cursor.end, 2nat,
{
    lemma_elem_attr_sound(code, cursor);
    lemma_elem_attr_proper(code, cursor);
    let read = elem_attr(code, cursor);
    match read.result {
        Ok(Some(attr)) => {
            assert(proper_attributes(code, attrs.push(attr)));
            lemma_elem_attrs_proper(code, read.cursor, attrs.push(attr));
        },
        _ => {},
    }
}

/// The name and the attributes of a tag that was read are proper.
pub proof fn lemma_opening_proper(code: Seq<char>, cursor: Cursor)
    requires
        placed(code, cursor),
        code.len() <= usize::MAX,
    ensures
        opening_or_self_closing_elem(code, cursor).result matches Ok(tag) ==> {
            let last = opening_or_self_closing_elem(code, cursor).cursor;
            &&& proper_name(code, tag.name)
            &&& proper_attributes(code, tag.attrs)
            &&& cursor.token == Token::ElementOpen
            &&& last.token == if tag.is_self_closing {
                Token::SelfClosingElementClose
            } else {
                Token::ElementClose
            }
        },
    decreases code.len() - cursor.end, 3nat,
{
    lemma_expect(code, cursor, Token::ElementOpen);
    let open = expect(code, cursor, Token::ElementOpen);
    if open.result is Ok {
        lemma_elem_name_sound(code, open.cursor);
        lemma_elem_name_proper(code, open.cursor);
        let name = elem_name(code, open.cursor);
        if name.result is Ok {
            assert(proper_attributes(code, Seq::empty()));
            lemma_elem_attrs_proper(code, name.cursor, Seq::empty());
        }
    }
}

/// An element that was read is proper, and was read from a bracketed
/// range: from the start of the token that was current to the end of the
/// token that is.
pub proof fn lemma_elem_proper(code: Seq<char>, cursor: Cursor)
    requires
        placed(code, cursor),
        code.len() <= usize::MAX,
    ensures
        elem(code, cursor).result matches Ok(e) ==> {
            &&& proper_element(code, e)
            &&& bracketed(code, cursor.start as usize, elem(code, cursor).cursor.end as usize)
        },
    decreases code.len() - cursor.end, 4nat,
{
    lemma_elem_sound(code, cursor);
    lemma_opening_sound(code, cursor);
    lemma_opening_proper(code, cursor);
    lemma_brackets(code, cursor);
    lemma_brackets(code, elem(code, cursor).cursor);
    let tag = opening_or_self_closing_elem(code, cursor);
    match tag.result {
        Ok(open) => {
            if !open.is_self_closing {
                lemma_children_proper(code, tag.cursor);
                lemma_children_sound(code, tag.cursor);
                lemma_closing_elem_proper(code, children(code, tag.cursor).cursor);
            }
        },
        _ => {},
    }
}

/// Children that were read are proper.
pub proof fn lemma_children_proper(code: Seq<char>, cursor: Cursor)
    requires
        placed(code, cursor),
        code.len() <= usize::MAX,
    ensures
        children(code, cursor).result matches Ok(list) ==> proper_children(code, list),
    decreases code.len() - cursor.end, 1nat,
{
    assert(proper_children(code, Seq::empty()));
    lemma_children_from_proper(code, cursor, cursor.end, Seq::empty());
}

proof fn lemma_children_from_proper(
    code: Seq<char>,
    cursor: Cursor,
    text_start: nat,
    list: Seq<ChildView>,
)
    requires
        placed(code, cursor),
        code.len() <= usize::MAX,
        proper_children(code, list),
    ensures
        children_from(code, cursor, text_start, list).result matches Ok(all) ==> proper_children(
            code,
            all,
        ),
    decreases code.len() - cursor.end, 0nat,
{
    lemma_advance(code, cursor);
    let next = advance(code, cursor);
    let at = next.cursor;
    if next.result is Ok {
        let flushed = with_text(list, text_start, at.start);
        assert(proper_children(code, flushed));
        match at.token {
            Token::ClosingElementOpen | Token::FragmentClose => {},
            Token::ElementOpen => {
                lemma_elem_sound(code, at);
                lemma_elem_proper(code, at);
                let inner = elem(code, at);
                match inner.result {
                    Ok(e) => {
                        let longer = flushed.push(ChildView::Element(e));
                        assert(proper_children(code, longer));
                        lemma_children_from_proper(code, inner.cursor, inner.cursor.end, longer);
                    },
                    _ => {},
                }
            },
            Token::BraceOpen => {
                lemma_assignment_expression_sound(code, at);
                lemma_assignment_expression_proper(code, at);
                let inner = assignment_expression(code, at);
                match inner.result {
                    Ok(e) => {
                        let longer = flushed.push(ChildView::ChildExpression(e));
                        assert(proper_children(code, longer));
                        lemma_children_from_proper(code, inner.cursor, inner.cursor.end, longer);
                    },
                    _ => {},
                }
            },
            _ => {
                lemma_children_from_proper(code, at, text_start, list);
            },
        }
    }
}

/// A fragment that was read is proper, and was read from a bracketed
/// range: from the start of the token that was current to the end of the
/// token that is.
pub proof fn lemma_fragment_proper(code: Seq<char>, cursor: Cursor)
    requires
        placed(code, cursor),
        code.len() <= usize::MAX,
    ensures
        fragment(code, cursor).result matches Ok(f) ==> {
            &&& proper_fragment(code, f)
            &&& bracketed(code, cursor.start as usize, fragment(code, cursor).cursor.end as usize)
        },
    decreases code.len() - cursor.end, 2nat,
{
    lemma_fragment_sound(code, cursor);
    lemma_brackets(code, cursor);
    lemma_brackets(code, fragment(code, cursor).cursor);
    if cursor.token == Token::FragmentOpen {
        lemma_children_proper(code, cursor);
    }
}

/// A host expression that was read starts behind its opening brace and
/// ends before its closing brace, which is the current token.
pub proof fn lemma_assignment_expression_proper(code: Seq<char>, cursor: Cursor)
    requires
        placed(code, cursor),
        code.len() <= usize::MAX,
    ensures
        assignment_expression(code, cursor).result matches Ok(e) ==> {
            let last = assignment_expression(code, cursor).cursor;
            &&& proper_expression(code, e)
            &&& e.start == cursor.end
            &&& e.end == last.start
            &&& last.token == Token::BraceClose
            &&& last.end == last.start + 1
        },
    decreases code.len() - cursor.end, 1nat,
{
    lemma_expression_from_proper(code, cursor, cursor.end, 0);
}

proof fn lemma_expression_from_proper(code: Seq<char>, cursor: Cursor, start: nat, depth: nat)
    requires
        placed(code, cursor),
        code.len() <= usize::MAX,
        start <= cursor.end,
    ensures
        expression_from(code, cursor, start, depth).result matches Ok(e) ==> {
            let last = expression_from(code, cursor, start, depth).cursor;
            &&& proper_expression(code, e)
            &&& e.start == start
            &&& e.end == last.start
            &&& last.token == Token::BraceClose
            &&& last.end == last.start + 1
        },
    decreases code.len() - cursor.end, 0nat,
{
    lemma_advance(code, cursor);
    lemma_lex_step(code, cursor);
    let next = advance(code, cursor);
    let at = next.cursor;
    if next.result is Ok {
        match at.token {
            Token::BraceClose => {
                if depth == 0 {
                    lemma_token_loc(code, at);
                    assert(text_of(code, token_loc(at)).len() == 1);
                } else {
                    lemma_expression_from_proper(code, at, start, (depth - 1) as nat);
                }
            },
            Token::BraceOpen => {
                lemma_expression_from_proper(code, at, start, depth + 1);
            },
            Token::ElementOpen => {
                lemma_elem_sound(code, at);
                if elem(code, at).result is Ok {
                    lemma_expression_from_proper(code, elem(code, at).cursor, start, depth);
                }
            },
            Token::FragmentOpen => {
                lemma_fragment_sound(code, at);
                if fragment(code, at).result is Ok {
                    lemma_expression_from_proper(code, fragment(code, at).cursor, start, depth);
                }
            },
            _ => {
                lemma_expression_from_proper(code, at, start, depth);
            },
        }
    }
}

/// The constructs of the top level that were read are proper.
pub proof fn lemma_program_proper(code: Seq<char>, cursor: Cursor, nodes: Seq<Loc<NodeView>>)
    requires
        placed(code, cursor),
        code.len() <= usize::MAX,
        proper_nodes(code, nodes),
    ensures
        program(code, cursor, nodes).result matches Ok(all) ==> proper_nodes(code, all),
    decreases code.len() - cursor.end,
{
    reveal_with_fuel(program, 1);
    lemma_lex_step(code, cursor);
    lemma_lex_step_placed(code, cursor);
    let next = lex_step(code, cursor);
    let at = next.cursor;
    if next.result is Ok {
        match at.token {
            Token::FragmentOpen => {
                lemma_fragment_sound(code, at);
                lemma_fragment_proper(code, at);
                let inner = fragment(code, at);
                match inner.result {
                    Ok(f) => {
                        let longer = nodes.push(
                            Loc {
                                start: at.start as usize,
                                end: inner.cursor.end as usize,
                                item: NodeView::Fragment(f),
                            },
                        );
                        assert(proper_nodes(code, longer));
                        lemma_program_proper(code, inner.cursor, longer);
                    },
                    _ => {},
                }
            },
            Token::ElementOpen => {
                lemma_elem_sound(code, at);
                lemma_elem_proper(code, at);
                let inner = elem(code, at);
                match inner.result {
                    Ok(e) => {
                        let longer = nodes.push(
                            Loc {
                                start: at.start as usize,
                                end: inner.cursor.end as usize,
                                item: NodeView::Element(e),
                            },
                        );
                        assert(proper_nodes(code, longer));
                        lemma_program_proper(code, inner.cursor, longer);
                    },
                    _ => {},
                }
            },
            _ => {
                lemma_program_proper(code, at, nodes);
            },
        }
    }
}

} // verus!
