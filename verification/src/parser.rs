//! The recursive-descent parser: one function for each production of the
//! grammar, each reading from the lexer's current token on.

use crate::ast::{
    attributes_view, children_view, lemma_attributes_push, lemma_children_push, nodes_view,
    tokens_within,
};
use crate::ast::{
    AssignmentExpression, Attribute, Child, ClosingElement, ElementExpression, ElementName,
    FragmentExpression, MemberExpression, NamespacedName, Node, NormalAttribute,
    NormalAttributeInitializer, NormalAttributeName, OpeningOrSelfClosingElement, Text,
};
use crate::ast::{AttributeView, ChildView, ElementNameView, NodeView};
use crate::error::Error;
use crate::grammar;
use crate::grammar::{reads, reads_option, text_of};
use crate::laws::{
    lemma_advance, lemma_assignment_expression_sound, lemma_elem_attr_name_sound,
    lemma_elem_attr_sound, lemma_elem_name_sound, lemma_elem_sound, lemma_expect,
    lemma_fragment_sound, lemma_opening_sound, lemma_program,
};
use crate::lex::{lemma_lex_step, lemma_lex_step_placed, placed, Cursor, Lexer, Token};
use crate::loc::Loc;
use crate::shape::{
    lemma_closing_elem_proper, lemma_elem_proper, lemma_fragment_proper, lemma_opening_proper,
    lemma_program_proper, proper_element, proper_fragment, proper_nodes,
};
use vstd::prelude::*;

verus! {

/// Reads the markup of a source into a tree.
pub struct Parser<'a> {
    lexer: Lexer<'a>,
    /// The constructs of the top level that `parse` has read.
    pub body: Vec<Loc<Node>>,
}

/// Whether two runs of characters are the same.
fn same_chars(a: &[char], b: &[char]) -> (r: bool)
    ensures
        r == (a@ == b@),
{
    if a.len() != b.len() {
        return false;
    }
    let mut i: usize = 0;
    while i < a.len()
        invariant
            a@.len() == b@.len(),
            i <= a@.len(),
            forall|j: int| 0 <= j < i ==> a@[j] == b@[j],
        decreases a@.len() - i,
    {
        if a[i] != b[i] {
            return false;
        }
        i += 1;
    }
    assert(a@ =~= b@);
    true
}

impl<'a> Parser<'a> {
    /// The characters that this parser reads.
    pub closed spec fn source(&self) -> Seq<char> {
        self.lexer.source()
    }

    /// Where the lexer stands.
    pub closed spec fn cursor(&self) -> Cursor {
        self.lexer@
    }

    /// What `body` holds.
    pub closed spec fn nodes(&self) -> Seq<Loc<NodeView>> {
        nodes_view(self.body@)
    }

    /// The lexer stands where lexing the source has brought it.
    pub closed spec fn wf(&self) -> bool {
        self.lexer.wf() && placed(self.lexer.source(), self.lexer@)
    }

    /// This parser is `before` with the lexer moved to `cursor`.
    pub open spec fn moved(&self, before: Self, cursor: Cursor) -> bool {
        &&& self.wf()
        &&& self.source() == before.source()
        &&& self.nodes() == before.nodes()
        &&& self.cursor() == cursor
    }

    /// The current token of a parser is written in its source at the
    /// token's range.
    pub proof fn lemma_wf(&self)
        requires
            self.wf(),
        ensures
            placed(self.source(), self.cursor()),
            self.source().len() <= usize::MAX,
    {
        self.lexer.lemma_wf();
    }

    /// A parser at the start of `code`, with no token read yet and an empty
    /// `body`.
    pub fn new(code: &'a [char]) -> (parser: Self)
        ensures
            parser.wf(),
            parser.source() == code@,
            parser.nodes() == Seq::<Loc<NodeView>>::empty(),
            parser.cursor().start == 0,
            parser.cursor().end == 0,
            parser.cursor().token == if code@.len() == 0 {
                Token::EndOfProgram
            } else {
                Token::UnexpectedToken
            },
    {
        let parser = Parser { lexer: Lexer::new(code), body: Vec::new() };
        assert(parser.nodes() =~= Seq::<Loc<NodeView>>::empty());
        parser
    }

    /// The constructs of the top level that have been read.
    pub fn body(&self) -> (r: &Vec<Loc<Node>>)
        ensures
            nodes_view(r@) == self.nodes(),
    {
        &self.body
    }

    /// The current token.
    pub fn token(&self) -> (r: Token)
        ensures
            r == self.cursor().token,
    {
        self.lexer.token()
    }

    /// The range of the current token: after a failure, where it occurred.
    pub fn loc(&self) -> (r: (usize, usize))
        ensures
            r.0 == self.cursor().start,
            r.1 == self.cursor().end,
    {
        self.lexer.loc()
    }

    /// Moves the lexer to the token that a production needs next. That the
    /// input ends here is a failure of its own kind.
    pub fn advance(&mut self) -> (r: Result<(), Error>)
        requires
            old(self).wf(),
        ensures
            final(self).moved(
                *old(self),
                grammar::advance(old(self).source(), old(self).cursor()).cursor,
            ),
            r == grammar::advance(old(self).source(), old(self).cursor()).result,
    {
        proof {
            lemma_lex_step_placed(self.source(), self.cursor());
        }
        match self.lexer.consume() {
            Err(Error::EndOfProgram) => Err(Error::UnexpectedEndOfProgram),
            r => r,
        }
    }

    /// Passes the current token, which must be `token`.
    fn expect(&mut self, token: Token) -> (r: Result<(), Error>)
        requires
            old(self).wf(),
        ensures
            final(self).moved(
                *old(self),
                grammar::expect(old(self).source(), old(self).cursor(), token).cursor,
            ),
            r == grammar::expect(old(self).source(), old(self).cursor(), token).result,
    {
        if self.lexer.token() != token {
            return Err(Error::UnexpectedToken);
        }
        self.advance()
    }

    /// Takes the current token, which must be an identifier, and passes it.
    fn identifier(&mut self) -> (r: Result<Loc<Token>, Error>)
        requires
            old(self).wf(),
        ensures
            final(self).moved(
                *old(self),
                grammar::identifier(old(self).source(), old(self).cursor()).cursor,
            ),
            r == grammar::identifier(old(self).source(), old(self).cursor()).result,
    {
        let name = Loc::new(self.lexer.start(), self.lexer.end(), self.lexer.token());
        self.expect(Token::Identifier)?;
        Ok(name)
    }

    /// Reads the members behind `first`, from the `.` that follows it.
    fn members(&mut self, first: Loc<Token>) -> (r: Result<Vec<Loc<Token>>, Error>)
        requires
            old(self).wf(),
        ensures
            final(self).moved(
                *old(self),
                grammar::members(old(self).source(), old(self).cursor(), seq![first]).cursor,
            ),
            match r {
                Ok(list) => grammar::members(
                    old(self).source(),
                    old(self).cursor(),
                    seq![first],
                ).result == Ok::<Seq<Loc<Token>>, Error>(list@),
                Err(e) => grammar::members(
                    old(self).source(),
                    old(self).cursor(),
                    seq![first],
                ).result == Err::<Seq<Loc<Token>>, Error>(e),
            },
    {
        let ghost goal = grammar::members(self.source(), self.cursor(), seq![first]);
        let mut list: Vec<Loc<Token>> = Vec::new();
        list.push(first);
        assert(list@ =~= seq![first]);
        loop
            invariant
                self.moved(*old(self), self.cursor()),
                goal == grammar::members(old(self).source(), old(self).cursor(), seq![first]),
                grammar::members(self.source(), self.cursor(), list@) == goal,
            decreases self.source().len() - self.cursor().end,
        {
            proof {
                reveal_with_fuel(grammar::members, 1);
                lemma_lex_step(self.source(), self.cursor());
                lemma_lex_step(
                    self.source(),
                    grammar::advance(self.source(), self.cursor()).cursor,
                );
            }
            self.advance()?;
            let member = self.identifier()?;
            list.push(member);
            if self.lexer.token() != Token::Dit {
                return Ok(list);
            }
        }
    }

    /// Reads the name behind the namespace `ns`, from the `:` that follows it.
    fn namespaced(&mut self, ns: Loc<Token>) -> (r: Result<NamespacedName, Error>)
        requires
            old(self).wf(),
        ensures
            final(self).moved(
                *old(self),
                grammar::namespaced(old(self).source(), old(self).cursor(), ns).cursor,
            ),
            r == grammar::namespaced(old(self).source(), old(self).cursor(), ns).result,
    {
        proof {
            reveal(grammar::namespaced);
        }
        self.advance()?;
        let name = self.identifier()?;
        Ok(NamespacedName { ns, name })
    }

    /// Reads the name of an element: `a`, `a:b` or `a.b.c`.
    pub fn parse_elem_name(&mut self) -> (r: Result<ElementName, Error>)
        requires
            old(self).wf(),
        ensures
            final(self).moved(
                *old(self),
                grammar::elem_name(old(self).source(), old(self).cursor()).cursor,
            ),
            reads(r, grammar::elem_name(old(self).source(), old(self).cursor()).result),
    {
        proof {
            reveal(grammar::elem_name);
        }
        let ns = self.identifier()?;
        match self.lexer.token() {
            Token::Dit => {
                let members = self.members(ns)?;
                Ok(ElementName::MemberExpression(MemberExpression { members }))
            },
            Token::Colon => {
                let name = self.namespaced(ns)?;
                Ok(ElementName::NamespacedName(name))
            },
            _ => Ok(ElementName::Identifier(ns)),
        }
    }

    /// Reads the name of an attribute: `a` or `a:b`.
    pub fn parse_elem_attr_name(&mut self) -> (r: Result<NormalAttributeName, Error>)
        requires
            old(self).wf(),
        ensures
            final(self).moved(
                *old(self),
                grammar::elem_attr_name(old(self).source(), old(self).cursor()).cursor,
            ),
            r == grammar::elem_attr_name(old(self).source(), old(self).cursor()).result,
    {
        proof {
            reveal(grammar::elem_attr_name);
        }
        let ns = self.identifier()?;
        match self.lexer.token() {
            Token::Colon => {
                let name = self.namespaced(ns)?;
                Ok(NormalAttributeName::NamespacedName(name))
            },
            _ => Ok(NormalAttributeName::Identifier(ns)),
        }
    }

    /// Reads `{ ...identifier }` from its `{`.
    fn spread(&mut self) -> (r: Result<Loc<Token>, Error>)
        requires
            old(self).wf(),
        ensures
            final(self).moved(
                *old(self),
                grammar::spread(old(self).source(), old(self).cursor()).cursor,
            ),
            r == grammar::spread(old(self).source(), old(self).cursor()).result,
    {
        proof {
            reveal(grammar::spread);
        }
        self.advance()?;
        self.expect(Token::Spread)?;
        let name = self.identifier()?;
        self.expect(Token::BraceClose)?;
        Ok(name)
    }

    /// Reads a closing tag, `</name>`, up to its `>`.
    pub fn parse_closing_elem(&mut self) -> (r: Result<ClosingElement, Error>)
        requires
            old(self).wf(),
        ensures
            final(self).moved(
                *old(self),
                grammar::closing_elem(old(self).source(), old(self).cursor()).cursor,
            ),
            reads(r, grammar::closing_elem(old(self).source(), old(self).cursor()).result),
    {
        proof {
            reveal(grammar::closing_elem);
        }
        self.expect(Token::ClosingElementOpen)?;
        let name = self.parse_elem_name()?;
        if self.lexer.token() != Token::ElementClose {
            return Err(Error::UnexpectedToken);
        }
        Ok(ClosingElement { name })
    }

    /// Whether the text of two tokens is the same.
    fn same_text(&self, a: &Loc<Token>, b: &Loc<Token>) -> (r: bool)
        requires
            self.wf(),
            a.within(self.source().len()),
            b.within(self.source().len()),
        ensures
            r == (text_of(self.source(), *a) == text_of(self.source(), *b)),
    {
        same_chars(self.lexer.slice_source(a.start, a.end), self.lexer.slice_source(b.start, b.end))
    }

    /// Whether the name of a closing tag is that of the opening tag.
    fn names_match(&self, opening: &ElementName, closing: &ElementName) -> (r: bool)
        requires
            self.wf(),
            opening@.within(self.source().len()),
            closing@.within(self.source().len()),
        ensures
            r == grammar::names_match(self.source(), opening@, closing@),
    {
        match opening {
            ElementName::Identifier(a) => match closing {
                ElementName::Identifier(b) => self.same_text(a, b),
                _ => false,
            },
            ElementName::NamespacedName(a) => match closing {
                ElementName::NamespacedName(b) => self.same_text(&a.ns, &b.ns) && self.same_text(
                    &a.name,
                    &b.name,
                ),
                _ => false,
            },
            ElementName::MemberExpression(a) => match closing {
                ElementName::MemberExpression(b) => {
                    if a.members.len() != b.members.len() {
                        return false;
                    }
                    let mut i: usize = 0;
                    while i < a.members.len()
                        invariant
                            self.wf(),
                            opening@.within(self.source().len()),
                            closing@.within(self.source().len()),
                            opening@ == ElementNameView::MemberExpression(a.members@),
                            closing@ == ElementNameView::MemberExpression(b.members@),
                            a.members@.len() == b.members@.len(),
                            i <= a.members@.len(),
                            tokens_within(a.members@, self.source().len()),
                            tokens_within(b.members@, self.source().len()),
                            forall|j: int|
                                0 <= j < i ==> text_of(self.source(), #[trigger] a.members@[j])
                                    == text_of(self.source(), b.members@[j]),
                        decreases a.members@.len() - i,
                    {
                        if !self.same_text(&a.members[i], &b.members[i]) {
                            return false;
                        }
                        i += 1;
                    }
                    true
                },
                _ => false,
            },
        }
    }

    /// Reads the host expression behind the current `{`, up to the `}` that
    /// closes it. Braces in it are counted; an element or a fragment in it
    /// is read as one.
    pub fn parse_assignment_expression(&mut self) -> (r: Result<AssignmentExpression, Error>)
        requires
            old(self).wf(),
            old(self).cursor().token == Token::BraceOpen,
        ensures
            final(self).moved(
                *old(self),
                grammar::assignment_expression(old(self).source(), old(self).cursor()).cursor,
            ),
            r == grammar::assignment_expression(old(self).source(), old(self).cursor()).result,
        decreases old(self).source().len() - old(self).cursor().end, 1nat,
    {
        let ghost goal = grammar::assignment_expression(self.source(), self.cursor());
        let start = self.lexer.end();
        let mut depth: usize = 0;
        loop
            invariant
                self.moved(*old(self), self.cursor()),
                goal == grammar::assignment_expression(old(self).source(), old(self).cursor()),
                grammar::expression_from(self.source(), self.cursor(), start as nat, depth as nat)
                    == goal,
                old(self).cursor().end <= self.cursor().end,
                depth <= self.cursor().end,
            decreases self.source().len() - self.cursor().end,
        {
            proof {
                self.lemma_wf();
                lemma_advance(self.source(), self.cursor());
            }
            self.advance()?;
            proof {
                self.lemma_wf();
                lemma_elem_sound(self.source(), self.cursor());
                lemma_fragment_sound(self.source(), self.cursor());
            }
            match self.lexer.token() {
                Token::BraceClose => {
                    if depth == 0 {
                        return Ok(AssignmentExpression { start, end: self.lexer.start() });
                    }
                    depth -= 1;
                },
                Token::BraceOpen => {
                    depth += 1;
                },
                Token::ElementOpen => {
                    let _ = self.parse_elem()?;
                },
                Token::FragmentOpen => {
                    let _ = self.parse_fragment()?;
                },
                _ => {},
            }
        }
    }

    /// Reads what stands behind an attribute's name: nothing, or `=` and a
    /// string, a host expression in braces, an element or a fragment.
    #[verifier::rlimit(25)]
    pub fn parse_elem_attr_value(&mut self) -> (r: Result<
        Option<NormalAttributeInitializer>,
        Error,
    >)
        requires
            old(self).wf(),
        ensures
            final(self).moved(
                *old(self),
                grammar::elem_attr_value(old(self).source(), old(self).cursor()).cursor,
            ),
            reads_option(
                r,
                grammar::elem_attr_value(old(self).source(), old(self).cursor()).result,
            ),
        decreases old(self).source().len() - old(self).cursor().end, 0nat,
    {
        if self.lexer.token() != Token::Assign {
            return Ok(None);
        }
        proof {
            self.lemma_wf();
            lemma_advance(self.source(), self.cursor());
        }
        self.advance()?;
        proof {
            self.lemma_wf();
        }
        match self.lexer.token() {
            Token::LiteralString => {
                let (start, end) = self.lexer.loc();
                let init = NormalAttributeInitializer::LiteralString(
                    Loc::new(start, end, self.lexer.token()),
                );
                self.advance()?;
                Ok(Some(init))
            },
            Token::BraceOpen => {
                let start = self.lexer.start();
                let expression = self.parse_assignment_expression()?;
                proof {
                    self.lemma_wf();
                }
                let (_, end) = self.lexer.loc();
                let init = NormalAttributeInitializer::AssignmentExpression(
                    Loc::new(start, end, expression),
                );
                self.advance()?;
                Ok(Some(init))
            },
            Token::ElementOpen => {
                let start = self.lexer.start();
                let elem = self.parse_elem()?;
                proof {
                    self.lemma_wf();
                }
                let (_, end) = self.lexer.loc();
                let init = NormalAttributeInitializer::ElementExpression(
                    Loc::new(start, end, elem),
                );
                self.advance()?;
                Ok(Some(init))
            },
            Token::FragmentOpen => {
                let start = self.lexer.start();
                let fragment = self.parse_fragment()?;
                proof {
                    self.lemma_wf();
                }
                let (_, end) = self.lexer.loc();
                let init = NormalAttributeInitializer::FragmentExpression(
                    Loc::new(start, end, fragment),
                );
                self.advance()?;
                Ok(Some(init))
            },
            _ => Err(Error::UnexpectedToken),
        }
    }

    /// Reads one attribute: `{ ...identifier }`, or a name and what stands
    /// behind it. `None`, with nothing read, where the current token begins
    /// neither: that is how a list of attributes ends.
    pub fn parse_elem_attr(&mut self) -> (r: Result<Option<Attribute>, Error>)
        requires
            old(self).wf(),
        ensures
            final(self).moved(
                *old(self),
                grammar::elem_attr(old(self).source(), old(self).cursor()).cursor,
            ),
            reads_option(r, grammar::elem_attr(old(self).source(), old(self).cursor()).result),
        decreases old(self).source().len() - old(self).cursor().end, 1nat,
    {
        match self.lexer.token() {
            Token::BraceOpen => {
                let name = self.spread()?;
                Ok(Some(Attribute::Spread(name)))
            },
            Token::Identifier => {
                proof {
                    self.lemma_wf();
                    lemma_elem_attr_name_sound(self.source(), self.cursor());
                }
                let name = self.parse_elem_attr_name()?;
                let init = self.parse_elem_attr_value()?;
                Ok(Some(Attribute::Normal(NormalAttribute { name, init })))
            },
            _ => Ok(None),
        }
    }

    /// Reads attributes up to the first token that begins none.
    fn attributes(&mut self) -> (r: Result<Vec<Attribute>, Error>)
        requires
            old(self).wf(),
        ensures
            final(self).moved(
                *old(self),
                grammar::elem_attrs(old(self).source(), old(self).cursor(), Seq::empty()).cursor,
            ),
            match r {
                Ok(list) => grammar::elem_attrs(
                    old(self).source(),
                    old(self).cursor(),
                    Seq::empty(),
                ).result == Ok::<Seq<AttributeView>, Error>(attributes_view(list)),
                Err(e) => grammar::elem_attrs(
                    old(self).source(),
                    old(self).cursor(),
                    Seq::empty(),
                ).result == Err::<Seq<AttributeView>, Error>(e),
            },
        decreases old(self).source().len() - old(self).cursor().end, 2nat,
    {
        let ghost goal = grammar::elem_attrs(self.source(), self.cursor(), Seq::empty());
        let mut attrs: Vec<Attribute> = Vec::new();
        assert(attributes_view(attrs) =~= Seq::empty());
        loop
            invariant
                self.moved(*old(self), self.cursor()),
                goal == grammar::elem_attrs(old(self).source(), old(self).cursor(), Seq::empty()),
                grammar::elem_attrs(self.source(), self.cursor(), attributes_view(attrs)) == goal,
                old(self).cursor().end <= self.cursor().end,
            decreases self.source().len() - self.cursor().end,
        {
            proof {
                self.lemma_wf();
                lemma_elem_attr_sound(self.source(), self.cursor());
            }
            match self.parse_elem_attr()? {
                Some(attr) => {
                    let ghost before = attrs;
                    attrs.push(attr);
                    proof {
                        lemma_attributes_push(before, attrs, attr);
                    }
                },
                None => {
                    return Ok(attrs);
                },
            }
        }
    }

    /// Reads a tag that opens an element, or is one: `<name attributes>` or
    /// `<name attributes/>`, up to its `>` or `/>`.
    pub fn parse_opening_or_self_closing_elem(&mut self) -> (r: Result<
        OpeningOrSelfClosingElement,
        Error,
    >)
        requires
            old(self).wf(),
        ensures
            final(self).moved(
                *old(self),
                grammar::opening_or_self_closing_elem(
                    old(self).source(),
                    old(self).cursor(),
                ).cursor,
            ),
            reads(
                r,
                grammar::opening_or_self_closing_elem(
                    old(self).source(),
                    old(self).cursor(),
                ).result,
            ),
        decreases old(self).source().len() - old(self).cursor().end, 3nat,
    {
        proof {
            self.lemma_wf();
            lemma_expect(self.source(), self.cursor(), Token::ElementOpen);
        }
        self.expect(Token::ElementOpen)?;
        proof {
            self.lemma_wf();
            lemma_elem_name_sound(self.source(), self.cursor());
        }
        let name = self.parse_elem_name()?;
        let attrs = self.attributes()?;
        match self.lexer.token() {
            Token::ElementClose => Ok(OpeningOrSelfClosingElement::Opening((name, attrs))),
            Token::SelfClosingElementClose => Ok(
                OpeningOrSelfClosingElement::SelfClosing((name, attrs)),
            ),
            _ => Err(Error::UnexpectedToken),
        }
    }

    /// Reads an element, from its `<` up to the `/>` that ends it or the `>`
    /// of its closing tag. The closing tag must bear the name of the opening
    /// tag.
    pub fn parse_elem(&mut self) -> (r: Result<ElementExpression, Error>)
        requires
            old(self).wf(),
        ensures
            final(self).moved(
                *old(self),
                grammar::elem(old(self).source(), old(self).cursor()).cursor,
            ),
            reads(r, grammar::elem(old(self).source(), old(self).cursor()).result),
            r matches Ok(e) ==> proper_element(old(self).source(), e@),
        decreases old(self).source().len() - old(self).cursor().end, 4nat,
    {
        proof {
            self.lemma_wf();
            lemma_elem_proper(self.source(), self.cursor());
            lemma_opening_sound(self.source(), self.cursor());
            lemma_opening_proper(self.source(), self.cursor());
        }
        match self.parse_opening_or_self_closing_elem()? {
            OpeningOrSelfClosingElement::Opening((name, attrs)) => {
                let children = self.parse_children()?;
                proof {
                    self.lemma_wf();
                    lemma_closing_elem_proper(self.source(), self.cursor());
                }
                let closing = self.parse_closing_elem()?;
                if !self.names_match(&name, &closing.name) {
                    return Err(Error::UnexpectedToken);
                }
                Ok(
                    ElementExpression {
                        is_self_closing: false,
                        name,
                        attrs,
                        children: Some(children),
                    },
                )
            },
            OpeningOrSelfClosingElement::SelfClosing((name, attrs)) => Ok(
                ElementExpression { is_self_closing: true, name, attrs, children: None },
            ),
        }
    }

    /// Reads the children behind the current token, the `>` of an opening
    /// tag or a `<>`, up to the `</` or `</>` that ends them.
    #[verifier::rlimit(25)]
    pub fn parse_children(&mut self) -> (r: Result<Vec<Child>, Error>)
        requires
            old(self).wf(),
            old(self).cursor().token == Token::ElementClose || old(self).cursor().token
                == Token::FragmentOpen,
        ensures
            final(self).moved(
                *old(self),
                grammar::children(old(self).source(), old(self).cursor()).cursor,
            ),
            match r {
                Ok(list) => grammar::children(old(self).source(), old(self).cursor()).result
                    == Ok::<Seq<ChildView>, Error>(children_view(list)),
                Err(e) => grammar::children(old(self).source(), old(self).cursor()).result
                    == Err::<Seq<ChildView>, Error>(e),
            },
        decreases old(self).source().len() - old(self).cursor().end, 1nat,
    {
        let ghost goal = grammar::children(self.source(), self.cursor());
        let mut children: Vec<Child> = Vec::new();
        let mut text_start = self.lexer.end();
        assert(children_view(children) =~= Seq::empty());
        loop
            invariant
                self.moved(*old(self), self.cursor()),
                goal == grammar::children(old(self).source(), old(self).cursor()),
                grammar::children_from(
                    self.source(),
                    self.cursor(),
                    text_start as nat,
                    children_view(children),
                ) == goal,
                old(self).cursor().end <= self.cursor().end,
            decreases self.source().len() - self.cursor().end,
        {
            proof {
                self.lemma_wf();
                lemma_advance(self.source(), self.cursor());
            }
            self.advance()?;
            proof {
                self.lemma_wf();
                lemma_elem_sound(self.source(), self.cursor());
                lemma_assignment_expression_sound(self.source(), self.cursor());
            }
            match self.lexer.token() {
                Token::ElementOpen => {
                    self.text(&mut children, text_start);
                    let elem = self.parse_elem()?;
                    let ghost before = children;
                    children.push(Child::Element(elem));
                    proof {
                        lemma_children_push(before, children, Child::Element(elem));
                        self.lemma_wf();
                    }
                    text_start = self.lexer.end();
                },
                Token::BraceOpen => {
                    self.text(&mut children, text_start);
                    let expression = self.parse_assignment_expression()?;
                    let ghost before = children;
                    children.push(Child::ChildExpression(expression));
                    proof {
                        lemma_children_push(before, children, Child::ChildExpression(expression));
                        self.lemma_wf();
                    }
                    text_start = self.lexer.end();
                },
                Token::ClosingElementOpen | Token::FragmentClose => {
                    self.text(&mut children, text_start);
                    return Ok(children);
                },
                _ => {},
            }
        }
    }

    /// Makes the text from `start` up to the current token a child, unless
    /// it is empty.
    fn text(&self, children: &mut Vec<Child>, start: usize)
        requires
            self.wf(),
        ensures
            children_view(*final(children)) == grammar::with_text(
                children_view(*old(children)),
                start as nat,
                self.cursor().start,
            ),
    {
        proof {
            self.lemma_wf();
        }
        let end = self.lexer.start();
        if end > start {
            let ghost before = *children;
            let child = Child::Text(Loc::new(start, end, Text { start, end }));
            children.push(child);
            proof {
                lemma_children_push(before, *children, child);
            }
        }
    }

    /// Reads a fragment, from its `<>` up to its `</>`.
    pub fn parse_fragment(&mut self) -> (r: Result<FragmentExpression, Error>)
        requires
            old(self).wf(),
        ensures
            final(self).moved(
                *old(self),
                grammar::fragment(old(self).source(), old(self).cursor()).cursor,
            ),
            reads(r, grammar::fragment(old(self).source(), old(self).cursor()).result),
            r matches Ok(f) ==> proper_fragment(old(self).source(), f@),
        decreases old(self).source().len() - old(self).cursor().end, 2nat,
    {
        proof {
            self.lemma_wf();
            lemma_fragment_proper(self.source(), self.cursor());
        }
        if self.lexer.token() != Token::FragmentOpen {
            return Err(Error::UnexpectedToken);
        }
        let children = self.parse_children()?;
        if self.lexer.token() != Token::FragmentClose {
            return Err(Error::UnexpectedToken);
        }
        Ok(FragmentExpression { children })
    }

    /// Reads the constructs of the top level up to the end of the input and
    /// appends them to `body`. What stands between them is passed over. On a
    /// failure `body` is left as it was.
    pub fn parse(&mut self) -> (r: Result<(), Error>)
        requires
            old(self).wf(),
        ensures
            final(self).wf(),
            final(self).source() == old(self).source(),
            final(self).cursor() == grammar::program(
                old(self).source(),
                old(self).cursor(),
                Seq::empty(),
            ).cursor,
            match r {
                Ok(_) => grammar::program(
                    old(self).source(),
                    old(self).cursor(),
                    Seq::empty(),
                ).result == Ok::<Seq<Loc<NodeView>>, Error>(
                    final(self).nodes().skip(old(self).nodes().len() as int),
                ) && final(self).nodes().take(old(self).nodes().len() as int) == old(
                    self,
                ).nodes(),
                Err(e) => grammar::program(
                    old(self).source(),
                    old(self).cursor(),
                    Seq::empty(),
                ).result == Err::<Seq<Loc<NodeView>>, Error>(e) && final(self).nodes() == old(
                    self,
                ).nodes(),
            },
            r is Ok ==> final(self).cursor().token == Token::EndOfProgram && proper_nodes(
                old(self).source(),
                final(self).nodes().skip(old(self).nodes().len() as int),
            ),
            r != Err::<(), Error>(Error::EndOfProgram),
    {
        let ghost goal = grammar::program(self.source(), self.cursor(), Seq::empty());
        proof {
            self.lemma_wf();
            lemma_program(self.source(), self.cursor(), Seq::empty());
            assert(proper_nodes(self.source(), Seq::empty()));
            lemma_program_proper(self.source(), self.cursor(), Seq::empty());
        }
        let mut nodes: Vec<Loc<Node>> = Vec::new();
        assert(nodes_view(nodes@) =~= Seq::empty());
        loop
            invariant
                self.moved(*old(self), self.cursor()),
                goal == grammar::program(old(self).source(), old(self).cursor(), Seq::empty()),
                grammar::program(self.source(), self.cursor(), nodes_view(nodes@)) == goal,
                goal.result is Ok ==> goal.cursor.token == Token::EndOfProgram,
                goal.result != Err::<Seq<Loc<NodeView>>, Error>(Error::EndOfProgram),
                goal.result matches Ok(all) ==> proper_nodes(self.source(), all),
            decreases self.source().len() - self.cursor().end,
        {
            proof {
                reveal_with_fuel(grammar::program, 1);
                self.lemma_wf();
                lemma_lex_step(self.source(), self.cursor());
                lemma_lex_step_placed(self.source(), self.cursor());
            }
            match self.lexer.consume() {
                Err(Error::EndOfProgram) => {
                    let ghost before = self.body@;
                    let ghost read = nodes@;
                    self.body.append(&mut nodes);
                    assert(self.nodes().skip(before.len() as int) =~= nodes_view(read));
                    assert(self.nodes().take(before.len() as int) =~= nodes_view(before));
                    return Ok(());
                },
                Err(e) => {
                    return Err(e);
                },
                Ok(_) => {},
            }
            proof {
                self.lemma_wf();
                lemma_elem_sound(self.source(), self.cursor());
                lemma_fragment_sound(self.source(), self.cursor());
            }
            match self.lexer.token() {
                Token::FragmentOpen => {
                    let start = self.lexer.start();
                    let fragment = self.parse_fragment()?;
                    proof {
                        self.lemma_wf();
                    }
                    let node = Loc::new(start, self.lexer.end(), Node::Fragment(fragment));
                    let ghost before = nodes@;
                    nodes.push(node);
                    assert(nodes_view(nodes@) =~= nodes_view(before).push(
                        Loc { start: node.start, end: node.end, item: node.item@ },
                    ));
                },
                Token::ElementOpen => {
                    let start = self.lexer.start();
                    let elem = self.parse_elem()?;
                    proof {
                        self.lemma_wf();
                    }
                    let node = Loc::new(start, self.lexer.end(), Node::Element(elem));
                    let ghost before = nodes@;
                    nodes.push(node);
                    assert(nodes_view(nodes@) =~= nodes_view(before).push(
                        Loc { start: node.start, end: node.end, item: node.item@ },
                    ));
                },
                _ => {},
            }
        }
    }
}

} // verus!
