//! The syntax tree, and for each node that owns a list the mathematical
//! value it stands for.

use crate::lex::Token;
use crate::loc::Loc;
use vstd::prelude::*;

verus! {

/// The kinds of a `Token2`.
#[derive(Debug, PartialEq, Clone)]
pub enum Token2Kind {
    Identifier,
    LiteralString,
    Fragment,
    Element,
    SelfClosingElement,
}

/// A token or a whole construct, with its range.
#[derive(Debug, PartialEq, Clone)]
pub struct Token2 {
    pub start: usize,
    pub end: usize,
    pub kind: Token2Kind,
}

/// One construct of the top level.
#[derive(Debug, PartialEq, Clone)]
pub enum Node {
    Element(ElementExpression),
    Fragment(FragmentExpression),
}

/// `a.b.c`: two identifiers or more, joined by dots.
#[derive(Debug, PartialEq, Clone)]
pub struct MemberExpression {
    pub members: Vec<Loc<Token>>,
}

/// `ns:name`
#[derive(Debug, PartialEq, Clone)]
pub struct NamespacedName {
    pub ns: Loc<Token>,
    pub name: Loc<Token>,
}

/// The name of an element: `a`, `ns:name` or `a.b.c`.
#[derive(Debug, PartialEq, Clone)]
pub enum ElementName {
    Identifier(Loc<Token>),
    NamespacedName(NamespacedName),
    MemberExpression(MemberExpression),
}

/// The name of an attribute: `a` or `ns:name`.
#[derive(Debug, PartialEq, Clone)]
pub enum NormalAttributeName {
    Identifier(Loc<Token>),
    NamespacedName(NamespacedName),
}

/// What stands behind the `=` of an attribute.
#[derive(Debug, PartialEq)]
pub enum NormalAttributeInitializer {
    LiteralString(Loc<Token>),
    AssignmentExpression(Loc<AssignmentExpression>),
    ElementExpression(Loc<ElementExpression>),
    FragmentExpression(Loc<FragmentExpression>),
}

/// An attribute with a name, and what stands behind its `=` if it has one.
#[derive(Debug, PartialEq, Clone)]
pub struct NormalAttribute {
    pub name: NormalAttributeName,
    pub init: Option<NormalAttributeInitializer>,
}

/// An attribute of an element.
#[derive(Debug, PartialEq)]
pub enum Attribute {
    Normal(NormalAttribute),
    /// `{ ...identifier }`
    Spread(Loc<Token>),
}

/// A tag that opens an element, or one that is the whole element.
#[derive(Debug, PartialEq)]
pub enum OpeningOrSelfClosingElement {
    Opening((ElementName, Vec<Attribute>)),
    SelfClosing((ElementName, Vec<Attribute>)),
}

/// `<name attributes>`
#[derive(Debug, PartialEq, Clone)]
pub struct OpeningElement {
    pub name: ElementName,
    pub attrs: Vec<Attribute>,
}

/// `</name>`
#[derive(Debug, PartialEq, Clone)]
pub struct ClosingElement {
    pub name: ElementName,
}

/// `<name attributes/>`
#[derive(Debug, PartialEq, Clone)]
pub struct SelfClosingElement {
    pub name: ElementName,
    pub attrs: Vec<Attribute>,
}

/// A run of characters between the tags and braces of a list of children.
#[derive(Debug, PartialEq, Clone, Copy)]
pub struct Text {
    pub start: usize,
    pub end: usize,
}

/// A host expression among children, `[start, end)`.
#[derive(Debug, PartialEq, Clone, Copy)]
pub struct ChildExpression {
    pub start: usize,
    pub end: usize,
}

/// What stands between an opening and a closing tag.
#[derive(Debug, PartialEq)]
pub enum Child {
    Text(Loc<Text>),
    Element(ElementExpression),
    ChildExpression(AssignmentExpression),
}

/// `<>children</>`
#[derive(Debug, PartialEq)]
pub struct FragmentExpression {
    pub children: Vec<Child>,
}

/// An element. It has a list of children, which may be empty, exactly when
/// it is not self-closing.
#[derive(Debug, PartialEq)]
pub struct ElementExpression {
    pub is_self_closing: bool,
    pub name: ElementName,
    pub attrs: Vec<Attribute>,
    pub children: Option<Vec<Child>>,
}

/// Text of the host language between two braces, `[start, end)`.
#[derive(Debug, PartialEq, Clone)]
pub struct AssignmentExpression {
    pub start: usize,
    pub end: usize,
}

/// What an `ElementName` stands for.
pub enum ElementNameView {
    Identifier(Loc<Token>),
    NamespacedName(NamespacedName),
    MemberExpression(Seq<Loc<Token>>),
}

/// What a `NormalAttributeInitializer` stands for.
pub enum NormalAttributeInitializerView {
    LiteralString(Loc<Token>),
    AssignmentExpression(Loc<AssignmentExpression>),
    ElementExpression(Loc<ElementExpressionView>),
    FragmentExpression(Loc<FragmentExpressionView>),
}

/// What a `NormalAttribute` stands for.
pub struct NormalAttributeView {
    pub name: NormalAttributeName,
    pub init: Option<NormalAttributeInitializerView>,
}

/// What an `Attribute` stands for.
pub enum AttributeView {
    Normal(NormalAttributeView),
    Spread(Loc<Token>),
}

/// What a `Child` stands for.
pub enum ChildView {
    Text(Loc<Text>),
    Element(ElementExpressionView),
    ChildExpression(AssignmentExpression),
}

/// What a `FragmentExpression` stands for.
pub struct FragmentExpressionView {
    pub children: Seq<ChildView>,
}

/// What an `ElementExpression` stands for.
pub struct ElementExpressionView {
    pub is_self_closing: bool,
    pub name: ElementNameView,
    pub attrs: Seq<AttributeView>,
    pub children: Option<Seq<ChildView>>,
}

/// What a `Node` stands for.
pub enum NodeView {
    Element(ElementExpressionView),
    Fragment(FragmentExpressionView),
}

/// A tag that opens an element (`is_self_closing` false) or is one.
pub struct OpeningView {
    pub is_self_closing: bool,
    pub name: ElementNameView,
    pub attrs: Seq<AttributeView>,
}

/// Each of `tokens` was read from a range within a source of `len`
/// characters.
pub open spec fn tokens_within(tokens: Seq<Loc<Token>>, len: nat) -> bool {
    forall|i: int| 0 <= i < tokens.len() ==> (#[trigger] tokens[i]).within(len)
}

impl ElementNameView {
    /// Each part of the name was read from a range within a source of `len`
    /// characters.
    pub open spec fn within(self, len: nat) -> bool {
        match self {
            ElementNameView::Identifier(name) => name.within(len),
            ElementNameView::NamespacedName(name) => name.ns.within(len) && name.name.within(len),
            ElementNameView::MemberExpression(members) => tokens_within(members, len),
        }
    }
}

impl View for MemberExpression {
    type V = Seq<Loc<Token>>;

    open spec fn view(&self) -> Seq<Loc<Token>> {
        self.members@
    }
}

impl View for ElementName {
    type V = ElementNameView;

    open spec fn view(&self) -> ElementNameView {
        match *self {
            ElementName::Identifier(name) => ElementNameView::Identifier(name),
            ElementName::NamespacedName(name) => ElementNameView::NamespacedName(name),
            ElementName::MemberExpression(name) => ElementNameView::MemberExpression(name@),
        }
    }
}

/// What `init` stands for.
pub open spec fn initializer_view(init: NormalAttributeInitializer) -> NormalAttributeInitializerView
    decreases init,
{
    match init {
        NormalAttributeInitializer::LiteralString(s) => NormalAttributeInitializerView::LiteralString(
            s,
        ),
        NormalAttributeInitializer::AssignmentExpression(e) => {
            NormalAttributeInitializerView::AssignmentExpression(e)
        },
        NormalAttributeInitializer::ElementExpression(e) => {
            NormalAttributeInitializerView::ElementExpression(
                Loc { start: e.start, end: e.end, item: element_view(e.item) },
            )
        },
        NormalAttributeInitializer::FragmentExpression(f) => {
            NormalAttributeInitializerView::FragmentExpression(
                Loc { start: f.start, end: f.end, item: fragment_view(f.item) },
            )
        },
    }
}

/// What `attr` stands for.
pub open spec fn attribute_view(attr: Attribute) -> AttributeView
    decreases attr,
{
    match attr {
        Attribute::Normal(a) => AttributeView::Normal(
            NormalAttributeView {
                name: a.name,
                init: match a.init {
                    Some(init) => Some(initializer_view(init)),
                    None => None,
                },
            },
        ),
        Attribute::Spread(s) => AttributeView::Spread(s),
    }
}

/// What each of `attrs` stands for, in their order.
pub open spec fn attributes_view(attrs: Vec<Attribute>) -> Seq<AttributeView>
    decreases attrs,
{
    Seq::new(
        attrs.len() as nat,
        |i: int|
            if 0 <= i < attrs.len() {
                attribute_view(attrs[i])
            } else {
                arbitrary()
            },
    )
}

/// What `child` stands for.
pub open spec fn child_view(child: Child) -> ChildView
    decreases child,
{
    match child {
        Child::Text(t) => ChildView::Text(t),
        Child::Element(e) => ChildView::Element(element_view(e)),
        Child::ChildExpression(e) => ChildView::ChildExpression(e),
    }
}

/// What each of `children` stands for, in their order.
pub open spec fn children_view(children: Vec<Child>) -> Seq<ChildView>
    decreases children,
{
    Seq::new(
        children.len() as nat,
        |i: int|
            if 0 <= i < children.len() {
                child_view(children[i])
            } else {
                arbitrary()
            },
    )
}

/// What `fragment` stands for.
pub open spec fn fragment_view(fragment: FragmentExpression) -> FragmentExpressionView
    decreases fragment,
{
    FragmentExpressionView { children: children_view(fragment.children) }
}

/// What `element` stands for.
pub open spec fn element_view(element: ElementExpression) -> ElementExpressionView
    decreases element,
{
    ElementExpressionView {
        is_self_closing: element.is_self_closing,
        name: element.name@,
        attrs: attributes_view(element.attrs),
        children: match element.children {
            Some(children) => Some(children_view(children)),
            None => None,
        },
    }
}

impl View for NormalAttributeInitializer {
    type V = NormalAttributeInitializerView;

    open spec fn view(&self) -> NormalAttributeInitializerView {
        initializer_view(*self)
    }
}

impl View for Attribute {
    type V = AttributeView;

    open spec fn view(&self) -> AttributeView {
        attribute_view(*self)
    }
}

impl View for Child {
    type V = ChildView;

    open spec fn view(&self) -> ChildView {
        child_view(*self)
    }
}

impl View for FragmentExpression {
    type V = FragmentExpressionView;

    open spec fn view(&self) -> FragmentExpressionView {
        fragment_view(*self)
    }
}

impl View for ElementExpression {
    type V = ElementExpressionView;

    open spec fn view(&self) -> ElementExpressionView {
        element_view(*self)
    }
}

impl View for Node {
    type V = NodeView;

    open spec fn view(&self) -> NodeView {
        match *self {
            Node::Element(e) => NodeView::Element(e@),
            Node::Fragment(f) => NodeView::Fragment(f@),
        }
    }
}

impl View for OpeningOrSelfClosingElement {
    type V = OpeningView;

    open spec fn view(&self) -> OpeningView {
        match *self {
            OpeningOrSelfClosingElement::Opening((name, attrs)) => OpeningView {
                is_self_closing: false,
                name: name@,
                attrs: attributes_view(attrs),
            },
            OpeningOrSelfClosingElement::SelfClosing((name, attrs)) => OpeningView {
                is_self_closing: true,
                name: name@,
                attrs: attributes_view(attrs),
            },
        }
    }
}

impl View for ClosingElement {
    type V = ElementNameView;

    open spec fn view(&self) -> ElementNameView {
        self.name@
    }
}

/// The view of a list of attributes with one more at its end.
pub proof fn lemma_attributes_push(before: Vec<Attribute>, after: Vec<Attribute>, attr: Attribute)
    requires
        after@ == before@.push(attr),
    ensures
        attributes_view(after) == attributes_view(before).push(attribute_view(attr)),
{
    assert(attributes_view(after) =~= attributes_view(before).push(attribute_view(attr)));
}

/// The view of a list of children with one more at its end.
pub proof fn lemma_children_push(before: Vec<Child>, after: Vec<Child>, child: Child)
    requires
        after@ == before@.push(child),
    ensures
        children_view(after) == children_view(before).push(child_view(child)),
{
    assert(children_view(after) =~= children_view(before).push(child_view(child)));
}

/// The top-level nodes of a program, each with its range.
pub open spec fn nodes_view(nodes: Seq<Loc<Node>>) -> Seq<Loc<NodeView>> {
    Seq::new(
        nodes.len(),
        |i: int| Loc { start: nodes[i].start, end: nodes[i].end, item: nodes[i].item@ },
    )
}

fn clone_tokens(tokens: &Vec<Loc<Token>>) -> (r: Vec<Loc<Token>>)
    ensures
        r@ == tokens@,
{
    let mut r: Vec<Loc<Token>> = Vec::new();
    let mut i: usize = 0;
    while i < tokens.len()
        invariant
            i <= tokens@.len(),
            r@ == tokens@.take(i as int),
        decreases tokens@.len() - i,
    {
        r.push(tokens[i]);
        i += 1;
        assert(r@ =~= tokens@.take(i as int));
    }
    assert(tokens@.take(tokens@.len() as int) =~= tokens@);
    r
}

fn clone_name(name: &ElementName) -> (r: ElementName)
    ensures
        r@ == name@,
{
    match name {
        ElementName::Identifier(a) => ElementName::Identifier(*a),
        ElementName::NamespacedName(n) => ElementName::NamespacedName(
            NamespacedName { ns: n.ns, name: n.name },
        ),
        ElementName::MemberExpression(m) => ElementName::MemberExpression(
            MemberExpression { members: clone_tokens(&m.members) },
        ),
    }
}

fn clone_attr_name(name: &NormalAttributeName) -> (r: NormalAttributeName)
    ensures
        r == *name,
{
    match name {
        NormalAttributeName::Identifier(a) => NormalAttributeName::Identifier(*a),
        NormalAttributeName::NamespacedName(n) => NormalAttributeName::NamespacedName(
            NamespacedName { ns: n.ns, name: n.name },
        ),
    }
}

fn clone_initializer(init: &NormalAttributeInitializer) -> (r: NormalAttributeInitializer)
    ensures
        initializer_view(r) == initializer_view(*init),
    decreases *init,
{
    match init {
        NormalAttributeInitializer::LiteralString(s) => NormalAttributeInitializer::LiteralString(
            *s,
        ),
        NormalAttributeInitializer::AssignmentExpression(e) => {
            NormalAttributeInitializer::AssignmentExpression(
                Loc::new(
                    e.start,
                    e.end,
                    AssignmentExpression { start: e.item.start, end: e.item.end },
                ),
            )
        },
        NormalAttributeInitializer::ElementExpression(e) => {
            NormalAttributeInitializer::ElementExpression(
                Loc::new(e.start, e.end, clone_element(&e.item)),
            )
        },
        NormalAttributeInitializer::FragmentExpression(f) => {
            NormalAttributeInitializer::FragmentExpression(
                Loc::new(f.start, f.end, clone_fragment(&f.item)),
            )
        },
    }
}

fn clone_attribute(attr: &Attribute) -> (r: Attribute)
    ensures
        attribute_view(r) == attribute_view(*attr),
    decreases *attr,
{
    match attr {
        Attribute::Spread(name) => Attribute::Spread(*name),
        Attribute::Normal(a) => Attribute::Normal(
            NormalAttribute {
                name: clone_attr_name(&a.name),
                init: match &a.init {
                    Some(init) => Some(clone_initializer(init)),
                    None => None,
                },
            },
        ),
    }
}

fn clone_attributes(attrs: &Vec<Attribute>) -> (r: Vec<Attribute>)
    ensures
        attributes_view(r) == attributes_view(*attrs),
    decreases *attrs,
{
    let mut r: Vec<Attribute> = Vec::new();
    let mut i: usize = 0;
    while i < attrs.len()
        invariant
            i <= attrs@.len(),
            attributes_view(r) == attributes_view(*attrs).take(i as int),
        decreases attrs@.len() - i,
    {
        let ghost before = r;
        let attr = clone_attribute(&attrs[i]);
        r.push(attr);
        i += 1;
        proof {
            lemma_attributes_push(before, r, attr);
            assert(attributes_view(r) =~= attributes_view(*attrs).take(i as int));
        }
    }
    assert(attributes_view(*attrs).take(attrs@.len() as int) =~= attributes_view(*attrs));
    r
}

fn clone_child(child: &Child) -> (r: Child)
    ensures
        child_view(r) == child_view(*child),
    decreases *child,
{
    match child {
        Child::Text(t) => Child::Text(*t),
        Child::Element(e) => Child::Element(clone_element(e)),
        Child::ChildExpression(e) => Child::ChildExpression(
            AssignmentExpression { start: e.start, end: e.end },
        ),
    }
}

fn clone_children(children: &Vec<Child>) -> (r: Vec<Child>)
    ensures
        children_view(r) == children_view(*children),
    decreases *children,
{
    let mut r: Vec<Child> = Vec::new();
    let mut i: usize = 0;
    while i < children.len()
        invariant
            i <= children@.len(),
            children_view(r) == children_view(*children).take(i as int),
        decreases children@.len() - i,
    {
        let ghost before = r;
        let child = clone_child(&children[i]);
        r.push(child);
        i += 1;
        proof {
            lemma_children_push(before, r, child);
            assert(children_view(r) =~= children_view(*children).take(i as int));
        }
    }
    assert(children_view(*children).take(children@.len() as int) =~= children_view(*children));
    r
}

fn clone_fragment(fragment: &FragmentExpression) -> (r: FragmentExpression)
    ensures
        fragment_view(r) == fragment_view(*fragment),
    decreases *fragment,
{
    FragmentExpression { children: clone_children(&fragment.children) }
}

fn clone_element(element: &ElementExpression) -> (r: ElementExpression)
    ensures
        element_view(r) == element_view(*element),
    decreases *element,
{
    ElementExpression {
        is_self_closing: element.is_self_closing,
        name: clone_name(&element.name),
        attrs: clone_attributes(&element.attrs),
        children: match &element.children {
            Some(children) => Some(clone_children(children)),
            None => None,
        },
    }
}

impl Clone for NormalAttributeInitializer {
    fn clone(&self) -> (r: Self)
        ensures
            r@ == self@,
    {
        clone_initializer(self)
    }
}

impl Clone for Attribute {
    fn clone(&self) -> (r: Self)
        ensures
            r@ == self@,
    {
        clone_attribute(self)
    }
}

impl Clone for Child {
    fn clone(&self) -> (r: Self)
        ensures
            r@ == self@,
    {
        clone_child(self)
    }
}

impl Clone for FragmentExpression {
    fn clone(&self) -> (r: Self)
        ensures
            r@ == self@,
    {
        clone_fragment(self)
    }
}

impl Clone for ElementExpression {
    fn clone(&self) -> (r: Self)
        ensures
            r@ == self@,
    {
        clone_element(self)
    }
}

impl Clone for OpeningOrSelfClosingElement {
    fn clone(&self) -> (r: Self)
        ensures
            r@ == self@,
    {
        match self {
            OpeningOrSelfClosingElement::Opening((name, attrs)) => {
                OpeningOrSelfClosingElement::Opening((clone_name(name), clone_attributes(attrs)))
            },
            OpeningOrSelfClosingElement::SelfClosing((name, attrs)) => {
                OpeningOrSelfClosingElement::SelfClosing(
                    (clone_name(name), clone_attributes(attrs)),
                )
            },
        }
    }
}

} // verus!
