use jsx::ast::{
    AssignmentExpression, Attribute, Child, ClosingElement, ElementExpression, ElementName,
    FragmentExpression, MemberExpression, NamespacedName, Node, NormalAttribute,
    NormalAttributeInitializer, NormalAttributeName, OpeningOrSelfClosingElement, Text,
};
use jsx::error::Error;
use jsx::lex::Token;
use jsx::loc::Loc;
use jsx::parser::Parser;

fn chars(source: &str) -> Vec<char> {
    source.chars().collect()
}

fn parse(source: &str) -> Result<Vec<Loc<Node>>, Error> {
    let code = chars(source);
    let mut parser = Parser::new(&code);
    parser.parse()?;
    Ok(parser.body)
}

/// The one element that `source` holds.
fn element(source: &str) -> ElementExpression {
    let mut body = parse(source).unwrap();
    assert_eq!(body.len(), 1);
    match body.remove(0).item {
        Node::Element(e) => e,
        Node::Fragment(_) => panic!("a fragment"),
    }
}

/// The one fragment that `source` holds.
fn fragment(source: &str) -> FragmentExpression {
    let mut body = parse(source).unwrap();
    assert_eq!(body.len(), 1);
    match body.remove(0).item {
        Node::Fragment(f) => f,
        Node::Element(_) => panic!("an element"),
    }
}

fn text(source: &str, start: usize, end: usize) -> String {
    source.chars().skip(start).take(end - start).collect()
}

fn ident(start: usize, end: usize) -> Loc<Token> {
    Loc::new(start, end, Token::Identifier)
}

fn span<T>(loc: &Loc<T>) -> (usize, usize) {
    (loc.start, loc.end)
}

#[test]
fn element_with_attribute_and_text() {
    let source = "<Tag a=\"x\">text</Tag>";
    let body = parse(source).unwrap();
    assert_eq!(body.len(), 1);
    assert_eq!(span(&body[0]), (0, 21));
    let Node::Element(e) = &body[0].item else { panic!("no element") };
    assert!(!e.is_self_closing);
    let ElementName::Identifier(name) = &e.name else { panic!("no plain name") };
    assert_eq!(span(name), (1, 4));
    assert_eq!(name.item, Token::Identifier);
    assert_eq!(text(source, name.start, name.end), "Tag");
    assert_eq!(text(source, 17, 20), "Tag");
    assert_eq!(e.attrs.len(), 1);
    let Attribute::Normal(attr) = &e.attrs[0] else { panic!("no attribute") };
    let NormalAttributeName::Identifier(a) = &attr.name else { panic!("no plain name") };
    assert_eq!(span(a), (5, 6));
    let Some(NormalAttributeInitializer::LiteralString(s)) = &attr.init else {
        panic!("no string")
    };
    assert_eq!(span(s), (7, 10));
    assert_eq!(s.item, Token::LiteralString);
    assert_eq!(text(source, s.start, s.end), "\"x\"");
    let children = e.children.as_ref().unwrap();
    assert_eq!(children.len(), 1);
    let Child::Text(t) = &children[0] else { panic!("no text") };
    assert_eq!(span(t), (11, 15));
    assert_eq!(t.item, Text { start: 11, end: 15 });
    assert_eq!(text(source, t.start, t.end), "text");
}

#[test]
fn other_names_and_texts_of_the_same_shape() {
    for (tag, attr, value, inner) in
        [("div", "id", "'main'", "Hello, world!"), ("Ünïcode", "k", "\"\"", " x "), ("a", "b", "\"c d\"", "1 2 3")]
    {
        let source = format!("<{tag} {attr}={value}>{inner}</{tag}>");
        let e = element(&source);
        let ElementName::Identifier(name) = &e.name else { panic!("no plain name") };
        assert_eq!(text(&source, name.start, name.end), tag);
        let children = e.children.unwrap();
        assert_eq!(children.len(), 1);
        let Child::Text(t) = &children[0] else { panic!("no text") };
        assert_eq!(text(&source, t.start, t.end), inner);
    }
}

#[test]
fn self_closing_element_has_no_children() {
    let e = element("<Tag />");
    assert!(e.is_self_closing);
    assert_eq!(e.children, None);
    assert_eq!(e.attrs, vec![]);
    assert_eq!(e.name, ElementName::Identifier(ident(1, 4)));
}

#[test]
fn empty_element_has_an_empty_list_of_children() {
    let e = element("<Tag></Tag>");
    assert!(!e.is_self_closing);
    assert_eq!(e.children, Some(vec![]));
    assert_ne!(e.children, None);
}

#[test]
fn mismatched_closing_tag_fails() {
    assert_eq!(parse("<A></B>"), Err(Error::UnexpectedToken));
    assert_eq!(parse("<div></Div>"), Err(Error::UnexpectedToken));
    assert_eq!(parse("<div></divs>"), Err(Error::UnexpectedToken));
    assert_eq!(parse("<a:b></a:c>"), Err(Error::UnexpectedToken));
    assert_eq!(parse("<a:b></c:b>"), Err(Error::UnexpectedToken));
    assert_eq!(parse("<a.b></a.c>"), Err(Error::UnexpectedToken));
}

#[test]
fn closing_tag_of_another_form_fails() {
    assert_eq!(parse("<a></a:b>"), Err(Error::UnexpectedToken));
    assert_eq!(parse("<a:b></a>"), Err(Error::UnexpectedToken));
    assert_eq!(parse("<a.b></a:b>"), Err(Error::UnexpectedToken));
    assert_eq!(parse("<a.b></a.b.c>"), Err(Error::UnexpectedToken));
    assert_eq!(parse("<a.b.c></a.b>"), Err(Error::UnexpectedToken));
}

#[test]
fn matching_closing_tags() {
    assert!(parse("<a:b></a:b>").is_ok());
    assert!(parse("<a.b.c></a.b.c>").is_ok());
    assert!(parse("<a . b>< / a.b >").is_ok());
}

#[test]
fn mismatch_is_reported_at_the_end_of_the_closing_tag() {
    let code = chars("<A></B> rest");
    let mut parser = Parser::new(&code);
    assert_eq!(parser.parse(), Err(Error::UnexpectedToken));
    assert_eq!(parser.token(), Token::ElementClose);
    assert_eq!(parser.loc(), (6, 7));
    assert!(parser.body.is_empty());
}

#[test]
fn member_expression_name() {
    let source = "<a.b.c/>";
    let e = element(source);
    let ElementName::MemberExpression(m) = &e.name else { panic!("no member expression") };
    assert_eq!(m.members.len(), 3);
    let texts: Vec<String> = m.members.iter().map(|t| text(source, t.start, t.end)).collect();
    assert_eq!(texts, vec!["a", "b", "c"]);
    assert_eq!(span(&m.members[0]), (1, 2));
    assert_eq!(span(&m.members[1]), (3, 4));
    assert_eq!(span(&m.members[2]), (5, 6));
    assert!(m.members.iter().all(|t| t.item == Token::Identifier));
}

#[test]
fn member_expression_of_two() {
    let source = "<Outer.Inner />";
    let e = element(source);
    let ElementName::MemberExpression(m) = &e.name else { panic!("no member expression") };
    assert_eq!(m.members.len(), 2);
    assert_eq!(text(source, m.members[0].start, m.members[0].end), "Outer");
    assert_eq!(text(source, m.members[1].start, m.members[1].end), "Inner");
}

#[test]
fn member_expression_needs_an_identifier_behind_each_dot() {
    assert_eq!(parse("<a./>"), Err(Error::UnexpectedToken));
    assert_eq!(parse("<a.b.>"), Err(Error::UnexpectedToken));
    assert_eq!(parse("<a.:b/>"), Err(Error::UnexpectedToken));
}

#[test]
fn namespaced_name() {
    let source = "<a:b/>";
    let e = element(source);
    let ElementName::NamespacedName(n) = &e.name else { panic!("no namespaced name") };
    assert_eq!(span(&n.ns), (1, 2));
    assert_eq!(span(&n.name), (3, 4));
    assert_eq!(text(source, n.ns.start, n.ns.end), "a");
    assert_eq!(text(source, n.name.start, n.name.end), "b");
}

#[test]
fn namespaced_name_has_one_colon() {
    assert_eq!(parse("<a:b:c/>"), Err(Error::UnexpectedToken));
    assert_eq!(parse("<a:b:c></a:b:c>"), Err(Error::UnexpectedToken));
    assert_eq!(parse("<a:b.c/>"), Err(Error::UnexpectedToken));
    assert_eq!(parse("<a.b:c/>"), Err(Error::UnexpectedToken));
    assert_eq!(parse("<a:/>"), Err(Error::UnexpectedToken));
}

#[test]
fn spread_attribute() {
    let source = "<div { ...x } />";
    let e = element(source);
    assert_eq!(e.attrs.len(), 1);
    let Attribute::Spread(x) = &e.attrs[0] else { panic!("no spread") };
    assert_eq!(span(x), (10, 11));
    assert_eq!(x.item, Token::Identifier);
    assert_eq!(text(source, x.start, x.end), "x");
}

#[test]
fn spread_attribute_takes_one_identifier() {
    assert_eq!(parse("<div { ...x.y } />"), Err(Error::UnexpectedToken));
    assert_eq!(parse("<div { x } />"), Err(Error::UnexpectedToken));
    assert_eq!(parse("<div { ... } />"), Err(Error::UnexpectedToken));
    assert_eq!(parse("<div { ...x y } />"), Err(Error::UnexpectedToken));
    assert_eq!(parse("<div { ...\"x\" } />"), Err(Error::UnexpectedToken));
    assert_eq!(parse("<div { ...x"), Err(Error::UnexpectedEndOfProgram));
}

#[test]
fn host_expression_with_nested_braces() {
    let code = chars("<div a={ {nested:1} }>");
    let mut parser = Parser::new(&code);
    parser.advance().unwrap();
    let tag = parser.parse_opening_or_self_closing_elem().unwrap();
    let OpeningOrSelfClosingElement::Opening((_, attrs)) = tag else { panic!("no opening tag") };
    assert_eq!(attrs.len(), 1);
    let Attribute::Normal(attr) = &attrs[0] else { panic!("no attribute") };
    let Some(NormalAttributeInitializer::AssignmentExpression(e)) = &attr.init else {
        panic!("no host expression")
    };
    assert_eq!(e.item, AssignmentExpression { start: 8, end: 20 });
    assert_eq!(span(e), (7, 21));
    assert_eq!(parser.token(), Token::ElementClose);
    assert_eq!(parser.loc(), (21, 22));
}

#[test]
fn host_expression_counts_every_level_of_braces() {
    let source = "<div a={ {b:{c:{}}} } d/>";
    let e = element(source);
    assert_eq!(e.attrs.len(), 2);
    let Attribute::Normal(attr) = &e.attrs[0] else { panic!("no attribute") };
    let Some(NormalAttributeInitializer::AssignmentExpression(x)) = &attr.init else {
        panic!("no host expression")
    };
    assert_eq!(text(source, x.item.start, x.item.end), " {b:{c:{}}} ");
    assert_eq!(text(source, x.start, x.end), "{ {b:{c:{}}} }");
    let Attribute::Normal(d) = &e.attrs[1] else { panic!("no attribute") };
    assert_eq!(d.init, None);
}

#[test]
fn unterminated_brace_ends_unexpectedly() {
    assert_eq!(parse("<div a={"), Err(Error::UnexpectedEndOfProgram));
    assert_eq!(parse("<div a={ x"), Err(Error::UnexpectedEndOfProgram));
    assert_eq!(parse("<div a={ {x} "), Err(Error::UnexpectedEndOfProgram));
    assert_eq!(parse("<div a={ {nested:1}>"), Err(Error::UnexpectedEndOfProgram));
    assert_eq!(parse("<div>{ x </div>"), Err(Error::UnexpectedEndOfProgram));
    assert_eq!(parse("<div a={ \"x }>"), Err(Error::UnexpectedEndOfProgram));
}

#[test]
fn fragment_with_text() {
    let source = "<>text</>";
    let body = parse(source).unwrap();
    assert_eq!(body.len(), 1);
    assert_eq!(span(&body[0]), (0, 9));
    let Node::Fragment(f) = &body[0].item else { panic!("no fragment") };
    assert_eq!(f.children.len(), 1);
    let Child::Text(t) = &f.children[0] else { panic!("no text") };
    assert_eq!(span(t), (2, 6));
    assert_eq!(text(source, t.start, t.end), "text");
}

#[test]
fn fragment_tags_may_hold_spaces() {
    let plain = parse("<></>").unwrap();
    let spaced = parse("< ></ >").unwrap();
    assert_eq!(plain, spaced);
    assert_eq!(plain.len(), 1);
    assert_eq!(plain[0].item, Node::Fragment(FragmentExpression { children: vec![] }));
    assert_eq!(span(&plain[0]), (0, 5));
    assert_eq!(span(&spaced[0]), (0, 7));
}

#[test]
fn fragment_must_be_closed_as_one() {
    assert_eq!(parse("<>text</a>"), Err(Error::UnexpectedToken));
    assert_eq!(parse("<a>text</>"), Err(Error::UnexpectedToken));
    assert_eq!(parse("<>text"), Err(Error::UnexpectedEndOfProgram));
}

#[test]
fn element_inside_host_expression() {
    let code = chars("<div a={ <span/> }>");
    let mut parser = Parser::new(&code);
    parser.advance().unwrap();
    let tag = parser.parse_opening_or_self_closing_elem().unwrap();
    let OpeningOrSelfClosingElement::Opening((_, attrs)) = tag else { panic!("no opening tag") };
    let Attribute::Normal(attr) = &attrs[0] else { panic!("no attribute") };
    let Some(NormalAttributeInitializer::AssignmentExpression(e)) = &attr.init else {
        panic!("no host expression")
    };
    assert_eq!(e.item, AssignmentExpression { start: 8, end: 17 });
    assert_eq!(span(e), (7, 18));
}

#[test]
fn element_inside_host_expression_is_read_as_one() {
    // The braces in the inner element's attribute are not counted.
    let source = "<div a={ <span b=\"}\" c={ { } }/> }/>";
    let e = element(source);
    let Attribute::Normal(attr) = &e.attrs[0] else { panic!("no attribute") };
    let Some(NormalAttributeInitializer::AssignmentExpression(x)) = &attr.init else {
        panic!("no host expression")
    };
    assert_eq!(text(source, x.item.start, x.item.end), " <span b=\"}\" c={ { } }/> ");
    // The inner element must itself be well formed.
    assert_eq!(parse("<div a={ <span> }></div>"), Err(Error::UnexpectedToken));
    assert_eq!(parse("<div a={ <span></spam> }/>"), Err(Error::UnexpectedToken));
    assert_eq!(parse("<div a={ <> }/>"), Err(Error::UnexpectedEndOfProgram));
    assert!(parse("<div a={ <>}</> }/>").is_ok());
}

#[test]
fn attribute_values() {
    let source = "<a s='1' e={x} el=<b/> f=<>t</> bare/>";
    let e = element(source);
    assert_eq!(e.attrs.len(), 5);
    let inits: Vec<&Option<NormalAttributeInitializer>> = e
        .attrs
        .iter()
        .map(|a| match a {
            Attribute::Normal(n) => &n.init,
            Attribute::Spread(_) => panic!("a spread"),
        })
        .collect();
    let Some(NormalAttributeInitializer::LiteralString(s)) = inits[0] else { panic!() };
    assert_eq!(span(s), (5, 8));
    let Some(NormalAttributeInitializer::AssignmentExpression(x)) = inits[1] else { panic!() };
    assert_eq!(span(x), (11, 14));
    assert_eq!(x.item, AssignmentExpression { start: 12, end: 13 });
    assert_eq!(text(source, x.start, x.end), "{x}");
    let Some(NormalAttributeInitializer::ElementExpression(el)) = inits[2] else { panic!() };
    assert_eq!(span(el), (18, 22));
    assert_eq!(text(source, el.start, el.end), "<b/>");
    assert!(el.item.is_self_closing);
    assert_eq!(el.item.name, ElementName::Identifier(ident(19, 20)));
    let Some(NormalAttributeInitializer::FragmentExpression(f)) = inits[3] else { panic!() };
    assert_eq!(span(f), (25, 31));
    assert_eq!(text(source, f.start, f.end), "<>t</>");
    assert_eq!(f.item.children.len(), 1);
    assert_eq!(inits[4], &None);
}

#[test]
fn attribute_value_must_follow_the_assign() {
    assert_eq!(parse("<a b=>"), Err(Error::UnexpectedToken));
    assert_eq!(parse("<a b=c/>"), Err(Error::UnexpectedToken));
    assert_eq!(parse("<a b==\"c\"/>"), Err(Error::UnexpectedToken));
    assert_eq!(parse("<a b=/>"), Err(Error::UnexpectedToken));
    assert_eq!(parse("<a b="), Err(Error::UnexpectedEndOfProgram));
}

#[test]
fn attribute_names() {
    let e = element("<a b c:d/>");
    assert_eq!(
        e.attrs,
        vec![
            Attribute::Normal(NormalAttribute {
                name: NormalAttributeName::Identifier(ident(3, 4)),
                init: None,
            }),
            Attribute::Normal(NormalAttribute {
                name: NormalAttributeName::NamespacedName(NamespacedName {
                    ns: ident(5, 6),
                    name: ident(7, 8),
                }),
                init: None,
            }),
        ]
    );
    let Attribute::Normal(n) = &e.attrs[1] else { panic!() };
    let NormalAttributeName::NamespacedName(n) = &n.name else { panic!() };
    assert_eq!((span(&n.ns), span(&n.name)), ((5, 6), (7, 8)));
    // An attribute's name has no members.
    assert_eq!(parse("<a b.c/>"), Err(Error::UnexpectedToken));
    assert_eq!(parse("<a b:c:d/>"), Err(Error::UnexpectedToken));
}

#[test]
fn children_of_every_kind() {
    let source = "<p>Hello {name}<br/>!</p>";
    let e = element(source);
    let children = e.children.unwrap();
    assert_eq!(children.len(), 4);
    let Child::Text(t) = &children[0] else { panic!() };
    assert_eq!(text(source, t.start, t.end), "Hello ");
    let Child::ChildExpression(x) = &children[1] else { panic!() };
    assert_eq!(text(source, x.start, x.end), "name");
    let Child::Element(br) = &children[2] else { panic!() };
    assert!(br.is_self_closing);
    assert_eq!(br.name, ElementName::Identifier(ident(16, 18)));
    let Child::Text(t) = &children[3] else { panic!() };
    assert_eq!((t.start, t.end), (20, 21));
    assert_eq!(t.item, Text { start: 20, end: 21 });
}

#[test]
fn no_text_between_adjacent_children() {
    let e = element("<p><a/>{x}<b></b></p>");
    let children = e.children.unwrap();
    assert_eq!(children.len(), 3);
    assert!(matches!(children[0], Child::Element(_)));
    assert!(matches!(children[1], Child::ChildExpression(_)));
    assert!(matches!(children[2], Child::Element(_)));
}

#[test]
fn text_is_kept_as_it_stands() {
    let source = "<p>  a = b, c > d : \"e\" ...  </p>";
    let e = element(source);
    let children = e.children.unwrap();
    assert_eq!(children.len(), 1);
    let Child::Text(t) = &children[0] else { panic!() };
    assert_eq!(text(source, t.start, t.end), "  a = b, c > d : \"e\" ...  ");
}

#[test]
fn nested_elements() {
    let source = "<a><b><c/></b><d></d></a>";
    let a = element(source);
    let children = a.children.unwrap();
    assert_eq!(children.len(), 2);
    let Child::Element(b) = &children[0] else { panic!() };
    let inner = b.children.as_ref().unwrap();
    assert_eq!(inner.len(), 1);
    let Child::Element(c) = &inner[0] else { panic!() };
    assert!(c.is_self_closing);
    let Child::Element(d) = &children[1] else { panic!() };
    assert_eq!(d.children, Some(vec![]));
}

#[test]
fn top_level_passes_over_what_is_between_constructs() {
    let source = "let x = <a/>; y <></> z = 1 ";
    let body = parse(source).unwrap();
    assert_eq!(body.len(), 2);
    assert!(matches!(body[0].item, Node::Element(_)));
    assert_eq!(span(&body[0]), (8, 12));
    assert!(matches!(body[1].item, Node::Fragment(_)));
    assert_eq!(span(&body[1]), (16, 21));
}

#[test]
fn nothing_to_parse() {
    assert_eq!(parse(""), Ok(vec![]));
    assert_eq!(parse("   \n"), Ok(vec![]));
    assert_eq!(parse("a = b"), Ok(vec![]));
}

#[test]
fn parse_stops_at_the_end_of_the_input() {
    let code = chars("<a/> ");
    let mut parser = Parser::new(&code);
    assert_eq!(parser.parse(), Ok(()));
    assert_eq!(parser.token(), Token::EndOfProgram);
    assert_eq!(parser.loc(), (5, 5));
    assert_eq!(parser.body.len(), 1);
    assert_eq!(parser.body(), &parser.body);
    // Nothing is left to read.
    assert_eq!(parser.parse(), Ok(()));
    assert_eq!(parser.body.len(), 1);
}

#[test]
fn malformed_token_at_top_level_is_fatal() {
    let code = chars("<a/> 1/2 <b/>");
    let mut parser = Parser::new(&code);
    assert_eq!(parser.parse(), Err(Error::UnexpectedToken));
    assert_eq!(parser.token(), Token::UnexpectedToken);
    assert_eq!(parser.loc(), (6, 7));
    assert!(parser.body.is_empty());
    assert_eq!(parse("<a/> \"open"), Err(Error::UnexpectedEndOfProgram));
}

#[test]
fn failure_leaves_the_body_as_it_was() {
    let code = chars("<a/> <b> ");
    let mut parser = Parser::new(&code);
    parser.body.push(Loc::new(0, 0, Node::Fragment(FragmentExpression { children: vec![] })));
    assert_eq!(parser.parse(), Err(Error::UnexpectedEndOfProgram));
    assert_eq!(parser.body.len(), 1);
    let code = chars("<a/> <b/>");
    let mut parser = Parser::new(&code);
    parser.body.push(Loc::new(0, 0, Node::Fragment(FragmentExpression { children: vec![] })));
    assert_eq!(parser.parse(), Ok(()));
    assert_eq!(parser.body.len(), 3);
    assert_eq!(span(&parser.body[1]), (0, 4));
    assert_eq!(span(&parser.body[2]), (5, 9));
}

#[test]
fn truncated_input_ends_unexpectedly() {
    for source in ["<", "<a", "<a ", "<a b", "<a b=\"c\"", "<a>", "<a>text", "<a></", "<a></a", "<a.", "<a:", "<a {", "<a {...", "<a {...b", "<>", "<><a/>"] {
        assert_eq!(parse(source), Err(Error::UnexpectedEndOfProgram), "{source}");
    }
}

#[test]
fn tags_must_be_closed_by_an_angle() {
    assert_eq!(parse("<a <b/>"), Err(Error::UnexpectedToken));
    assert_eq!(parse("<a \"x\"/>"), Err(Error::UnexpectedToken));
    assert_eq!(parse("<a></a b>"), Err(Error::UnexpectedToken));
    assert_eq!(parse("<a></a/>"), Err(Error::UnexpectedToken));
    assert_eq!(parse("<\"a\"/>"), Err(Error::UnexpectedToken));
}

#[test]
fn productions_need_their_first_token() {
    let code = chars("a");
    let mut parser = Parser::new(&code);
    // No token has been read yet.
    assert_eq!(parser.parse_elem(), Err(Error::UnexpectedToken));
    assert_eq!(parser.parse_fragment(), Err(Error::UnexpectedToken));
    assert_eq!(parser.parse_opening_or_self_closing_elem(), Err(Error::UnexpectedToken));
    assert_eq!(parser.parse_closing_elem(), Err(Error::UnexpectedToken));
    assert_eq!(parser.parse_elem_name(), Err(Error::UnexpectedToken));
    assert_eq!(parser.parse_elem_attr_name(), Err(Error::UnexpectedToken));
    assert_eq!(parser.parse_elem_attr(), Ok(None));
    assert_eq!(parser.parse_elem_attr_value(), Ok(None));
    assert_eq!(parser.loc(), (0, 0));
}

#[test]
fn advance_moves_to_the_next_token() {
    let code = chars("a =");
    let mut parser = Parser::new(&code);
    assert_eq!(parser.advance(), Ok(()));
    assert_eq!(parser.token(), Token::Identifier);
    assert_eq!(parser.loc(), (0, 1));
    assert_eq!(parser.advance(), Ok(()));
    assert_eq!(parser.token(), Token::Assign);
    assert_eq!(parser.advance(), Err(Error::UnexpectedEndOfProgram));
    assert_eq!(parser.token(), Token::EndOfProgram);
    assert_eq!(parser.advance(), Err(Error::UnexpectedEndOfProgram));
}

#[test]
fn element_name_alone() {
    let code = chars("a.b c");
    let mut parser = Parser::new(&code);
    parser.advance().unwrap();
    let name = parser.parse_elem_name().unwrap();
    assert_eq!(
        name,
        ElementName::MemberExpression(MemberExpression { members: vec![ident(0, 1), ident(2, 3)] })
    );
    // The token behind the name is current.
    assert_eq!(parser.token(), Token::Identifier);
    assert_eq!(parser.loc(), (4, 5));
    // A name at the very end of the input cannot be told to be complete.
    let code = chars("a");
    let mut parser = Parser::new(&code);
    parser.advance().unwrap();
    assert_eq!(parser.parse_elem_name(), Err(Error::UnexpectedEndOfProgram));
}

#[test]
fn attribute_name_alone() {
    let code = chars("a:b=");
    let mut parser = Parser::new(&code);
    parser.advance().unwrap();
    let name = parser.parse_elem_attr_name().unwrap();
    let NormalAttributeName::NamespacedName(n) = name else { panic!() };
    assert_eq!((span(&n.ns), span(&n.name)), ((0, 1), (2, 3)));
    assert_eq!(parser.token(), Token::Assign);
}

#[test]
fn attribute_alone() {
    let code = chars("a='1' {...b} >");
    let mut parser = Parser::new(&code);
    parser.advance().unwrap();
    let first = parser.parse_elem_attr().unwrap().unwrap();
    assert!(matches!(first, Attribute::Normal(_)));
    let second = parser.parse_elem_attr().unwrap().unwrap();
    let Attribute::Spread(b) = second else { panic!() };
    assert_eq!(span(&b), (10, 11));
    assert_eq!(parser.parse_elem_attr(), Ok(None));
    assert_eq!(parser.token(), Token::ElementClose);
}

#[test]
fn closing_tag_alone() {
    let code = chars("</a:b> x");
    let mut parser = Parser::new(&code);
    parser.advance().unwrap();
    let ClosingElement { name } = parser.parse_closing_elem().unwrap();
    let ElementName::NamespacedName(n) = name else { panic!() };
    assert_eq!((span(&n.ns), span(&n.name)), ((2, 3), (4, 5)));
    assert_eq!(parser.token(), Token::ElementClose);
    assert_eq!(parser.loc(), (5, 6));
}

#[test]
fn children_alone() {
    let code = chars("> a <b/> c </x>");
    let mut parser = Parser::new(&code);
    parser.advance().unwrap();
    let children = parser.parse_children().unwrap();
    assert_eq!(children.len(), 3);
    let Child::Text(t) = &children[0] else { panic!() };
    assert_eq!(span(t), (1, 4));
    let Child::Text(t) = &children[2] else { panic!() };
    assert_eq!(span(t), (8, 11));
    assert_eq!(parser.token(), Token::ClosingElementOpen);
    assert_eq!(parser.loc(), (11, 13));
}

#[test]
fn host_expression_alone() {
    let code = chars("{ a { b } c } d");
    let mut parser = Parser::new(&code);
    parser.advance().unwrap();
    let e = parser.parse_assignment_expression().unwrap();
    assert_eq!(e, AssignmentExpression { start: 1, end: 12 });
    assert_eq!(parser.token(), Token::BraceClose);
    assert_eq!(parser.loc(), (12, 13));
}

#[test]
fn equal_items_are_equal_wherever_they_were_read() {
    assert_eq!(Loc::new(0, 1, Token::Identifier), Loc::new(7, 9, Token::Identifier));
    assert_ne!(Loc::new(0, 1, Token::Identifier), Loc::new(0, 1, Token::LiteralString));
    assert_eq!(element("<a b/>"), element("  <abc   bcd   />"));
    assert_ne!(element("<a b/>"), element("<a b c/>"));
    let loc = Loc::new(3, 4, Token::Comma);
    assert_eq!(*loc, Token::Comma);
    assert_eq!((loc.start, loc.end, loc.item), (3, 4, Token::Comma));
}

#[test]
fn clones_are_equal_and_keep_their_ranges() {
    let source = "<a b={ x } {...c} d=<e f:g='1'/> h=<>t</>>text<i.j/>{k}</a>";
    let e = element(source);
    let copy = e.clone();
    assert_eq!(copy, e);
    assert_eq!(format!("{:?}", copy), format!("{:?}", e));
    let body = parse(source).unwrap();
    let node = body[0].clone();
    assert_eq!((node.start, node.end), (0, source.len()));
    assert_eq!(node.item, Node::Element(e));
    let f = fragment("<>a<b/></>");
    assert_eq!(f.clone(), f);
    assert_eq!(format!("{:?}", f.clone()), format!("{:?}", f));
}

#[test]
fn clone_of_a_tag() {
    let code = chars("<a.b c {...d}>");
    let mut parser = Parser::new(&code);
    parser.advance().unwrap();
    let tag = parser.parse_opening_or_self_closing_elem().unwrap();
    let copy = tag.clone();
    assert_eq!(copy, tag);
    assert_eq!(format!("{:?}", copy), format!("{:?}", tag));
    assert!(matches!(copy, OpeningOrSelfClosingElement::Opening(_)));
}
