use wxml_compiler::compile;
use wxml_compiler::generator::{strip_pairs_of, Directive, Generator};
use wxml_compiler::lexer::{Error, Kind, Lexer, Loc, Token};
use wxml_compiler::parser::{Node, Parser};

fn text_node(t: &str) -> Node {
    Node {
        base: Token { kind: Kind::Text(t.to_string()), attributes: None, loc: Loc::new(1, 0, 0) },
        children: vec![],
    }
}

fn generator() -> Generator {
    Generator::new(text_node("x"))
}

#[test]
fn tag_names_become_component_names() {
    let g = generator();
    assert_eq!(g.camel_case("list-items".to_string()), "ListItems");
    assert_eq!(g.camel_case("text".to_string()), "Text");
    assert_eq!(g.camel_case("a--b".to_string()), "AB");
    assert_eq!(g.camel_case("".to_string()), "");
}

#[test]
fn first_upper_changes_only_the_first_character() {
    let g = generator();
    assert_eq!(g.first_upper("list-items".to_string()), "List-items");
    assert_eq!(g.first_upper("".to_string()), "");
    assert_eq!(g.first_upper("9a".to_string()), "9a");
    assert_eq!(g.first_upper("é-x".to_string()), "É-x");
    assert_eq!(g.first_upper("ßa".to_string()), "SSa");
}

#[test]
fn non_ascii_pieces_are_upper_cased() {
    let g = generator();
    assert_eq!(g.camel_case("élan-über".to_string()), "ÉlanÜber");
}

#[test]
fn failed_scan_keeps_earlier_tokens_only() {
    let mut lx = Lexer::new("<a/> b . c".to_string());
    match lx.tokenize_all() {
        Err(Error::UnexpectedToken(loc, _)) => assert_eq!(loc.pos, 7),
        other => panic!("unexpected outcome {:?}", other),
    }
    assert_eq!(lx.buf.len(), 2);
    assert_eq!(lx.buf[1].kind, Kind::Text("b".to_string()));
}

#[test]
fn scanning_consumes_the_whole_text() {
    let mut lx = Lexer::new("<view><text/>123</view>\n".to_string());
    assert_eq!((lx.loc.line, lx.loc.column, lx.loc.pos), (1, 0, 0));
    assert_eq!(lx.tokenize_all(), Ok(()));
    assert_eq!(lx.loc.pos, 24);
    assert_eq!(lx.buf.len(), 4);
    assert_eq!(lx.buf[0].attributes, Some(vec![]));
    assert_eq!(lx.buf[3].attributes, None);
    assert_eq!(lx.tokenize(), Err(Error::END));
    assert_eq!(lx.loc.pos, 24);
}

#[test]
fn parse_all_reads_every_token_of_the_tree() {
    let mut p = Parser::new("<view><text/>123</view>");
    assert_eq!((p.lexer.loc.line, p.lexer.loc.column), (1, 0));
    let n = p.parse_all().unwrap();
    assert_eq!(n.children.len(), 2);
    assert_eq!(p.lexer.buf.len(), 4);
    assert_eq!(p.lexer.pos, 4);
}

#[test]
fn generation_keeps_the_generator() {
    let mut g = Generator::new(text_node("abc"));
    assert_eq!(g.generate_fre(), "abc");
    assert_eq!(g.generate_fre(), "abc");
    assert_eq!(g.code, "");
}

#[test]
fn bind_attributes_are_renamed() {
    let g = generator();
    assert_eq!(g.wried_prop("bindtap".to_string()), "onclick");
    assert_eq!(g.wried_prop("bindclick".to_string()), "onkeydown");
    assert_eq!(g.wried_prop("bindinput".to_string()), "oninput");
    assert_eq!(g.wried_prop("bind".to_string()), "on");
    assert_eq!(g.wried_prop("class".to_string()), "class");
    assert_eq!(g.wried_prop("wx:key".to_string()), "wx:key");
}

#[test]
fn bindtap_is_emitted_as_onclick() {
    assert_eq!(compile("<view bindtap=\"x\"></view>").unwrap(), "<View onclick=\"x\"></View>");
}

#[test]
fn wx_key_is_emitted_as_key() {
    assert_eq!(compile("<view wx:key=\"id\"></view>").unwrap(), "<View key=\"id\"></View>");
}

#[test]
fn expressions_are_unwrapped() {
    let g = generator();
    assert_eq!(g.take_expression("{{aaa}}".to_string()), "aaa");
    assert_eq!(g.take_expression("a{{b}}c{{d}}".to_string()), "abcd");
    assert_eq!(g.take_expression("plain".to_string()), "plain");
    assert_eq!(
        compile("<view class=\"{{aaa}}\"></view>").unwrap(),
        "<View class=\"aaa\"></View>"
    );
}

#[test]
fn pairs_are_stripped_left_to_right() {
    assert_eq!(strip_pairs_of("{{{a}}}", '{'), "{a}}}");
    assert_eq!(strip_pairs_of("", '{'), "");
}

#[test]
fn self_closing_tag_has_no_closing_tag() {
    assert_eq!(compile("<text/>").unwrap(), "<Text/>");
    let mut p = Parser::new("<text/>");
    let n = p.parse_all().unwrap();
    assert!(n.children.is_empty());
}

#[test]
fn end_to_end_text_child() {
    assert_eq!(compile("<view><text/>123</view>").unwrap(), "<View><Text/>123</View>");
}

#[test]
fn end_to_end_attribute() {
    assert_eq!(
        compile("<view class=\"abc\"><text/></view>").unwrap(),
        "<View class=\"abc\"><Text/></View>"
    );
}

#[test]
fn end_to_end_loop() {
    assert_eq!(
        compile("<block wx:for=\"{{list}}\" wx:key=\"id\"><text/></block>").unwrap(),
        "{list.map((item)=><Block key=\"id\"><Text/></Block>)}"
    );
}

#[test]
fn missing_closing_bracket_fails_at_its_place() {
    match compile("<view class=\"abc\"") {
        Err(Error::UnexpectedEnd(loc, _)) => assert_eq!(loc.pos, 17),
        other => panic!("unexpected outcome {:?}", other),
    }
}

#[test]
fn condition_is_dropped() {
    assert_eq!(compile("<view wx:if=\"{{a}}\"><text/></view>").unwrap(), "<View><Text/></View>");
}

#[test]
fn loop_after_condition_still_wraps() {
    assert_eq!(
        compile("<view wx:if=\"{{a}}\" wx:for=\"{{b}}\"></view>").unwrap(),
        "{b.map((item)=><View></View>)}"
    );
}

#[test]
fn loop_on_self_closing_tag() {
    assert_eq!(
        compile("<text wx:for='{{xs}}'/>").unwrap(),
        "{xs.map((item)=><Text/>)}"
    );
}

#[test]
fn line_breaks_and_indentation_are_skipped() {
    assert_eq!(
        compile("<view>\n  <text/>\n\t<text/>\n</view>\n").unwrap(),
        "<View><Text/><Text/></View>"
    );
}

#[test]
fn closing_tag_names_are_not_matched() {
    assert_eq!(compile("<a><b/></c>").unwrap(), "<A><B/></A>");
}

#[test]
fn only_the_first_node_is_generated() {
    assert_eq!(compile("<a></a><b></b>").unwrap(), "<A></A>");
}

#[test]
fn text_alone_is_a_leaf() {
    assert_eq!(compile("abc").unwrap(), "abc");
}

#[test]
fn empty_input_is_end_of_input() {
    assert_eq!(compile(""), Err(Error::END));
    assert_eq!(compile("  \n "), Err(Error::END));
}

#[test]
fn unclosed_tag_fails_at_the_tag() {
    match compile("<a><view>") {
        Err(Error::UnexpectedEnd(loc, _)) => assert_eq!(loc.pos, 3),
        other => panic!("unexpected outcome {:?}", other),
    }
}

#[test]
fn missing_quote_is_an_expectation() {
    match compile("<a b=x>") {
        Err(Error::Expect(loc, _)) => assert_eq!(loc.pos, 5),
        other => panic!("unexpected outcome {:?}", other),
    }
}

#[test]
fn closing_tag_without_bracket_is_an_expectation() {
    match compile("<a></a b") {
        Err(Error::Expect(loc, _)) => assert_eq!(loc.pos, 6),
        other => panic!("unexpected outcome {:?}", other),
    }
}

#[test]
fn punctuation_in_text_is_rejected() {
    match compile("<a>hi.</a>") {
        Err(Error::UnexpectedToken(loc, _)) => assert_eq!(loc.pos, 5),
        other => panic!("unexpected outcome {:?}", other),
    }
}

#[test]
fn truncated_attribute_value() {
    match compile("<a b=\"x") {
        Err(Error::UnexpectedEnd(loc, _)) => assert_eq!(loc.pos, 7),
        other => panic!("unexpected outcome {:?}", other),
    }
}

#[test]
fn tokens_carry_attributes_and_places() {
    let mut lx = Lexer::new("<a x='1' y=\"2\"/> hi".to_string());
    assert_eq!(lx.tokenize_all(), Ok(()));
    assert_eq!(lx.buf.len(), 2);
    assert_eq!(lx.buf[0].kind, Kind::SelfCloseTag("a".to_string()));
    assert_eq!(
        lx.buf[0].attributes,
        Some(vec![
            Kind::Attribute("x".to_string(), "1".to_string()),
            Kind::Attribute("y".to_string(), "2".to_string())
        ])
    );
    assert_eq!(lx.buf[0].loc.pos, 0);
    assert_eq!(lx.buf[1].kind, Kind::Text("hi".to_string()));
    assert_eq!(lx.buf[1].loc.pos, 17);
}

#[test]
fn tokenize_reports_end() {
    let mut lx = Lexer::new("   ".to_string());
    assert_eq!(lx.tokenize(), Err(Error::END));
}

#[test]
fn multibyte_text_is_counted_in_characters() {
    let mut lx = Lexer::new("é<a/>".to_string());
    match lx.tokenize() {
        Err(Error::UnexpectedToken(loc, _)) => assert_eq!(loc.pos, 0),
        other => panic!("unexpected outcome {:?}", other),
    }
    assert_eq!(compile("<a v=\"é\"/>").unwrap(), "<A v=\"é\"/>");
}

#[test]
fn parser_builds_children_in_order() {
    let mut p = Parser::new("<a><b/>c<d></d></a>");
    let n = p.parse_all().unwrap();
    assert_eq!(n.base.kind, Kind::OpenTag("a".to_string()));
    assert_eq!(n.children.len(), 3);
    assert_eq!(n.children[0].base.kind, Kind::SelfCloseTag("b".to_string()));
    assert_eq!(n.children[1].base.kind, Kind::Text("c".to_string()));
    assert_eq!(n.children[2].base.kind, Kind::OpenTag("d".to_string()));
    assert!(n.children[2].children.is_empty());
}

#[test]
fn parser_reads_and_peeks() {
    let mut p = Parser::new("<a></a>");
    p.lexer.tokenize_all().unwrap();
    assert_eq!(p.peek(1).unwrap().kind, Kind::CloseTag("a".to_string()));
    assert_eq!(p.read_token().unwrap().kind, Kind::OpenTag("a".to_string()));
    assert_eq!(p.read_token().unwrap().kind, Kind::CloseTag("a".to_string()));
    assert_eq!(p.read_token(), Err(Error::END));
    assert_eq!(p.peek(0), Err(Error::END));
}

#[test]
fn directives_apply_in_order() {
    let g = generator();
    assert_eq!(g.generate_directs(vec![], "<A/>".to_string()), "<A/>");
    assert_eq!(
        g.generate_directs(
            vec![Directive::If("c".to_string()), Directive::For("xs".to_string()), Directive::For("ys".to_string())],
            "<A/>".to_string()
        ),
        "{xs.map((item)=><A/>)}"
    );
}

#[test]
fn generator_walks_a_built_tree() {
    let mut p = Parser::new("<list-items><x-y/></list-items>");
    // names stop at `-`, so build the tree by hand
    assert!(p.parse_all().is_err());
    let child = Node {
        base: Token { kind: Kind::SelfCloseTag("x-y".to_string()), attributes: Some(vec![]), loc: Loc::default() },
        children: vec![],
    };
    let root = Node {
        base: Token {
            kind: Kind::OpenTag("list-items".to_string()),
            attributes: Some(vec![Kind::Attribute("bindtap".to_string(), "{{go}}".to_string())]),
            loc: Loc::default(),
        },
        children: vec![child, text_node("t")],
    };
    let mut g = Generator::new(root);
    assert_eq!(g.generate_fre(), "<ListItems onclick=\"go\"><X-y/>t</ListItems>");
    assert_eq!(g.generate_node(text_node("q")), "q");
    assert_eq!(g.code, "");
}

#[test]
fn loc_defaults_to_the_start() {
    let l = Loc::default();
    assert_eq!((l.line, l.column, l.pos), (1, 0, 0));
}

#[test]
fn compiling_twice_gives_the_same_markup() {
    let s = "<view class=\"a\"><text/>1</view>";
    assert_eq!(compile(s), compile(s));
}
