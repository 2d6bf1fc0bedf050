use temple::error::ParseErrorKind;
use temple::lex::{Lexer, Tok};
use temple::parse::{Node, Parser};
use temple::text::{is_whitespace, trim_end, trim_start};

const TEMPLATE: &str = "
{%- let we_can_declar_vars = true; -%}
Can we declare vars? {{ we_can_declar_vars }}

{% for x in 0..1000 { %}
    x is currenly: {{ x }}
{%- } -%}
";

fn content(s: &str) -> Node {
    Node::Content(s.to_string())
}

fn render(s: &str) -> Node {
    Node::Render(s.to_string())
}

fn control(s: &str) -> Node {
    Node::Control(s.to_string())
}

fn literal(s: &str) -> Tok {
    Tok::Literal(s.to_string())
}

fn parse(s: &str) -> Result<Vec<Node>, ParseErrorKind> {
    Parser::new(s).parse_nodes().map_err(|e| e.kind)
}

#[test]
fn test_lexer() {
    let tokens = Lexer::new(TEMPLATE).collect_tokens();
    println!("{:?}", tokens)
}

#[test]
fn test_parser() {
    let nodes = Parser::new(TEMPLATE).parse_nodes().unwrap();
    println!("{:?}", nodes)
}

#[test]
fn sample_template_nodes() {
    assert_eq!(
        parse(TEMPLATE),
        Ok(vec![
            control("let we_can_declar_vars = true;"),
            content("Can we declare vars? "),
            render("we_can_declar_vars"),
            content("\n\n"),
            control("for x in 0..1000 {"),
            content("\n    x is currenly: "),
            render("x"),
            control("}"),
        ])
    );
}

#[test]
fn sample_template_tokens() {
    let tokens = Lexer::new("a {{- b }} c {%x-%}").collect_tokens();
    assert_eq!(
        tokens,
        vec![
            literal("a "),
            Tok::ORenderBlock { clear_whitespace: true },
            literal("b"),
            Tok::CRenderBlock { clear_whitespace: false },
            literal(" c "),
            Tok::OControlBlock { clear_whitespace: false },
            literal("x"),
            Tok::CControlBlock { clear_whitespace: true },
        ]
    );
}

#[test]
fn plain_text_is_one_content_node() {
    assert_eq!(parse("hello } world %}"), Ok(vec![content("hello } world %}")]));
    assert_eq!(parse("  { x % y -}} "), Ok(vec![content("  { x % y -}} ")]));
}

#[test]
fn empty_text_has_no_nodes() {
    assert_eq!(parse(""), Ok(vec![]));
    assert_eq!(Lexer::new("").collect_tokens(), vec![]);
}

#[test]
fn trim_on_both_sides() {
    assert_eq!(
        parse("a  {{- x -}}  b"),
        Ok(vec![content("a"), render("x"), content("b")])
    );
}

#[test]
fn spacing_kept_without_trim() {
    assert_eq!(
        parse("a  {{ x }}  b"),
        Ok(vec![content("a  "), render("x"), content("  b")])
    );
}

#[test]
fn adjacent_blocks_have_no_content_between() {
    assert_eq!(parse("{{a}}{{b}}"), Ok(vec![render("a"), render("b")]));
}

#[test]
fn closer_outside_block_is_literal() {
    assert_eq!(parse("x }} y"), Ok(vec![content("x }} y")]));
    assert_eq!(Lexer::new("x }} y").collect_tokens(), vec![literal("x }} y")]);
}

#[test]
fn missing_closer_is_malformed() {
    assert_eq!(parse("{{ x"), Err(ParseErrorKind::MalformedBlock));
}

#[test]
fn missing_body_is_malformed() {
    assert_eq!(parse("{{}}"), Err(ParseErrorKind::MalformedBlock));
    assert_eq!(parse("{%-%}"), Err(ParseErrorKind::MalformedBlock));
    assert_eq!(parse("a {{"), Err(ParseErrorKind::MalformedBlock));
}

#[test]
fn mismatched_closer_is_malformed() {
    assert_eq!(parse("{{ x %}"), Err(ParseErrorKind::MalformedBlock));
    assert_eq!(parse("{% x }}"), Err(ParseErrorKind::MalformedBlock));
}

#[test]
fn error_messages_describe_the_problem() {
    let e = Parser::new("{{ x").parse_nodes().unwrap_err();
    assert_eq!(e.to_string(), "expected '}}'");
    let e = Parser::new("{% x").parse_nodes().unwrap_err();
    assert_eq!(e.message, "expected '%}'");
}

#[test]
fn closer_without_opener_is_unexpected() {
    let mut lexer = Lexer::new("{{ a }}");
    assert_eq!(lexer.next(), Some(Tok::ORenderBlock { clear_whitespace: false }));
    let e = Parser::new_with_lexer(lexer).parse_nodes().unwrap_err();
    assert_eq!(e.kind, ParseErrorKind::UnexpectedClose);
    assert_eq!(e.message, "unexpected '}}'");

    let mut lexer = Lexer::new("{% a -%}");
    assert_eq!(lexer.next(), Some(Tok::OControlBlock { clear_whitespace: false }));
    let e = Parser::new_with_lexer(lexer).parse_nodes().unwrap_err();
    assert_eq!(e.kind, ParseErrorKind::UnexpectedClose);
    assert_eq!(e.message, "unexpected '%}'");
}

#[test]
fn parsing_twice_gives_equal_results() {
    assert_eq!(parse(TEMPLATE), parse(TEMPLATE));
    assert_eq!(parse("{{ x"), parse("{{ x"));
}

#[test]
fn control_block_trims() {
    assert_eq!(
        parse("a \n{%- if x { -%}\n b {% } %}"),
        Ok(vec![content("a"), control("if x {"), content("b "), control("}")])
    );
}

#[test]
fn open_trim_removes_whitespace_only_content() {
    assert_eq!(parse("  \t{{- x }}"), Ok(vec![render("x")]));
}

#[test]
fn close_trim_drops_whitespace_only_literal() {
    assert_eq!(parse("{{ x -}}  \n"), Ok(vec![render("x")]));
}

#[test]
fn open_trim_leaves_block_node_alone() {
    assert_eq!(parse("{{ a }}{{- b }}"), Ok(vec![render("a"), render("b")]));
}

#[test]
fn close_trim_is_dropped_by_following_block() {
    assert_eq!(
        parse("{{ a -}}{{ b }}  c"),
        Ok(vec![render("a"), render("b"), content("  c")])
    );
}

#[test]
fn block_body_is_trimmed_of_unicode_whitespace() {
    assert_eq!(parse("{{\u{3000}x\u{a0}}}"), Ok(vec![render("x")]));
}

#[test]
fn lone_brace_and_dash_are_literal() {
    assert_eq!(parse("{ - }"), Ok(vec![content("{ - }")]));
    assert_eq!(parse("{{ a - b }}"), Ok(vec![render("a - b")]));
}

#[test]
fn lexer_char_helpers() {
    let mut lexer = Lexer::new("{%-x");
    assert!(lexer.has_next_char('{'));
    assert!(lexer.has_next_char2('{', '%'));
    assert!(lexer.has_next_char3('{', '%', '-'));
    assert!(!lexer.has_next_char3('{', '{', '-'));
    assert!(!lexer.with_next_char('%'));
    assert!(lexer.with_next_chars('{', '%'));
    assert_eq!(lexer.next_char(), Some('-'));
    assert_eq!(lexer.next_char(), Some('x'));
    assert_eq!(lexer.next_char(), None);
    assert_eq!(lexer.next(), None);
}

#[test]
fn whitespace_helpers() {
    assert!(is_whitespace(' '));
    assert!(is_whitespace('\u{2009}'));
    assert!(!is_whitespace('\u{200b}'));
    assert!(!is_whitespace('x'));
    assert_eq!(trim_start(" \n a b "), "a b ");
    assert_eq!(trim_end(" a b \t"), " a b");
    assert_eq!(trim_end("   "), "");
}
