use flame::ast::{
    Arguments, DefFunction, Effect, Expansion, Expression, HalfSignature, Import, InnerStatement,
    KeywordArgument, LetVariable, Module, OptionalParameter, Signature, Statement,
};
use flame::parse::parser::{def_function, effect, expression, signature};
use flame::parse::text::characters;
use flame::parse::{main_module, parse, sub_module, ParsingError, Rule};

const EXPRESSIONS: &[&str] = &["nil", "123", "0.1", "-123", "-0.1", "true", "false"];

fn text(s: &str) -> String {
    s.to_string()
}

fn number_expression(s: &str) -> Expression {
    Expression::Number(text(s))
}

fn name_expression(s: &str) -> Expression {
    Expression::Name(text(s))
}

fn parsed_expression(s: &str) -> Expression {
    expression(&characters(s), 0).unwrap().0
}

#[test]
fn name() {
    for s in &[
        "x",
        "x1",
        "func",
        "PureFunc",
        "alskfj1",
        "?",
        "is_boolean?",
        "isBoolean?",
    ] {
        println!("{}", s);
        parse(Rule::Name, s).unwrap();
    }
}

#[test]
fn boolean() {
    for s in vec!["true", "false"] {
        parse(Rule::Boolean, s).unwrap();
    }
}

#[test]
fn dictionary_parser() {
    for (s, e) in vec![
        ("{}", Expression::Dictionary(vec![])),
        (
            "{\"foo\" 42 ..dict}",
            Expression::Dictionary(vec![
                Expansion::Unexpanded((Expression::String(text("foo")), number_expression("42"))),
                Expansion::Expanded(name_expression("dict")),
            ]),
        ),
    ] {
        assert_eq!(parsed_expression(s), e);
    }
}

#[test]
fn list_parser() {
    for (s, e) in vec![
        ("[]", Expression::List(vec![])),
        (
            "[\"foo\" 42 ..list]",
            Expression::List(vec![
                Expansion::Unexpanded(Expression::String(text("foo"))),
                Expansion::Unexpanded(number_expression("42")),
                Expansion::Expanded(name_expression("list")),
            ]),
        ),
    ] {
        assert_eq!(parsed_expression(s), e);
    }
}

#[test]
fn nil() {
    parse(Rule::Nil, "nil").unwrap();
}

#[test]
fn number() {
    for s in vec!["123", "-0.1"] {
        parse(Rule::Number, s).unwrap();
    }
}

#[test]
fn number_literal_forms() {
    assert_eq!(parse(Rule::Number, "123"), Some(3));
    assert_eq!(parse(Rule::Number, "-0.1"), Some(4));
    assert_eq!(parse(Rule::Number, "1."), Some(1));
    assert_eq!(parse(Rule::Number, "-"), None);
    assert_eq!(parse(Rule::Number, "12ab"), None);
    assert_eq!(parse(Rule::Number, ".5"), None);
}

#[test]
fn string() {
    for s in vec![
        "\"\"",
        "\"a\"",
        "\"abc\"",
        "\"Hi!\"",
        "\"\\\"\"",
        "\"\\\\\"",
        "\"\\n\"",
        "\"\\r\"",
        "\"\\t\"",
        "\"\\\"\\\\\\n\\r\\t\"",
    ] {
        parse(Rule::String, s).unwrap();
    }
}

#[test]
fn escaped_string() {
    assert_eq!(
        parsed_expression("\"\\\"\\\\\\n\\r\\t\""),
        Expression::String(text("\"\\\n\r\t")),
    );
}

#[test]
fn anonymous_function() {
    for s in &[
        "(\\ () 123)",
        "(\\ (x) x)",
        "(\\ (x y) (+ x y))",
        "(\\ (x y . ..options) \"Hi!\")",
    ] {
        println!("{}", s);
        parse(Rule::AnonymousFunction, s).unwrap();
    }
}

#[test]
fn match_expression() {
    for s in &["(match a _ 42)", "(match (f x y) \"foo\" \"bar\" 42 nil)"] {
        println!("{}", s);
        parse(Rule::MatchExpression, s).unwrap();
    }
}

#[test]
fn application_tokenizer() {
    for s in &[
        "(foo)",
        "(f x)",
        "(f x y)",
        "(f ..args)",
        "(f x ..args)",
        "(f . x 123)",
        "(f . x 123 y 456)",
        "(f . ..kwargs)",
        "(f . x 123 ..kwargs)",
    ] {
        println!("{}", s);
        parse(Rule::Application, s).unwrap();
    }
}

#[test]
fn application_parser() {
    for (s, e) in vec![
        (
            "(f)",
            Expression::App(Box::new(name_expression("f")), Arguments::new(vec![], vec![])),
        ),
        (
            "(f . x 42 ..options)",
            Expression::App(
                Box::new(name_expression("f")),
                Arguments::new(
                    vec![],
                    vec![
                        Expansion::Unexpanded(KeywordArgument::new(text("x"), number_expression("42"))),
                        Expansion::Expanded(name_expression("options")),
                    ],
                ),
            ),
        ),
    ] {
        assert_eq!(parsed_expression(s), e);
    }
}

#[test]
fn expression_tokenizer() {
    for s in EXPRESSIONS {
        println!("{}", s);
        parse(Rule::Expression, s).unwrap();
    }
}

#[test]
fn signature_parser() {
    for (s, x) in vec![
        ("", Signature::default()),
        (
            "x y",
            Signature::new(
                HalfSignature::new(vec![text("x"), text("y")], vec![], text("")),
                HalfSignature::default(),
            ),
        ),
        (
            "(x 42)",
            Signature::new(
                HalfSignature::new(
                    vec![],
                    vec![OptionalParameter::new(text("x"), number_expression("42"))],
                    text(""),
                ),
                HalfSignature::default(),
            ),
        ),
        (
            ". x y",
            Signature::new(
                HalfSignature::default(),
                HalfSignature::new(vec![text("x"), text("y")], vec![], text("")),
            ),
        ),
        (
            "..rest",
            Signature::new(
                HalfSignature::new(vec![], vec![], text("rest")),
                HalfSignature::default(),
            ),
        ),
    ] {
        assert_eq!(signature(&characters(s), 0).0, x);
    }
}

#[test]
fn def_function_tokenizer() {
    for s in &[
        "(def (func) 123)",
        "(  def \n(func) (let  x  42\t) x)",
        "(def (func x) x)",
        "(def (func x y) x)",
        "(def (func (x 123)) x)",
        "(def (func ..args) x)",
        "(def (func . x) x)",
        "(def (func . x y) x)",
        "(def (func . (x 123)) x)",
        "(def (func . ..kwargs) x)",
        "(def (func x y . ..kwargs) x)",
    ] {
        println!("{}", s);
        parse(Rule::DefFunction, s).unwrap();
    }
}

fn one_parameter(name: &str) -> Signature {
    Signature::new(
        HalfSignature::new(vec![text(name)], vec![], text("")),
        HalfSignature::default(),
    )
}

#[test]
fn def_function_parser() {
    for (s, f) in vec![
        (
            "(def (f x) x)",
            DefFunction::new(text("f"), one_parameter("x"), vec![], name_expression("x")),
        ),
        (
            "(def (f x) (let y 42) x)",
            DefFunction::new(
                text("f"),
                one_parameter("x"),
                vec![InnerStatement::LetVariable(LetVariable::new(text("y"), number_expression("42")))],
                name_expression("x"),
            ),
        ),
        (
            "(def (f x) (def (g y) y) x)",
            DefFunction::new(
                text("f"),
                one_parameter("x"),
                vec![InnerStatement::DefFunction(DefFunction::new(
                    text("g"),
                    one_parameter("y"),
                    vec![],
                    name_expression("y"),
                ))],
                name_expression("x"),
            ),
        ),
        (
            "(def (f x) (def (g y) (let z 42) y) x)",
            DefFunction::new(
                text("f"),
                one_parameter("x"),
                vec![InnerStatement::DefFunction(DefFunction::new(
                    text("g"),
                    one_parameter("y"),
                    vec![InnerStatement::LetVariable(LetVariable::new(
                        text("z"),
                        number_expression("42"),
                    ))],
                    name_expression("y"),
                ))],
                name_expression("x"),
            ),
        ),
    ] {
        assert_eq!(def_function(&characters(s), 0).unwrap().0, f);
    }
}

#[test]
fn let_variable() {
    for s in &["(let x 123)", "(   let   thisIsNumber \t\n 123\n)"] {
        println!("{}", s);
        parse(Rule::LetVariable, s).unwrap();
    }
}

#[test]
fn import() {
    for s in &["(import \"foo\")", "(import \"x\")"] {
        parse(Rule::Import, s).unwrap();
    }
}

#[test]
fn effect_parser() {
    for (s, x) in vec![
        ("nil", Effect::new(Expression::Nil, false)),
        ("..nil", Effect::new(Expression::Nil, true)),
    ] {
        assert_eq!(effect(&characters(s), 0).unwrap().0, x);
    }
}

#[test]
fn main_module_tokenizer() {
    for s in &[
        "",
        " 123 nil \n \ttrue",
        "; comment",
        "; comment\n123",
        "(def (f) 123)",
        "(let x 123)",
    ] {
        println!("{}", s);
        parse(Rule::MainModule, s).unwrap();
    }
}

fn plain_effect(e: Expression) -> Statement {
    Statement::Effect(Effect::new(e, false))
}

#[test]
fn main_module_parser() {
    for (s, m) in vec![
        ("", Module::new(vec![], vec![])),
        ("123", Module::new(vec![], vec![plain_effect(number_expression("123"))])),
        (
            "true nil 123 \"foo\"",
            Module::new(
                vec![],
                vec![
                    plain_effect(Expression::Boolean(true)),
                    plain_effect(Expression::Nil),
                    plain_effect(number_expression("123")),
                    plain_effect(Expression::String(text("foo"))),
                ],
            ),
        ),
        (
            " 123 ; foo \n456",
            Module::new(
                vec![],
                vec![plain_effect(number_expression("123")), plain_effect(number_expression("456"))],
            ),
        ),
        (
            "(let name 42)",
            Module::new(
                vec![],
                vec![Statement::LetVariable(LetVariable::new(text("name"), number_expression("42")))],
            ),
        ),
        (
            "(def (f) 42)",
            Module::new(
                vec![],
                vec![Statement::DefFunction(DefFunction::new(
                    text("f"),
                    Signature::default(),
                    vec![],
                    number_expression("42"),
                ))],
            ),
        ),
        (
            "(import \"http\")",
            Module::new(vec![Import::new(text("http"))], vec![]),
        ),
    ] {
        println!("{:?}", s);
        println!("{:?}", m);
        assert_eq!(main_module(s), Ok(m));
    }
}

#[test]
fn sub_module_parser() {
    for (s, m) in vec![
        ("", Module::new(vec![], vec![])),
        (
            "(let name 42)",
            Module::new(
                vec![],
                vec![Statement::LetVariable(LetVariable::new(text("name"), number_expression("42")))],
            ),
        ),
        (
            "(def (f) 42)",
            Module::new(
                vec![],
                vec![Statement::DefFunction(DefFunction::new(
                    text("f"),
                    Signature::default(),
                    vec![],
                    number_expression("42"),
                ))],
            ),
        ),
        (
            "(import \"http\")",
            Module::new(vec![Import::new(text("http"))], vec![]),
        ),
    ] {
        println!("{:?}", s);
        println!("{:?}", m);
        assert_eq!(sub_module(s), Ok(m));
    }
}

#[test]
fn sub_module_parser_error() {
    assert!(sub_module("(write 42)").is_err());
}

#[test]
fn module_error_names_the_place() {
    assert_eq!(sub_module("(write 42)"), Err(ParsingError { position: 0 }));
    assert_eq!(main_module("nil )"), Err(ParsingError { position: 4 }));
    assert_eq!(main_module("(let x 1) \"open"), Err(ParsingError { position: 10 }));
}

#[test]
fn keywords_end_at_a_delimiter() {
    assert_eq!(parsed_expression("truex"), name_expression("truex"));
    assert_eq!(parsed_expression("nil?"), name_expression("nil?"));
    assert_eq!(parsed_expression("-"), name_expression("-"));
    assert_eq!(parsed_expression("-1"), number_expression("-1"));
    assert_eq!(parse(Rule::Boolean, "truex"), None);
}

#[test]
fn escapes_are_replaced_one_kind_after_the_other() {
    assert_eq!(parsed_expression("\"a\\tb\""), Expression::String(text("a\tb")));
    assert_eq!(parsed_expression("\"\\\\n\""), Expression::String(text("\n")));
    assert_eq!(parse(Rule::String, "\"\\q\""), None);
    assert_eq!(parse(Rule::String, "\"open"), None);
}

#[test]
fn import_name_is_taken_as_written() {
    assert_eq!(
        main_module("(import \"a\\nb\")"),
        Ok(Module::new(vec![Import::new(text("a\\nb"))], vec![])),
    );
}

#[test]
fn characters_are_counted_not_bytes() {
    assert_eq!(characters("né").len(), 2);
    assert_eq!(parse(Rule::Name, "né"), Some(2));
    assert_eq!(parsed_expression("\"é\""), Expression::String(text("é")));
}
