use flame::compile::{number_literals, Compiler};
use flame::parse::main_module;
use flame::runtime::{Error, Native, Number, Value, ValueError};

const FUEL: usize = 1000;

fn number(text: &str) -> Number {
    let x: f64 = text.parse().unwrap();
    Number::new(x.to_bits(), format!("{}", x))
}

fn compiler_for(source: &str) -> Compiler {
    let module = main_module(source).unwrap();
    let mut compiler = Compiler::new();
    for text in number_literals(&module) {
        let n = number(&text);
        compiler.define_number(text, n);
    }
    compiler
}

fn texts(source: &str) -> Vec<String> {
    let mut compiler = compiler_for(source);
    let module = main_module(source).unwrap();
    assert!(compiler.accepts(&module));
    compiler
        .compile_module(module)
        .unwrap()
        .iter()
        .map(|e| e.value.to_string(FUEL).unwrap())
        .collect()
}

#[test]
fn compiler_new() {
    let compiler = Compiler::new();
    assert!(compiler.resolve("list").is_some());
    assert!(compiler.resolve("if").is_some());
    assert!(compiler.resolve("nothing").is_none());
    assert!(compiler.resolve_number("1").is_none());
    let list = compiler.resolve("list").unwrap();
    assert!(list.equal(&Native::List.value(), FUEL).unwrap());
}

#[test]
fn compile_literals() {
    assert_eq!(
        texts("nil true false 42 -0.50 \"foo\""),
        vec!["nil", "true", "false", "42", "-0.5", "foo"]
    );
}

#[test]
fn compile_empty_module() {
    assert!(texts("").is_empty());
    assert!(texts(" ; nothing here\n").is_empty());
}

#[test]
fn compile_lists() {
    assert_eq!(texts("[]"), vec!["[]"]);
    assert_eq!(texts("[1 2 3]"), vec!["[1 2 3]"]);
    assert_eq!(texts("[1 ..[2 3] 4 ..[5 6]]"), vec!["[1 2 3 4 5 6]"]);
    assert_eq!(texts("[[1] [2 [3]]]"), vec!["[[1] [2 [3]]]"]);
    assert_eq!(texts("[1 2 3 4 5 6 7]"), vec!["[1 2 3 4 5 6 7]"]);
}

#[test]
fn compile_keeps_the_spread_mark_of_an_effect() {
    let source = "..[1 2] [3]";
    let mut compiler = compiler_for(source);
    let effects = compiler.compile_module(main_module(source).unwrap()).unwrap();
    assert_eq!(effects.len(), 2);
    assert!(effects[0].expanded);
    assert!(!effects[1].expanded);
}

#[test]
fn compile_names() {
    let source = "[x list]";
    let mut compiler = compiler_for(source);
    assert!(!compiler.accepts(&main_module(source).unwrap()));
    compiler.define("x".to_string(), Value::from_boolean(true));
    assert!(compiler.accepts(&main_module(source).unwrap()));
    let effects = compiler.compile_module(main_module(source).unwrap()).unwrap();
    assert_eq!(effects[0].value.to_string(FUEL).unwrap(), "[true <function>]");
    compiler.define("x".to_string(), Value::nil());
    let again = compiler.compile_module(main_module(source).unwrap()).unwrap();
    assert_eq!(again[0].value.to_string(FUEL).unwrap(), "[nil <function>]");
}

#[test]
fn compile_needs_its_numbers() {
    let source = "[1 [2 1] \"3\"] 4 (f 5)";
    let module = main_module(source).unwrap();
    assert_eq!(number_literals(&module), vec!["1", "2", "1", "4"]);
    let mut compiler = Compiler::new();
    assert!(!compiler.accepts(&main_module("1").unwrap()));
    compiler.define_number("1".to_string(), number("1"));
    assert!(compiler.accepts(&main_module("1").unwrap()));
    assert!(!compiler.accepts(&main_module("[1 2]").unwrap()));
}

#[test]
fn what_the_compiler_does_not_accept() {
    let compiler = compiler_for("");
    for source in ["(let x nil)", "(def (f) nil)", "(list nil)", "{nil nil}", "[{}]", "unknown"] {
        assert!(!compiler.accepts(&main_module(source).unwrap()));
    }
    assert!(compiler.accepts(&main_module("(import \"http\") nil").unwrap()));
}

#[test]
fn a_spread_of_what_is_no_list_fails_when_forced() {
    let source = "[1 ..nil] [..nil]";
    let mut compiler = compiler_for(source);
    let effects = compiler.compile_module(main_module(source).unwrap()).unwrap();
    assert!(matches!(
        effects[0].value.to_string(FUEL),
        Err(Error::Value(ValueError::NotList))
    ));
    assert_eq!(effects[1].value.to_string(FUEL).unwrap(), "nil");
}
