use flame::runtime::{
    ArgumentError, Arguments, Dictionary, Error, Expr, Function, Key, KeywordArgument,
    KeywordExpr, List, Native, Normal, Number, OptionalParameter, PositionalArgument,
    PositionalExpr, Signature, Value, ValueError,
};

const FUEL: usize = 1000;

fn number(x: f64) -> Value {
    Value::from_number(Number::new(x.to_bits(), format!("{}", x)))
}

fn string(s: &str) -> Value {
    Value::from_string(s.to_string())
}

fn numbers(xs: &[f64]) -> Vec<Value> {
    xs.iter().map(|x| number(*x)).collect()
}

fn list_value(xs: &[f64]) -> Value {
    Value::from_list(List::new(&numbers(xs)))
}

fn plain(v: Value) -> PositionalArgument {
    PositionalArgument::new(v, false)
}

fn spread(v: Value) -> PositionalArgument {
    PositionalArgument::new(v, true)
}

fn keyword(name: &str, v: Value) -> KeywordArgument {
    KeywordArgument::new(name.to_string(), v)
}

fn same(a: &Value, b: &Value) -> bool {
    a.equal(b, FUEL).unwrap()
}

fn text_of(v: &Value) -> String {
    v.to_string(FUEL).unwrap()
}

#[test]
fn arguments_new() {
    Arguments::new(&[], &[], &[]);
}

#[test]
fn rest_positionals() {
    let cases: Vec<(Arguments, List)> = vec![
        (Arguments::positionals(&[]), List::Empty),
        (Arguments::positionals(&[number(42.0)]), List::new(&[number(42.0)])),
        (
            Arguments::new(&[spread(Value::from_list(List::Empty))], &[], &[]),
            List::Empty,
        ),
    ];
    for (mut a, l) in cases {
        assert!(a.rest_positionals().equal(&Value::from_list(l), FUEL).unwrap());
    }
}

#[test]
fn list() {
    let cases: Vec<(Arguments, List)> = vec![
        (Arguments::positionals(&[]), List::Empty),
        (Arguments::positionals(&[number(42.0)]), List::new(&[number(42.0)])),
        (
            Arguments::new(&[spread(list_value(&[42.0]))], &[], &[]),
            List::new(&[number(42.0)]),
        ),
        (
            Arguments::new(
                &[
                    plain(number(1.0)),
                    spread(list_value(&[2.0, 3.0])),
                    plain(number(4.0)),
                    spread(list_value(&[5.0, 6.0])),
                ],
                &[],
                &[],
            ),
            List::new(&numbers(&[1.0, 2.0, 3.0, 4.0, 5.0, 6.0])),
        ),
    ];
    for (a, l) in cases {
        let v = Value::app(Native::List.value(), a);
        println!("{}", text_of(&v));
        assert!(same(&v, &Value::from_list(l)));
    }
}

#[test]
fn list_body_returns_its_one_value() {
    let r = flame::runtime::list(vec![list_value(&[1.0, 2.0])]).unwrap();
    assert_eq!(text_of(&r), "[1 2]");
}

#[test]
fn iff() {
    let cases: Vec<(Vec<Value>, Value)> = vec![
        (vec![number(42.0)], number(42.0)),
        (
            vec![Value::from_boolean(true), number(42.0), number(0.0)],
            number(42.0),
        ),
        (
            vec![Value::from_boolean(false), number(42.0), number(0.0)],
            number(0.0),
        ),
        (
            vec![
                Value::from_boolean(false),
                number(42.0),
                Value::from_boolean(true),
                number(123.0),
                number(0.0),
            ],
            number(123.0),
        ),
    ];
    for (xs, y) in cases {
        assert!(same(&Value::papp(Native::If.value(), &xs), &y));
    }
}

#[test]
fn iff_body() {
    let cases: Vec<(Vec<Value>, Value)> = vec![
        (vec![number(42.0)], number(42.0)),
        (
            vec![Value::from_boolean(true), number(42.0), number(0.0)],
            number(42.0),
        ),
        (
            vec![Value::from_boolean(false), number(42.0), number(0.0)],
            number(0.0),
        ),
        (
            vec![
                Value::from_boolean(false),
                number(42.0),
                Value::from_boolean(true),
                number(123.0),
                number(0.0),
            ],
            number(123.0),
        ),
    ];
    for (xs, y) in cases {
        let conds = Value::from_list(List::new(&xs));
        assert!(same(&flame::runtime::iff(vec![conds], FUEL).unwrap(), &y));
    }
}

#[test]
fn iff_rejects_what_is_no_condition() {
    let conds = Value::from_list(List::new(&[number(1.0), number(2.0), number(3.0)]));
    assert!(matches!(
        flame::runtime::iff(vec![conds], FUEL),
        Err(Error::Value(ValueError::NotBoolean))
    ));
    assert!(matches!(
        flame::runtime::iff(vec![Value::from_list(List::Empty)], FUEL),
        Err(Error::Value(ValueError::EmptyList))
    ));
    assert!(matches!(
        flame::runtime::iff(vec![number(1.0)], FUEL),
        Err(Error::Value(ValueError::NotList))
    ));
}

#[test]
fn dictionary_new() {
    Dictionary::new();
}

#[test]
fn merge() {
    let d = Dictionary::new();
    d.merge(&d);
}

#[test]
fn merge_of_filled_dictionaries_prefers_the_right() {
    let a = Dictionary::new()
        .insert(string("x"), number(1.0), FUEL)
        .unwrap()
        .insert(string("y"), number(2.0), FUEL)
        .unwrap();
    let b = Dictionary::new()
        .insert(string("y"), number(3.0), FUEL)
        .unwrap()
        .insert(string("z"), number(4.0), FUEL)
        .unwrap();
    let m = a.merge(&b);
    assert_eq!(m.size(), 3);
    assert!(same(&m.find(string("x"), FUEL).unwrap(), &number(1.0)));
    assert!(same(&m.find(string("y"), FUEL).unwrap(), &number(3.0)));
    assert!(same(&m.find(string("z"), FUEL).unwrap(), &number(4.0)));
    assert_eq!(a.size(), 2);
    assert!(same(&a.find(string("y"), FUEL).unwrap(), &number(2.0)));
}

#[test]
fn cons_first_rest() {
    let l = List::new(&numbers(&[2.0, 3.0]));
    let c = List::cons(number(1.0), Value::from_list(l.clone()));
    assert!(same(&c.first().unwrap(), &number(1.0)));
    assert!(same(
        &Value::from_list(c.rest(FUEL).unwrap()),
        &Value::from_list(l)
    ));
    assert!(!c.is_empty());
    assert!(List::Empty.is_empty());
}

#[test]
fn empty_list_has_no_first_and_no_rest() {
    assert!(matches!(
        List::Empty.first(),
        Err(Error::Value(ValueError::EmptyList))
    ));
    assert!(matches!(
        List::Empty.rest(FUEL),
        Err(Error::Value(ValueError::EmptyList))
    ));
}

#[test]
fn rest_of_a_list_with_a_tail_that_is_no_list() {
    let c = List::cons(number(1.0), number(2.0));
    assert!(matches!(
        c.rest(FUEL),
        Err(Error::Value(ValueError::NotList))
    ));
}

#[test]
fn strict_prepend_keeps_order_and_tail() {
    let tail = list_value(&[3.0]);
    let v = List::strict_prepend(&numbers(&[1.0, 2.0]), tail);
    assert_eq!(text_of(&v), "[1 2 3]");
    let w = List::strict_prepend(&[], list_value(&[7.0]));
    assert_eq!(text_of(&w), "[7]");
}

#[test]
fn list_merge_appends() {
    let a = List::new(&numbers(&[1.0, 2.0]));
    let m = a.merge(list_value(&[3.0, 4.0]), FUEL).unwrap();
    assert_eq!(text_of(&Value::from_list(m)), "[1 2 3 4]");
    let e = List::Empty.merge(list_value(&[5.0]), FUEL).unwrap();
    assert_eq!(text_of(&Value::from_list(e)), "[5]");
    assert_eq!(text_of(&Value::from_list(a)), "[1 2]");
    let lazy = list_value(&[1.0]).merge(list_value(&[2.0]));
    assert_eq!(text_of(&lazy), "[1 2]");
}

#[test]
fn elements_are_walked_from_first_to_last() {
    let l = List::new(&numbers(&[1.0, 2.0, 3.0]));
    let es = l.elements(FUEL).unwrap();
    assert_eq!(es.len(), 3);
    assert!(same(&es[0], &number(1.0)));
    assert!(same(&es[2], &number(3.0)));
    assert!(matches!(l.elements(2), Err(Error::CyclicForce)));
}

#[test]
fn numbers_equal_as_ieee_says() {
    assert!(same(&number(0.0), &number(-0.0)));
    assert!(!same(&number(f64::NAN), &number(f64::NAN)));
    assert!(same(&number(1.5), &number(1.5)));
    assert!(!same(&number(1.5), &number(2.5)));
    assert!(same(&number(f64::INFINITY), &number(f64::INFINITY)));
    assert!(Number::new(f64::NAN.to_bits(), "NaN".to_string()).is_nan());
    assert!(!Number::new(f64::INFINITY.to_bits(), "inf".to_string()).is_nan());
}

#[test]
fn values_of_different_kinds_are_unequal() {
    assert!(!same(&number(1.0), &string("1")));
    assert!(!same(&Value::nil(), &Value::from_boolean(false)));
    assert!(same(&Value::nil(), &Value::nil()));
    assert!(same(&string("a"), &string("a")));
    assert!(!same(&list_value(&[1.0]), &list_value(&[1.0, 2.0])));
    assert!(!same(&list_value(&[1.0, 2.0]), &list_value(&[1.0])));
    assert!(same(&Native::If.value(), &Native::If.value()));
    assert!(!same(&Native::If.value(), &Native::List.value()));
}

#[test]
fn list_equality_stops_at_the_first_difference() {
    let broken = List::cons(number(1.0), number(0.0));
    let other = List::cons(number(2.0), number(0.0));
    assert!(!same(&Value::from_list(broken), &Value::from_list(other)));
}

#[test]
fn dictionary_find_insert_delete() {
    let d = Dictionary::new();
    let d1 = d.insert(string("foo"), number(42.0), FUEL).unwrap();
    assert_eq!(d.size(), 0);
    assert_eq!(d1.size(), 1);
    assert!(same(&d1.find(string("foo"), FUEL).unwrap(), &number(42.0)));
    let d2 = d1.insert(string("bar"), number(1.0), FUEL).unwrap();
    assert!(same(&d2.find(string("foo"), FUEL).unwrap(), &number(42.0)));
    let d3 = d2.insert(string("foo"), number(7.0), FUEL).unwrap();
    assert_eq!(d3.size(), 2);
    assert!(same(&d3.find(string("foo"), FUEL).unwrap(), &number(7.0)));
    assert!(same(&d2.find(string("foo"), FUEL).unwrap(), &number(42.0)));
    let d4 = d3.delete(string("foo"), FUEL).unwrap();
    assert_eq!(d4.size(), 1);
    assert!(matches!(
        d4.find(string("foo"), FUEL),
        Err(Error::KeyNotFound(Key::String(_)))
    ));
}

#[test]
fn deleting_an_absent_key_fails() {
    let d = Dictionary::new().insert(number(1.0), Value::nil(), FUEL).unwrap();
    match d.delete(number(2.0), FUEL) {
        Err(Error::KeyNotFound(Key::Number(n))) => assert_eq!(n.bits, 2.0f64.to_bits()),
        _ => panic!("the key was found"),
    }
}

#[test]
fn insert_then_delete_restores() {
    let d = Dictionary::new()
        .insert(string("a"), number(1.0), FUEL)
        .unwrap()
        .insert(Value::nil(), number(2.0), FUEL)
        .unwrap();
    let back = d
        .insert(string("b"), number(3.0), FUEL)
        .unwrap()
        .delete(string("b"), FUEL)
        .unwrap();
    assert!(back.equal(&d, FUEL).unwrap());
    assert!(d.equal(&back, FUEL).unwrap());
    assert_eq!(
        back.to_string(FUEL).unwrap(),
        d.to_string(FUEL).unwrap()
    );
}

#[test]
fn a_dictionary_of_many_entries() {
    let mut d = Dictionary::new();
    for i in 0..500 {
        d = d.insert(number(i as f64), number((i * 2) as f64), FUEL).unwrap();
        d = d
            .insert(string(&format!("key{}", i)), number(i as f64), FUEL)
            .unwrap();
    }
    assert_eq!(d.size(), 1000);
    assert_eq!(d.entries().len(), 1000);
    for i in 0..500 {
        assert!(same(
            &d.find(number(i as f64), FUEL).unwrap(),
            &number((i * 2) as f64)
        ));
        assert!(same(
            &d.find(string(&format!("key{}", i)), FUEL).unwrap(),
            &number(i as f64)
        ));
    }
    assert!(d.find(number(500.0), FUEL).is_err());
    assert!(d.find(string("key500"), FUEL).is_err());
    let full = d.clone();
    for i in 0..250 {
        d = d.delete(number(i as f64), FUEL).unwrap();
        d = d.delete(string(&format!("key{}", i * 2)), FUEL).unwrap();
    }
    assert_eq!(d.size(), 500);
    assert_eq!(full.size(), 1000);
    for i in 0..500 {
        assert_eq!(d.find(number(i as f64), FUEL).is_ok(), i >= 250);
        assert_eq!(
            d.find(string(&format!("key{}", i)), FUEL).is_ok(),
            i % 2 == 1
        );
        assert!(full.find(number(i as f64), FUEL).is_ok());
    }
    for (k, _) in d.entries() {
        d = d.strict_delete(&k).unwrap();
    }
    assert_eq!(d.size(), 0);
    assert!(d.is_empty());
    assert_eq!(d.to_string(FUEL).unwrap(), "{}");
}

#[test]
fn keys_of_one_identity_have_one_hash() {
    assert_eq!(Key::from_str("abc").hash(), Key::String("abc".to_string()).hash());
    assert_eq!(Key::from_str("").hash(), 0xcbf2_9ce4_8422_2325);
    assert_eq!(Key::from_str("a").hash(), 0xaf63_dc4c_8601_ec8c);
    assert_eq!(Key::Nil.hash(), 0);
    let one = Number::new(1.0f64.to_bits(), "1".to_string());
    let uno = Number::new(1.0f64.to_bits(), "1.0".to_string());
    assert_eq!(Key::Number(one).hash(), Key::Number(uno).hash());
}

#[test]
fn the_entries_of_a_dictionary_are_walked_in_one_order() {
    let a = Dictionary::new()
        .insert(string("x"), number(1.0), FUEL)
        .unwrap()
        .insert(string("y"), number(2.0), FUEL)
        .unwrap()
        .insert(Value::nil(), number(3.0), FUEL)
        .unwrap();
    let b = Dictionary::new()
        .insert(Value::nil(), number(3.0), FUEL)
        .unwrap()
        .insert(string("y"), number(2.0), FUEL)
        .unwrap()
        .insert(string("x"), number(1.0), FUEL)
        .unwrap();
    assert_eq!(a.to_string(FUEL).unwrap(), b.to_string(FUEL).unwrap());
    assert_eq!(a.to_string(FUEL).unwrap(), a.clone().to_string(FUEL).unwrap());
}

#[test]
fn keys_are_nil_numbers_and_strings() {
    let d = Dictionary::new();
    assert!(matches!(
        d.insert(list_value(&[1.0]), Value::nil(), FUEL),
        Err(Error::Value(ValueError::NotKey))
    ));
    assert!(matches!(
        d.find(Value::from_boolean(true), FUEL),
        Err(Error::Value(ValueError::NotKey))
    ));
    assert!(matches!(
        d.delete(Value::from_dictionary(Dictionary::new()), FUEL),
        Err(Error::Value(ValueError::NotKey))
    ));
    assert!(matches!(
        d.insert(Native::If.value(), Value::nil(), FUEL),
        Err(Error::Value(ValueError::NotKey))
    ));
    assert!(d.insert(Value::nil(), Value::nil(), FUEL).is_ok());
}

#[test]
fn number_keys_are_told_apart_by_their_bits() {
    let d = Dictionary::new()
        .insert(number(0.0), string("plus"), FUEL)
        .unwrap()
        .insert(number(-0.0), string("minus"), FUEL)
        .unwrap();
    assert_eq!(d.size(), 2);
    assert_eq!(text_of(&d.find(number(0.0), FUEL).unwrap()), "plus");
    assert_eq!(text_of(&d.find(number(-0.0), FUEL).unwrap()), "minus");
    let n = Dictionary::new()
        .insert(number(f64::NAN), string("nan"), FUEL)
        .unwrap();
    assert_eq!(text_of(&n.find(number(f64::NAN), FUEL).unwrap()), "nan");
}

#[test]
fn a_key_is_forced_before_it_is_used() {
    let key = Value::papp(
        Native::First.value(),
        &[Value::from_list(List::new(&[string("k")]))],
    );
    let d = Dictionary::new().insert(key, number(1.0), FUEL).unwrap();
    assert!(same(&d.find(string("k"), FUEL).unwrap(), &number(1.0)));
}

#[test]
fn dictionary_equality_pairs_by_key() {
    let a = Dictionary::new()
        .insert(string("x"), number(1.0), FUEL)
        .unwrap()
        .insert(string("y"), number(2.0), FUEL)
        .unwrap();
    let b = Dictionary::new()
        .insert(string("y"), number(2.0), FUEL)
        .unwrap()
        .insert(string("x"), number(1.0), FUEL)
        .unwrap();
    let c = Dictionary::new()
        .insert(string("y"), number(2.0), FUEL)
        .unwrap()
        .insert(string("x"), number(9.0), FUEL)
        .unwrap();
    assert!(a.equal(&b, FUEL).unwrap());
    assert!(!a.equal(&c, FUEL).unwrap());
    assert!(!a.equal(&Dictionary::new(), FUEL).unwrap());
}

#[test]
fn dictionary_to_string() {
    assert_eq!(Dictionary::new().to_string(FUEL).unwrap(), "{}");
    let d = Dictionary::new().insert(string("foo"), number(42.0), FUEL).unwrap();
    assert_eq!(d.to_string(FUEL).unwrap(), "{foo 42}");
    let e = d.insert(Value::nil(), list_value(&[1.0, 2.0]), FUEL).unwrap();
    assert_eq!(e.to_string(FUEL).unwrap(), "{nil [1 2] foo 42}");
}

#[test]
fn values_to_string() {
    assert_eq!(text_of(&Value::nil()), "nil");
    assert_eq!(text_of(&number(-0.5)), "-0.5");
    assert_eq!(text_of(&Value::from_boolean(true)), "true");
    assert_eq!(text_of(&Value::from_boolean(false)), "false");
    assert_eq!(text_of(&string("a b")), "a b");
    assert_eq!(text_of(&Value::from_list(List::Empty)), "[]");
    assert_eq!(text_of(&list_value(&[1.0])), "[1]");
    assert_eq!(text_of(&Native::If.value()), "<function>");
}

#[test]
fn a_failure_inside_is_no_partial_text() {
    let bad = Value::papp(Native::First.value(), &[Value::from_list(List::Empty)]);
    let l = Value::from_list(List::new(&[number(1.0), bad]));
    assert!(matches!(
        l.to_string(FUEL),
        Err(Error::Value(ValueError::EmptyList))
    ));
}

#[test]
fn forcing_runs_a_call() {
    let l = list_value(&[1.0, 2.0]);
    let first = Value::papp(Native::First.value(), &[l.clone()]);
    assert!(same(&first, &number(1.0)));
    let rest = Value::papp(Native::Rest.value(), &[l]);
    assert_eq!(text_of(&rest), "[2]");
    match number(3.0).force(0) {
        Ok(Normal::Number(n)) => assert_eq!(n.bits, 3.0f64.to_bits()),
        _ => panic!("a normal form did not force to itself"),
    }
}

#[test]
fn forcing_without_fuel_fails() {
    let first = Value::papp(Native::First.value(), &[list_value(&[1.0])]);
    assert!(matches!(first.force(0), Err(Error::CyclicForce)));
    assert!(first.force(FUEL).is_ok());
}

#[test]
fn more_fuel_gives_the_same() {
    let l = list_value(&[1.0, 2.0, 3.0]);
    let v = Value::papp(
        Native::First.value(),
        &[Value::papp(Native::Rest.value(), &[l])],
    );
    let mut least = 0;
    while matches!(v.force(least), Err(Error::CyclicForce)) {
        least += 1;
    }
    assert!(least > 0);
    for fuel in least..least + 10 {
        match v.force(fuel) {
            Ok(Normal::Number(n)) => assert_eq!(n.bits, 2.0f64.to_bits()),
            _ => panic!("the outcome changed with more fuel"),
        }
        assert!(v.equal(&number(2.0), fuel).unwrap());
        assert_eq!(v.to_string(fuel).unwrap(), "2");
    }
    let bad = Value::papp(Native::First.value(), &[Value::from_list(List::Empty)]);
    for fuel in 1..10 {
        assert!(matches!(
            bad.force(fuel),
            Err(Error::Value(ValueError::EmptyList))
        ));
    }
}

#[test]
fn forcing_what_is_no_function_fails() {
    let call = Value::papp(number(1.0), &[]);
    assert!(matches!(
        call.force(FUEL),
        Err(Error::Value(ValueError::NotFunction))
    ));
}

#[test]
fn forcing_twice_gives_the_same() {
    let v = Value::papp(Native::First.value(), &[list_value(&[8.0])]);
    let copy = v.clone();
    assert!(same(&v, &copy));
    assert!(same(&v, &number(8.0)));
    assert!(same(&copy, &number(8.0)));
}

#[test]
fn positionals_come_out_in_order() {
    let mut a = Arguments::positionals(&numbers(&[1.0, 2.0, 3.0, 4.0, 5.0, 6.0]));
    for x in [1.0, 2.0, 3.0, 4.0, 5.0, 6.0] {
        assert!(same(&a.next_positional().unwrap(), &number(x)));
    }
    let end = a.next_positional().unwrap();
    assert!(matches!(
        end.force(FUEL),
        Err(Error::Value(ValueError::EmptyList))
    ));
}

#[test]
fn next_positional_of_nothing() {
    let mut a = Arguments::positionals(&[]);
    assert!(a.next_positional().is_none());
    assert!(a.next_positional().is_none());
}

#[test]
fn positionals_rest_is_the_list() {
    let mut a = Arguments::positionals(&numbers(&[1.0, 2.0]));
    assert!(same(&a.rest_positionals(), &list_value(&[1.0, 2.0])));
    assert!(same(&a.rest_positionals(), &Value::from_list(List::Empty)));
}

#[test]
fn a_final_spread_list_is_the_tail() {
    let mut a = Arguments::new(
        &[plain(number(1.0)), spread(list_value(&[2.0, 3.0]))],
        &[],
        &[],
    );
    assert!(same(&a.rest_positionals(), &list_value(&[1.0, 2.0, 3.0])));
}

#[test]
fn a_spread_thunk_is_forced_only_on_demand() {
    let bad = Value::papp(Native::First.value(), &[Value::from_list(List::Empty)]);
    let mut a = Arguments::new(&[plain(number(1.0)), spread(bad)], &[], &[]);
    assert!(same(&a.next_positional().unwrap(), &number(1.0)));
    let second = a.next_positional().unwrap();
    assert!(second.force(FUEL).is_err());
}

#[test]
fn search_keyword_inline_and_overflow() {
    let ks: Vec<KeywordArgument> = ["a", "b", "c", "d", "e", "f"]
        .iter()
        .enumerate()
        .map(|(i, n)| keyword(n, number(i as f64)))
        .collect();
    let mut a = Arguments::new(&[], &ks, &[]);
    assert!(same(&a.search_keyword("c", FUEL).unwrap(), &number(2.0)));
    assert!(same(&a.search_keyword("f", FUEL).unwrap(), &number(5.0)));
    assert!(matches!(
        a.search_keyword("c", FUEL),
        Err(Error::Argument(ArgumentError::MissingKeyword))
    ));
    assert!(matches!(
        a.search_keyword("f", FUEL),
        Err(Error::Argument(ArgumentError::MissingKeyword))
    ));
    assert!(same(&a.search_keyword("a", FUEL).unwrap(), &number(0.0)));
    assert!(same(&a.search_keyword("e", FUEL).unwrap(), &number(4.0)));
    assert!(same(&a.search_keyword("d", FUEL).unwrap(), &number(3.0)));
    assert!(same(&a.search_keyword("b", FUEL).unwrap(), &number(1.0)));
    assert!(a.check_empty(FUEL).is_ok());
}

#[test]
fn search_keyword_without_keywords() {
    let mut a = Arguments::positionals(&[]);
    assert!(matches!(
        a.search_keyword("x", FUEL),
        Err(Error::Argument(ArgumentError::MissingKeyword))
    ));
}

#[test]
fn spread_dictionaries_are_merged_in_order() {
    let d1 = Value::from_dictionary(
        Dictionary::new().insert(string("x"), number(1.0), FUEL).unwrap(),
    );
    let d2 = Value::from_dictionary(
        Dictionary::new().insert(string("x"), number(2.0), FUEL).unwrap(),
    );
    let mut a = Arguments::new(&[], &[], &[d1, d2]);
    assert!(same(&a.search_keyword("x", FUEL).unwrap(), &number(2.0)));
    assert!(a.check_empty(FUEL).is_ok());
}

#[test]
fn rest_keywords_prefers_inline_arguments() {
    let d = Value::from_dictionary(
        Dictionary::new()
            .insert(string("x"), number(1.0), FUEL)
            .unwrap()
            .insert(string("y"), number(2.0), FUEL)
            .unwrap(),
    );
    let mut a = Arguments::new(&[], &[keyword("x", number(9.0))], &[d]);
    let rest = a.rest_keywords().dictionary(FUEL).unwrap();
    assert_eq!(rest.size(), 2);
    assert!(same(&rest.find(string("x"), FUEL).unwrap(), &number(9.0)));
    assert!(same(&rest.find(string("y"), FUEL).unwrap(), &number(2.0)));
    assert!(a.check_empty(FUEL).is_ok());
}

#[test]
fn rest_keywords_of_nothing_is_empty() {
    let mut a = Arguments::positionals(&[]);
    assert_eq!(text_of(&a.rest_keywords()), "{}");
}

#[test]
fn check_empty_counts_what_is_left() {
    let a = Arguments::positionals(&numbers(&[1.0, 2.0]));
    assert!(matches!(
        a.check_empty(FUEL),
        Err(Error::Argument(ArgumentError::PositionalsLeft(2)))
    ));
    let ks: Vec<KeywordArgument> = ["a", "b", "c", "d", "e", "f"]
        .iter()
        .map(|n| keyword(n, Value::nil()))
        .collect();
    let b = Arguments::new(&[], &ks, &[]);
    assert!(matches!(
        b.check_empty(FUEL),
        Err(Error::Argument(ArgumentError::KeywordsLeft(6)))
    ));
    let c = Arguments::new(&[], &[keyword("a", Value::nil())], &[]);
    assert!(matches!(
        c.check_empty(FUEL),
        Err(Error::Argument(ArgumentError::KeywordsLeft(1)))
    ));
    let d = Arguments::new(&[], &[], &[number(1.0)]);
    assert!(matches!(
        d.check_empty(FUEL),
        Err(Error::Value(ValueError::NotDictionary))
    ));
    assert!(Arguments::new(&[], &[], &[]).check_empty(FUEL).is_ok());
}

#[test]
fn check_empty_counts_the_overflow_list() {
    let six = numbers(&[1.0, 2.0, 3.0, 4.0, 5.0, 6.0]);
    assert!(matches!(
        Arguments::positionals(&six).check_empty(FUEL),
        Err(Error::Argument(ArgumentError::PositionalsLeft(6)))
    ));
    let mut a = Arguments::positionals(&six);
    a.next_positional();
    assert!(matches!(
        a.check_empty(FUEL),
        Err(Error::Argument(ArgumentError::PositionalsLeft(5)))
    ));
    let mut b = Arguments::positionals(&six);
    for _ in 0..5 {
        b.next_positional();
    }
    assert!(matches!(
        b.check_empty(FUEL),
        Err(Error::Argument(ArgumentError::PositionalsLeft(1)))
    ));
    let mut c = Arguments::positionals(&six);
    for _ in 0..6 {
        c.next_positional();
    }
    assert!(c.check_empty(FUEL).is_ok());
    let spread_two = Arguments::new(&[spread(list_value(&[1.0, 2.0]))], &[], &[]);
    assert!(matches!(
        spread_two.check_empty(FUEL),
        Err(Error::Argument(ArgumentError::PositionalsLeft(2)))
    ));
    let spread_none = Arguments::new(&[spread(Value::from_list(List::Empty))], &[], &[]);
    assert!(spread_none.check_empty(FUEL).is_ok());
    let mixed = Arguments::new(
        &[plain(number(1.0)), spread(list_value(&[2.0, 3.0]))],
        &[keyword("k", Value::nil())],
        &[],
    );
    assert!(matches!(
        mixed.check_empty(FUEL),
        Err(Error::Argument(ArgumentError::PositionalsLeft(3)))
    ));
}

#[test]
fn check_empty_passes_on_a_failure_to_force_the_overflow_list() {
    let no_list = Arguments::new(&[spread(number(1.0))], &[], &[]);
    assert!(matches!(
        no_list.check_empty(FUEL),
        Err(Error::Value(ValueError::NotList))
    ));
    let broken = Value::papp(Native::First.value(), &[Value::from_list(List::Empty)]);
    let failing = Arguments::new(&[plain(number(1.0)), spread(broken)], &[], &[]);
    assert!(matches!(
        failing.check_empty(FUEL),
        Err(Error::Value(ValueError::EmptyList))
    ));
    let long = Arguments::new(&[spread(list_value(&[1.0, 2.0, 3.0]))], &[], &[]);
    assert!(matches!(long.check_empty(2), Err(Error::CyclicForce)));
}

#[test]
fn a_spread_surplus_fails_the_binding() {
    let one = Signature::new(
        vec!["x".to_string()],
        vec![],
        "".to_string(),
        vec![],
        vec![],
        "".to_string(),
    );
    assert!(matches!(
        one.bind(
            Arguments::new(&[spread(list_value(&[1.0, 2.0]))], &[], &[]),
            FUEL
        ),
        Err(Error::Argument(ArgumentError::PositionalsLeft(1)))
    ));
    let vs = one
        .bind(Arguments::new(&[spread(list_value(&[1.0]))], &[], &[]), FUEL)
        .unwrap();
    assert_eq!(vs.len(), 1);
    assert!(same(&vs[0], &number(1.0)));
    assert!(matches!(
        one.bind(
            Arguments::positionals(&numbers(&[1.0, 2.0, 3.0, 4.0, 5.0, 6.0])),
            FUEL
        ),
        Err(Error::Argument(ArgumentError::PositionalsLeft(5)))
    ));
    let first = Value::app(
        Native::First.value(),
        Arguments::new(&[spread(list_value(&[7.0, 8.0]))], &[], &[]),
    );
    assert!(matches!(
        first.force(FUEL),
        Err(Error::Argument(ArgumentError::PositionalsLeft(1)))
    ));
}

#[test]
fn a_spread_list_that_is_too_short_fails_the_binding() {
    let two = Signature::new(
        vec!["x".to_string(), "y".to_string()],
        vec![],
        "".to_string(),
        vec![],
        vec![],
        "".to_string(),
    );
    assert!(matches!(
        two.bind(Arguments::new(&[spread(list_value(&[1.0]))], &[], &[]), FUEL),
        Err(Error::Value(ValueError::EmptyList))
    ));
    assert!(matches!(
        two.bind(Arguments::positionals(&numbers(&[1.0])), FUEL),
        Err(Error::Argument(ArgumentError::MissingPositional))
    ));
    let vs = two
        .bind(
            Arguments::new(&[spread(list_value(&[1.0, 2.0]))], &[], &[]),
            FUEL,
        )
        .unwrap();
    assert!(same(&vs[0], &number(1.0)));
    assert!(same(&vs[1], &number(2.0)));
}

fn signature() -> Signature {
    Signature::new(
        vec!["x".to_string()],
        vec![OptionalParameter::new("y".to_string(), Expr::Constant(number(7.0)))],
        "rest".to_string(),
        vec![],
        vec![],
        "".to_string(),
    )
}

#[test]
fn bind_fills_required_and_optional_from_the_call() {
    let vs = signature()
        .bind(Arguments::positionals(&numbers(&[1.0, 2.0])), FUEL)
        .unwrap();
    assert_eq!(vs.len(), 3);
    assert!(same(&vs[0], &number(1.0)));
    assert!(same(&vs[1], &number(2.0)));
    assert!(same(&vs[2], &Value::from_list(List::Empty)));
}

#[test]
fn bind_gives_the_rest_what_is_left() {
    let vs = signature()
        .bind(Arguments::positionals(&numbers(&[1.0, 2.0, 3.0])), FUEL)
        .unwrap();
    assert_eq!(vs.len(), 3);
    assert!(same(&vs[0], &number(1.0)));
    assert!(same(&vs[1], &number(2.0)));
    assert!(same(&vs[2], &list_value(&[3.0])));
}

#[test]
fn bind_falls_back_to_the_default() {
    let vs = signature()
        .bind(Arguments::positionals(&numbers(&[1.0])), FUEL)
        .unwrap();
    assert_eq!(vs.len(), 3);
    assert!(same(&vs[0], &number(1.0)));
    assert!(same(&vs[1], &number(7.0)));
    assert!(same(&vs[2], &Value::from_list(List::Empty)));
}

#[test]
fn bind_evaluates_a_default_that_is_a_call() {
    let default = Value::papp(Native::First.value(), &[list_value(&[5.0])]);
    let s = Signature::new(
        vec![],
        vec![OptionalParameter::new("y".to_string(), Expr::Constant(default))],
        "".to_string(),
        vec![],
        vec![],
        "".to_string(),
    );
    let vs = s.bind(Arguments::positionals(&[]), FUEL).unwrap();
    assert!(same(&vs[0], &number(5.0)));
}

#[test]
fn bind_misses_a_required_positional() {
    assert!(matches!(
        signature().bind(Arguments::positionals(&[]), FUEL),
        Err(Error::Argument(ArgumentError::MissingPositional))
    ));
}

#[test]
fn bind_rejects_surplus_arguments() {
    let s = Signature::new(
        vec!["x".to_string()],
        vec![],
        "".to_string(),
        vec![],
        vec![],
        "".to_string(),
    );
    assert!(matches!(
        s.bind(Arguments::positionals(&numbers(&[1.0, 2.0])), FUEL),
        Err(Error::Argument(ArgumentError::PositionalsLeft(1)))
    ));
    assert!(matches!(
        s.bind(
            Arguments::new(&[plain(number(1.0))], &[keyword("k", Value::nil())], &[]),
            FUEL
        ),
        Err(Error::Argument(ArgumentError::KeywordsLeft(1)))
    ));
}

#[test]
fn bind_keywords() {
    let s = Signature::new(
        vec![],
        vec![],
        "".to_string(),
        vec!["a".to_string()],
        vec![OptionalParameter::new("b".to_string(), Expr::Constant(number(2.0)))],
        "others".to_string(),
    );
    let vs = s
        .bind(
            Arguments::new(
                &[],
                &[keyword("c", number(3.0)), keyword("a", number(1.0))],
                &[],
            ),
            FUEL,
        )
        .unwrap();
    assert_eq!(vs.len(), 3);
    assert!(same(&vs[0], &number(1.0)));
    assert!(same(&vs[1], &number(2.0)));
    assert_eq!(text_of(&vs[2]), "{c 3}");
    assert!(matches!(
        s.bind(Arguments::new(&[], &[keyword("b", number(3.0))], &[]), FUEL),
        Err(Error::Argument(ArgumentError::MissingKeyword))
    ));
}

fn required(names: &[&str]) -> Signature {
    Signature::new(
        names.iter().map(|n| n.to_string()).collect(),
        vec![],
        "".to_string(),
        vec![],
        vec![],
        "".to_string(),
    )
}

fn defined(identity: u64, signature: Signature, body: Expr) -> Value {
    Value::from_function(Function::closure(identity, signature, body))
}

#[test]
fn a_defined_function_returns_its_body() {
    let second = defined(1, required(&["x", "y"]), Expr::Parameter(1));
    let call = Value::papp(second, &numbers(&[1.0, 2.0]));
    assert!(same(&call, &number(2.0)));
    let constant = defined(2, required(&[]), Expr::Constant(string("always")));
    assert_eq!(text_of(&Value::papp(constant, &[])), "always");
}

#[test]
fn a_defined_function_binds_its_arguments() {
    let second = defined(1, required(&["x", "y"]), Expr::Parameter(1));
    assert!(matches!(
        Value::papp(second.clone(), &numbers(&[1.0])).force(FUEL),
        Err(Error::Argument(ArgumentError::MissingPositional))
    ));
    assert!(matches!(
        Value::papp(second, &numbers(&[1.0, 2.0, 3.0])).force(FUEL),
        Err(Error::Argument(ArgumentError::PositionalsLeft(1)))
    ));
}

#[test]
fn a_body_makes_calls() {
    let twice = defined(
        1,
        required(&["x"]),
        Expr::call(
            Expr::Constant(Native::List.value()),
            vec![
                PositionalExpr::new(Expr::Parameter(0), false),
                PositionalExpr::new(Expr::Parameter(0), false),
            ],
            vec![],
            vec![],
        ),
    );
    assert_eq!(text_of(&Value::papp(twice.clone(), &numbers(&[3.0]))), "[3 3]");
    let spread = defined(
        2,
        required(&["xs"]),
        Expr::call(
            Expr::Constant(twice),
            vec![PositionalExpr::new(Expr::Parameter(0), true)],
            vec![],
            vec![],
        ),
    );
    assert_eq!(text_of(&Value::papp(spread, &[list_value(&[4.0])])), "[4 4]");
}

#[test]
fn a_body_passes_keywords_and_dictionaries() {
    let pick = defined(
        1,
        Signature::new(
            vec![],
            vec![],
            "".to_string(),
            vec!["a".to_string()],
            vec![],
            "others".to_string(),
        ),
        Expr::Parameter(1),
    );
    let outer = defined(
        2,
        required(&["x", "d"]),
        Expr::call(
            Expr::Constant(pick),
            vec![],
            vec![KeywordExpr::new("a".to_string(), Expr::Parameter(0))],
            vec![Expr::Parameter(1)],
        ),
    );
    let d = Value::from_dictionary(
        Dictionary::new().insert(string("k"), number(2.0), FUEL).unwrap(),
    );
    assert_eq!(text_of(&Value::papp(outer, &[number(1.0), d])), "{k 2}");
}

#[test]
fn a_default_speaks_of_earlier_parameters() {
    let s = Signature::new(
        vec!["x".to_string()],
        vec![
            OptionalParameter::new("y".to_string(), Expr::Parameter(0)),
            OptionalParameter::new("z".to_string(), Expr::Parameter(1)),
        ],
        "".to_string(),
        vec![],
        vec![OptionalParameter::new("k".to_string(), Expr::Parameter(2))],
        "".to_string(),
    );
    let vs = s.bind(Arguments::positionals(&numbers(&[5.0])), FUEL).unwrap();
    assert_eq!(vs.len(), 4);
    for v in &vs {
        assert!(same(v, &number(5.0)));
    }
    let ws = s.bind(Arguments::positionals(&numbers(&[5.0, 6.0])), FUEL).unwrap();
    assert!(same(&ws[1], &number(6.0)));
    assert!(same(&ws[2], &number(6.0)));
    assert!(same(&ws[3], &number(6.0)));
}

#[test]
fn a_parameter_that_is_not_there_is_nil() {
    let f = defined(1, required(&["x"]), Expr::Parameter(7));
    assert_eq!(text_of(&Value::papp(f, &numbers(&[1.0]))), "nil");
}

#[test]
fn functions_are_told_apart_by_identity() {
    let f = defined(1, required(&["x"]), Expr::Parameter(0));
    let g = defined(2, required(&["x"]), Expr::Parameter(0));
    assert!(same(&f, &f.clone()));
    assert!(!same(&f, &g));
    assert!(!same(&f, &Native::First.value()));
    assert!(!same(&Native::First.value(), &g));
    assert_eq!(text_of(&f), "<function>");
}

#[test]
fn native_functions_bind_their_arguments() {
    let too_many = Value::papp(
        Native::First.value(),
        &[list_value(&[1.0]), list_value(&[2.0])],
    );
    assert!(matches!(
        too_many.force(FUEL),
        Err(Error::Argument(ArgumentError::PositionalsLeft(1)))
    ));
    let too_few = Value::papp(Native::Insert.value(), &[number(1.0)]);
    assert!(matches!(
        too_few.force(FUEL),
        Err(Error::Argument(ArgumentError::MissingPositional))
    ));
}

#[test]
fn insert_call_is_lazy() {
    let d = Value::from_dictionary(Dictionary::new());
    let v = d.insert(string("k"), number(1.0));
    assert_eq!(text_of(&v), "{k 1}");
    let bad = number(1.0).insert(string("k"), number(1.0));
    assert!(matches!(
        bad.force(FUEL),
        Err(Error::Value(ValueError::NotDictionary))
    ));
}

#[test]
fn only_lists_and_dictionaries_merge() {
    assert!(matches!(
        number(1.0).merge(list_value(&[1.0])).force(FUEL),
        Err(Error::Value(ValueError::NotCollection))
    ));
    assert!(matches!(
        list_value(&[1.0]).merge(number(1.0)).to_string(FUEL),
        Err(Error::Value(ValueError::NotList))
    ));
}

#[test]
fn key_conversions() {
    assert!(matches!(Key::try_from(Normal::Nil), Ok(Key::Nil)));
    assert!(matches!(
        Key::try_from(Normal::Boolean(true)),
        Err(Error::Value(ValueError::NotKey))
    ));
    assert!(matches!(Key::from_str("a").into(), Normal::String(_)));
    assert!(Key::from_str("a").same(&Key::String("a".to_string())));
    assert!(!Key::from_str("a").same(&Key::Nil));
    assert_eq!(Key::from_str("a").to_string(), "a");
}
