use rlisp::env::Env;
use rlisp::eval::{FuncError, Lisp};
use rlisp::parse::{parse_str, parse_tokens, string_lit, tokenize, write_list, FilePos, ParseError};
use rlisp::value::{func, Args, Builtin, Foreign, Type, Value};

fn num(x: f32) -> Value {
    Value::Number(x.to_bits())
}

fn number_of(v: &Value) -> f32 {
    match v {
        Value::Number(b) => f32::from_bits(*b),
        other => panic!("not a number: {}", other.to_debug_string()),
    }
}

fn run(lisp: &mut Lisp, code: &str) -> Result<Value, FuncError> {
    lisp.eval_raw(code)
}

fn show(v: &Value) -> String {
    v.to_debug_string()
}

#[test]
fn nested_let_shadows_then_leaves_nothing_behind() {
    let mut lisp = Lisp::new();
    let r = run(&mut lisp, "(let ((x 1)) (let ((x 2)) x))").unwrap();
    assert_eq!(number_of(&r), 2.0);
    match run(&mut lisp, "x") {
        Err(FuncError::UndeclaredSymbol(s)) => assert_eq!(s, "x"),
        other => panic!("unexpected {:?}", other.map(|v| show(&v))),
    }
    assert_eq!(lisp.scopes.len(), 1);
}

#[test]
fn quote_form_and_prefix_give_the_literal_list() {
    let mut lisp = Lisp::new();
    for code in ["(quote (a b c))", "'(a b c)"] {
        let r = run(&mut lisp, code).unwrap();
        match r {
            Value::List(items) => {
                assert_eq!(items.len(), 3);
                let names: Vec<String> = items
                    .iter()
                    .map(|v| match v {
                        Value::Symbol(s) => s.clone(),
                        _ => panic!("not a symbol"),
                    })
                    .collect();
                assert_eq!(names, vec!["a", "b", "c"]);
            },
            other => panic!("not a list: {}", show(&other)),
        }
    }
}

#[test]
fn braces_read_as_a_quoted_list() {
    let forms = parse_str("{1 2}").unwrap();
    assert_eq!(forms.len(), 1);
    assert_eq!(show(&forms[0]), "'(1 2)");
    let mut lisp = Lisp::new();
    assert_eq!(show(&run(&mut lisp, "{1 2}").unwrap()), "(1 2)");
}

#[test]
fn empty_call_form_is_an_error() {
    let mut lisp = Lisp::new();
    assert!(matches!(run(&mut lisp, "()"), Err(FuncError::AttemptToEvalEmptyList)));
    assert_eq!(lisp.scopes.len(), 1);
}

#[test]
fn foreign_value_round_trip() {
    let mut lisp = Lisp::new();
    let original = Foreign { kind: 7, handle: 42 };
    lisp.set_global("my-rust-value", Value::Foreign(original));
    let r = run(&mut lisp, "my-rust-value").unwrap();
    let back = r.as_foreign(7).unwrap();
    assert_eq!(back, original);
    match r.as_foreign(8) {
        Err(FuncError::InvalidType { expected, got }) => {
            assert!(matches!(expected.as_slice(), [Type::Foreign(8)]));
            assert!(matches!(got, Value::Foreign(f) if f == original));
        },
        _ => panic!("downcast to another type must fail"),
    }
    assert!(matches!(num(1.0).as_foreign(7), Err(FuncError::InvalidType { .. })));
}

#[test]
fn lambda_definition_and_call() {
    let mut lisp = Lisp::new();
    assert!(matches!(run(&mut lisp, "(define (sq x) (* x x))"), Ok(Value::Nil)));
    assert_eq!(number_of(&run(&mut lisp, "(sq 5)").unwrap()), 25.0);
    match run(&mut lisp, "(sq 1 2)") {
        Err(FuncError::InvalidArguments { expected: Args::Fixed(1), got: 2 }) => {},
        other => panic!("unexpected {:?}", other.map(|v| show(&v))),
    }
    assert_eq!(lisp.scopes.len(), 1);
}

#[test]
fn undeclared_symbol_is_named() {
    let mut lisp = Lisp::new();
    match run(&mut lisp, "never-bound") {
        Err(FuncError::UndeclaredSymbol(s)) => assert_eq!(s, "never-bound"),
        _ => panic!("expected an undeclared symbol"),
    }
}

#[test]
fn fixed_two_arity_is_checked() {
    let mut lisp = Lisp::new();
    for (code, n) in [("(> 1)", 1usize), ("(> 1 2 3)", 3)] {
        match run(&mut lisp, code) {
            Err(FuncError::InvalidArguments { expected: Args::Fixed(2), got }) => assert_eq!(got, n),
            _ => panic!("expected an arity error for {}", code),
        }
    }
    assert!(matches!(run(&mut lisp, "(> 2 1)"), Ok(Value::Bool(true))));
    assert!(matches!(run(&mut lisp, "(< 2 1)"), Ok(Value::Bool(false))));
}

#[test]
fn literal_atoms_read_back_from_their_written_form() {
    for code in ["42", "1.5", "10000", "0.00001", "0.1", "-2.5", "1e30", "3.4028235e38", "0.0000000001", "inf", "-inf", "\"hello world\"", "\"tab\\there\"", "true", "false", "foo", "a-b?"] {
        let first = parse_str(code).unwrap();
        assert_eq!(first.len(), 1);
        let written = show(&first[0]);
        let again = parse_str(&written).unwrap();
        assert_eq!(again.len(), 1);
        assert_eq!(show(&again[0]), written);
        assert_eq!(std::mem::discriminant(&first[0]), std::mem::discriminant(&again[0]));
    }
    assert!(matches!(&parse_str("true").unwrap()[0], Value::Symbol(s) if s == "true"));
    let mut lisp = Lisp::new();
    assert!(matches!(run(&mut lisp, "true"), Ok(Value::Bool(true))));
}

#[test]
fn lambda_sees_the_callers_scope() {
    let mut lisp = Lisp::new();
    run(&mut lisp, "(define (get-y) y)").unwrap();
    assert_eq!(number_of(&run(&mut lisp, "(let ((y 9)) (get-y))").unwrap()), 9.0);
    assert!(matches!(run(&mut lisp, "(get-y)"), Err(FuncError::UndeclaredSymbol(_))));
}

#[test]
fn reader_errors() {
    assert!(matches!(parse_str("(a b"), Err(ParseError::UnclosedList)));
    assert!(matches!(parse_str(")"), Err(ParseError::InvalidListDelimitter)));
    assert!(matches!(parse_str("(a }"), Err(ParseError::InvalidListDelimitter)));
    assert!(matches!(parse_str(""), Err(ParseError::UnreadableSourceCode)));
    assert!(matches!(parse_str("(a '"), Err(ParseError::UnreadableSourceCode)));
    assert!(matches!(parse_str("#zz"), Err(ParseError::InvalidHexLiteral)));
    assert!(matches!(parse_str("#"), Err(ParseError::InvalidHexLiteral)));
    let mut lisp = Lisp::new();
    assert!(matches!(run(&mut lisp, "(+ 1"), Err(FuncError::ParsingErr(ParseError::UnclosedList))));
}

#[test]
fn hex_literals_and_numbers() {
    let forms = parse_str("#ff #10 7 2.5 1e2").unwrap();
    let values: Vec<f32> = forms.iter().map(number_of).collect();
    assert_eq!(values, vec![255.0, 16.0, 7.0, 2.5, 100.0]);
    assert!(matches!(parse_str("#+10"), Err(ParseError::InvalidHexLiteral)));
    assert!(matches!(parse_str("#ffffffffffffffffff"), Err(ParseError::InvalidHexLiteral)));
}

#[test]
fn string_literals_expand_escapes() {
    assert_eq!(string_lit("\"a\\nb\\tc\\rd\""), Some("a\nb\tc\rd".to_string()));
    assert_eq!(string_lit("\"plain\""), Some("plain".to_string()));
    assert_eq!(string_lit("plain"), None);
    assert_eq!(string_lit("\""), None);
    assert_eq!(string_lit(""), None);
    let forms = parse_str("\"x\\ny\"").unwrap();
    assert!(matches!(&forms[0], Value::String(s) if s == "x\ny"));
}

#[test]
fn tokens_come_from_the_pattern() {
    assert_eq!(tokenize("(+ 1 2)"), vec!["(", "+", "1", "2", ")"]);
    assert_eq!(tokenize("(f\"a b\")"), vec!["(", "f", "\"a b\"", ")"]);
    assert_eq!(tokenize("'x"), vec!["'", "x"]);
    let toks: Vec<String> = vec!["(".to_string(), "a".to_string(), ")".to_string()];
    let forms = parse_tokens(&toks).unwrap();
    assert_eq!(show(&forms[0]), "(a)");
}

#[test]
fn arithmetic_is_single_precision() {
    let mut lisp = Lisp::new();
    assert_eq!(number_of(&run(&mut lisp, "(+ 1 2 3)").unwrap()), 6.0);
    assert_eq!(number_of(&run(&mut lisp, "(- 10 4 1)").unwrap()), 5.0);
    assert_eq!(number_of(&run(&mut lisp, "(* 2 3)").unwrap()), 6.0);
    assert_eq!(number_of(&run(&mut lisp, "(/ 1 4)").unwrap()), 0.25);
    assert_eq!(number_of(&run(&mut lisp, "(+ 0.1 0.2)").unwrap()), 0.1f32 + 0.2f32);
    assert!(matches!(run(&mut lisp, "(+ 1 \"a\")"), Err(FuncError::InvalidType { .. })));
    assert!(matches!(run(&mut lisp, "(+ 1)"), Err(FuncError::InvalidArguments { expected: Args::Atleast(2), got: 1 })));
}

#[test]
fn list_primitives() {
    let mut lisp = Lisp::new();
    assert_eq!(show(&run(&mut lisp, "(cons 1 '(2 3))").unwrap()), "(1 2 3)");
    assert_eq!(show(&run(&mut lisp, "(join '(1 2) 3)").unwrap()), "(1 2 3)");
    assert_eq!(show(&run(&mut lisp, "(head '(1 2))").unwrap()), "1");
    assert_eq!(show(&run(&mut lisp, "(tail '(1 2))").unwrap()), "(2)");
    assert!(matches!(run(&mut lisp, "(head '())"), Err(FuncError::GivenEmptyList)));
    assert!(matches!(run(&mut lisp, "(tail '())"), Err(FuncError::GivenEmptyList)));
    assert_eq!(number_of(&run(&mut lisp, "(len '(1 2 3))").unwrap()), 3.0);
    assert!(matches!(run(&mut lisp, "(empty? '())"), Ok(Value::Bool(true))));
    assert_eq!(show(&run(&mut lisp, "(list 1 \"a\" 'b)").unwrap()), "(1 \"a\" b)");
    assert_eq!(show(&run(&mut lisp, "(range 0 4)").unwrap()), "(0 1 2 3)");
    assert_eq!(show(&run(&mut lisp, "(range 2 0 7)").unwrap()), "(0 2 4 6)");
    assert_eq!(show(&run(&mut lisp, "(range 0 3 1)").unwrap()), "()");
}

#[test]
fn higher_order_built_ins() {
    let mut lisp = Lisp::new();
    run(&mut lisp, "(define (sq x) (* x x))").unwrap();
    assert_eq!(show(&run(&mut lisp, "(map sq '(1 2 3))").unwrap()), "(1 4 9)");
    assert_eq!(number_of(&run(&mut lisp, "(fold + 0 '(1 2 3))").unwrap()), 6.0);
    assert_eq!(number_of(&run(&mut lisp, "(fold + '(1 2 3))").unwrap()), 6.0);
    assert!(matches!(run(&mut lisp, "(fold + '())"), Err(FuncError::GivenEmptyList)));
    assert_eq!(show(&run(&mut lisp, "(filter (lambda (x) (> x 1)) '(1 2 3))").unwrap()), "(2 3)");
    assert!(matches!(run(&mut lisp, "(filter sq '(1))"), Err(FuncError::InvalidType { .. })));
}

#[test]
fn special_forms() {
    let mut lisp = Lisp::new();
    assert_eq!(number_of(&run(&mut lisp, "(if true 1 (undefined-call))").unwrap()), 1.0);
    assert_eq!(number_of(&run(&mut lisp, "(if false (undefined-call) 2)").unwrap()), 2.0);
    assert!(matches!(run(&mut lisp, "(if 1 2 3)"), Err(FuncError::InvalidType { .. })));
    assert_eq!(number_of(&run(&mut lisp, "(seq 1 2 3)").unwrap()), 3.0);
    assert_eq!(number_of(&run(&mut lisp, "(eval '(+ 1 2))").unwrap()), 3.0);
    assert_eq!(number_of(&run(&mut lisp, "((\\ (a b) (- a b)) 5 3)").unwrap()), 2.0);
    run(&mut lisp, "(def y 4)").unwrap();
    assert_eq!(number_of(&run(&mut lisp, "y").unwrap()), 4.0);
    assert!(matches!(run(&mut lisp, "(define 1 2)"), Err(FuncError::InvalidType { .. })));
    assert!(matches!(run(&mut lisp, "(let ((x)) x)"), Err(FuncError::InvalidArguments { expected: Args::Fixed(2), got: 1 })));
    assert!(matches!(run(&mut lisp, "(1 2)"), Err(FuncError::AttemptToCallNonFunction(_))));
    assert_eq!(number_of(&run(&mut lisp, "(id 5)").unwrap()), 5.0);
    assert_eq!(lisp.scopes.len(), 1);
}

#[test]
fn booleans_and_equality() {
    let mut lisp = Lisp::new();
    assert!(matches!(run(&mut lisp, "(and true true)"), Ok(Value::Bool(true))));
    assert!(matches!(run(&mut lisp, "(and true false 1)"), Ok(Value::Bool(false))));
    assert!(matches!(run(&mut lisp, "(or false true)"), Ok(Value::Bool(true))));
    assert!(matches!(run(&mut lisp, "(or)"), Ok(Value::Bool(false))));
    assert!(matches!(run(&mut lisp, "(not false)"), Ok(Value::Bool(true))));
    assert!(matches!(run(&mut lisp, "(and 1)"), Err(FuncError::InvalidType { .. })));
    assert!(matches!(run(&mut lisp, "(= 1 1 1)"), Ok(Value::Bool(true))));
    assert!(matches!(run(&mut lisp, "(= '(1 \"a\") '(1 \"a\"))"), Ok(Value::Bool(true))));
    assert!(matches!(run(&mut lisp, "(= 1 2)"), Ok(Value::Bool(false))));
    assert!(matches!(run(&mut lisp, "(= + +)"), Ok(Value::Bool(true))));
    assert!(matches!(run(&mut lisp, "(= + -)"), Ok(Value::Bool(false))));
}

#[test]
fn strings_types_and_output() {
    let mut lisp = Lisp::new();
    assert!(matches!(run(&mut lisp, "(str \"a\" 1 'b)"), Ok(Value::String(s)) if s == "a1b"));
    assert!(matches!(run(&mut lisp, "(type 1)"), Ok(Value::Type(Type::Number))));
    assert_eq!(show(&run(&mut lisp, "(type ''a)").unwrap()), "Quote(Symbol)");
    assert!(matches!(run(&mut lisp, "(print \"x=\" 1)"), Ok(Value::Nil)));
    assert_eq!(lisp.take_output(), "x=1\n");
    lisp.push_input("typed".to_string());
    assert!(matches!(run(&mut lisp, "(input \"> \")"), Ok(Value::String(s)) if s == "typed"));
    assert_eq!(lisp.take_output(), "> ");
    assert!(matches!(run(&mut lisp, "(input)"), Err(FuncError::IoError(_))));
    assert!(matches!(run(&mut lisp, "(exit 3)"), Err(FuncError::Exit(3))));
    assert!(matches!(run(&mut lisp, "(exit)"), Err(FuncError::Exit(0))));
}

#[test]
fn written_forms() {
    assert_eq!(show(&num(25.0)), "25");
    assert_eq!(show(&Value::String("a\"b\n".to_string())), "\"a\\\"b\\n\"");
    assert_eq!(show(&Value::Bool(false)), "false");
    assert_eq!(show(&Value::Nil), "nil");
    assert_eq!(show(&Value::Quote(Box::new(Value::Symbol("x".to_string())))), "'x");
    assert_eq!(show(&Value::HardFunc(func(Builtin::Input, Args::Multiple(vec![0, 1])))), "HardFunc(Multiple([0, 1]))");
    assert_eq!(show(&Value::Type(Type::Foreign(3))), "Foreign(3)");
    let items = vec![num(1.0), Value::Symbol("a".to_string())];
    assert_eq!(write_list(&items, "[", ", ", "]"), "[1, a]");
    assert_eq!(write_list(&Vec::new(), "(", " ", ")"), "()");
    let mut lisp = Lisp::new();
    assert_eq!(show(&run(&mut lisp, "(lambda (a b) (+ a b) a)").unwrap()), "λ (a b) => (+ a b) a");
}

#[test]
fn file_positions_count_lines() {
    let text = "a\nb\nc";
    assert_eq!(FilePos::from_offset(text, 0).line, 1);
    assert_eq!(FilePos::from_offset(text, 2).line, 2);
    assert_eq!(FilePos::from_offset(text, 100).line, 3);
    assert_eq!(FilePos::from_offset(text, 4).col, 0);
}

#[test]
fn scopes_bind_uniquely() {
    let mut env = Env::new();
    env.set("a", true);
    env.set("a", false);
    assert_eq!(env.bindings.len(), 1);
    assert!(matches!(env.get("a"), Some(Value::Bool(false))));
    assert!(env.get("b").is_none());
    let std = Env::std_lib();
    assert!(matches!(std.get("nil"), Some(Value::Nil)));
    assert!(matches!(std.get("define"), Some(Value::HardFunc(_))));
}

#[test]
fn typed_evaluation() {
    let mut lisp = Lisp::new();
    let b: bool = lisp.eval("(> 3 2)").unwrap();
    assert!(b);
    let s: String = lisp.eval("(str \"a\" \"b\")").unwrap();
    assert_eq!(s, "ab");
    let r: Result<String, FuncError> = lisp.eval("1");
    assert!(matches!(r, Err(FuncError::InvalidType { .. })));
    let _: () = lisp.eval("nil").unwrap();
}

#[test]
fn error_messages() {
    let e = FuncError::InvalidArguments { expected: Args::Fixed(2), got: 3 };
    assert_eq!(e.message(), "expected Fixed(2) arguments, but got 3");
    let e = FuncError::InvalidType { expected: vec![Type::Symbol, Type::List], got: num(1.0) };
    assert_eq!(e.message(), "expected Symbol or List, but got a Number with a value of 1");
    let e = FuncError::UndeclaredSymbol("zz".to_string());
    assert_eq!(e.message(), "zz does not refer to a valid value stored in any currently accessible scope");
    let e = FuncError::AttemptToCallNonFunction(num(2.0));
    assert_eq!(e.message(), "2 is not a callable function");
    assert_eq!(FuncError::AttemptToEvalEmptyList.message(), "Attempt to eval empty list");
    assert_eq!(FuncError::GivenEmptyList.message(), "Cannot take any elements out of any empty list");
    assert_eq!(FuncError::IoError("closed".to_string()).message(), "An IO error occured: closed");
    assert_eq!(
        FuncError::ParsingErr(ParseError::UnclosedList).message(),
        "Error while parsing source code: UnclosedList"
    );
    assert_eq!(FuncError::Exit(-2).message(), "exit requested with code -2");
    assert_eq!(FuncError::DepthExhausted.message(), "evaluation nested deeper than the depth it was given");
}

#[test]
fn evaluation_depth_is_bounded_by_the_caller() {
    let mut lisp = Lisp::new();
    let form = parse_str("(+ 1 (+ 2 3))").unwrap().remove(0);
    assert!(matches!(lisp.eval_form(form.clone(), 1), Err(FuncError::DepthExhausted)));
    assert_eq!(lisp.scopes.len(), 1);
    assert_eq!(number_of(&lisp.eval_form(form, 10).unwrap()), 6.0);
    assert!(matches!(lisp.eval_form(num(1.0), 0), Err(FuncError::DepthExhausted)));
}

#[test]
fn scope_stack_operations() {
    let mut lisp = Lisp::new();
    lisp.sub_scope();
    assert_eq!(lisp.scopes.len(), 2);
    lisp.cur_scope().set("inner", true);
    lisp.parent_scope().set("outer", false);
    assert!(matches!(lisp.lookup("inner"), Some(Value::Bool(true))));
    lisp.exit_scope();
    assert_eq!(lisp.scopes.len(), 1);
    assert!(lisp.lookup("inner").is_none());
    assert!(matches!(lisp.lookup("outer"), Some(Value::Bool(false))));
    let t: Type = lisp.eval("(type \"s\")").unwrap();
    assert_eq!(t, Type::String);
    let f: rlisp::value::Func = lisp.eval("cons").unwrap();
    assert_eq!(f, func(Builtin::Cons, Args::Fixed(2)));
}

#[test]
fn numbers_are_written_in_plain_decimal() {
    assert_eq!(show(&num(10000.0)), "10000");
    assert_eq!(show(&num(0.00001)), "0.00001");
    assert_eq!(show(&num(0.1)), "0.1");
    assert_eq!(show(&num(-2.5)), "-2.5");
    assert_eq!(show(&num(1e30)), "1000000000000000000000000000000");
    assert_eq!(show(&num(f32::INFINITY)), "inf");
    assert_eq!(show(&num(f32::NEG_INFINITY)), "-inf");
    for x in [10000.0f32, 0.00001, 0.1, 1e30, 3.4028235e38, 1e-40, 123456.79, -0.0] {
        let back = parse_str(&show(&num(x))).unwrap();
        assert_eq!(back.len(), 1);
        assert_eq!(number_of(&back[0]).to_bits(), x.to_bits());
    }
    let mut lisp = Lisp::new();
    assert!(matches!(run(&mut lisp, "(str 10000)"), Ok(Value::String(s)) if s == "10000"));
}

#[test]
fn tokens_follow_the_float_grammar() {
    for code in ["snan", "nan5", "-5e", ".5e", "1e", "e5"] {
        let forms = parse_str(code).unwrap();
        assert!(matches!(&forms[0], Value::Symbol(_)), "{} should read as a symbol", code);
    }
    assert_eq!(number_of(&parse_str("Infinity").unwrap()[0]), f32::INFINITY);
    assert_eq!(number_of(&parse_str("-inf").unwrap()[0]), f32::NEG_INFINITY);
    assert!(number_of(&parse_str("NAN").unwrap()[0]).is_nan());
    assert_eq!(number_of(&parse_str(".5").unwrap()[0]), 0.5);
    assert_eq!(number_of(&parse_str("5.").unwrap()[0]), 5.0);
    assert_eq!(number_of(&parse_str("2e3").unwrap()[0]), 2000.0);
}

#[test]
fn comparisons_follow_ieee_order() {
    let mut lisp = Lisp::new();
    assert!(matches!(run(&mut lisp, "(< -3 -2)"), Ok(Value::Bool(true))));
    assert!(matches!(run(&mut lisp, "(> -3 2)"), Ok(Value::Bool(false))));
    assert!(matches!(run(&mut lisp, "(< 0.5 inf)"), Ok(Value::Bool(true))));
    assert!(matches!(run(&mut lisp, "(= 0 -0)"), Ok(Value::Bool(true))));
    assert!(matches!(run(&mut lisp, "(= nan nan)"), Ok(Value::Bool(false))));
    assert!(matches!(run(&mut lisp, "(< nan 1)"), Ok(Value::Bool(false))));
    assert!(matches!(run(&mut lisp, "(> nan 1)"), Ok(Value::Bool(false))));
}
