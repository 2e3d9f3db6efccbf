use bang::eval::{eval_prgm, eval_prgm_with_output, Env, RunErr, Value};
use bang::parse::BangParser;

fn run(txt: &str) -> Result<Value, RunErr> {
    match BangParser::parse(txt) {
        Ok(node) => eval_prgm(node),
        Err(e) => panic!("parse error: {:?}", e),
    }
}

fn run_num(txt: &str) -> i32 {
    match run(txt) {
        Ok(Value::Num(n)) => n,
        other => panic!("expected a number, got {:?}", other),
    }
}

fn run_err(txt: &str) -> String {
    match run(txt) {
        Err(RunErr(msg)) => msg,
        other => panic!("expected an error, got {:?}", other),
    }
}

#[test]
fn arithmetic_formulas() {
    assert_eq!(run_num("11 + 31"), 42);
    assert_eq!(run_num("11 - 31"), -20);
    assert_eq!(run_num("6 * 7"), 42);
    assert_eq!(run_num("7 / 2"), 3);
    assert_eq!(run_num("2 ** 10"), 1024);
    assert_eq!(run_num("0 - 7"), -7);
}

#[test]
fn division_truncates_toward_zero() {
    assert_eq!(run_num("(0 - 7) / 2"), -3);
    assert_eq!(run_num("7 / (0 - 2)"), -3);
    assert_eq!(run_num("(0 - 7) / (0 - 2)"), 3);
}

#[test]
fn division_by_zero_is_an_error() {
    assert_eq!(run_err("1 / 0"), "Error: division by zero");
}

#[test]
fn negative_exponent_is_an_error() {
    assert_eq!(run_err("2 ** (0 - 3)"), "Error: negative exponent");
}

#[test]
fn overflow_is_an_error() {
    assert_eq!(run_err("2000000000 + 2000000000"), "Error: arithmetic overflow");
    assert_eq!(run_err("2 ** 40"), "Error: arithmetic overflow");
}

#[test]
fn numeral_too_large_is_a_parse_error() {
    assert!(BangParser::parse("99999999999").is_err());
}

#[test]
fn let_then_use() {
    assert_eq!(run_num("let x = 7\nx"), 7);
    assert_eq!(run_num("let x = 7\nlet y = x + 1\ny"), 8);
}

#[test]
fn undefined_identifier_names_it() {
    assert_eq!(run_err("boop"), "Error: identifier boop is not defined");
}

#[test]
fn undefined_identifier_emits_nothing() {
    let node = BangParser::parse("put(1)\nboop").unwrap();
    let (r, out) = eval_prgm_with_output(node);
    assert_eq!(
        r,
        Err(RunErr("Error: identifier boop is not defined".to_string()))
    );
    assert_eq!(out, vec![Value::Num(1)]);

    let node2 = BangParser::parse("put(1, boop)").unwrap();
    let (r2, out2) = eval_prgm_with_output(node2);
    assert!(r2.is_err());
    assert_eq!(out2, Vec::<Value>::new());
}

#[test]
fn binding_not_visible_in_sibling_scope() {
    // the `let` inside f's body binds in f's frame only
    let txt = "fun f()\nlet x = 5\nend\nf()\nx";
    assert_eq!(run_err(txt), "Error: identifier x is not defined");
}

#[test]
fn shadowing_inner_sees_new_outer_sees_old() {
    let inner = "let x = 1\nfun f()\nlet x = 2\nx\nend\nf()";
    assert_eq!(run_num(inner), 2);
    let outer = "let x = 1\nfun f()\nlet x = 2\nx\nend\nf()\nx";
    assert_eq!(run_num(outer), 1);
}

#[test]
fn recursion_factorial() {
    let txt = "fun fact(n)\nmatch n\n0 => 1\n_ => n * fact(n - 1)\nend\nend\nfact(5)";
    assert_eq!(run_num(txt), 120);
}

#[test]
fn recursion_under_alias() {
    // the function's own name resolves from its captured scope, so a call
    // through another name still recurses
    let txt = "fun f(n)\nmatch n\n0 => 1\n_ => f(n - 1)\nend\nend\nlet g = f\ng(3)";
    assert_eq!(run_num(txt), 1);
}

#[test]
fn recursion_under_alias_made_inside_a_callee() {
    let txt = "fun f(n)\nmatch n\n0 => 1\n_ => f(n - 1)\nend\nend\nfun go(n)\nlet g = f\ng(n)\nend\ngo(3)";
    assert_eq!(run_num(txt), 1);
}

#[test]
fn repeated_calls_without_redeclaration() {
    let txt = "fun inc(n)\nn + 1\nend\ninc(inc(inc(0)))";
    assert_eq!(run_num(txt), 3);
}

#[test]
fn match_first_branch_wins() {
    let txt = "match 2\n2 => 10\n2 => 20\n_ => 0\nend";
    assert_eq!(run_num(txt), 10);
}

#[test]
fn match_default_catches_everything_else() {
    let txt = "match 99\n1 => 10\n_ => 55\nend";
    assert_eq!(run_num(txt), 55);
}

#[test]
fn match_without_any_branch_taken_is_an_error() {
    assert_eq!(run_err("match 5\n1 => 2\nend"), "Error: no branch matched");
}

#[test]
fn map_literal_bare_keys() {
    let v = run("{a: 1, b: 2+2}").unwrap();
    let expected = Value::MapVal(vec![
        (Value::String("a".to_string()), Value::Num(1)),
        (Value::String("b".to_string()), Value::Num(4)),
    ]);
    assert_eq!(v, expected);
}

#[test]
fn map_literal_bare_key_is_quoted_even_when_bound() {
    let v = run("let a = 9\n{a: 1}").unwrap();
    let expected = Value::MapVal(vec![(Value::String("a".to_string()), Value::Num(1))]);
    assert_eq!(v, expected);
}

#[test]
fn map_literal_expression_key_is_evaluated() {
    let v = run("{1 + 1: 5}").unwrap();
    let expected = Value::MapVal(vec![(Value::Num(2), Value::Num(5))]);
    assert_eq!(v, expected);
}

#[test]
fn map_keys_sorted_and_deduplicated() {
    let v = run("{2: 20, 1: 10, 2: 22}").unwrap();
    let expected = Value::MapVal(vec![(Value::Num(1), Value::Num(10)), (Value::Num(2), Value::Num(22))]);
    assert_eq!(v, expected);
}

#[test]
fn end_to_end_lets() {
    assert_eq!(run_num("let a = 3\nlet b = a * 2\na + b"), 9);
}

#[test]
fn end_to_end_call() {
    assert_eq!(run_num("fun add(x, y)\n x + y\nend\nadd(2, 3)"), 5);
}

#[test]
fn string_literal_value() {
    assert_eq!(run("\"hi\"").unwrap(), Value::String("hi".to_string()));
}

#[test]
fn function_definition_yields_unit() {
    assert_eq!(run("fun wow()\n1\nend").unwrap(), Value::Unit);
}

#[test]
fn calling_an_undefined_function() {
    assert_eq!(run_err("nope(1)"), "Error function nope is not defined");
}

#[test]
fn calling_a_value_that_is_no_function() {
    assert_eq!(run_err("let x = 3\nx(1)"), "Error: x is not a function");
}

#[test]
fn put_collects_output_in_order() {
    let node = BangParser::parse("put(1, 2)\nput(3)\n5").unwrap();
    let (r, out) = eval_prgm_with_output(node);
    assert_eq!(r, Ok(Value::Num(5)));
    assert_eq!(out, vec![Value::Num(1), Value::Num(2), Value::Num(3)]);
}

#[test]
fn empty_program_value() {
    assert_eq!(run("").unwrap(), Value::Num(-1));
}

#[test]
fn environment_operations() {
    let mut root = Env::new();
    root.insert("k".to_string(), Value::Num(1));
    assert_eq!(root.get("k"), Some(Value::Num(1)));
    assert_eq!(root.get("missing"), None);

    // a child scope sees the parent's bindings...
    let mut child = root.new_child();
    assert_eq!(child.get("k"), Some(Value::Num(1)));

    // ...an inner binding hides the outer one completely...
    child.insert("k".to_string(), Value::Num(2));
    assert_eq!(child.get("k"), Some(Value::Num(2)));

    // ...and the parent is unaffected, as is the child's snapshot by later
    // changes to the parent.
    assert_eq!(root.get("k"), Some(Value::Num(1)));
    root.insert("fresh".to_string(), Value::Num(3));
    assert_eq!(child.get("fresh"), None);
}
