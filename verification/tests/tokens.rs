use stack_lang::eval::{Executor, Mode};
use stack_lang::tokenize::analyze_syntax;
use stack_lang::value::Value;

#[test]
fn text_literal_is_one_token() {
    let toks = analyze_syntax("(hello world)");
    assert_eq!(toks.len(), 1);
    assert_eq!(toks[0], "(hello world)");
}

#[test]
fn nested_list_evaluates_to_nested_values() {
    let toks = analyze_syntax("[1 2 [3 4]]");
    assert_eq!(toks.len(), 1);
    let mut e = Executor::new(Mode::Script);
    e.evaluate_program("[1 2 [3 4]]".to_string());
    assert_eq!(e.stack().len(), 1);
    match &e.stack()[0] {
        Value::List(l) => {
            assert_eq!(l.len(), 3);
            assert!(matches!(l[0], Value::Number(b) if b == 1f64.to_bits()));
            assert!(matches!(l[1], Value::Number(b) if b == 2f64.to_bits()));
            match &l[2] {
                Value::List(inner) => {
                    assert_eq!(inner.len(), 2);
                    assert!(matches!(inner[0], Value::Number(b) if b == 3f64.to_bits()));
                    assert!(matches!(inner[1], Value::Number(b) if b == 4f64.to_bits()));
                },
                _ => panic!("expected a nested list"),
            }
        },
        _ => panic!("expected a list"),
    }
}

#[test]
fn whitespace_splits_only_at_zero_depth() {
    assert_eq!(analyze_syntax("a b"), vec!["a", "b"]);
    assert_eq!(analyze_syntax("a\nb\tc"), vec!["a", "b", "c"]);
    assert_eq!(analyze_syntax("(a b) [c d] {e f}"), vec!["(a b)", "[c d]", "{e f}"]);
}

#[test]
fn escaped_space_stays_in_token() {
    assert_eq!(analyze_syntax("a\\ b"), vec!["a b"]);
}

#[test]
fn escaped_newline_shorthand_is_kept_literally() {
    assert_eq!(analyze_syntax("a\\nb"), vec!["a\\nb"]);
}

#[test]
fn comment_spans_spaces() {
    assert_eq!(analyze_syntax("a #x y# b"), vec!["a", "#x y#", "b"]);
}

#[test]
fn comment_token_is_a_no_op() {
    let mut e = Executor::new(Mode::Script);
    e.evaluate_program("1 #two three# 4".to_string());
    assert_eq!(e.stack().len(), 2);
}

#[test]
fn text_literal_unescapes_its_interior() {
    let mut e = Executor::new(Mode::Script);
    e.evaluate_program("(a\\(b)".to_string());
    match &e.stack()[0] {
        Value::Text(s) => assert_eq!(s, "a(b"),
        _ => panic!("expected text"),
    }
}

#[test]
fn text_literal_may_hold_balanced_list_syntax() {
    let mut e = Executor::new(Mode::Script);
    e.evaluate_program("([1 2])".to_string());
    match &e.stack()[0] {
        Value::Text(s) => assert_eq!(s, "[1 2]"),
        _ => panic!("expected text"),
    }
}

#[test]
fn empty_source_has_no_tokens() {
    assert_eq!(analyze_syntax("").len(), 0);
    assert_eq!(analyze_syntax("   ").len(), 0);
}

#[test]
fn string_utilities() {
    let mut e = Executor::new(Mode::Script);
    e.evaluate_program("(ab) 3 repeat".to_string());
    assert!(matches!(e.stack().last(), Some(Value::Text(s)) if s == "ababab"));

    let mut e = Executor::new(Mode::Script);
    e.evaluate_program("(hello) (l) (L) replace".to_string());
    assert!(matches!(e.stack().last(), Some(Value::Text(s)) if s == "heLLo"));

    let mut e = Executor::new(Mode::Script);
    e.evaluate_program("(a,b,c) (,) split len".to_string());
    assert!(matches!(e.stack().last(), Some(Value::Number(b)) if *b == 3f64.to_bits()));

    let mut e = Executor::new(Mode::Script);
    e.evaluate_program("(Hello) (upper) case".to_string());
    assert!(matches!(e.stack().last(), Some(Value::Text(s)) if s == "HELLO"));

    let mut e = Executor::new(Mode::Script);
    e.evaluate_program("(hello) (ell) find".to_string());
    assert!(matches!(e.stack().last(), Some(Value::Bool(true))));

    let mut e = Executor::new(Mode::Script);
    e.evaluate_program("[(a) (b)] (-) join".to_string());
    assert!(matches!(e.stack().last(), Some(Value::Text(s)) if s == "a-b"));

    let mut e = Executor::new(Mode::Script);
    e.evaluate_program("65 decode".to_string());
    assert!(matches!(e.stack().last(), Some(Value::Text(s)) if s == "A"));

    let mut e = Executor::new(Mode::Script);
    e.evaluate_program("(A) encode".to_string());
    assert!(matches!(e.stack().last(), Some(Value::Number(b)) if *b == 65f64.to_bits()));
}

#[test]
fn regex_search_and_failure() {
    let mut e = Executor::new(Mode::Script);
    e.evaluate_program("(a1b22c) ([0-9]+) regex len".to_string());
    assert!(matches!(e.stack().last(), Some(Value::Number(b)) if *b == 2f64.to_bits()));

    let mut e = Executor::new(Mode::Script);
    e.evaluate_program("(text) ([) regex".to_string());
    assert!(matches!(e.stack().last(), Some(Value::Error(t)) if t == "regex"));
}

#[test]
fn equal_compares_shortest_decimal_text() {
    let mut e = Executor::new(Mode::Script);
    e.evaluate_program("0.1 (0.1) equal".to_string());
    assert!(matches!(e.stack().last(), Some(Value::Bool(true))));
}

#[test]
fn equal_and_less() {
    let mut e = Executor::new(Mode::Script);
    e.evaluate_program("7 (7) equal".to_string());
    assert!(matches!(e.stack().last(), Some(Value::Bool(true))));

    let mut e = Executor::new(Mode::Script);
    e.evaluate_program("2 3 less 3 2 less".to_string());
    assert!(matches!(e.stack()[0], Value::Bool(true)));
    assert!(matches!(e.stack()[1], Value::Bool(false)));
}

#[test]
fn logic_commands() {
    let mut e = Executor::new(Mode::Script);
    e.evaluate_program("true false and true false or false not".to_string());
    assert!(matches!(e.stack()[0], Value::Bool(false)));
    assert!(matches!(e.stack()[1], Value::Bool(true)));
    assert!(matches!(e.stack()[2], Value::Bool(true)));
}
