use stack_lang::eval::{Executor, Mode};
use stack_lang::value::Value;

fn run(code: &str) -> Executor {
    let mut e = Executor::new(Mode::Script);
    e.evaluate_program(code.to_string());
    e
}

fn top_number(e: &Executor) -> f64 {
    match e.stack().last() {
        Some(Value::Number(b)) => f64::from_bits(*b),
        other => panic!("expected a number on top, got {:?}", other.map(|v| v.display_text())),
    }
}

#[test]
fn add_two_numbers() {
    let e = run("3 4 add");
    assert_eq!(e.stack().len(), 1);
    assert_eq!(top_number(&e), 7.0);
}

#[test]
fn add_then_sub_composition() {
    let e = run("10 4 sub 1 add");
    assert_eq!(e.stack().len(), 1);
    assert_eq!(top_number(&e), 7.0);
}

#[test]
fn add_on_empty_stack_recovers() {
    // Underflow substitutes empty texts, which read as 0.
    let e = run("add");
    assert_eq!(e.stack().len(), 1);
    assert_eq!(top_number(&e), 0.0);
}

#[test]
fn concat_texts() {
    let e = run("(hello) (world) concat");
    assert_eq!(e.stack().len(), 1);
    match &e.stack()[0] {
        Value::Text(s) => assert_eq!(s, "helloworld"),
        _ => panic!("expected text"),
    }
}

#[test]
fn list_len() {
    let e = run("[1 2 3] len");
    assert_eq!(e.stack().len(), 1);
    assert_eq!(top_number(&e), 3.0);
}

#[test]
fn rand_picks_member() {
    for _ in 0..50 {
        let e = run("[1 2 3] rand");
        assert_eq!(e.stack().len(), 1);
        let n = top_number(&e);
        assert!(n == 1.0 || n == 2.0 || n == 3.0);
    }
}

#[test]
fn rand_empty_list_gives_list() {
    let e = run("[] rand");
    assert!(matches!(&e.stack()[0], Value::List(l) if l.is_empty()));
}

#[test]
fn if_runs_only_the_if_branch() {
    let e = run("(1) (2) true if");
    assert_eq!(e.stack().len(), 1);
    assert_eq!(top_number(&e), 1.0);
}

#[test]
fn if_runs_only_the_else_branch() {
    let e = run("(1) (2) false if");
    assert_eq!(e.stack().len(), 1);
    assert_eq!(top_number(&e), 2.0);
}

#[test]
fn div_by_zero_is_infinity() {
    let e = run("10 0 div");
    assert_eq!(e.stack().len(), 1);
    match &e.stack()[0] {
        Value::Number(b) => assert_eq!(*b, f64::INFINITY.to_bits()),
        _ => panic!("expected a number"),
    }
}

#[test]
fn modulo_follows_ieee() {
    let e = run("7 3 mod");
    assert_eq!(top_number(&e), 1.0);
}

#[test]
fn get_out_of_range_pushes_error() {
    let e = run("[1 2 3] 5 get");
    assert_eq!(e.stack().len(), 1);
    match &e.stack()[0] {
        Value::Error(t) => assert_eq!(t, "index-out-range"),
        _ => panic!("expected an error value"),
    }
}

#[test]
fn get_in_range() {
    let e = run("[1 2 3] 1 get");
    assert_eq!(top_number(&e), 2.0);
}

#[test]
fn set_del_append_insert() {
    let e = run("[1 2 3] 1 9 set");
    match &e.stack()[0] {
        Value::List(l) => {
            assert_eq!(l.len(), 3);
            assert!(matches!(l[1], Value::Number(b) if b == 9f64.to_bits()));
        },
        _ => panic!("expected a list"),
    }
    let e = run("[1 2 3] 1 del");
    match &e.stack()[0] {
        Value::List(l) => {
            assert_eq!(l.len(), 2);
            assert!(matches!(l[1], Value::Number(b) if b == 3f64.to_bits()));
        },
        _ => panic!("expected a list"),
    }
    let e = run("[1 2] 9 append");
    assert!(matches!(&e.stack()[0], Value::List(l) if l.len() == 3));
    let e = run("[1 3] 1 2 insert");
    match &e.stack()[0] {
        Value::List(l) => {
            assert_eq!(l.len(), 3);
            assert!(matches!(l[1], Value::Number(b) if b == 2f64.to_bits()));
        },
        _ => panic!("expected a list"),
    }
}

#[test]
fn index_finds_by_text() {
    let e = run("[(a) (b) (c)] (b) index");
    assert_eq!(top_number(&e), 1.0);
    let e = run("[(a)] (z) index");
    assert!(matches!(&e.stack()[0], Value::Error(t) if t == "item-not-found"));
}

#[test]
fn sort_by_text() {
    let e = run("[(b) (c) (a)] sort");
    match &e.stack()[0] {
        Value::List(l) => {
            let texts: Vec<&str> = l
                .iter()
                .map(|v| match v {
                    Value::Text(s) => s.as_str(),
                    _ => panic!("expected text"),
                })
                .collect();
            assert_eq!(texts, vec!["a", "b", "c"]);
        },
        _ => panic!("expected a list"),
    }
}

#[test]
fn reverse_list() {
    let e = run("[1 2 3] reverse");
    match &e.stack()[0] {
        Value::List(l) => {
            assert!(matches!(l[0], Value::Number(b) if b == 3f64.to_bits()));
            assert!(matches!(l[2], Value::Number(b) if b == 1f64.to_bits()));
        },
        _ => panic!("expected a list"),
    }
}

#[test]
fn range_makes_half_open_sequence() {
    let e = run("0 5 1 range len");
    assert_eq!(top_number(&e), 5.0);
    let e = run("0 5 0 range len");
    assert_eq!(top_number(&e), 0.0);
}

#[test]
fn map_doubles() {
    let e = run("[1 2 3] (x) (x 2 mul) map");
    match &e.stack()[0] {
        Value::List(l) => {
            assert!(matches!(l[0], Value::Number(b) if b == 2f64.to_bits()));
            assert!(matches!(l[1], Value::Number(b) if b == 4f64.to_bits()));
            assert!(matches!(l[2], Value::Number(b) if b == 6f64.to_bits()));
        },
        _ => panic!("expected a list"),
    }
}

#[test]
fn filter_keeps_matching() {
    let e = run("[1 2 3 4] (x) (x 2 mod 0 equal) filter");
    match &e.stack()[0] {
        Value::List(l) => {
            assert_eq!(l.len(), 2);
            assert!(matches!(l[0], Value::Number(b) if b == 2f64.to_bits()));
            assert!(matches!(l[1], Value::Number(b) if b == 4f64.to_bits()));
        },
        _ => panic!("expected a list"),
    }
}

#[test]
fn reduce_sums_and_resets_accumulator() {
    let mut e = Executor::new(Mode::Script);
    e.evaluate_program("[1 2 3] (acc) 0 (x) (acc x add) reduce".to_string());
    assert_eq!(top_number(&e), 6.0);
    e.evaluate_program("acc".to_string());
    assert!(matches!(e.stack().last(), Some(Value::Text(s)) if s.is_empty()));
}

#[test]
fn var_free_mem() {
    let mut e = Executor::new(Mode::Script);
    e.evaluate_program("5 (x) var x".to_string());
    assert_eq!(top_number(&e), 5.0);
    e.evaluate_program("mem len".to_string());
    assert_eq!(top_number(&e), 1.0);
    e.evaluate_program("(x) free mem len".to_string());
    assert_eq!(top_number(&e), 0.0);
}

#[test]
fn while_counts_to_three() {
    let e = run("0 (c) var (c 1 add (c) var) (c 3 less) while c");
    assert_eq!(top_number(&e), 3.0);
}

#[test]
fn eval_runs_text_as_program() {
    let e = run("(3 4 add) eval");
    assert_eq!(top_number(&e), 7.0);
}

#[test]
fn error_literal_and_type() {
    let e = run("error:oops type");
    assert!(matches!(&e.stack()[0], Value::Text(s) if s == "error"));
    let e = run("error:oops");
    assert!(matches!(&e.stack()[0], Value::Error(t) if t == "oops"));
}

#[test]
fn unknown_name_becomes_text() {
    let e = run("bananas");
    assert!(matches!(&e.stack()[0], Value::Text(s) if s == "bananas"));
}

#[test]
fn variable_shadows_command() {
    let e = run("9 (add) var 1 2 add");
    // `add` now reads the variable: 1, 2 and 9 end up on the stack.
    assert_eq!(e.stack().len(), 3);
    assert_eq!(top_number(&e), 9.0);
}

#[test]
fn stack_commands() {
    let e = run("1 2 swap");
    assert_eq!(top_number(&e), 1.0);
    let e = run("5 copy add");
    assert_eq!(top_number(&e), 10.0);
    let e = run("1 2 pop");
    assert_eq!(e.stack().len(), 1);
    let e = run("1 2 size-stack");
    assert_eq!(top_number(&e), 2.0);
    let e = run("1 2 get-stack len");
    assert_eq!(top_number(&e), 2.0);
}

#[test]
fn cast_between_kinds() {
    let e = run("(3.5) (number) cast");
    assert!(matches!(&e.stack()[0], Value::Number(b) if *b == 3.5f64.to_bits()));
    let e = run("0 (bool) cast");
    assert!(matches!(&e.stack()[0], Value::Bool(false)));
    let e = run("(oops) (error) cast");
    assert!(matches!(&e.stack()[0], Value::Error(t) if t == "oops"));
}

#[test]
fn exit_halts_and_keeps_status() {
    let e = run("5 exit 9");
    assert_eq!(e.halt_status(), Some(5));
    assert_eq!(e.stack().len(), 0);
}

#[test]
fn thread_leaves_parent_untouched() {
    for _ in 0..10 {
        let mut e = Executor::new(Mode::Script);
        e.evaluate_program("5 (x) var (9 (x) var) thread".to_string());
        e.evaluate_program("0.01 sleep".to_string());
        e.evaluate_program("x".to_string());
        match e.stack().last() {
            Some(Value::Number(b)) => assert_eq!(*b, 5f64.to_bits()),
            other => panic!("expected number, got {:?}", other.map(|v| v.display_text())),
        }
    }
}

#[test]
fn flip_image_validates_direction() {
    let e = run("(diagonal) flip-image");
    assert!(matches!(&e.stack()[0], Value::Error(t) if t == "flip-image"));
}

#[test]
fn morphology_validates_operation() {
    let e = run("(grow) 3 morphology-operation");
    assert!(matches!(&e.stack()[0], Value::Error(t) if t == "morphology-operation"));
}

#[test]
fn image_commands_pass_opaque_resources() {
    let e = run("(p.png) open-image to-grayscale type");
    assert!(matches!(&e.stack()[0], Value::Text(s) if s == "image"));
}

#[test]
fn read_file_without_a_file_store_errors() {
    let e = run("(nope.txt) read-file");
    assert!(matches!(&e.stack()[0], Value::Error(t) if t == "read-file"));
}
