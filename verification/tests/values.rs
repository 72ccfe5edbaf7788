use stack_lang::value::Value;

fn text(s: &str) -> Value {
    Value::Text(s.to_string())
}

#[test]
fn to_text_is_total_over_all_variants() {
    // Number: the shortest decimal string that reads back as the same
    // double, plain digits without an exponent, as Rust renders a double.
    assert_eq!(Value::Number(7f64.to_bits()).get_string(), "7");
    assert_eq!(Value::Number(3.5f64.to_bits()).get_string(), "3.5");
    assert_eq!(Value::Number(0.1f64.to_bits()).get_string(), "0.1");
    assert_eq!(Value::Number((-2f64).to_bits()).get_string(), "-2");
    assert_eq!(Value::Number(100000f64.to_bits()).get_string(), "100000");
    assert_eq!(Value::Number(1e21f64.to_bits()).get_string(), "1000000000000000000000");
    assert_eq!(Value::Number(0.001f64.to_bits()).get_string(), "0.001");
    assert_eq!(
        Value::Number((1.0f64 / 3.0f64).to_bits()).get_string().parse::<f64>().unwrap(),
        1.0f64 / 3.0f64,
    );
    assert_eq!(Value::Number(f64::NAN.to_bits()).get_string(), "NaN");
    assert_eq!(Value::Number(f64::INFINITY.to_bits()).get_string(), "inf");
    assert_eq!(Value::Number(f64::NEG_INFINITY.to_bits()).get_string(), "-inf");
    assert_eq!(text("hi").get_string(), "hi");
    assert_eq!(text("").get_string(), "");
    assert_eq!(Value::Bool(true).get_string(), "true");
    assert_eq!(Value::Bool(false).get_string(), "false");
    assert_eq!(Value::List(vec![]).get_string(), "[]");
    assert_eq!(Value::List(vec![text("a"), Value::Bool(true)]).get_string(), "[(a) true]");
    assert_eq!(Value::Error("boom".to_string()).get_string(), "error:boom");
    assert_eq!(Value::Resource.get_string(), "{Image}");
}

#[test]
fn to_number_is_total_over_all_variants() {
    assert_eq!(Value::Number(2.5f64.to_bits()).get_number(), 2.5f64.to_bits());
    assert_eq!(text("3.5").get_number(), 3.5f64.to_bits());
    assert_eq!(text("not a number").get_number(), 0f64.to_bits());
    assert_eq!(text("").get_number(), 0f64.to_bits());
    assert_eq!(text("inf").get_number(), f64::INFINITY.to_bits());
    assert_eq!(Value::Bool(true).get_number(), 1f64.to_bits());
    assert_eq!(Value::Bool(false).get_number(), 0f64.to_bits());
    assert_eq!(Value::List(vec![text("a"), text("b")]).get_number(), 2f64.to_bits());
    assert_eq!(Value::Error("7".to_string()).get_number(), 7f64.to_bits());
    assert_eq!(Value::Error("x".to_string()).get_number(), 0f64.to_bits());
    assert_eq!(Value::Resource.get_number(), 1f64.to_bits());
}

#[test]
fn to_bool_is_total_over_all_variants() {
    assert!(!Value::Number(0f64.to_bits()).get_bool());
    assert!(!Value::Number((-0f64).to_bits()).get_bool());
    assert!(Value::Number(f64::NAN.to_bits()).get_bool());
    assert!(Value::Number(2f64.to_bits()).get_bool());
    assert!(!text("").get_bool());
    assert!(text("x").get_bool());
    assert!(Value::Bool(true).get_bool());
    assert!(!Value::List(vec![]).get_bool());
    assert!(Value::List(vec![Value::Bool(false)]).get_bool());
    assert!(Value::Error("true".to_string()).get_bool());
    assert!(!Value::Error("1".to_string()).get_bool());
    assert!(Value::Resource.get_bool());
}

#[test]
fn to_list_is_total_over_all_variants() {
    let l = text("ab").get_list();
    assert_eq!(l.len(), 2);
    assert!(matches!(&l[0], Value::Text(s) if s == "a"));
    assert!(matches!(&l[1], Value::Text(s) if s == "b"));
    let l = Value::Number(5f64.to_bits()).get_list();
    assert_eq!(l.len(), 1);
    assert!(matches!(l[0], Value::Number(b) if b == 5f64.to_bits()));
    let l = Value::Bool(true).get_list();
    assert!(matches!(l[0], Value::Bool(true)));
    let l = Value::List(vec![text("a")]).get_list();
    assert_eq!(l.len(), 1);
    let l = Value::Error("e".to_string()).get_list();
    assert!(matches!(&l[0], Value::Error(t) if t == "e"));
    assert!(Value::Resource.get_list().is_empty());
}

#[test]
fn display_wraps_text_and_prefixes_error() {
    assert_eq!(text("hi").display_text(), "(hi)");
    assert_eq!(Value::Error("e".to_string()).display_text(), "error:e");
    assert_eq!(Value::List(vec![text("a"), text("b")]).display_text(), "[(a) (b)]");
}

#[test]
fn kind_names() {
    assert_eq!(Value::Number(0).kind_name(), "number");
    assert_eq!(text("x").kind_name(), "string");
    assert_eq!(Value::Bool(true).kind_name(), "bool");
    assert_eq!(Value::List(vec![]).kind_name(), "list");
    assert_eq!(Value::Error("e".to_string()).kind_name(), "error");
    assert_eq!(Value::Resource.kind_name(), "image");
}
