use huii::codegen::template_gen::{
    arithmetic_from_lower, asks_max_exec, asks_min_exec, message_after_print_exec,
    min_max_from_lower, operator_named_exec, print_only_from_lower, print_with_param_from_lower,
    return_literal_from_lower, try_template_generate, value_after_return_exec,
};
use huii::lock::manager::hex_string;
use huii::parser::ast::{Flow, Implementation, Param, Type};
use huii::parser::has_parser::type_for_name;

fn chars(s: &str) -> Vec<char> {
    s.chars().collect()
}

fn text(v: Option<Vec<char>>) -> Option<String> {
    v.map(|c| c.into_iter().collect())
}

#[test]
fn print_message_after_keyword() {
    let line = chars("Print \"Hi there\" now");
    let lower = chars("print \"hi there\" now");
    assert_eq!(text(message_after_print_exec(&line, &lower)), Some("Hi there".to_string()));
}

#[test]
fn print_message_without_quotes_is_rest_of_line() {
    let line = chars("please print   hello world");
    assert_eq!(text(message_after_print_exec(&line, &line)), Some("hello world".to_string()));
}

#[test]
fn print_message_unclosed_quote_keeps_rest() {
    let line = chars("print 'abc");
    assert_eq!(text(message_after_print_exec(&line, &line)), Some("abc".to_string()));
}

#[test]
fn print_message_missing_or_empty() {
    let line = chars("show it");
    assert_eq!(message_after_print_exec(&line, &line), None);
    let line = chars("print   ");
    assert_eq!(message_after_print_exec(&line, &line), None);
    let line = chars("print \"\"");
    assert_eq!(message_after_print_exec(&line, &line), None);
}

#[test]
fn operators_by_keyword_in_order() {
    assert_eq!(operator_named_exec(&chars("sum of a and b")), Some("+"));
    assert_eq!(operator_named_exec(&chars("the difference")), Some("-"));
    assert_eq!(operator_named_exec(&chars("x times y")), Some("*"));
    assert_eq!(operator_named_exec(&chars("divide a by b")), Some("/"));
    assert_eq!(operator_named_exec(&chars("add or subtract")), Some("+"));
    assert_eq!(operator_named_exec(&chars("compare them")), None);
}

#[test]
fn returned_values() {
    assert_eq!(text(value_after_return_exec(&chars("return 42."))), Some("42".to_string()));
    assert_eq!(text(value_after_return_exec(&chars("returns   true"))), Some("true".to_string()));
    assert_eq!(text(value_after_return_exec(&chars("return ..."))), None);
    assert_eq!(value_after_return_exec(&chars("give 1")), None);
}

#[test]
fn min_max_keywords() {
    assert!(asks_max_exec(&chars("the highest value")));
    assert!(!asks_max_exec(&chars("the lowest value")));
    assert!(asks_min_exec(&chars("the lowest value")));
    assert!(asks_min_exec(&chars("minimum")));
}

fn flow(name: &str, params: Vec<Param>, line: &str) -> Flow {
    Flow {
        name: name.to_string(),
        params,
        return_ty: None,
        implementation: Implementation::Inline(vec![line.to_string()]),
    }
}

#[test]
fn return_float_literal() {
    let code = try_template_generate(&flow("pi", vec![], "Return 3.14.")).unwrap();
    assert_eq!(
        code,
        "fn pi() -> f32 {\n    3.14_f32\n}\n\nfn main() {\n    let result = pi();\n    println!(\"{}\", result);\n}\n"
    );
}

#[test]
fn return_negative_integer_and_string() {
    let code = try_template_generate(&flow("neg", vec![], "return -7")).unwrap();
    assert!(code.contains("fn neg() -> i32 {\n    -7\n}"));
    let code = try_template_generate(&flow("s", vec![], "return \"ok\"")).unwrap();
    assert!(code.contains("fn s() -> String {\n    String::from(\"ok\")\n}"));
}

#[test]
fn return_too_large_integer_without_point_is_none() {
    assert!(try_template_generate(&flow("big", vec![], "return 99999999999")).is_none());
}

#[test]
fn division_template_exact() {
    let params = vec![
        Param { name: "x".to_string(), ty: Some(Type::F32) },
        Param { name: "y".to_string(), ty: Some(Type::F32) },
    ];
    let code = try_template_generate(&flow("div", params, "Divide x by y")).unwrap();
    assert_eq!(
        code,
        "fn div(x: f32, y: f32) -> f32 {\n    x / y\n}\n\nfn main() {\n    let result = div(1.0, 1.0);\n    println!(\"{}\", result);\n}\n"
    );
}

#[test]
fn print_only_exact() {
    let code = try_template_generate(&flow("hi", vec![], "Print 'Hello'")).unwrap();
    assert_eq!(code, "fn hi() {\n    println!(\"hello\");\n}\n\nfn main() {\n    hi();\n}\n");
}

#[test]
fn print_with_param_without_quotes() {
    let params = vec![Param { name: "who".to_string(), ty: Some(Type::Str) }];
    let code = try_template_generate(&flow("show", params, "print the name")).unwrap();
    assert_eq!(
        code,
        "fn show(who: String) {\n    println!(\"{}\", who);\n}\n\nfn main() {\n    let who = String::from(\"test\");\n    show(who);\n}\n"
    );
}

#[test]
fn non_inline_or_empty_flows_have_no_template() {
    let f = Flow { name: "e".to_string(), params: vec![], return_ty: None, implementation: Implementation::Empty };
    assert!(try_template_generate(&f).is_none());
    let f = Flow {
        name: "e".to_string(),
        params: vec![],
        return_ty: None,
        implementation: Implementation::Inline(vec![]),
    };
    assert!(try_template_generate(&f).is_none());
}

#[test]
fn type_names_from_lowercase_form() {
    assert_eq!(type_for_name("Text", &chars("string")), Type::Str);
    assert_eq!(type_for_name("Widget", &chars("widget")), Type::Custom("Widget".to_string()));
}

#[test]
fn hex_of_bytes() {
    assert_eq!(hex_string(&vec![0x00, 0x0f, 0xa5, 0xff]), "000fa5ff");
    assert_eq!(hex_string(&vec![]), "");
}

#[test]
fn programs_from_lowercase_lines() {
    use_params_check();
}

fn two_ints() -> Vec<Param> {
    vec![
        Param { name: "a".to_string(), ty: Some(Type::I32) },
        Param { name: "b".to_string(), ty: Some(Type::I32) },
    ]
}

fn use_params_check() {
    let f = flow("pick", two_ints(), "unused");
    assert_eq!(
        min_max_from_lower(&f, &chars("the smaller one")),
        Some("fn pick(a: i32, b: i32) -> i32 {\n    if a < b { a } else { b }\n}\n\nfn main() {\n    let result = pick(1, 1);\n    println!(\"{}\", result);\n}\n".to_string())
    );
    assert_eq!(min_max_from_lower(&f, &chars("either one")), None);
    assert_eq!(
        arithmetic_from_lower(&f, &chars("minus")),
        Some("fn pick(a: i32, b: i32) -> i32 {\n    a - b\n}\n\nfn main() {\n    let result = pick(1, 1);\n    println!(\"{}\", result);\n}\n".to_string())
    );
    let g = flow("seven", vec![], "unused");
    assert_eq!(
        return_literal_from_lower(&g, &chars("return 7")),
        Some("fn seven() -> i32 {\n    7\n}\n\nfn main() {\n    let result = seven();\n    println!(\"{}\", result);\n}\n".to_string())
    );
    assert_eq!(
        print_only_from_lower(&g, &chars("print hi"), &chars("print hi")),
        Some("fn seven() {\n    println!(\"hi\");\n}\n\nfn main() {\n    seven();\n}\n".to_string())
    );
    let h = flow("greet", vec![Param { name: "n".to_string(), ty: Some(Type::Str) }], "unused");
    assert_eq!(
        print_with_param_from_lower(&h, &chars("Print \"Hi \" and n"), &chars("print \"hi \" and n")),
        Some("fn greet(n: String) {\n    println!(\"Hi {}\", n);\n}\n\nfn main() {\n    let n = String::from(\"test\");\n    greet(n);\n}\n".to_string())
    );
    assert_eq!(print_with_param_from_lower(&h, &chars("say it"), &chars("say it")), None);
}
