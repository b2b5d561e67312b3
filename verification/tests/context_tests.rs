use huii::context::builder::Context;
use huii::parser::ast::{Declaration, Field, Flow, Implementation, Param, Program, Schema, Type};

fn flow(name: &str, params: Vec<Param>, return_ty: Option<Type>, lines: Vec<&str>) -> Flow {
    Flow {
        name: name.to_string(),
        params,
        return_ty,
        implementation: Implementation::Inline(lines.into_iter().map(String::from).collect()),
    }
}

fn param(name: &str, ty: Type) -> Param {
    Param { name: name.to_string(), ty: Some(ty) }
}

fn add_context() -> Context {
    let program = Program {
        declarations: vec![Declaration::Flow(flow(
            "add",
            vec![param("a", Type::I32), param("b", Type::I32)],
            Some(Type::I32),
            vec!["add a and b"],
        ))],
    };
    let mut ctx = Context::new();
    ctx.register_program(&program, None);
    ctx
}

#[test]
fn normalize_identifier_trims_and_replaces_spaces() {
    assert_eq!(Context::normalize_identifier("  my flow name \t"), "my_flow_name");
    assert_eq!(Context::normalize_identifier("plain"), "plain");
    assert_eq!(Context::normalize_identifier(""), "");
}

#[test]
fn register_renames_implicit_flow_and_normalizes_names() {
    let program = Program {
        declarations: vec![
            Declaration::Import("lib".to_string()),
            Declaration::Schema(Schema { name: " User Info ".to_string(), fields: vec![] }),
            Declaration::Flow(flow("implicit_flow", vec![], None, vec!["do it"])),
            Declaration::Flow(flow(" other flow", vec![], None, vec![])),
        ],
    };
    let mut ctx = Context::new();
    ctx.register_program(&program, Some("my script"));
    assert_eq!(ctx.schemas.len(), 1);
    assert_eq!(ctx.schemas[0].0, "User_Info");
    assert_eq!(ctx.flows.len(), 2);
    let main = ctx.get_flow("my_script").expect("renamed flow");
    assert_eq!(main.name, "my_script");
    assert!(ctx.get_flow("other_flow").is_some());
    assert!(ctx.get_flow("implicit_flow").is_none());
}

#[test]
fn register_keeps_implicit_flow_without_default_name() {
    let program = Program { declarations: vec![Declaration::Flow(flow("implicit_flow", vec![], None, vec![]))] };
    let mut ctx = Context::new();
    ctx.register_program(&program, None);
    assert!(ctx.get_flow("implicit_flow").is_some());
}

#[test]
fn register_same_name_twice_keeps_the_later_flow() {
    let program = Program {
        declarations: vec![
            Declaration::Flow(flow("f", vec![], None, vec!["first"])),
            Declaration::Flow(flow("f", vec![], Some(Type::Bool), vec!["second"])),
        ],
    };
    let mut ctx = Context::new();
    ctx.register_program(&program, None);
    assert_eq!(ctx.flows.len(), 1);
    assert_eq!(ctx.get_flow("f").unwrap().return_ty, Some(Type::Bool));
}

#[test]
fn body_only_prompt_and_wrapper() {
    let ctx = add_context();
    let (prompt, wrapper) = ctx.generate_body_only_prompt("add").expect("flow is registered");
    let expected_prompt = "You are a Rust code generator. Generate ONLY the function body (the code inside the braces). Do NOT include the function signature, imports, or main function.\n\n### Example\nFunction: `greet(name: String) -> ()`\nIntent: Print \"Hello \" followed by name\nBody:\nprintln!(\"Hello {}\", name);\n\n### Your Task\nFunction: `add(a: i32, b: i32) -> i32`\nIntent:\n- add a and b\n\nGenerate ONLY the body code (no `fn`, no `main`, no `use`). Output raw Rust statements only.\n";
    assert_eq!(prompt, expected_prompt);
    let expected_wrapper = "fn add(a: i32, b: i32) -> i32 {\n{BODY}\n}\n\nfn main() {\n    let args: Vec<String> = std::env::args().collect();\n    let a = args.get(0 + 1).and_then(|s| s.parse::<i32>().ok()).unwrap_or(0);\n    let b = args.get(1 + 1).and_then(|s| s.parse::<i32>().ok()).unwrap_or(0);\n    let result = add(a, b);\n    println!(\"{:?}\", result);\n}\n";
    assert_eq!(wrapper, expected_wrapper);
}

#[test]
fn body_only_prompt_lists_schemas_and_unit_wrapper() {
    let program = Program {
        declarations: vec![
            Declaration::Schema(Schema {
                name: "User".to_string(),
                fields: vec![
                    Field { name: "name".to_string(), ty: Type::Str },
                    Field { name: "tags".to_string(), ty: Type::List(Box::new(Type::Str)) },
                ],
            }),
            Declaration::Flow(flow("show", vec![param("u", Type::Custom("User".to_string()))], None, vec!["print u"])),
        ],
    };
    let mut ctx = Context::new();
    ctx.register_program(&program, None);
    let (prompt, wrapper) = ctx.generate_body_only_prompt("show").unwrap();
    assert!(prompt.contains("### Available Structs\nstruct User { name: String, tags: Vec<String> }\n\n"));
    assert!(prompt.contains("Function: `show(u: User) -> ()`\n"));
    assert_eq!(
        wrapper,
        "fn show(u: User) {\n{BODY}\n}\n\nfn main() {\n    let args: Vec<String> = std::env::args().collect();\n    let u = args.get(0 + 1).and_then(|s| s.parse::<User>().ok()).unwrap_or(Default::default());\n    show(u);\n}\n"
    );
}

#[test]
fn prompts_for_unknown_flow_are_none() {
    let ctx = add_context();
    assert!(ctx.generate_body_only_prompt("missing").is_none());
    assert!(ctx.generate_ai_prompt("missing", true).is_none());
}

#[test]
fn ai_prompt_library_mode() {
    let ctx = add_context();
    let prompt = ctx.generate_ai_prompt("add", false).unwrap();
    let expected = "You are an AI Coding Agent. Your task is to generate a COMPLETE, RUNNABLE Rust source file based on the following logic specification.\n\n### Example\n\nSpecification:\n- Function: `add`\n- Parameters: a: i32, b: i32\n- Return: i32\n- Intent: Return sum of a and b\n\nGenerated Code:\n```rust\nfn add(a: i32, b: i32) -> i32 {\n    a + b\n}\n```\n\nNow generate code for the following specification:\n\n### Schemas\nNone\n\n### Logic Specification (Flow)\nFunction Name: `add`\nParameters:\n- a: i32\n- b: i32\nReturn Type: i32\n\n### Implementation Details (Natural Language)\n- add a and b\n\n### Structure Instructions\n1. Imports (e.g. `use ...`)\n2. Helper Structs (if any from Schemas)\n3. The Logic Function (`fn `...)\n4. (No `main` function)\n\n### Coding Guidelines\n- Output ONLY the Rust code. No explanations, no markdown.\n";
    assert_eq!(prompt, expected);
}

#[test]
fn ai_prompt_standalone_mode() {
    let program = Program {
        declarations: vec![
            Declaration::Schema(Schema {
                name: "P".to_string(),
                fields: vec![Field { name: "x".to_string(), ty: Type::F32 }],
            }),
            Declaration::Flow(Flow {
                name: "noop".to_string(),
                params: vec![],
                return_ty: None,
                implementation: Implementation::Empty,
            }),
        ],
    };
    let mut ctx = Context::new();
    ctx.register_program(&program, None);
    let prompt = ctx.generate_ai_prompt("noop", true).unwrap();
    assert!(prompt.contains("- Function: `greet`\n"));
    assert!(prompt.contains("### Schemas\nstruct P {\n    x: f32,\n}\n\n### Logic Specification (Flow)\n"));
    assert!(prompt.contains("Parameters:\n- None\nReturn Type: ()\n"));
    assert!(prompt.contains("### Implementation Details (Natural Language)\n\n### Structure Instructions\n"));
    assert!(prompt.contains("4. The `main` Function: DEFINE `fn main() { ... }` at the END of the file.\n"));
    assert!(prompt.contains("- Return `()` from `main`.\n"));
    assert!(prompt.ends_with("- Output ONLY the Rust code. No explanations, no markdown.\n"));
}

#[test]
fn correction_prompt_exact() {
    let p = Context::build_correction_prompt("fn main() {}", "error[E0425]: x");
    assert_eq!(
        p,
        "You are an AI Coding Agent. The following Rust code failed to compile. Fix the error and output the COMPLETE corrected Rust source file.\n\n### Compiler Error\nerror[E0425]: x\n\n### Failed Code\n```rust\nfn main() {}\n```\n\nOutput ONLY the corrected Rust code. No explanations, no markdown.\n"
    );
}

#[test]
fn correction_prompt_cuts_long_errors_to_500_bytes() {
    let long_error = "e".repeat(600);
    let p = Context::build_correction_prompt("code", &long_error);
    let kept = format!("### Compiler Error\n{}\n\n### Failed Code", "e".repeat(500));
    assert!(p.contains(&kept));
    assert!(!p.contains(&"e".repeat(501)));
}

#[test]
fn registering_the_same_program_twice_changes_nothing() {
    let program = Program {
        declarations: vec![
            Declaration::Schema(Schema { name: "A b".to_string(), fields: vec![] }),
            Declaration::Flow(flow("x", vec![], None, vec!["one"])),
            Declaration::Flow(flow("implicit_flow", vec![], Some(Type::I32), vec!["two"])),
            Declaration::Flow(flow("x", vec![], Some(Type::Bool), vec!["three"])),
        ],
    };
    let mut ctx = Context::new();
    ctx.register_program(&program, Some("main flow"));
    let names: Vec<String> = ctx.flows.iter().map(|e| e.0.clone()).collect();
    ctx.register_program(&program, Some("main flow"));
    let again: Vec<String> = ctx.flows.iter().map(|e| e.0.clone()).collect();
    assert_eq!(names, again);
    assert_eq!(names, vec!["x".to_string(), "main_flow".to_string()]);
    assert_eq!(ctx.get_flow("x").unwrap().return_ty, Some(Type::Bool));
    assert_eq!(ctx.schemas.len(), 1);
    assert_eq!(ctx.schemas[0].0, "A_b");
    for (name, f) in &ctx.flows {
        assert_eq!(&f.name, name);
    }
}

#[test]
fn correction_prompt_with_precut_error_is_the_same() {
    let e = format!("é{}", "x".repeat(600));
    let cut = &e[..500];
    let full = Context::build_correction_prompt("code", &e);
    assert_eq!(full, Context::build_correction_prompt("code", cut));
    assert_eq!(full.len(), Context::build_correction_prompt("code", "").len() + 500);
}

#[test]
fn format_type_wraps_element_types() {
    assert_eq!(Context::format_type(&Type::List(Box::new(Type::Option(Box::new(Type::I32))))), "Vec<Option<i32>>");
    assert_eq!(Context::format_type(&Type::Stream(Box::new(Type::Str))), "impl Stream<Item=String>");
    assert_eq!(Context::format_type(&Type::Custom("Point".to_string())), "Point");
    assert_eq!(Context::format_type(&Type::Void), "()");
}

#[test]
fn schemas_are_stored_under_their_normalized_names() {
    let program = Program {
        declarations: vec![
            Declaration::Schema(Schema { name: " Order Line ".to_string(), fields: vec![] }),
            Declaration::Schema(Schema { name: "Plain".to_string(), fields: vec![] }),
        ],
    };
    let mut ctx = Context::new();
    ctx.register_program(&program, None);
    for (key, schema) in &ctx.schemas {
        assert_eq!(key, &Context::normalize_identifier(&schema.name));
    }
    assert_eq!(ctx.schemas[0].0, "Order_Line");
}
