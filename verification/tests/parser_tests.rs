use huii::parser::ais_parser::parse_ais;
use huii::parser::ast::{Declaration, Implementation, Type, Variant};
use huii::parser::bp_parser::parse_program;
use huii::parser::has_parser::{build_has_program, parse_type_from_str, split_has, FrontMatter, IOField};
use huii::parser::ParseError;

fn io_fields(v: Option<&serde_yaml::Value>) -> Vec<IOField> {
    let mut out = Vec::new();
    if let Some(seq) = v.and_then(|v| v.as_sequence()) {
        for item in seq {
            out.push(IOField {
                key: item.get("key").and_then(|k| k.as_str()).unwrap().to_string(),
                ty: item.get("type").and_then(|t| t.as_str()).unwrap().to_string(),
            });
        }
    }
    out
}

/// The front matter block of a script, read from its YAML.
fn front_matter(content: &str) -> Option<FrontMatter> {
    let (front, _) = split_has(content).ok()?;
    let yaml: serde_yaml::Value = serde_yaml::from_str(&front).ok()?;
    Some(FrontMatter { inputs: io_fields(yaml.get("in")), outputs: io_fields(yaml.get("out")) })
}

#[test]
fn test_basic_structure() {
    let content = r#"
---
in:
  - key: email
    type: string
out:
  - key: is_valid
    type: boolean
---
Check if email is valid.
"#;
    let mut input = content.trim();
    let front = front_matter(input);
    let program = parse_ais(&mut input, front.as_ref()).expect("Failed to parse");

    assert_eq!(program.declarations.len(), 1);
    if let Declaration::Flow(flow) = &program.declarations[0] {
        assert_eq!(flow.name, "implicit_flow");
        assert_eq!(flow.params.len(), 1);
        assert_eq!(flow.params[0].name, "email");
        assert_eq!(flow.params[0].ty, Some(Type::Str));
        assert_eq!(flow.return_ty, Some(Type::Bool));

        if let Implementation::Inline(lines) = &flow.implementation {
            assert_eq!(lines[0], "Check if email is valid.");
        }
    } else {
        panic!("Expected flow");
    }
}

#[test]
fn test_multiple_params() {
    let content = r#"
---
in:
  - key: a
    type: integer
  - key: b
    type: float
out:
  - key: c
    type: void
---
Body
"#;
    let mut input = content.trim();
    let front = front_matter(input);
    let program = parse_ais(&mut input, front.as_ref()).expect("Failed to parse");

    if let Declaration::Flow(flow) = &program.declarations[0] {
        assert_eq!(flow.params.len(), 2);
        assert_eq!(flow.params[0].ty, Some(Type::I32));
        assert_eq!(flow.params[1].ty, Some(Type::F32));
        assert_eq!(flow.return_ty, Some(Type::Void));
    }
}

#[test]
fn test_custom_type() {
    let content = r#"
---
in:
  - key: user
    type: UserProfile
out: []
---
Process user
"#;
    let mut input = content.trim();
    let front = front_matter(input);
    let program = parse_ais(&mut input, front.as_ref()).expect("Failed to parse");

    if let Declaration::Flow(flow) = &program.declarations[0] {
        assert_eq!(flow.params[0].ty, Some(Type::Custom("UserProfile".to_string())));
        assert_eq!(flow.return_ty, None);
    }
}

#[test]
fn has_several_outputs_give_complex_output() {
    let content = "---\nout:\n  - key: a\n    type: int\n  - key: b\n    type: str\n---\n  first  \n\n\n second\n";
    let mut input = content;
    let front = front_matter(input);
    let program = parse_ais(&mut input, front.as_ref()).unwrap();
    assert_eq!(input, "");
    if let Declaration::Flow(flow) = &program.declarations[0] {
        assert!(flow.params.is_empty());
        assert_eq!(flow.return_ty, Some(Type::Custom("ComplexOutput".to_string())));
        match &flow.implementation {
            Implementation::Inline(lines) => assert_eq!(lines, &vec!["first".to_string(), "second".to_string()]),
            _ => panic!("expected inline lines"),
        }
    } else {
        panic!("Expected flow");
    }
}

#[test]
fn has_split_frames_front_matter_and_body() {
    let (front, body) = split_has("  \n---\nin: []\n---\nrest\n").unwrap();
    assert_eq!(front, "\nin: []\n");
    assert_eq!(body, "\nrest\n");
}

#[test]
fn has_split_without_opening_dashes_is_mismatch() {
    assert_eq!(split_has("in: []\n---\nbody").unwrap_err(), ParseError::Mismatch);
}

#[test]
fn has_split_without_closing_dashes_is_mismatch() {
    assert_eq!(split_has("---\nin: []\nbody").unwrap_err(), ParseError::Mismatch);
}

#[test]
fn type_names_are_read_case_insensitively() {
    assert_eq!(parse_type_from_str("STRING"), Type::Str);
    assert_eq!(parse_type_from_str("Boolean"), Type::Bool);
    assert_eq!(parse_type_from_str("Int"), Type::I32);
    assert_eq!(parse_type_from_str("i32"), Type::I32);
    assert_eq!(parse_type_from_str("F32"), Type::F32);
    assert_eq!(parse_type_from_str("Void"), Type::Void);
    assert_eq!(parse_type_from_str("Order"), Type::Custom("Order".to_string()));
}

fn flow_of(d: &Declaration) -> &huii::parser::ast::Flow {
    match d {
        Declaration::Flow(f) => f,
        _ => panic!("expected a flow"),
    }
}

fn inline_lines(f: &huii::parser::ast::Flow) -> Vec<String> {
    match &f.implementation {
        Implementation::Inline(lines) => lines.clone(),
        _ => panic!("expected inline lines"),
    }
}

#[test]
fn ais_top_level_intents_form_implicit_flow() {
    let mut input = "// a comment\n- print \"hi\"\n- return 1\n";
    let program = parse_ais(&mut input, None).unwrap();
    assert_eq!(program.declarations.len(), 1);
    let f = flow_of(&program.declarations[0]);
    assert_eq!(f.name, "implicit_flow");
    assert!(f.params.is_empty());
    assert_eq!(f.return_ty, None);
    assert_eq!(inline_lines(f), vec!["print \"hi\"".to_string(), "return 1".to_string()]);
    assert_eq!(input, "\n");
}

#[test]
fn ais_func_block_is_main_flow_after_imports_and_flows() {
    let mut input = "import \"lib.hbp\"\nflow helper(x):\n  - double x\nfunc(a, b):\n  - add a and b\n- ignored top level\n";
    let program = parse_ais(&mut input, None).unwrap();
    assert_eq!(program.declarations.len(), 3);
    match &program.declarations[0] {
        Declaration::Import(p) => assert_eq!(p, "lib.hbp"),
        _ => panic!("expected an import"),
    }
    let helper = flow_of(&program.declarations[1]);
    assert_eq!(helper.name, "helper");
    assert_eq!(inline_lines(helper), vec!["double x".to_string()]);
    let main = flow_of(&program.declarations[2]);
    assert_eq!(main.name, "implicit_flow");
    // a block's intent lines run on over the following `- ` lines
    assert_eq!(inline_lines(main), vec!["add a and b".to_string(), "ignored top level".to_string()]);
}

#[test]
fn ais_imports_only_give_no_implicit_flow() {
    let mut input = "import \"a.hbp\"\n";
    let program = parse_ais(&mut input, None).unwrap();
    assert_eq!(program.declarations.len(), 1);
    assert!(matches!(&program.declarations[0], Declaration::Import(_)));
}

#[test]
fn ais_empty_script_gives_empty_implicit_flow() {
    let mut input = "   ";
    let program = parse_ais(&mut input, None).unwrap();
    assert_eq!(program.declarations.len(), 1);
    let f = flow_of(&program.declarations[0]);
    assert_eq!(f.name, "implicit_flow");
    assert!(inline_lines(f).is_empty());
    assert_eq!(input, "");
}

#[test]
fn ais_unreadable_rest_stays_in_input() {
    let mut input = "- first\nnot an item\n";
    let program = parse_ais(&mut input, None).unwrap();
    assert_eq!(inline_lines(flow_of(&program.declarations[0])), vec!["first".to_string()]);
    assert_eq!(input, "\nnot an item\n");
}

#[test]
fn ais_test_attribute_and_impl_blocks_are_flows() {
    let mut input = "@test flow check:\n  - verify it\n@impl worker (n)\n  - work\n";
    let program = parse_ais(&mut input, None).unwrap();
    assert_eq!(program.declarations.len(), 2);
    assert_eq!(flow_of(&program.declarations[0]).name, "check");
    assert_eq!(flow_of(&program.declarations[1]).name, "worker");
    assert_eq!(inline_lines(flow_of(&program.declarations[1])), vec!["work".to_string()]);
}

#[test]
fn bp_reads_imports_schemas_and_flows() {
    let mut input = "\nimport \"std\"\nschema User { name: str age: i32 }\nflow greet() -> bool {}\n";
    let program = parse_program(&mut input).unwrap();
    assert_eq!(program.declarations.len(), 3);
    match &program.declarations[0] {
        Declaration::Import(p) => assert_eq!(p, "std"),
        _ => panic!("expected an import"),
    }
    match &program.declarations[1] {
        Declaration::Schema(s) => {
            assert_eq!(s.name, "User");
            assert_eq!(s.fields.len(), 2);
            assert_eq!(s.fields[0].name, "name");
            assert_eq!(s.fields[0].ty, Type::Str);
            assert_eq!(s.fields[1].name, "age");
            assert_eq!(s.fields[1].ty, Type::I32);
        },
        _ => panic!("expected a schema"),
    }
    let f = flow_of(&program.declarations[2]);
    assert_eq!(f.name, "greet");
    assert!(f.params.is_empty());
    assert_eq!(f.return_ty, Some(Type::Bool));
    assert!(matches!(f.implementation, Implementation::Empty));
    assert_eq!(input, "");
}

#[test]
fn bp_schema_fields_with_commas_and_custom_types() {
    let mut input = "schema Order {id: i32, buyer: User ,\n paid: bool }";
    let program = parse_program(&mut input).unwrap();
    match &program.declarations[0] {
        Declaration::Schema(s) => {
            assert_eq!(s.fields.len(), 3);
            assert_eq!(s.fields[1].ty, Type::Custom("User".to_string()));
            assert_eq!(s.fields[2].ty, Type::Bool);
        },
        _ => panic!("expected a schema"),
    }
}

#[test]
fn bp_param_before_closing_paren_stops_with_no_progress() {
    let mut input = "flow f(a: i32) {}";
    assert_eq!(parse_program(&mut input).unwrap_err(), ParseError::NoProgress);
    assert_eq!(input, "flow f(a: i32) {}");
}

#[test]
fn bp_element_directly_before_closing_bracket_stops_with_no_progress() {
    let mut input = "schema P { x: i32}";
    assert_eq!(parse_program(&mut input).unwrap_err(), ParseError::NoProgress);
    assert_eq!(input, "schema P { x: i32}");
}

#[test]
fn bp_trailing_separator_leaves_declaration_unread() {
    let mut input = "flow f(a, ) {}";
    let program = parse_program(&mut input).unwrap();
    assert!(program.declarations.is_empty());
    assert_eq!(input, "flow f(a, ) {}");
}

#[test]
fn bp_unreadable_text_is_left_in_input() {
    let mut input = "import \"a\"  garbage";
    let program = parse_program(&mut input).unwrap();
    assert_eq!(program.declarations.len(), 1);
    assert_eq!(input, "garbage");
}

#[test]
fn ais_front_matter_without_its_reading_is_mismatch() {
    let mut input = "---\nin: []\n---\nbody\n";
    assert_eq!(parse_ais(&mut input, None).unwrap_err(), ParseError::Mismatch);
    assert_eq!(input, "---\nin: []\n---\nbody\n");
}

#[test]
fn ais_front_matter_reading_is_ignored_without_a_block() {
    let fm = FrontMatter { inputs: vec![IOField { key: "x".to_string(), ty: "int".to_string() }], outputs: vec![] };
    let mut input = "- say hi\n";
    let program = parse_ais(&mut input, Some(&fm)).unwrap();
    let f = flow_of(&program.declarations[0]);
    assert!(f.params.is_empty());
    assert_eq!(inline_lines(f), vec!["say hi".to_string()]);
}

#[test]
fn has_program_from_front_matter_and_body() {
    let fm = FrontMatter { inputs: vec![IOField { key: "n".to_string(), ty: "f32".to_string() }], outputs: vec![] };
    let program = build_has_program(&fm, "\n  go \n");
    let f = flow_of(&program.declarations[0]);
    assert_eq!(f.params[0].ty, Some(Type::F32));
    assert_eq!(inline_lines(f), vec!["go".to_string()]);
}

#[test]
fn bp_enum_after_other_declarations() {
    let mut input = "import \"x\"\nenum Color { Red Green, Rgb(i32, i32, i32) }\n";
    let program = parse_program(&mut input).unwrap();
    assert_eq!(program.declarations.len(), 2);
    match &program.declarations[1] {
        Declaration::Enum(e) => {
            assert_eq!(e.name, "Color");
            assert_eq!(e.variants.len(), 3);
            match &e.variants[2] {
                Variant::Tuple(n, ts) => {
                    assert_eq!(n, "Rgb");
                    assert_eq!(ts, &vec![Type::I32, Type::I32, Type::I32]);
                },
                _ => panic!("expected a tuple variant"),
            }
        },
        _ => panic!("expected an enum"),
    }
    assert_eq!(input, "");
}

#[test]
fn bp_enum_without_closing_brace_is_not_read() {
    let mut input = "enum Open { A, B";
    let program = parse_program(&mut input).unwrap();
    assert!(program.declarations.is_empty());
    assert_eq!(input, "enum Open { A, B");
}
