use huii::ai::grammar::RUST_GBNF;
use huii::cli::commands::{
    attempt_code, cached_code, choose_model, classify_extension, code_origin, extract_rust_code,
    fill_body, lock_action, lock_update, prompt_plan, request_for, run_start, CheckOutcome,
    CodeOrigin, LockAction, LockUpdate, LoopStep, PromptPlan, RetryLoop, RunStart, SourceKind,
    MAX_ATTEMPTS,
};
use huii::context::builder::Context;
use huii::parser::ast::{Declaration, Flow, Implementation, Param, Program, Type};
use huii::lock::manager::LockData;

fn lock(hash: &str, code: &str) -> LockData {
    LockData {
        source_hash: hash.to_string(),
        generated_code: code.to_string(),
        verified_at: "2024-01-01T00:00:00+00:00".to_string(),
        passed_tests: vec![],
    }
}

#[test]
fn extensions_pick_the_front_end() {
    assert_eq!(classify_extension(Some("hbp")), SourceKind::Blueprint);
    assert_eq!(classify_extension(Some("has")), SourceKind::AgentScript);
    assert_eq!(classify_extension(Some("rs")), SourceKind::Unsupported);
    assert_eq!(classify_extension(Some("HAS")), SourceKind::Unsupported);
    assert_eq!(classify_extension(None), SourceKind::Unsupported);
}

#[test]
fn model_choice_order() {
    assert_eq!(choose_model(Some("m1".to_string()), Some("env".to_string())), "m1");
    assert_eq!(choose_model(None, Some("env".to_string())), "env");
    assert_eq!(choose_model(None, None), "codellama:7b");
}

#[test]
fn lock_record_is_reused_only_for_same_hash_without_force() {
    assert_eq!(cached_code(false, Some(lock("h1", "code")), "h1"), Some("code".to_string()));
    assert_eq!(cached_code(false, Some(lock("h1", "code")), "h2"), None);
    assert_eq!(cached_code(true, Some(lock("h1", "code")), "h1"), None);
    assert_eq!(cached_code(false, None, "h1"), None);
}

#[test]
fn lock_actions_follow_the_final_check() {
    assert_eq!(lock_action(&CheckOutcome::Compiled), LockAction::Save);
    assert_eq!(lock_action(&CheckOutcome::Rejected("error".to_string())), LockAction::Remove);
    assert_eq!(lock_action(&CheckOutcome::ToolFailed), LockAction::Keep);
}

#[test]
fn extract_code_from_fenced_block() {
    let text = "Here you go:\n```rust\nfn main() {\n    println!(\"hi\");\n}\n```\nEnjoy!";
    assert_eq!(extract_rust_code(text), "fn main() {\n    println!(\"hi\");\n}");
}

#[test]
fn extract_code_without_fence_is_trimmed_text() {
    assert_eq!(extract_rust_code("  \n let x = 1; \n"), "let x = 1;");
}

#[test]
fn extract_code_from_unclosed_fence() {
    assert_eq!(extract_rust_code("```rust\nlet a = 1;\n"), "let a = 1;");
}

#[test]
fn extract_code_fence_without_newline() {
    assert_eq!(extract_rust_code("```fn x()```"), "fn x()");
}

#[test]
fn extract_code_twice_changes_nothing() {
    let text = "intro ```rust\n a ``` tail ```";
    let once = extract_rust_code(text);
    assert_eq!(once, "a");
    assert_eq!(extract_rust_code(once), once);
}

#[test]
fn fill_body_replaces_every_placeholder() {
    assert_eq!(fill_body("fn f() {\n{BODY}\n}\n", "x + 1"), "fn f() {\nx + 1\n}\n");
    assert_eq!(fill_body("{BODY}-{BODY}", "ab"), "ab-ab");
    assert_eq!(fill_body("no placeholder", "ab"), "no placeholder");
    assert_eq!(fill_body("{BODY}", "{BODY}"), "{BODY}");
}

#[test]
fn prompt_plan_per_attempt() {
    assert_eq!(prompt_plan(0, true), PromptPlan::BodyOnly);
    assert_eq!(prompt_plan(0, false), PromptPlan::FullFile);
    assert_eq!(prompt_plan(1, true), PromptPlan::FullFile);
    assert_eq!(prompt_plan(2, true), PromptPlan::Correction);
}

#[test]
fn retry_loop_accepts_compiled_code() {
    let mut l = RetryLoop::new();
    assert_eq!(l.attempt(), 0);
    assert_eq!(l.last_error(), "Unknown error");
    l.record_code("fn main() {}".to_string());
    assert_eq!(l.after_check(CheckOutcome::Compiled), LoopStep::Accept);
    assert_eq!(l.best_code(), "fn main() {}");
    assert_eq!(l.attempt(), 0);
}

#[test]
fn retry_loop_gives_up_on_repeated_error() {
    let mut l = RetryLoop::new();
    assert_eq!(l.after_check(CheckOutcome::Rejected("e1".to_string())), LoopStep::Retry);
    assert_eq!(l.attempt(), 1);
    assert_eq!(l.last_error(), "e1");
    assert_eq!(l.after_check(CheckOutcome::Rejected("e1".to_string())), LoopStep::GiveUp);
    assert_eq!(l.attempt(), 1);
}

#[test]
fn retry_loop_stops_after_max_attempts() {
    let mut l = RetryLoop::new();
    assert_eq!(l.after_check(CheckOutcome::Rejected("e1".to_string())), LoopStep::Retry);
    assert_eq!(l.after_check(CheckOutcome::Rejected("e2".to_string())), LoopStep::Retry);
    assert_eq!(l.last_error(), "e2");
    assert_eq!(l.after_check(CheckOutcome::Rejected("e3".to_string())), LoopStep::GiveUp);
    assert_eq!(l.attempt(), MAX_ATTEMPTS);
}

#[test]
fn retry_loop_gives_up_when_compiler_cannot_run() {
    let mut l = RetryLoop::new();
    assert_eq!(l.after_check(CheckOutcome::ToolFailed), LoopStep::GiveUp);
    assert_eq!(l.attempt(), 0);
}

fn add_ctx() -> huii::context::builder::Context {
    let program = Program {
        declarations: vec![Declaration::Flow(Flow {
            name: "implicit_flow".to_string(),
            params: vec![
                Param { name: "a".to_string(), ty: Some(Type::I32) },
                Param { name: "b".to_string(), ty: Some(Type::I32) },
            ],
            return_ty: Some(Type::I32),
            implementation: Implementation::Inline(vec!["combine a and b".to_string()]),
        })],
    };
    let mut ctx = huii::context::builder::Context::new();
    ctx.register_program(&program, Some("calc"));
    ctx
}

#[test]
fn first_request_is_body_only_without_grammar() {
    let ctx = add_ctx();
    let lp = RetryLoop::new();
    let req = request_for(&ctx, "calc", &lp).unwrap();
    let (p, w) = ctx.generate_body_only_prompt("calc").unwrap();
    assert_eq!(req.prompt, p);
    assert_eq!(req.wrapper, Some(w));
    assert_eq!(req.grammar, None);
    assert_eq!(req.failure, "LLM Generation failed");
}

#[test]
fn second_request_is_full_prompt_with_grammar_and_third_a_correction() {
    let ctx = add_ctx();
    let mut lp = RetryLoop::new();
    lp.record_code("fn main() { x }".to_string());
    assert_eq!(lp.after_check(CheckOutcome::Rejected("error: x".to_string())), LoopStep::Retry);
    let req = request_for(&ctx, "calc", &lp).unwrap();
    assert_eq!(req.prompt, ctx.generate_ai_prompt("calc", true).unwrap());
    assert_eq!(req.grammar, Some(RUST_GBNF));
    assert_eq!(req.wrapper, None);
    lp.record_code("fn main() { y }".to_string());
    assert_eq!(lp.after_check(CheckOutcome::Rejected("error: y".to_string())), LoopStep::Retry);
    let req = request_for(&ctx, "calc", &lp).unwrap();
    assert_eq!(req.prompt, Context::build_correction_prompt("fn main() { y }", "error: y"));
    assert_eq!(req.grammar, Some(RUST_GBNF));
    assert_eq!(req.failure, "LLM Correction failed");
}

#[test]
fn no_request_for_unknown_flow() {
    let ctx = add_ctx();
    assert!(request_for(&ctx, "missing", &RetryLoop::new()).is_none());
}

#[test]
fn answers_become_attempt_code() {
    let ctx = add_ctx();
    let mut lp = RetryLoop::new();
    let req = request_for(&ctx, "calc", &lp).unwrap();
    let answer = "Sure:\n```rust\na * b\n```";
    assert_eq!(attempt_code(&req, answer), fill_body(req.wrapper.as_ref().unwrap(), "a * b"));
    assert!(lp.take_reply(&req, Ok(answer.to_string())).is_ok());
    assert!(lp.best_code().starts_with("fn calc(a: i32, b: i32) -> i32 {\na * b\n}"));
    let err = lp.take_reply(&req, Err("connection refused".to_string())).unwrap_err();
    assert_eq!(err, "LLM Generation failed: connection refused");
    assert!(lp.best_code().starts_with("fn calc(a: i32, b: i32) -> i32 {\na * b\n}"));
}

#[test]
fn run_start_reuses_matching_record() {
    match run_start(false, Some(lock("h", "fn main() {}")), "h") {
        RunStart::Reuse(c) => assert_eq!(c, "fn main() {}"),
        RunStart::Generate => panic!("expected reuse"),
    }
    assert!(matches!(run_start(true, Some(lock("h", "c")), "h"), RunStart::Generate));
    assert!(matches!(run_start(false, Some(lock("h", "c")), "other"), RunStart::Generate));
}

#[test]
fn template_is_tried_before_the_model() {
    let mut ctx = add_ctx();
    assert!(matches!(code_origin(&ctx, "calc"), CodeOrigin::Model));
    assert!(matches!(code_origin(&ctx, "missing"), CodeOrigin::Model));
    let program = Program {
        declarations: vec![Declaration::Flow(Flow {
            name: "hello".to_string(),
            params: vec![],
            return_ty: None,
            implementation: Implementation::Inline(vec!["print \"hi\"".to_string()]),
        })],
    };
    ctx.register_program(&program, None);
    match code_origin(&ctx, "hello") {
        CodeOrigin::Template(c) => assert!(c.contains("println!(\"hi\")")),
        CodeOrigin::Model => panic!("expected the template"),
    }
}

#[test]
fn lock_updates_after_final_check() {
    match lock_update(&CheckOutcome::Compiled, "h1".to_string(), "code".to_string(), "t".to_string()) {
        LockUpdate::Save(d) => {
            assert_eq!(d.source_hash, "h1");
            assert_eq!(d.generated_code, "code");
            assert_eq!(d.verified_at, "t");
            assert!(d.passed_tests.is_empty());
        },
        _ => panic!("expected a record to save"),
    }
    assert!(matches!(
        lock_update(&CheckOutcome::Rejected("e".to_string()), "h".to_string(), "c".to_string(), "t".to_string()),
        LockUpdate::Remove
    ));
    assert!(matches!(
        lock_update(&CheckOutcome::ToolFailed, "h".to_string(), "c".to_string(), "t".to_string()),
        LockUpdate::Keep
    ));
}
