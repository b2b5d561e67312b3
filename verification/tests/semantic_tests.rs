use huii::compiler::semantic::Verifier;
use huii::lock::manager::LockManager;

#[test]
fn error_lines_keep_three_lines_of_context() {
    let stderr = "warning: unused variable\n  |\nerror[E0308]: mismatched types\n --> src/main.rs:2:5\n  |\n\nerror[E0425]: cannot find value `y`\n --> src/main.rs:3:1\nnote: more\n";
    let cleaned = Verifier::clean_error_message(stderr);
    assert_eq!(
        cleaned,
        "error[E0308]: mismatched types\n --> src/main.rs:2:5\n  |\nerror[E0425]: cannot find value `y`\n --> src/main.rs:3:1\nnote: more"
    );
}

#[test]
fn context_stops_after_three_lines() {
    let stderr = "error: a\nl1\nl2\nl3\nl4\n";
    assert_eq!(Verifier::clean_error_message(stderr), "error: a\nl1\nl2\nl3");
}

#[test]
fn repeated_neighbouring_lines_are_removed() {
    let stderr = "error: same\nerror: same\n";
    assert_eq!(Verifier::clean_error_message(stderr), "error: same");
}

#[test]
fn output_without_errors_gives_empty_message() {
    assert_eq!(Verifier::clean_error_message("warning: x\nnote: y\n"), "");
}

#[test]
fn long_messages_are_cut_to_500_bytes_with_dots() {
    let stderr = format!("error: {}\n", "x".repeat(600));
    let cleaned = Verifier::clean_error_message(&stderr);
    assert_eq!(cleaned.len(), 503);
    assert!(cleaned.ends_with("xxx..."));
    assert!(cleaned.starts_with("error: xxx"));
}

#[test]
fn summary_is_uncut() {
    let stderr = format!("error: {}\n", "x".repeat(600));
    assert_eq!(Verifier::error_summary(&stderr).len(), 607);
}

#[test]
fn hash_of_empty_text() {
    assert_eq!(
        LockManager::compute_hash(""),
        "af1349b9f5f9a1a6a0404dea36dcc9499bcb25c9adc112b7cc9a93cae41f3262"
    );
}

#[test]
fn hash_of_abc() {
    assert_eq!(
        LockManager::compute_hash("abc"),
        "6437b3ac38465133ffb63b75273a8db548c558465d79db03fd359c6cd5bd9d85"
    );
}

#[test]
fn hash_is_64_lowercase_hex_digits_and_depends_on_text() {
    let a = LockManager::compute_hash("flow a");
    let b = LockManager::compute_hash("flow b");
    assert_eq!(a.len(), 64);
    assert!(a.chars().all(|c| c.is_ascii_digit() || ('a'..='f').contains(&c)));
    assert_ne!(a, b);
    assert_eq!(a, LockManager::compute_hash("flow a"));
}
