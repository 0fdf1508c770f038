use xtask::discovery::{discover, MarkdownFile};
use xtask::snippet_check::{plan_snippet_check, CheckOutcome};

fn documents(files: &[(&str, &str)]) -> Vec<xtask::discovery::Document> {
    let files = files
        .iter()
        .map(|(path, source)| MarkdownFile { path: (*path).to_owned(), source: (*source).to_owned() })
        .collect::<Vec<_>>();
    discover(&files, None).unwrap()
}

#[test]
fn deny_ignored_covers_attributes_after_comments() {
    let docs = documents(&[(
        "example.md",
        "```rust (requires an external service),ignore\nmissing_crate::broken();\n```\n",
    )]);
    let listed = plan_snippet_check("/tmp/root", &docs, true, false);
    assert!(matches!(listed.outcome, CheckOutcome::Listed));
    assert!(listed.output.contains("1 ignored"));

    let denied = plan_snippet_check("/tmp/root", &docs, true, true);
    match denied.outcome {
        CheckOutcome::Fail(message) => assert!(message.contains("1 Rust snippets are ignored")),
        other => panic!("expected a failure, got {other:?}"),
    }
}

#[test]
fn listing_names_each_snippet() {
    let docs = documents(&[("a/b.md", "```rust\n1;\n```\n\n```rust,ignore (slow)\n2;\n```\n")]);
    let plan = plan_snippet_check("skills", &docs, false, false);
    assert_eq!(
        plan.output,
        "skills/a/b.md:5: rust,ignore (slow)\nDiscovered 2 Rust snippets in 1 files (1 ignored). Other fence languages are outside this check.\n"
    );
    assert!(matches!(plan.outcome, CheckOutcome::Run));
}

#[test]
fn empty_or_fully_ignored_checks_fail() {
    let none = plan_snippet_check("skills/", &Vec::new(), false, false);
    assert_eq!(none.output, "");
    match none.outcome {
        CheckOutcome::Fail(message) => assert_eq!(message, "no Rust snippets matched in skills/"),
        other => panic!("expected a failure, got {other:?}"),
    }
    let docs = documents(&[("a/b.md", "```rust,ignore (slow)\n2;\n```\n")]);
    match plan_snippet_check("skills/", &docs, false, false).outcome {
        CheckOutcome::Fail(message) => assert_eq!(message, "all discovered Rust snippets are ignored"),
        other => panic!("expected a failure, got {other:?}"),
    }
}
