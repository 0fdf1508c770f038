use xtask::discovery::{Document, MarkdownFile, discover};
use xtask::render::{plan_skill_crate, render_document, render_snippet, render_targets};
use xtask::runner::Setup;

fn document(source: &str) -> Document {
    let files = vec![MarkdownFile { path: "example/SKILL.md".to_owned(), source: source.to_owned() }];
    discover(&files, None).unwrap().remove(0)
}

#[test]
fn statements_run_as_a_test_and_items_stay() {
    let doc = document("```rust\nfn answer() -> u32 { 42 }\nassert_eq!(answer(), 42);\n```\n");
    let parts = render_snippet(&doc.snippets[0]).unwrap();
    assert_eq!(parts.line, 1);
    assert_eq!(parts.attributes, "");
    assert!(parts.items.contains("fn answer () -> u32 { 42 }"));
    assert!(parts.statements.as_deref().unwrap().contains("assert_eq !"));
    assert!(!parts.no_run);
    assert!(!parts.runs_main);

    let rendered = render_document(&doc, &vec![0]).unwrap();
    assert!(rendered.contains("mod snippet_line_1 {"));
    assert!(rendered.contains("fn answer () -> u32"));
    assert!(rendered.contains("#[test] fn run() -> impl ::std::process::Termination {"));
    assert!(syn::parse_str::<syn::File>(&rendered).is_ok());
}

#[test]
fn a_main_runs_unless_only_compiled() {
    let doc = document("```rust\nfn main() {}\n```\n```rust,no_run\nfn main() {}\n```\n");
    assert!(render_snippet(&doc.snippets[0]).unwrap().runs_main);
    assert!(!render_snippet(&doc.snippets[1]).unwrap().runs_main);
}

#[test]
fn only_compiled_snippets_lose_their_test_attributes() {
    let doc = document(
        "```rust,no_run\n#[test]\nfn external_fixture_is_not_run() { panic!(\"missing fixture\"); }\nmod inner {\n    #[test]\n    #[should_panic]\n    #[inline]\n    fn nested() {}\n}\n```\n",
    );
    let parts = render_snippet(&doc.snippets[0]).unwrap();
    assert!(parts.no_run);
    assert!(!parts.items.contains("test"));
    assert!(!parts.items.contains("should_panic"));
    assert!(parts.items.contains("# [inline]"));
    let rendered = render_document(&doc, &vec![0]).unwrap();
    assert!(!rendered.contains("# [test]"));
    assert!(rendered.contains("fn external_fixture_is_not_run ()"));

    let run = document("```rust\n#[test]\nfn kept() {}\n```\n");
    assert!(render_snippet(&run.snippets[0]).unwrap().items.contains("# [test]"));
}

#[test]
fn files_keep_their_inner_attributes() {
    let doc = document("```rust\n#![allow(unused)]\nfn main() {}\n```\n");
    let parts = render_snippet(&doc.snippets[0]).unwrap();
    assert!(parts.attributes.contains("# ! [allow (unused)]"));
    assert!(parts.statements.is_none());
    assert!(parts.runs_main);
}

#[test]
fn unparsable_snippets_name_their_path_and_line() {
    let doc = document("text\n```rust\nfn main() {}\n```\n```rust\nfn broken( {\n```\n");
    assert!(render_snippet(&doc.snippets[1]).is_none());
    let error = render_document(&doc, &vec![0, 1]).unwrap_err();
    assert_eq!(error.message(), "failed to parse example/SKILL.md:5");
    assert!(render_document(&doc, &vec![0]).is_ok());
}

#[test]
fn hidden_lines_are_rendered() {
    let doc = document("```rust\n# fn helper() -> u8 { 7 }\nassert_eq!(helper(), 7);\n```\n");
    let parts = render_snippet(&doc.snippets[0]).unwrap();
    assert!(parts.items.contains("fn helper () -> u8 { 7 }"));
}

#[test]
fn functions_without_bodies_render_without_stopping() {
    let doc = document("```rust\nfn f();\n```\n");
    let rendered = render_document(&doc, &vec![0]).unwrap();
    assert!(rendered.contains("fn f ()"));
}

#[test]
fn targets_follow_the_shared_snippets_of_each_document() {
    let files = vec![
        MarkdownFile { path: "example/SKILL.md".to_owned(), source: "```rust\nassert_eq!(2 + 2, 4);\n```\n".to_owned() },
        MarkdownFile { path: "example/only.md".to_owned(), source: "```rust,compile_fail\nlet x: u8 = 256;\n```\n".to_owned() },
    ];
    let docs = discover(&files, None).unwrap();
    let targets = render_targets(&docs, &vec![0, 1]).unwrap();
    assert_eq!(targets[0].as_deref(), Some(render_document(&docs[0], &vec![0]).unwrap().as_str()));
    assert!(targets[1].is_none());

    let setup = Setup { rust_version: "1.98".to_owned(), cargo: String::new() };
    let planned = plan_skill_crate("example", &setup, "", &docs, &vec![0, 1]).unwrap();
    let paths = planned.iter().map(|f| f.path.as_str()).collect::<Vec<_>>();
    assert_eq!(paths, vec!["tests/document_0_skill.rs", "src/lib.rs", "Cargo.toml"]);
    assert_eq!(Some(planned[0].contents.as_str()), targets[0].as_deref());
    assert_eq!(planned[2].contents.matches("[[test]]").count(), 1);

    let broken = document("```rust\nfn broken( {\n```\n");
    let error = render_targets(&vec![broken], &vec![0]).unwrap_err();
    assert_eq!(error.message(), "failed to parse example/SKILL.md:1");
}
