use xtask::discovery::{discover, MarkdownFile};
use xtask::runner::{
    aggregate, cargo_arguments, nest_modules, prepare, selected_skills, skill, skill_documents, target_name,
    unhide, validate, Setup, SnippetParts,
};
use xtask::setup::{load_setup, load_workspace_lints};

#[test]
fn hidden_lines_are_compiled_and_hash_escapes_are_preserved() {
    assert_eq!(
        unhide("# let value = 42;\n##[test]\n#\n"),
        "let value = 42;\n#[test]\n\n"
    );
}

#[test]
fn unhide_keeps_ordinary_lines() {
    assert_eq!(unhide("fn main() {}\n#"), "fn main() {}\n");
    assert_eq!(unhide("#[derive(Debug)]\nstruct S;"), "#[derive(Debug)]\nstruct S;");
    assert_eq!(unhide(""), "");
}

#[test]
fn skills_are_first_path_components() {
    assert_eq!(skill("rust-test/SKILL.md").unwrap(), "rust-test");
    assert_eq!(skill("rust-test/references/guide.md").unwrap(), "rust-test");
    assert_eq!(
        skill("SKILL.md").unwrap_err().message(),
        "snippet documents must be inside a skill directory: SKILL.md"
    );
    assert_eq!(skill("").unwrap_err().message(), "document needs a skill");
}

#[test]
fn target_names_come_from_file_stems() {
    assert_eq!(target_name(0, "example/SKILL.md").unwrap(), "document_0_skill");
    assert_eq!(target_name(1, "example/references/guide.md").unwrap(), "document_1_guide");
    assert_eq!(target_name(12, "x/also-included.md").unwrap(), "document_12_also_included");
    assert_eq!(target_name(3, "x/.hidden").unwrap(), "document_3__hidden");
    assert_eq!(target_name(4, "x/Über.v2.md").unwrap(), "document_4__ber_v2");
    assert!(target_name(0, "x/..").is_err());
}

fn documents(files: &[(&str, &str)]) -> Vec<xtask::discovery::Document> {
    let files = files
        .iter()
        .map(|(path, source)| MarkdownFile { path: (*path).to_owned(), source: (*source).to_owned() })
        .collect::<Vec<_>>();
    discover(&files, None).unwrap()
}

#[test]
fn aggregate_leaves_out_ignored_and_standalone_snippets() {
    let docs = documents(&[(
        "s/a.md",
        "```rust\na();\n```\n```rust,should_panic\npanic!();\n```\n```rust,ignore (why)\nb();\n```\n```rust,no_run\nc();\n```\n",
    )]);
    let flags = docs[0].snippets.iter().map(aggregate).collect::<Vec<_>>();
    assert_eq!(flags, vec![true, false, false, true]);
}

#[test]
fn validation_runs_clippy_then_tests_then_doctests() {
    assert_eq!(
        validate(0).unwrap(),
        vec!["clippy", "--all-targets", "--all-features", "--", "-D", "warnings"]
    );
    assert_eq!(validate(1).unwrap(), vec!["test", "--tests", "--all-features"]);
    assert_eq!(validate(2).unwrap(), vec!["test", "--doc", "--all-features"]);
    assert!(validate(3).is_none());
    let args = cargo_arguments(&validate(1).unwrap(), "out/rust-test/Cargo.toml");
    assert_eq!(
        args,
        vec!["test", "--manifest-path", "out/rust-test/Cargo.toml", "--tests", "--all-features"]
    );
}

#[test]
fn skills_are_collected_once_and_sorted() {
    let docs = documents(&[
        ("zeta/a.md", "```rust\n1;\n```\n"),
        ("alpha/b.md", "```rust\n2;\n```\n"),
        ("zeta/c.md", "```rust\n3;\n```\n"),
    ]);
    assert_eq!(selected_skills(&docs).unwrap(), vec!["alpha", "zeta"]);
    assert_eq!(skill_documents(&docs, "zeta"), vec![0, 2]);
    assert_eq!(skill_documents(&docs, "zet"), Vec::<usize>::new());
}

#[test]
fn preparation_generates_one_test_target_per_document() {
    let docs = documents(&[
        ("example/SKILL.md", "```rust\nassert_eq!(2 + 2, 4);\n```\n"),
        ("example/references/guide.md", "```rust\nfn answer() -> u32 { 42 }\n```\n"),
    ]);
    let selected = skill_documents(&docs, "example");
    let rendered = vec![Some("// skill\n".to_owned()), Some("// guide\n".to_owned())];
    let setup = Setup { rust_version: "1.98".to_owned(), cargo: String::new() };
    let files = prepare("example", &setup, "", &docs, &selected, &rendered).unwrap();
    let paths = files.iter().map(|f| f.path.as_str()).collect::<Vec<_>>();
    assert_eq!(
        paths,
        vec!["tests/document_0_skill.rs", "tests/document_1_guide.rs", "src/lib.rs", "Cargo.toml"]
    );
    let manifest = &files[3].contents;
    assert_eq!(manifest.matches("[[test]]").count(), 2);
    assert!(manifest.starts_with("[package]\nname = \"example-skill-snippets\"\n"));
    assert!(manifest.contains("rust-version = \"1.98\"\n"));
    assert!(manifest.contains("[[test]]\nname = \"document_1_guide\"\npath = \"tests/document_1_guide.rs\"\n\n"));
    assert_eq!(files[0].contents, "// skill\n");
    assert_eq!(files[2].contents, "");
}

#[test]
fn standalone_snippets_become_doctests() {
    let docs = documents(&[("example/SKILL.md", "text\n```rust,compile_fail\nlet x: u8 = \"no\";\n```\n")]);
    let setup = Setup { rust_version: "1.98".to_owned(), cargo: "[dependencies]\n".to_owned() };
    let files = prepare("example", &setup, "[workspace.lints.rust]\n\n", &docs, &vec![0], &vec![None]).unwrap();
    assert_eq!(files.len(), 2);
    assert_eq!(
        files[0].contents,
        "#[doc = \"```rust,compile_fail\\nlet x: u8 = \\\"no\\\";\\n\\n```\"]\npub mod document_0_line_2 {}\n"
    );
    assert!(files[1].contents.ends_with("[workspace.lints.rust]\n\n[dependencies]\n\n"));
}

#[test]
fn snippet_modules_nest_in_order() {
    let parts = vec![
        SnippetParts {
            line: 1,
            attributes: String::new(),
            items: "fn answer () -> u32 { 42 }".to_owned(),
            statements: None,
            no_run: false,
            runs_main: false,
        },
        SnippetParts {
            line: 5,
            attributes: String::new(),
            items: String::new(),
            statements: Some("assert_eq ! (answer () , 42) ;".to_owned()),
            no_run: false,
            runs_main: false,
        },
    ];
    let source = nest_modules(&parts);
    assert!(source.starts_with("#![allow(dead_code, unused_assignments, unused_attributes, unused_imports, unused_mut, unused_variables)]\nmod snippet_line_1 { "));
    assert!(source.contains("mod snippet_line_5 {  #[allow(unused_imports)] use super::*;  #[test] fn run() -> impl ::std::process::Termination { assert_eq ! (answer () , 42) ; }"));
}

#[test]
fn setups_split_off_the_rust_version() {
    let setup = load_setup("rust-version = \"1.98\"\n[dependencies]\nserde = \"1\"\n").unwrap();
    assert_eq!(setup.rust_version, "1.98");
    assert!(setup.cargo.contains("[dependencies]"));
    assert!(!setup.cargo.contains("rust-version"));
    assert_eq!(load_setup("[dependencies]\n").unwrap_err().message(), "snippet setup needs rust-version");
    assert_eq!(
        load_setup("rust-version = 1\n").unwrap_err().message(),
        "snippet setup rust-version must be a string"
    );
    assert!(load_setup("not = [").is_err());
}

#[test]
fn workspace_lints_are_copied_group_by_group() {
    let lints = load_workspace_lints(
        "[workspace]\nmembers = []\n[workspace.lints.rust]\nunsafe_code = \"forbid\"\n[workspace.lints.clippy]\nall = { level = \"deny\", priority = -1 }\n",
    )
    .unwrap();
    assert_eq!(
        lints,
        "[workspace.lints.clippy]\nall = { level = \"deny\", priority = -1 }\n\n[workspace.lints.rust]\nunsafe_code = \"forbid\"\n\n"
    );
    assert_eq!(
        load_workspace_lints("[package]\nname = \"x\"\n").unwrap_err().message(),
        "workspace manifest needs workspace.lints"
    );
    assert_eq!(
        load_workspace_lints("[workspace.lints]\nrust = 1\n").unwrap_err().message(),
        "workspace lint group rust must be a table"
    );
}

#[test]
fn target_names_differ_by_position() {
    let first = target_name(1, "a/2x.md").unwrap();
    let second = target_name(12, "a/x.md").unwrap();
    assert_eq!(first, "document_1_2x");
    assert_eq!(second, "document_12_x");
    assert_ne!(first, second);
    assert_ne!(target_name(1, "a/same.md").unwrap(), target_name(2, "b/same.md").unwrap());
    assert!(target_name(7, "a/Mixed Case-File.md")
        .unwrap()
        .chars()
        .all(|c| c.is_ascii_lowercase() || c.is_ascii_digit() || c == '_'));
}

#[test]
fn workspace_lints_need_tables_all_the_way_down() {
    for source in ["[workspace]\nmembers = []\n", "workspace = 1\n", "[workspace]\nlints = \"none\"\n"] {
        assert_eq!(
            load_workspace_lints(source).unwrap_err().message(),
            "workspace manifest needs workspace.lints"
        );
    }
    assert_eq!(load_workspace_lints("[workspace.lints]\n").unwrap(), "");
    assert_eq!(load_workspace_lints("not = [").unwrap_err().message(), "invalid workspace manifest");
}

#[test]
fn setups_keep_everything_but_the_rust_version() {
    let setup = load_setup("rust-version = \"1.98\"\n").unwrap();
    assert_eq!(setup.rust_version, "1.98");
    assert_eq!(setup.cargo, "");
    assert_eq!(load_setup("not = [").unwrap_err().message(), "invalid snippet setup");
}
