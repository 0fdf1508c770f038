use xtask::discovery::{discover, extract, is_selected, rust_attribute, MarkdownFile};

#[test]
fn discovery_preserves_source_lines_and_excludes_nested_examples() {
    let source = "heading\n```sh\necho hello\n```\n````markdown\n```rust\nnot real Rust\n```\n````\n~~~rust,no_run\nlet value = 42;\n~~~\n```rust,test_harness\n#[test]\nfn works() { assert!(true); }\n```\n";
    let (markdown, snippets) = extract(source).unwrap();
    assert_eq!(
        snippets
            .iter()
            .map(|snippet| snippet.line)
            .collect::<Vec<_>>(),
        [10, 13]
    );
    assert_eq!(markdown.lines().count(), source.lines().count());
    assert!(!markdown.contains("not real Rust"));
    assert_eq!(markdown.lines().nth(10), Some("let value = 42;"));
    assert_eq!(markdown.lines().nth(13), Some("#[test]"));
}

#[test]
fn discovers_fences_in_lists_and_quotes_without_executing_inline_code() {
    let source = "`let x = 1;`\n\n> ```rust\n> assert_eq!(1, 1);\n> ```\n\n- Example:\n\n  ~~~rust\n  assert!(true);\n  ~~~\n";
    let (markdown, snippets) = extract(source).unwrap();
    assert_eq!(
        snippets
            .iter()
            .map(|snippet| snippet.line)
            .collect::<Vec<_>>(),
        [3, 9]
    );
    assert_eq!(markdown.lines().nth(3), Some("assert_eq!(1, 1);"));
    assert_eq!(markdown.lines().nth(9), Some("assert!(true);"));
}

#[test]
fn invalid_fences_cannot_silently_drop_checks() {
    for source in ["```rust,no_rnu\nloop {}\n```\n", "```rust,ignore\n?\n```\n"] {
        assert!(extract(source).is_err(), "{source}");
    }
    let (_, snippets) =
        extract("```rust,ignore (requires a proc-macro crate)\n?\n```\n").unwrap();
    assert!(snippets[0].ignored);
}

#[test]
fn fence_errors_name_the_line() {
    let unsupported = extract("text\n\n```rust,no_rnu\nloop {}\n```\n").unwrap_err();
    assert_eq!(unsupported.message(), "line 3: unsupported Rust fence attribute `no_rnu`");
    let missing = extract("```rust,ignore ( )\n?\n```\n").unwrap_err();
    assert!(extract("```rust,ignore (unclosed\n?\n```\n").is_err());
    assert!(extract("```rust (fine),no_run\n1;\n```\n").is_ok());
    assert_eq!(missing.message(), "line 1: ignore requires a reason in parentheses");
}

#[test]
fn snippets_keep_info_attributes_and_code() {
    let (markdown, snippets) = extract("```rust (an external service),ignore\nmissing::call();\n```\n").unwrap();
    assert_eq!(snippets.len(), 1);
    assert_eq!(snippets[0].info, "rust (an external service),ignore");
    assert_eq!(snippets[0].attributes, vec!["rust".to_owned(), "ignore".to_owned()]);
    assert_eq!(snippets[0].code, "missing::call();\n");
    assert!(snippets[0].ignored);
    assert_eq!(markdown, "```rust (an external service),ignore\nmissing::call();\n```\n");
}

#[test]
fn fences_grow_past_backticks_in_the_code() {
    let (markdown, _) = extract("````rust\nlet s = \"```\";\n````\n").unwrap();
    assert_eq!(markdown, "````rust\nlet s = \"```\";\n````\n");
}

#[test]
fn non_rust_fences_are_not_snippets() {
    let (markdown, snippets) = extract("```\nplain\n```\n```text\nrust\n```\n").unwrap();
    assert!(snippets.is_empty());
    assert!(markdown.is_empty());
    assert!(rust_attribute("edition2024"));
    assert!(!rust_attribute("Rust"));
}

#[test]
fn selects_markdown_files_by_extension_and_filter() {
    assert!(is_selected("rust-test/SKILL.md", None));
    assert!(!is_selected("rust-test/notes.txt", None));
    assert!(!is_selected("rust-test/.md", None));
    assert!(is_selected("rust-test\\selected.md", Some("rust-test/sel")));
    assert!(!is_selected("rust-test/also-included.md", Some("selected")));
}

#[test]
fn discover_keeps_documents_with_snippets() {
    let files = vec![
        MarkdownFile { path: "a/none.md".to_owned(), source: "no code".to_owned() },
        MarkdownFile { path: "a/one.md".to_owned(), source: "```rust\nlet x = 1;\n```\n".to_owned() },
        MarkdownFile { path: "a/skip.txt".to_owned(), source: "```rust,bad\n```\n".to_owned() },
    ];
    let documents = discover(&files, None).unwrap();
    assert_eq!(documents.len(), 1);
    assert_eq!(documents[0].path, "a/one.md");
    assert_eq!(documents[0].snippets[0].line, 1);

    let bad = vec![MarkdownFile { path: "a/bad.md".to_owned(), source: "```rust,bad\n```\n".to_owned() }];
    let error = discover(&bad, None).unwrap_err();
    assert_eq!(error.path, "a/bad.md");
}

#[test]
fn filtering_keeps_the_matching_documents_in_order() {
    let files = vec![
        MarkdownFile { path: "rust-test/selected.md".to_owned(), source: "```rust\n1;\n```\n".to_owned() },
        MarkdownFile { path: "rust-test/also-included.md".to_owned(), source: "```rust\n2;\n```\n".to_owned() },
        MarkdownFile { path: "other/selected-too.md".to_owned(), source: "```rust\n3;\n```\n".to_owned() },
    ];
    let all = discover(&files, None).unwrap();
    let filtered = discover(&files, Some("selected")).unwrap();
    let paths = |docs: &[xtask::discovery::Document]| docs.iter().map(|d| d.path.clone()).collect::<Vec<_>>();
    assert_eq!(paths(&filtered), vec!["rust-test/selected.md", "other/selected-too.md"]);
    assert_eq!(
        paths(&filtered),
        paths(&all).into_iter().filter(|p| p.contains("selected")).collect::<Vec<_>>()
    );
    assert_eq!(paths(&discover(&files, Some("")).unwrap()), paths(&all));
}
