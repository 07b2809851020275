use mdtangle::block::{parse_info, split_tokens, CodeBlock};
use mdtangle::config::{extension_to_language, Config};
use mdtangle::extract::{blocks_from_events, extract_code_blocks, fence_closed, MdEvent};
use mdtangle::paths::{extension, file_name, file_stem, join_path, with_md_extension};
use mdtangle::registry::LanguageRegistry;
use mdtangle::untangle::{markdown_path, untangle_file, untangled_document, UntangleAction};
use mdtangle::writer::{plan_writes, write_code_blocks, SkipReason, WriteAction};
use std::collections::HashMap;

fn block(language: Option<&str>, content: &str, tangle_path: Option<&str>) -> CodeBlock {
    CodeBlock {
        language: language.map(|s| s.to_string()),
        content: content.to_string(),
        tangle_path: tangle_path.map(|s| s.to_string()),
    }
}

fn config(output_dir: &str) -> Config {
    Config {
        input_glob: String::new(),
        output_dir: output_dir.to_string(),
        verbose: false,
        dry_run: false,
        tangled: false,
        untangle: false,
        by_language: false,
        extension: Vec::new(),
    }
}

fn append(path: &str, content: &str) -> WriteAction {
    WriteAction::Append { path: path.to_string(), content: content.to_string() }
}

/// Carries out the appends of a plan on an in-memory file set.
fn apply(files: &mut HashMap<String, String>, plan: &[WriteAction]) {
    for a in plan {
        if let WriteAction::Append { path, content } = a {
            files.entry(path.clone()).or_default().push_str(content);
        }
    }
}

#[test]
fn rust_and_python_blocks_get_derived_names() {
    let doc = "```rust\nfn main(){}\n```\n\n```python\nprint(1)\n```\n";
    let blocks = extract_code_blocks(doc);
    let plan = plan_writes(&blocks, &LanguageRegistry::defaults(), "out", "demo", false, false, false);
    assert_eq!(plan, vec![append("out/demo.rs", "fn main(){}\n"), append("out/demo.py", "print(1)\n")]);
}

#[test]
fn explicit_target_ignores_base_name() {
    let doc = "```go :tangle out/app.go\npackage main\n```\n";
    let blocks = extract_code_blocks(doc);
    for base in ["demo", "other"] {
        let plan = plan_writes(&blocks, &LanguageRegistry::defaults(), "root", base, false, false, false);
        assert_eq!(plan, vec![append("root/out/app.go", "package main\n")]);
    }
}

#[test]
fn tangled_only_emits_tangled_blocks() {
    let doc = "```rust\na\n```\n\n```rust :tangle xpto/something.rs\nb\n```\n\n```python\nc\n```\n";
    let blocks = extract_code_blocks(doc);
    assert_eq!(blocks.len(), 3);
    let plan = plan_writes(&blocks, &LanguageRegistry::defaults(), "o", "example", false, true, false);
    assert_eq!(
        plan,
        vec![
            WriteAction::Skip { index: 0, reason: SkipReason::NotTangled },
            append("o/xpto/something.rs", "b\n"),
            WriteAction::Skip { index: 2, reason: SkipReason::NotTangled },
        ]
    );
}

#[test]
fn blocks_with_one_target_accumulate() {
    let doc = "```sh :tangle run.sh\necho 1\n```\n\n```sh :tangle run.sh\necho 2\n```\n";
    let blocks = extract_code_blocks(doc);
    let plan = plan_writes(&blocks, &LanguageRegistry::defaults(), "o", "x", false, false, false);
    let mut files = HashMap::new();
    apply(&mut files, &plan);
    assert_eq!(files.len(), 1);
    assert_eq!(files["o/run.sh"], "echo 1\necho 2\n");
}

#[test]
fn dry_run_reports_the_same_paths() {
    let doc = "```rust\nfn a() {}\n```\n\n```\nuntyped\n```\n\n```toml :tangle Cargo.toml\n[package]\n```\n";
    let blocks = extract_code_blocks(doc);
    let reg = LanguageRegistry::defaults();
    let wet = plan_writes(&blocks, &reg, "o", "doc", false, false, false);
    let dry = plan_writes(&blocks, &reg, "o", "doc", false, false, true);
    assert_eq!(
        dry,
        vec![
            WriteAction::Report { path: "o/doc.rs".to_string(), length: 10 },
            WriteAction::Skip { index: 1, reason: SkipReason::NoLanguage },
            WriteAction::Report { path: "o/Cargo.toml".to_string(), length: 10 },
        ]
    );
    assert_eq!(wet.len(), dry.len());
    let mut files = HashMap::new();
    apply(&mut files, &dry);
    assert!(files.is_empty());
}

#[test]
fn untangle_then_tangle_gives_back_the_file() {
    let content = "fn main() {\n    println!(\"hi\");\n}\n";
    let reg = LanguageRegistry::defaults();
    let action = untangle_file("src/demo.rs", content, "md", &reg, false);
    let text = match action {
        UntangleAction::Write { path, text } => {
            assert_eq!(path, "md/src/demo.md");
            text
        }
        other => panic!("unexpected {:?}", other),
    };
    assert_eq!(text, format!("```rust\n{}```\n", content));
    let blocks = extract_code_blocks(&text);
    let plan = plan_writes(&blocks, &reg, "out", "demo", false, false, false);
    assert_eq!(plan, vec![append("out/demo.rs", content)]);
}

#[test]
fn extraction_is_repeatable() {
    let doc = "# T\n\n```c :tangle a.c\nint x;\n```\n\ntext\n\n```lua\nprint(1)\n```\n";
    let a = extract_code_blocks(doc);
    let b = extract_code_blocks(doc);
    assert_eq!(a, b);
    assert_eq!(a, vec![block(Some("c"), "int x;\n", Some("a.c")), block(Some("lua"), "print(1)\n", None)]);
}

#[test]
fn unclosed_fence_is_dropped() {
    assert_eq!(extract_code_blocks("```rust\nfn a() {}\n"), vec![]);
    let doc = "```rust\na\n```\n\n```python\nb\n";
    assert_eq!(extract_code_blocks(doc), vec![block(Some("rust"), "a\n", None)]);
}

#[test]
fn short_closing_fence_does_not_close() {
    let doc = "````md\n```\ninner\n```\n````\n";
    assert_eq!(extract_code_blocks(doc), vec![block(Some("md"), "```\ninner\n```\n", None)]);
    assert_eq!(extract_code_blocks("````md\nx\n```\n"), vec![]);
}

#[test]
fn tilde_fences_and_indented_blocks() {
    let doc = "~~~python\nx = 1\n~~~\n\n    indented\n";
    assert_eq!(extract_code_blocks(doc), vec![block(Some("python"), "x = 1\n", None)]);
}

#[test]
fn fence_range_checks() {
    let doc = "```rust\nx\n```\n";
    assert!(fence_closed(doc.as_bytes(), 0, doc.len()));
    assert!(!fence_closed(doc.as_bytes(), 0, 10));
    assert!(!fence_closed(doc.as_bytes(), 0, 100));
    assert!(fence_closed(doc.as_bytes(), 1, doc.len()));
    assert!(!fence_closed(doc.as_bytes(), 3, doc.len()));
}

#[test]
fn events_build_blocks() {
    let doc = "```rust\nx\n```\n";
    let events = vec![
        MdEvent::Other,
        MdEvent::Text("ignored".to_string()),
        MdEvent::FenceStart { info: "rust :tangle a.rs".to_string(), start: 0, end: doc.len() },
        MdEvent::Text("x\n".to_string()),
        MdEvent::Text("y\n".to_string()),
        MdEvent::CodeEnd,
        MdEvent::CodeEnd,
    ];
    assert_eq!(blocks_from_events(doc.as_bytes(), &events), vec![block(Some("rust"), "x\ny\n", Some("a.rs"))]);
}

#[test]
fn info_string_parsing() {
    assert_eq!(parse_info(""), block(None, "", None));
    assert_eq!(parse_info("rust"), block(Some("rust"), "", None));
    assert_eq!(parse_info("  rust\t:tangle  a/b.rs extra"), block(Some("rust"), "", Some("a/b.rs")));
    assert_eq!(parse_info("rust :tangle"), block(Some("rust"), "", None));
    assert_eq!(parse_info("rust :tangle a :tangle b"), block(Some("rust"), "", Some("a")));
    assert_eq!(parse_info(":tangle x"), block(Some(":tangle"), "", Some("x")));
    assert_eq!(split_tokens(" a  bc\u{3000}d "), vec!["a", "bc", "d"]);
}

#[test]
fn registry_defaults_and_overrides() {
    let reg = LanguageRegistry::defaults();
    assert_eq!(reg.len(), 39);
    assert_eq!(reg.resolve("rust"), "rs");
    assert_eq!(reg.resolve("kotlin"), "kt");
    assert_eq!(reg.resolve("Rust"), "txt");
    assert_eq!(reg.lookup("cobol"), None);
    assert_eq!(reg.invert("sh"), Some("bash".to_string()));
    assert_eq!(reg.invert("py"), Some("python".to_string()));
    assert_eq!(reg.invert("yml"), None);

    let mut cfg = config("o");
    cfg.extension = vec!["rust=rust2".to_string(), "bogus".to_string(), "zsh=sh".to_string(), "a=b=c".to_string()];
    let reg = cfg.language_extensions();
    assert_eq!(reg.len(), 41);
    assert_eq!(reg.resolve("rust"), "rust2");
    assert_eq!(reg.resolve("bogus"), "txt");
    assert_eq!(reg.invert("sh"), Some("zsh".to_string()));
    assert_eq!(reg.resolve("a"), "b=c");
    assert_eq!(reg.invert("rs"), None);
    assert_eq!(Config::default_extensions().resolve("rust"), "rs");
}

#[test]
fn later_override_replaces_earlier() {
    let mut reg = LanguageRegistry::new();
    reg.apply_override("x=1");
    reg.apply_override("y=1");
    reg.apply_override("x=1");
    assert_eq!(reg.len(), 2);
    assert_eq!(reg.invert("1"), Some("x".to_string()));
    reg.apply_override("x=2");
    assert_eq!(reg.invert("1"), Some("y".to_string()));
    assert_eq!(reg.resolve("x"), "2");
}

#[test]
fn default_extension_to_language() {
    assert_eq!(extension_to_language("rs"), "rust");
    assert_eq!(extension_to_language("kt"), "kotlin");
    assert_eq!(extension_to_language("yml"), "");
    assert_eq!(extension_to_language(""), "");
}

#[test]
fn languages_map_to_extensions() {
    let langs = ["rust", "python", "javascript", "typescript", "java", "c", "cpp", "go", "ruby", "php", "swift", "kotlin"];
    let mut doc = String::from("\n# TestFile\n\n");
    for l in langs {
        doc.push_str(&format!("```{}\nbody\n```\n\n", l));
    }
    let blocks = extract_code_blocks(&doc);
    let plan = plan_writes(&blocks, &LanguageRegistry::defaults(), "./test_output", "TestFile", false, false, false);
    let names: Vec<String> = plan
        .iter()
        .map(|a| match a {
            WriteAction::Append { path, .. } => path.clone(),
            other => panic!("unexpected {:?}", other),
        })
        .collect();
    let expected = [
        "TestFile.rs", "TestFile.py", "TestFile.js", "TestFile.ts", "TestFile.java", "TestFile.c",
        "TestFile.cpp", "TestFile.go", "TestFile.rb", "TestFile.php", "TestFile.swift", "TestFile.kt",
    ];
    let expected: Vec<String> = expected.iter().map(|f| format!("./test_output/{}", f)).collect();
    assert_eq!(names, expected);
}

#[test]
fn write_code_blocks_uses_config() {
    let blocks = vec![
        block(Some("rust"), "a\n", None),
        block(Some("python"), "b\n", None),
        block(None, "c\n", None),
        block(Some("cobol"), "d\n", None),
    ];
    let mut cfg = config("tests/output");
    cfg.by_language = true;
    let plan = write_code_blocks(&blocks, &cfg, "tests/fixtures/example.md");
    assert_eq!(
        plan,
        vec![
            append("tests/output/rust/example.rs", "a\n"),
            append("tests/output/python/example.py", "b\n"),
            WriteAction::Skip { index: 2, reason: SkipReason::NoLanguage },
            append("tests/output/cobol/example.txt", "d\n"),
        ]
    );
    cfg.by_language = false;
    cfg.dry_run = true;
    let plan = write_code_blocks(&vec![block(Some("rust"), "a\n", None)], &cfg, "");
    assert_eq!(plan, vec![WriteAction::Report { path: "tests/output/unknown.rs".to_string(), length: 2 }]);
}

#[test]
fn untangle_dry_run_and_unknown_extension() {
    let reg = LanguageRegistry::defaults();
    assert_eq!(
        untangle_file("./tests/fixtures/example.rs", "x", "out", &reg, true),
        UntangleAction::Report { path: "out/tests/fixtures/example.md".to_string(), language: "rust".to_string() }
    );
    assert_eq!(
        untangle_file("notes.xyz", "x", "out/", &reg, false),
        UntangleAction::Write { path: "out/notes.md".to_string(), text: "```\nx\n```\n".to_string() }
    );
    assert_eq!(untangled_document("go", ""), "```go\n```\n");
}

#[test]
fn path_helpers() {
    assert_eq!(join_path("out", "a/b"), "out/a/b");
    assert_eq!(join_path("out/", "a"), "out/a");
    assert_eq!(join_path("", "a"), "a");
    assert_eq!(join_path("out", "/abs"), "/abs");
    assert_eq!(file_name("a/b/c.md"), "c.md");
    assert_eq!(file_stem("a/b/c.tar.gz"), Some("c.tar".to_string()));
    assert_eq!(file_stem("a/.hidden"), Some(".hidden".to_string()));
    assert_eq!(file_stem("a/"), None);
    assert_eq!(extension("a/.hidden"), None);
    assert_eq!(extension("a.b/c"), None);
    assert_eq!(extension("x.rs"), Some("rs".to_string()));
    assert_eq!(with_md_extension("a/b.rs"), "a/b.md");
    assert_eq!(with_md_extension("a/b"), "a/b.md");
    assert_eq!(markdown_path("./src/x.py", "docs"), "docs/src/x.md");
}
