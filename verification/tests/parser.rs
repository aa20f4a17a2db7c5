use sakamoto::context::ContextRef;
use sakamoto::parser::{is_common_word, parse_all, parse_file_paths, parse_github_refs, parse_symbols, parse_urls};


// -- parse_file_paths tests --

#[test]
fn file_path_relative() {
    let refs = parse_file_paths("Look at src/main.rs for details");
    assert_eq!(
        refs,
        vec![ContextRef::FilePath {
            path: String::from("src/main.rs")
        }]
    );
}

#[test]
fn file_path_absolute() {
    let refs = parse_file_paths("Check /home/user/project/lib.rs");
    assert_eq!(
        refs,
        vec![ContextRef::FilePath {
            path: String::from("/home/user/project/lib.rs")
        }]
    );
}

#[test]
fn file_path_dot_relative() {
    let refs = parse_file_paths("Edit ./src/parser.rs please");
    assert_eq!(
        refs,
        vec![ContextRef::FilePath {
            path: String::from("./src/parser.rs")
        }]
    );
}

#[test]
fn file_path_multiple() {
    let refs = parse_file_paths("Compare src/lib.rs and src/main.rs");
    assert_eq!(refs.len(), 2);
    assert!(refs.contains(&ContextRef::FilePath {
        path: String::from("src/lib.rs")
    }));
    assert!(refs.contains(&ContextRef::FilePath {
        path: String::from("src/main.rs")
    }));
}

#[test]
fn file_path_deduplication() {
    let refs = parse_file_paths("src/lib.rs and again src/lib.rs");
    assert_eq!(refs.len(), 1);
}

#[test]
fn file_path_unknown_extension_ignored() {
    let refs = parse_file_paths("Look at file.xyz123");
    assert!(refs.is_empty());
}

#[test]
fn file_path_toml() {
    let refs = parse_file_paths("Edit Cargo.toml");
    assert_eq!(
        refs,
        vec![ContextRef::FilePath {
            path: String::from("Cargo.toml")
        }]
    );
}

#[test]
fn file_path_nested() {
    let refs = parse_file_paths("in crates/sakamoto-context/src/parser.rs");
    assert_eq!(
        refs,
        vec![ContextRef::FilePath {
            path: String::from("crates/sakamoto-context/src/parser.rs")
        }]
    );
}

// -- parse_github_refs tests --

#[test]
fn github_shorthand() {
    let refs = parse_github_refs("Fix Industrial-Algebra/Sakamoto#42");
    assert_eq!(
        refs,
        vec![ContextRef::GitHubIssue {
            owner: "Industrial-Algebra".into(),
            repo: "Sakamoto".into(),
            number: 42,
        }]
    );
}

#[test]
fn github_issue_url() {
    let refs =
        parse_github_refs("See https://github.com/rust-lang/rust/issues/12345 for context");
    assert_eq!(
        refs,
        vec![ContextRef::GitHubIssue {
            owner: "rust-lang".into(),
            repo: "rust".into(),
            number: 12345,
        }]
    );
}

#[test]
fn github_pull_url() {
    let refs = parse_github_refs("Review https://github.com/tokio-rs/tokio/pull/789");
    assert_eq!(
        refs,
        vec![ContextRef::GitHubPr {
            owner: "tokio-rs".into(),
            repo: "tokio".into(),
            number: 789,
        }]
    );
}

#[test]
fn github_multiple_mixed() {
    let text = "Fix owner/repo#1 and see https://github.com/a/b/issues/2";
    let refs = parse_github_refs(text);
    assert_eq!(refs.len(), 2);
}

#[test]
fn github_deduplication_url_and_shorthand() {
    // Same ref in both URL and shorthand form
    let text = "https://github.com/a/b/issues/1 and a/b#1";
    let refs = parse_github_refs(text);
    // URL is parsed first, shorthand deduped
    assert_eq!(refs.len(), 1);
}

#[test]
fn github_no_false_positive_on_plain_slash() {
    let refs = parse_github_refs("Use src/main.rs");
    assert!(refs.is_empty());
}

// -- parse_urls tests --

#[test]
fn url_basic_https() {
    let refs = parse_urls("Visit https://docs.rs/tokio/latest for docs");
    assert_eq!(
        refs,
        vec![ContextRef::Url {
            url: "https://docs.rs/tokio/latest".into()
        }]
    );
}

#[test]
fn url_http() {
    let refs = parse_urls("Check http://example.com/page");
    assert_eq!(
        refs,
        vec![ContextRef::Url {
            url: "http://example.com/page".into()
        }]
    );
}

#[test]
fn url_excludes_github_issues() {
    let refs = parse_urls("See https://github.com/a/b/issues/1 and https://example.com");
    assert_eq!(
        refs,
        vec![ContextRef::Url {
            url: "https://example.com".into()
        }]
    );
}

#[test]
fn url_excludes_github_pulls() {
    let refs = parse_urls("See https://github.com/a/b/pull/1");
    assert!(refs.is_empty());
}

#[test]
fn url_deduplication() {
    let refs = parse_urls("https://example.com and https://example.com");
    assert_eq!(refs.len(), 1);
}

#[test]
fn url_strips_trailing_punctuation() {
    let refs = parse_urls("Visit https://example.com/page.");
    assert_eq!(
        refs,
        vec![ContextRef::Url {
            url: "https://example.com/page".into()
        }]
    );
}

// -- parse_symbols tests --

#[test]
fn symbol_qualified_path() {
    let refs = parse_symbols("Use std::collections::HashMap for this");
    assert_eq!(
        refs,
        vec![ContextRef::Symbol {
            name: "std::collections::HashMap".into()
        }]
    );
}

#[test]
fn symbol_pascal_case() {
    let refs = parse_symbols("The ContextRef type is defined here");
    assert_eq!(
        refs,
        vec![ContextRef::Symbol {
            name: "ContextRef".into()
        }]
    );
}

#[test]
fn symbol_multiple_pascal() {
    let refs = parse_symbols("Both ContextRef and ContextBundle are needed");
    assert_eq!(refs.len(), 2);
    assert!(refs.contains(&ContextRef::Symbol {
        name: "ContextRef".into()
    }));
    assert!(refs.contains(&ContextRef::Symbol {
        name: "ContextBundle".into()
    }));
}

#[test]
fn symbol_excludes_common_words() {
    let refs = parse_symbols("Before and After are not symbols");
    assert!(refs.is_empty());
}

#[test]
fn symbol_deduplication() {
    let refs = parse_symbols("ContextRef and ContextRef again");
    assert_eq!(refs.len(), 1);
}

#[test]
fn symbol_two_segment_path() {
    let refs = parse_symbols("Call context::parse_all");
    assert_eq!(
        refs,
        vec![ContextRef::Symbol {
            name: "context::parse_all".into()
        }]
    );
}

// -- parse_all tests --

#[test]
fn parse_all_combines_all_parsers() {
    let text = "Fix src/main.rs, see Industrial-Algebra/Sakamoto#42, \
                 check https://docs.rs/tokio and use std::io::Result";
    let refs = parse_all(text);

    assert!(
        refs.iter()
            .any(|r| matches!(r, ContextRef::FilePath { .. }))
    );
    assert!(
        refs.iter()
            .any(|r| matches!(r, ContextRef::GitHubIssue { .. }))
    );
    assert!(refs.iter().any(|r| matches!(r, ContextRef::Url { .. })));
    assert!(refs.iter().any(|r| matches!(r, ContextRef::Symbol { .. })));
}

#[test]
fn parse_all_deduplicates() {
    let text = "src/main.rs and src/main.rs";
    let refs = parse_all(text);
    let file_refs: Vec<_> = refs
        .iter()
        .filter(|r| matches!(r, ContextRef::FilePath { .. }))
        .collect();
    assert_eq!(file_refs.len(), 1);
}

#[test]
fn parse_all_empty_input() {
    let refs = parse_all("");
    assert!(refs.is_empty());
}

#[test]
fn parse_all_no_refs() {
    let refs = parse_all("Just a plain sentence with nothing special.");
    assert!(refs.is_empty());
}

#[test]
fn common_words_are_recognised() {
    assert!(is_common_word("The"));
    assert!(is_common_word("However"));
    assert!(!is_common_word("HashMap"));
    assert!(!is_common_word("the"));
}

#[test]
fn github_refs_name_each_issue_once() {
    let refs = parse_github_refs("https://github.com/o/r/pull/42 and o/r#42 and o/r#7 and o/r#0");
    assert_eq!(
        refs,
        vec![
            ContextRef::GitHubPr { owner: "o".into(), repo: "r".into(), number: 42 },
            ContextRef::GitHubIssue { owner: "o".into(), repo: "r".into(), number: 7 },
        ]
    );
}

#[test]
fn parse_all_merges_paths_naming_the_same_file() {
    let text = "see src/main.rs and src//main.rs and src/./main.rs";
    let paths = parse_file_paths(text);
    assert_eq!(paths.len(), 3);
    let all = parse_all(text);
    let files: Vec<&ContextRef> = all.iter().filter(|r| matches!(r, ContextRef::FilePath { .. })).collect();
    assert_eq!(files.len(), 1);
    assert!(matches!(files[0], ContextRef::FilePath { path } if path == "src/main.rs"));
    assert!(ContextRef::FilePath { path: "a//b.rs".into() } == ContextRef::FilePath { path: "a/b.rs".into() });
    assert!(ContextRef::FilePath { path: "./a/b.rs".into() } != ContextRef::FilePath { path: "a/b.rs".into() });
}
