use sakamoto::rules::{find_rules_base_dir, merge_rules_to_prompt, rule_from_match, sort_rules, Rule};


#[test]
fn rule_global_applies_to_everything() {
    let rule = Rule {
        relative_path: String::from("general.md"),
        scope: None,
        content: "Be helpful.".into(),
    };
    assert!(rule.applies_to("src"));
    assert!(rule.applies_to("backend/api"));
    assert!(rule.applies_to(""));
}

#[test]
fn rule_scoped_applies_to_matching_path() {
    let rule = Rule {
        relative_path: String::from("backend/rust.md"),
        scope: Some(String::from("backend")),
        content: "Use idiomatic Rust.".into(),
    };
    assert!(rule.applies_to("backend"));
    assert!(rule.applies_to("backend/api"));
    assert!(!rule.applies_to("frontend"));
    assert!(!rule.applies_to("src"));
}

#[test]
fn rule_deeply_scoped() {
    let rule = Rule {
        relative_path: String::from("backend/api/rest.md"),
        scope: Some(String::from("backend/api")),
        content: "Use REST conventions.".into(),
    };
    assert!(rule.applies_to("backend/api"));
    assert!(rule.applies_to("backend/api/v1"));
    assert!(!rule.applies_to("backend"));
    assert!(!rule.applies_to("backend/grpc"));
}

#[test]
fn merge_rules_global_only() {
    let rules = vec![
        Rule {
            relative_path: String::from("a.md"),
            scope: None,
            content: "Rule A.".into(),
        },
        Rule {
            relative_path: String::from("b.md"),
            scope: None,
            content: "Rule B.".into(),
        },
    ];

    let prompt = merge_rules_to_prompt(&rules, None).unwrap();
    assert!(prompt.contains("# Rules: a.md"));
    assert!(prompt.contains("Rule A."));
    assert!(prompt.contains("# Rules: b.md"));
    assert!(prompt.contains("Rule B."));
}

#[test]
fn merge_rules_filters_by_scope() {
    let rules = vec![
        Rule {
            relative_path: String::from("backend/rust.md"),
            scope: Some(String::from("backend")),
            content: "Rust rules.".into(),
        },
        Rule {
            relative_path: String::from("general.md"),
            scope: None,
            content: "General rules.".into(),
        },
    ];

    // Working in backend → both rules apply
    let prompt = merge_rules_to_prompt(&rules, Some("backend")).unwrap();
    assert!(prompt.contains("Rust rules."));
    assert!(prompt.contains("General rules."));

    // Working in frontend → only general
    let prompt = merge_rules_to_prompt(&rules, Some("frontend")).unwrap();
    assert!(!prompt.contains("Rust rules."));
    assert!(prompt.contains("General rules."));
}

#[test]
fn merge_rules_empty_returns_none() {
    let result = merge_rules_to_prompt(&[], None);
    assert!(result.is_none());
}

#[test]
fn merge_rules_no_matching_scope_returns_none() {
    let rules = vec![Rule {
        relative_path: String::from("backend/rust.md"),
        scope: Some(String::from("backend")),
        content: "Rust only.".into(),
    }];

    // No working dir, only global rules included → none match
    let result = merge_rules_to_prompt(&rules, None);
    assert!(result.is_none());
}

#[test]
fn find_rules_base_dir_simple() {
    let root = "/project";
    let base = find_rules_base_dir(root, ".sakamoto/rules/*.md");
    assert_eq!(base, String::from("/project/.sakamoto/rules"));
}

#[test]
fn find_rules_base_dir_recursive() {
    let root = "/project";
    let base = find_rules_base_dir(root, ".sakamoto/rules/**/*.md");
    assert_eq!(base, String::from("/project/.sakamoto/rules"));
}

#[test]
fn rule_from_match_is_relative_to_rules_dir() {
    let r = rule_from_match("/p/.sakamoto/rules", "/p/.sakamoto/rules/backend/rust.md", "Rust.".into());
    assert_eq!(r.relative_path, "backend/rust.md");
    assert_eq!(r.scope.as_deref(), Some("backend"));
    assert_eq!(r.content, "Rust.");

    let g = rule_from_match("/p/.sakamoto/rules", "/p/.sakamoto/rules/general.md", "G".into());
    assert_eq!(g.relative_path, "general.md");
    assert_eq!(g.scope, None);

    let outside = rule_from_match("/p/.sakamoto/rules", "/q/other.md", "O".into());
    assert_eq!(outside.relative_path, "/q/other.md");
    assert_eq!(outside.scope.as_deref(), Some("/q"));
}

#[test]
fn sort_rules_orders_by_path_components() {
    let mk = |p: &str| Rule::from_file(p.to_string(), String::new());
    let sorted = sort_rules(vec![mk("frontend/ts.md"), mk("general.md"), mk("a-b/x.md"), mk("a/b.md"), mk("backend/rust.md")]);
    let paths: Vec<&str> = sorted.iter().map(|r| r.relative_path.as_str()).collect();
    assert_eq!(paths, vec!["a/b.md", "a-b/x.md", "backend/rust.md", "frontend/ts.md", "general.md"]);
    assert!(sort_rules(Vec::new()).is_empty());
}

#[test]
fn sort_rules_keeps_order_of_equal_paths() {
    let mk = |p: &str, c: &str| Rule::from_file(p.to_string(), c.to_string());
    let sorted = sort_rules(vec![mk("z.md", "z"), mk("a//b.md", "first"), mk("a/b.md", "second")]);
    let contents: Vec<&str> = sorted.iter().map(|r| r.content.as_str()).collect();
    assert_eq!(contents, vec!["first", "second", "z"]);
    let sorted = sort_rules(vec![mk("a/b.md", "second"), mk("a//b.md", "first")]);
    let contents: Vec<&str> = sorted.iter().map(|r| r.content.as_str()).collect();
    assert_eq!(contents, vec!["second", "first"]);
}
