use sakamoto::error::SakamotoError;
use sakamoto::json::JsonField;
use sakamoto::tools::{
    count_matches, path_field, replace_first_match, FsReadTool, FsWriteTool, ParentProbe, ShellTool, ToolRouter,
    WriteAction,
};

fn reason(e: &SakamotoError) -> String {
    match e {
        SakamotoError::ToolCallFailed { reason, .. } => reason.clone(),
        other => panic!("unexpected error {other:?}"),
    }
}

fn chars(s: &str) -> Vec<char> {
    s.chars().collect()
}

#[test]
fn counts_non_overlapping_matches() {
    assert_eq!(count_matches(&chars("aaaa"), &chars("aa")), 2);
    assert_eq!(count_matches(&chars("abcabc"), &chars("bc")), 2);
    assert_eq!(count_matches(&chars("abc"), &chars("x")), 0);
    assert_eq!(count_matches(&chars("abc"), &chars("")), 4);
}

#[test]
fn replaces_the_first_match_only() {
    let out: String = replace_first_match(&chars("a-b-c"), &chars("-"), &chars("+")).into_iter().collect();
    assert_eq!(out, "a+b-c");
    let out: String = replace_first_match(&chars("abc"), &chars(""), &chars("X")).into_iter().collect();
    assert_eq!(out, "Xabc");
    let out: String = replace_first_match(&chars("abc"), &chars("z"), &chars("X")).into_iter().collect();
    assert_eq!(out, "abc");
}

#[test]
fn edit_find_and_replace() {
    let existing = "fn foo() {\n    println!(\"old\");\n}\n";
    let out = FsWriteTool::apply_edit("code.rs", existing, "println!(\"old\")", "println!(\"new\")").unwrap();
    assert!(out.contains("println!(\"new\")"));
    assert!(!out.contains("println!(\"old\")"));
}

#[test]
fn edit_old_string_not_found() {
    let err = FsWriteTool::apply_edit("code.rs", "hello", "absent", "x").unwrap_err();
    assert!(reason(&err).contains("not found"));
    assert_eq!(
        reason(&err),
        "old_string not found in 'code.rs' \u{2014} provide a unique string that exists in the file"
    );
}

#[test]
fn edit_ambiguous_match_rejected() {
    let err = FsWriteTool::apply_edit("dup.txt", "foo bar foo", "foo", "baz").unwrap_err();
    assert!(reason(&err).contains("2 times"));
}

#[test]
fn content_and_old_string_both_rejected() {
    let err = FsWriteTool::action(
        &JsonField::Str("x".into()),
        &JsonField::Str("y".into()),
        &JsonField::Absent,
    )
    .unwrap_err();
    assert!(reason(&err).contains("not both"));
}

#[test]
fn neither_content_nor_old_string_rejected() {
    let err = FsWriteTool::action(&JsonField::Absent, &JsonField::Null, &JsonField::Absent).unwrap_err();
    assert_eq!(reason(&err), "provide either 'content' for full write or 'old_string'/'new_string' for edit");
}

#[test]
fn edit_action_defaults_new_string_to_empty() {
    match FsWriteTool::action(&JsonField::Null, &JsonField::Str("old".into()), &JsonField::Absent).unwrap() {
        WriteAction::Edit { old, new } => {
            assert_eq!(old, "old");
            assert_eq!(new, "");
        }
        other => panic!("unexpected {other:?}"),
    }
    let err = FsWriteTool::action(&JsonField::Absent, &JsonField::U64(3), &JsonField::Absent).unwrap_err();
    assert_eq!(reason(&err), "'old_string' must be a string");
    let err = FsWriteTool::action(&JsonField::Other, &JsonField::Absent, &JsonField::Absent).unwrap_err();
    assert_eq!(reason(&err), "'content' must be a string");
}

#[test]
fn missing_path_field() {
    let err = path_field("fs_write", &JsonField::Absent).unwrap_err();
    assert_eq!(reason(&err), "missing 'path' field");
    assert_eq!(path_field("fs_read", &JsonField::Str("a.txt".into())).unwrap(), "a.txt");
}

#[test]
fn write_reports() {
    assert_eq!(FsWriteTool::edited_message("a.rs"), "edited a.rs");
    assert_eq!(FsWriteTool::wrote_message("new.txt", "hello world"), "wrote new.txt (11 bytes)");
    assert_eq!(FsWriteTool::wrote_message("u.txt", "\u{e9}"), "wrote u.txt (2 bytes)");
}

#[test]
fn directory_traversal_blocked_for_reads() {
    let tool = FsReadTool::new("/work");
    let err = tool
        .resolve_path("../../etc/passwd", Ok("/etc/passwd".into()), Ok("/work".into()))
        .unwrap_err();
    assert_eq!(reason(&err), "path '../../etc/passwd' is outside the working directory");
    let ok = tool.resolve_path("a.txt", Ok("/work/a.txt".into()), Ok("/work".into())).unwrap();
    assert_eq!(ok, "/work/a.txt");
    let err = tool.resolve_path("nope", Err("No such file".into()), Ok("/work".into())).unwrap_err();
    assert_eq!(reason(&err), "cannot resolve path 'nope': No such file");
}

#[test]
fn directory_traversal_blocked_for_writes() {
    let tool = FsWriteTool::new("/work");
    let err = tool
        .resolve_path("../outside.txt", ParentProbe::Exists(Ok("/".into())), Ok("/work".into()))
        .unwrap_err();
    assert_eq!(reason(&err), "path '../outside.txt' is outside the working directory");
    let ok = tool
        .resolve_path("sub/new.txt", ParentProbe::Missing(Some(("/work".into(), Ok("/work".into())))), Ok("/work".into()))
        .unwrap();
    assert_eq!(ok, "/work/sub/new.txt");
    let ok = tool
        .resolve_path("sub/new.txt", ParentProbe::Exists(Ok("/work/sub".into())), Ok("/work".into()))
        .unwrap();
    assert_eq!(ok, "/work/sub/new.txt");
    let err = tool.resolve_path("x/y", ParentProbe::Missing(None), Ok("/work".into())).unwrap_err();
    assert_eq!(reason(&err), "no valid ancestor for 'x/y'");
    assert_eq!(tool.parent_to_probe("sub/new.txt"), Some("/work/sub".to_string()));
}

#[test]
fn write_under_missing_directory_cannot_climb() {
    let tool = FsWriteTool::new("/work");
    // `nodir` does not exist; its nearest existing ancestor is the root.
    let err = tool
        .resolve_path("nodir/../../x", ParentProbe::Missing(Some(("/work".into(), Ok("/work".into())))), Ok("/work".into()))
        .unwrap_err();
    assert_eq!(reason(&err), "path 'nodir/../../x' is outside the working directory");
    let ok = tool
        .resolve_path("a/b/c.txt", ParentProbe::Missing(Some(("/work/a".into(), Ok("/real/work/a".into())))), Ok("/real/work".into()))
        .unwrap();
    assert_eq!(ok, "/work/a/b/c.txt");
    let err = tool
        .resolve_path("a/b/c.txt", ParentProbe::Missing(Some(("/elsewhere".into(), Ok("/real/work".into())))), Ok("/real/work".into()))
        .unwrap_err();
    assert_eq!(reason(&err), "no valid ancestor for 'a/b/c.txt'");
}

#[test]
fn read_entire_file() {
    let out = FsReadTool::render("line one\nline two\nline three\n", &JsonField::Absent, &JsonField::Absent);
    assert!(out.contains("1\tline one"));
    assert!(out.contains("2\tline two"));
    assert!(out.contains("3\tline three"));
    assert!(out.starts_with("     1\tline one\n"));
}

#[test]
fn read_with_offset_and_limit() {
    let content = "a\nb\nc\nd\ne\n";
    let out = FsReadTool::render(content, &JsonField::U64(3), &JsonField::Absent);
    assert!(!out.contains("1\ta"));
    assert!(out.contains("3\tc"));
    let out = FsReadTool::render(content, &JsonField::Absent, &JsonField::U64(2));
    assert!(out.contains("2\tb"));
    assert!(!out.contains("3\tc"));
    assert!(out.contains("[3 more lines not shown"));
    let out = FsReadTool::render(content, &JsonField::U64(2), &JsonField::U64(2));
    assert_eq!(out, "     2\tb\n     3\tc\n\n[2 more lines not shown \u{2014} use offset/limit to read further]\n");
}

#[test]
fn read_empty_file() {
    let out = FsReadTool::render("", &JsonField::Absent, &JsonField::Absent);
    assert_eq!(out, "[file is empty: 0 total lines]\n");
}

#[test]
fn long_lines_are_truncated() {
    let long = "x".repeat(5000);
    let out = FsReadTool::render(&long, &JsonField::Absent, &JsonField::Absent);
    assert!(out.contains("[truncated]"));
    assert!(out.len() < 3000);
}

#[test]
fn shell_output_joins_streams() {
    assert_eq!(ShellTool::output("out\n", "", true, Some(0)).unwrap(), "out\n");
    assert_eq!(ShellTool::output("out", "err", true, Some(0)).unwrap(), "out\n[stderr]\nerr");
    assert_eq!(ShellTool::output("", "err", true, Some(0)).unwrap(), "[stderr]\nerr");
    let err = ShellTool::output("", "bad", false, Some(2)).unwrap_err();
    assert_eq!(reason(&err), "exit code 2\n[stderr]\nbad");
    let err = ShellTool::output("x", "", false, None).unwrap_err();
    assert_eq!(reason(&err), "exit code -1\nx");
}

#[test]
fn shell_missing_command() {
    let err = ShellTool::command_field(&JsonField::Absent).unwrap_err();
    assert_eq!(reason(&err), "missing 'command' field");
    let tool = ShellTool::new("/tmp", std::time::Duration::from_secs(30));
    assert!(matches!(tool.timeout_error(), SakamotoError::Timeout { .. }));
}

#[test]
fn router_rejects_duplicate_names() {
    let mut router = ToolRouter::new();
    assert!(router.is_empty());
    router.register("shell".into()).unwrap();
    assert!(router.contains("shell"));
    let err = router.register("shell".into()).unwrap_err();
    assert_eq!(reason(&err), "tool already registered");
    assert_eq!(router.len(), 1);
    assert!(matches!(ToolRouter::not_found("x"), SakamotoError::ToolsetNotFound(_)));
}

#[test]
fn builtin_tool_definitions() {
    let read = FsReadTool::new("/w").definition();
    assert_eq!(read.name, "fs_read");
    assert_eq!(read.description, "Read a file's contents with optional line range. Returns numbered lines.");
    assert_eq!(read.input_schema["type"], "object");
    assert_eq!(read.input_schema["properties"]["offset"]["type"], "integer");
    assert_eq!(read.input_schema["properties"]["limit"]["description"], "Maximum number of lines to return (default: 2000)");
    assert_eq!(read.input_schema["required"][0], "path");

    let write = FsWriteTool::new("/w").definition();
    assert_eq!(write.name, "fs_write");
    assert!(write.description.ends_with("Creates parent directories if needed."));
    assert_eq!(write.input_schema["properties"]["old_string"]["type"], "string");
    assert_eq!(write.input_schema["properties"]["new_string"]["description"], "Replacement string (for edits)");
    assert_eq!(write.input_schema["required"].as_array().map(|a| a.len()), Some(1));

    let shell = ShellTool::new("/w", std::time::Duration::from_secs(30)).definition();
    assert_eq!(shell.name, "shell");
    assert_eq!(shell.description, "Execute a shell command and return its output");
    assert_eq!(shell.input_schema["properties"]["command"]["description"], "The shell command to execute");
    assert_eq!(shell.input_schema["required"][0], "command");
}

#[test]
fn fs_read_definition_has_correct_name() {
    let tool = FsReadTool::new("/tmp");
    assert_eq!(tool.definition().name, "fs_read");
}

#[test]
fn fs_write_definition_has_correct_name() {
    let tool = FsWriteTool::new("/tmp");
    assert_eq!(tool.definition().name, "fs_write");
}
