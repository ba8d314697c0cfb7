use trae_agent::hooks::{has_hooks, hook_runs_checkpoint, merge_hooks, strip_hooks};
use trae_agent::json::Json;

const COMMAND: &str = "/usr/bin/git-ai checkpoint trae --hook-input stdin";

fn read(text: &str) -> Json {
    Json::parse(text).expect("a document")
}

fn hook(command: &str) -> String {
    format!("{{\"command\": \"{}\"}}", command)
}

fn file(before: &[&str], after: &[&str]) -> Json {
    let list = |commands: &[&str]| {
        let hooks: Vec<String> = commands.iter().map(|c| hook(c)).collect();
        hooks.join(", ")
    };
    read(&format!(
        "{{\"version\": 1, \"hooks\": {{\"preToolUse\": [{}], \"postToolUse\": [{}]}}}}",
        list(before),
        list(after)
    ))
}

#[test]
fn hooks_are_told_by_their_command() {
    assert!(hook_runs_checkpoint(&read(&hook(COMMAND))));
    assert!(!hook_runs_checkpoint(&read(&hook("echo"))));
    assert!(!hook_runs_checkpoint(&read("{}")));
    assert!(!hook_runs_checkpoint(&read(r#"{"command": 1}"#)));
    assert!(!hook_runs_checkpoint(&read(r#""git-ai checkpoint trae""#)));
}

#[test]
fn an_empty_file_gets_version_and_hooks() {
    let merged = merge_hooks(&read("{}"), COMMAND);
    assert!(merged.same(&file(&[COMMAND], &[COMMAND])));
    assert_eq!(
        merged.print().unwrap(),
        "{\n  \"hooks\": {\n    \"postToolUse\": [\n      {\n        \"command\": \"/usr/bin/git-ai checkpoint trae --hook-input stdin\"\n      }\n    ],\n    \"preToolUse\": [\n      {\n        \"command\": \"/usr/bin/git-ai checkpoint trae --hook-input stdin\"\n      }\n    ]\n  },\n  \"version\": 1\n}"
    );
}

#[test]
fn the_first_checkpoint_hook_is_brought_up_to_date() {
    let old = "/old/git-ai checkpoint trae";
    let merged = merge_hooks(&file(&["echo", old, old], &[]), COMMAND);
    assert!(merged.same(&file(&["echo", COMMAND, old], &[COMMAND])));
}

#[test]
fn an_up_to_date_hook_keeps_its_other_members() {
    let text = format!(
        "{{\"version\": 2, \"hooks\": {{\"preToolUse\": [{{\"command\": \"{0}\", \"x\": 1}}], \"postToolUse\": [{{\"command\": \"{0}\"}}]}}}}",
        COMMAND
    );
    let json = read(&text);
    assert!(merge_hooks(&json, COMMAND).same(&json));
}

#[test]
fn a_null_version_is_a_version() {
    let merged = merge_hooks(&read(r#"{"version": null}"#), COMMAND);
    assert!(matches!(merged.get("version"), Some(Json::Null)));
}

#[test]
fn a_list_that_is_none_is_replaced() {
    let json = read(r#"{"version": 1, "hooks": {"preToolUse": "x", "postToolUse": 3}}"#);
    assert!(merge_hooks(&json, COMMAND).same(&file(&[COMMAND], &[COMMAND])));
}

#[test]
fn what_takes_no_hooks_gets_none() {
    for text in ["[]", "3", "null", "\"x\""] {
        assert!(merge_hooks(&read(text), COMMAND).same(&read(text)));
    }
    let merged = merge_hooks(&read(r#"{"hooks": 5}"#), COMMAND);
    assert!(merged.same(&read(r#"{"hooks": 5, "version": 1}"#)));
    assert!(!has_hooks(&merged));
}

#[test]
fn install_then_check() {
    for text in ["{}", r#"{"hooks": {}}"#, r#"{"a": 1.5, "hooks": {"preToolUse": [7]}}"#] {
        assert!(!has_hooks(&read(text)));
        assert!(has_hooks(&merge_hooks(&read(text), COMMAND)));
    }
}

#[test]
fn install_is_idempotent() {
    let once = merge_hooks(&read(r#"{"hooks": {"other": [1]}}"#), COMMAND);
    assert!(merge_hooks(&once, COMMAND).same(&once));
}

#[test]
fn a_command_that_runs_no_checkpoint_is_added_again() {
    let once = merge_hooks(&read("{}"), "/bin/tool checkpoint trae");
    let twice = merge_hooks(&once, "/bin/tool checkpoint trae");
    assert!(!twice.same(&once));
    assert!(!has_hooks(&twice));
}

#[test]
fn install_keeps_the_rest() {
    let json = read(r#"{"version": 9, "x": {"y": 1.25}, "hooks": {"stop": ["z"], "preToolUse": [{"command": "echo"}]}}"#);
    let merged = merge_hooks(&json, COMMAND);
    assert!(merged.get("version").unwrap().same(json.get("version").unwrap()));
    assert!(merged.get("x").unwrap().same(json.get("x").unwrap()));
    let hooks = merged.get("hooks").unwrap();
    assert!(hooks.get("stop").unwrap().same(json.get("hooks").unwrap().get("stop").unwrap()));
    assert_eq!(hooks.get_array("preToolUse").unwrap()[0].get_str("command"), Some("echo"));
}

#[test]
fn uninstall_takes_every_checkpoint_hook_out() {
    let stripped = strip_hooks(&file(&["a", COMMAND, "b", COMMAND], &[COMMAND]));
    assert!(stripped.same(&file(&["a", "b"], &[])));
    assert!(!has_hooks(&stripped));
    assert!(strip_hooks(&stripped).same(&stripped));
}

#[test]
fn uninstall_changes_only_checkpoints() {
    for text in [
        "{}",
        "[1]",
        r#"{"hooks": 1}"#,
        r#"{"hooks": {"preToolUse": {"command": "git-ai checkpoint trae"}}}"#,
        r#"{"hooks": {"preToolUse": [1, {"command": "echo"}], "stop": [{"command": "git-ai checkpoint trae"}]}}"#,
    ] {
        assert!(strip_hooks(&read(text)).same(&read(text)));
    }
}

#[test]
fn uninstall_undoes_install() {
    let json = file(&["a"], &["b", "c"]);
    assert!(strip_hooks(&merge_hooks(&json, COMMAND)).same(&json));
}

#[test]
fn only_the_hooks_before_a_tool_are_looked_at() {
    assert!(has_hooks(&file(&[COMMAND], &[])));
    assert!(!has_hooks(&file(&[], &[COMMAND])));
    assert!(!has_hooks(&file(&["echo"], &[])));
}
