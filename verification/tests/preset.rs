use trae_agent::error::GitAiError;
use trae_agent::json::Json;
use trae_agent::preset::{
    AgentCheckpointFlags, AgentRunResult, CheckpointKind, PendingRun, RunStep, TraePreset,
};
use trae_agent::transcript::{AiTranscript, Message, Reading};

fn run(input: Option<&str>) -> Result<RunStep, GitAiError> {
    TraePreset.run(AgentCheckpointFlags { hook_input: input.map(|text| text.to_string()) })
}

fn finished(input: &str) -> AgentRunResult {
    match run(Some(input)) {
        Ok(RunStep::Finished(result)) => result,
        _ => panic!("a finished checkpoint was due"),
    }
}

fn pending(input: &str) -> PendingRun {
    match run(Some(input)) {
        Ok(RunStep::NeedsTranscript(pending)) => pending,
        _ => panic!("a pending checkpoint was due"),
    }
}

fn failure(input: Option<&str>) -> String {
    match run(input) {
        Err(GitAiError::PresetError(message)) => message,
        _ => panic!("an error was due"),
    }
}

fn said(transcript: &AiTranscript) -> Vec<String> {
    transcript
        .messages
        .iter()
        .map(|message| match message {
            Message::User { text, timestamp } => format!("user {:?} {:?}", text, timestamp),
            Message::Assistant { text, timestamp } => format!("assistant {:?} {:?}", text, timestamp),
            Message::ToolUse { name, input, timestamp } => {
                format!("tool {:?} {} {:?}", name, input.print().unwrap(), timestamp)
            }
        })
        .collect()
}

#[test]
fn the_user_is_checkpointed_before_a_tool() {
    let result = finished(
        r#"{"hook_event_name": "preToolUse", "conversation_id": "c1", "model": "m1", "cwd": "/repo",
            "tool_input": {"file_path": "/repo/a.rs"}, "transcript_path": "/t.jsonl"}"#,
    );
    assert_eq!(result.agent_id.tool, "trae");
    assert_eq!(result.agent_id.id, "c1");
    assert_eq!(result.agent_id.model, "m1");
    assert_eq!(result.checkpoint_kind, CheckpointKind::Human);
    assert!(result.agent_metadata.is_none());
    assert!(result.transcript.is_none());
    assert_eq!(result.repo_working_dir.as_deref(), Some("/repo"));
    assert!(result.edited_filepaths.is_none());
    assert_eq!(result.will_edit_filepaths, Some(vec!["/repo/a.rs".to_string()]));
    assert!(result.dirty_files.is_none());
    assert!(result.captured_checkpoint_id.is_none());
}

#[test]
fn other_names_of_the_members_are_taken() {
    let result = finished(
        r#"{"hookEventName": "preToolUse", "session_id": "s1", "repo_working_dir": "/r"}"#,
    );
    assert_eq!(result.agent_id.id, "s1");
    assert_eq!(result.agent_id.model, "unknown");
    assert_eq!(result.repo_working_dir.as_deref(), Some("/r"));
    assert!(result.will_edit_filepaths.is_none());
}

#[test]
fn an_empty_file_path_is_no_file() {
    let result = finished(
        r#"{"hook_event_name": "preToolUse", "session_id": "s", "tool_input": {"file_path": ""}}"#,
    );
    assert!(result.will_edit_filepaths.is_none());
    let result = finished(
        r#"{"hook_event_name": "preToolUse", "session_id": "s", "tool_input": "x", "cwd": 3, "repo_working_dir": "/r"}"#,
    );
    assert!(result.will_edit_filepaths.is_none());
    assert!(result.repo_working_dir.is_none());
}

#[test]
fn the_agent_is_checkpointed_after_a_tool() {
    let input = r#"{"hook_event_name": "postToolUse", "conversation_id": "c1", "cwd": "/repo",
        "tool_input": {"file_path": "/repo/a.rs"}, "transcript_path": "/t.jsonl"}"#;
    assert_eq!(pending(input).transcript_path.as_deref(), Some("/t.jsonl"));
    let result = TraePreset::finish(
        pending(input),
        Some("{\"type\": \"user\", \"content\": \" hi \"}\n"),
    );
    assert_eq!(result.checkpoint_kind, CheckpointKind::AiAgent);
    let metadata = result.agent_metadata.expect("metadata");
    assert_eq!(metadata.len(), 1);
    assert_eq!(metadata.get("transcript_path").map(|p| p.as_str()), Some("/t.jsonl"));
    assert_eq!(said(&result.transcript.expect("a transcript")), vec!["user \"hi\" None"]);
    assert_eq!(result.repo_working_dir.as_deref(), Some("/repo"));
    assert_eq!(result.edited_filepaths, Some(vec!["/repo/a.rs".to_string()]));
    assert!(result.will_edit_filepaths.is_none());
}

#[test]
fn without_a_conversation_the_transcript_is_empty() {
    let result = TraePreset::finish(
        pending(r#"{"hook_event_name": "postToolUse", "conversation_id": "c1"}"#),
        None,
    );
    assert!(result.agent_metadata.is_none());
    assert!(result.transcript.expect("a transcript").messages.is_empty());
    assert!(result.edited_filepaths.is_none());
}

#[test]
fn what_is_wrong_with_the_input_is_told() {
    assert_eq!(failure(None), "hook_input is required for Trae preset");
    assert_eq!(
        failure(Some("{")),
        "Invalid JSON in hook_input: EOF while parsing an object at line 1 column 1"
    );
    assert_eq!(failure(Some("{}")), "hook_event_name not found in hook_input");
    assert_eq!(
        failure(Some(r#"{"hook_event_name": 1, "hookEventName": "preToolUse", "session_id": "s"}"#)),
        "hook_event_name not found in hook_input"
    );
    assert_eq!(
        failure(Some(r#"{"hook_event_name": "preToolUse"}"#)),
        "conversation_id or session_id not found in hook_input"
    );
    assert_eq!(
        failure(Some(r#"{"hook_event_name": "stop"}"#)),
        "conversation_id or session_id not found in hook_input"
    );
    assert_eq!(
        failure(Some(r#"{"hook_event_name": "stop", "session_id": "s"}"#)),
        "Invalid hook_event_name: stop. Expected 'preToolUse' or 'postToolUse'"
    );
}

#[test]
fn a_step_takes_the_event_as_a_document() {
    let hook = Json::Object(vec![
        ("hook_event_name".to_string(), Json::Text("preToolUse".to_string())),
        ("session_id".to_string(), Json::Text("s".to_string())),
    ]);
    assert!(matches!(TraePreset::step(&hook), Ok(RunStep::Finished(_))));
    assert!(matches!(TraePreset::step(&Json::Null), Err(GitAiError::PresetError(_))));
}

const TRANSCRIPT: &str = r#"
{"type": "user", "content": "  hello\n", "timestamp": "t1", "model": "m0"}
{"type": "user", "content": "   "}
{"type": "user", "content": 5}
{"type": "system", "content": "ignored"}
{"content": "ignored"}
not json
{"type": "assistant", "content": "done", "timestamp": "t2", "model": "m1", "tool_calls": [{"name": "edit", "args": {"path": "a"}}, {"args": {}}, {"name": "run"}]}
{"type": "assistant", "content": "more", "timestamp": 3, "model": "m2", "tool_calls": "none"}
"#;

#[test]
fn a_transcript_is_read_line_by_line() {
    let (transcript, model) = TraePreset::transcript_and_model_from_trae_jsonl(TRANSCRIPT);
    assert_eq!(model.as_deref(), Some("m1"));
    assert_eq!(
        said(&transcript),
        vec![
            "user \"hello\" Some(\"t1\")",
            "assistant \"done\" Some(\"t2\")",
            "tool \"edit\" {\n  \"path\": \"a\"\n} Some(\"t2\")",
            "tool \"run\" {} Some(\"t2\")",
            "assistant \"more\" None",
        ]
    );
}

#[test]
fn an_empty_transcript_says_nothing() {
    let (transcript, model) = TraePreset::transcript_and_model_from_trae_jsonl("\n \nnot json\n[1]\n");
    assert!(transcript.messages.is_empty());
    assert!(model.is_none());
}

#[test]
fn transcripts_grow() {
    let front = "{\"type\": \"user\", \"content\": \"a\"}\n";
    let back = "{\"type\": \"assistant\", \"content\": \"b\", \"model\": \"m\"}";
    let read = |text: &str| TraePreset::transcript_and_model_from_trae_jsonl(text);
    let mut both = said(&read(front).0);
    both.extend(said(&read(back).0));
    let (transcript, model) = read(&format!("{}{}", front, back));
    assert_eq!(said(&transcript), both);
    assert_eq!(model.as_deref(), Some("m"));
}

#[test]
fn carriage_returns_and_blank_lines_are_passed_over() {
    let text = "{\"type\": \"user\", \"content\": \"a\"}\r\n\r\n  {\"type\": \"user\", \"content\": \"b\"}\r";
    let (transcript, _) = TraePreset::transcript_and_model_from_trae_jsonl(text);
    assert_eq!(said(&transcript), vec!["user \"a\" None", "user \"b\" None"]);
}

#[test]
fn the_first_model_of_the_assistant_counts() {
    let mut reading = Reading::new();
    for text in [
        r#"{"type": "user", "model": "m0"}"#,
        r#"{"type": "assistant", "model": 7}"#,
        r#"{"type": "assistant", "model": "m1"}"#,
        r#"{"type": "assistant", "model": "m2"}"#,
    ] {
        reading.take(&Json::parse(text).unwrap());
    }
    assert_eq!(reading.model.as_deref(), Some("m1"));
    assert!(reading.transcript.messages.is_empty());
}

#[test]
fn transcripts_join() {
    let front = "{\"type\": \"assistant\", \"content\": \"a\", \"model\": \"m1\"}";
    let back = "{\"type\": \"assistant\", \"content\": \"b\", \"model\": \"m2\"}";
    let ended = format!("{}\n", front);
    for first in [front, ended.as_str()] {
        let text = format!("{}\n{}", first, back);
        let (transcript, model) = TraePreset::transcript_and_model_from_trae_jsonl(&text);
        assert_eq!(said(&transcript), vec!["assistant \"a\" None", "assistant \"b\" None"]);
        assert_eq!(model.as_deref(), Some("m1"));
    }
}

#[test]
fn other_lines_are_skipped() {
    let user = "{\"type\": \"user\", \"content\": \"a\"}";
    for line in ["", "  ", "nonsense", "[]", "{\"content\": \"x\"}", "{\"type\": \"system\", \"content\": \"x\", \"model\": \"m\"}"] {
        let text = format!("{}\n{}\n{}", user, line, user);
        let (transcript, model) = TraePreset::transcript_and_model_from_trae_jsonl(&text);
        assert_eq!(said(&transcript), vec!["user \"a\" None", "user \"a\" None"]);
        assert!(model.is_none());
    }
}
