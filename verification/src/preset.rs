//! The checkpoint preset: an editor hook event becomes a checkpoint.

use crate::error::GitAiError;
use crate::json::{parsed, Json, Tree};
use crate::text::{
    is_blank, is_white_space, law_trimming_takes_white_space_off, lemma_lines_concat,
    lemma_lines_ended, lemma_trimmed, lines, lines_of, opt_str, opt_text, same_text, texts, trim,
    trimmed,
};
use crate::transcript::{named_model, owned, sayings, tool_uses, AiTranscript, Reading, Saying};
use vstd::hash_map::StringHashMap;
use vstd::prelude::*;

verus! {

// ---------------------------------------------------------------------------
// Checkpoints
// ---------------------------------------------------------------------------

/// What a preset is run on.
pub struct AgentCheckpointFlags {
    /// What the editor's hook handed in.
    pub hook_input: Option<String>,
}

/// The conversation that a checkpoint belongs to.
pub struct AgentId {
    pub tool: String,
    pub id: String,
    pub model: String,
}

/// Who made the changes that a checkpoint closes.
#[derive(Clone, Copy, Debug, PartialEq, Eq, Structural)]
pub enum CheckpointKind {
    Human,
    AiAgent,
}

/// A checkpoint.
pub struct AgentRunResult {
    pub agent_id: AgentId,
    pub agent_metadata: Option<StringHashMap<String>>,
    pub checkpoint_kind: CheckpointKind,
    pub transcript: Option<AiTranscript>,
    pub repo_working_dir: Option<String>,
    pub edited_filepaths: Option<Vec<String>>,
    pub will_edit_filepaths: Option<Vec<String>>,
    pub dirty_files: Option<StringHashMap<String>>,
    pub captured_checkpoint_id: Option<String>,
}

/// A checkpoint that waits for the conversation before it.
pub struct PendingRun {
    pub agent_id: AgentId,
    pub repo_working_dir: Option<String>,
    pub edited_filepaths: Option<Vec<String>>,
    /// Where the conversation can be read, if the hook told.
    pub transcript_path: Option<String>,
}

/// How far a run came.
pub enum RunStep {
    /// The checkpoint is made.
    Finished(AgentRunResult),
    /// The conversation has to be read first.
    NeedsTranscript(PendingRun),
}

/// What an [`AgentId`] says.
pub struct Agent {
    pub tool: Seq<char>,
    pub id: Seq<char>,
    pub model: Seq<char>,
}

/// What an [`AgentRunResult`] says.
pub struct Checkpoint {
    pub agent: Agent,
    pub metadata: Option<Map<Seq<char>, Seq<char>>>,
    pub kind: CheckpointKind,
    pub transcript: Option<Seq<Saying>>,
    pub repo_working_dir: Option<Seq<char>>,
    pub edited: Option<Seq<Seq<char>>>,
    pub will_edit: Option<Seq<Seq<char>>>,
    pub dirty_files: Option<Map<Seq<char>, Seq<char>>>,
    pub captured_checkpoint_id: Option<Seq<char>>,
}

/// What a [`PendingRun`] says.
pub struct Pending {
    pub agent: Agent,
    pub repo_working_dir: Option<Seq<char>>,
    pub edited: Option<Seq<Seq<char>>>,
    pub transcript_path: Option<Seq<char>>,
}

/// What a [`RunStep`] says.
pub enum Step {
    Finished(Checkpoint),
    NeedsTranscript(Pending),
}

/// The texts of an optional list of strings.
pub open spec fn opt_list(list: Option<Vec<String>>) -> Option<Seq<Seq<char>>> {
    match list {
        Some(strings) => Some(texts(strings@)),
        None => None,
    }
}

/// The texts of an optional table of strings.
pub open spec fn opt_table(table: Option<StringHashMap<String>>) -> Option<
    Map<Seq<char>, Seq<char>>,
> {
    match table {
        Some(entries) => Some(entries@.map_values(|value: String| value@)),
        None => None,
    }
}

impl AgentId {
    /// What it says.
    pub open spec fn view(&self) -> Agent {
        Agent { tool: self.tool@, id: self.id@, model: self.model@ }
    }
}

impl AgentRunResult {
    /// What the checkpoint says.
    pub open spec fn view(&self) -> Checkpoint {
        Checkpoint {
            agent: self.agent_id@,
            metadata: opt_table(self.agent_metadata),
            kind: self.checkpoint_kind,
            transcript: match self.transcript {
                Some(transcript) => Some(transcript@),
                None => None,
            },
            repo_working_dir: opt_text(self.repo_working_dir),
            edited: opt_list(self.edited_filepaths),
            will_edit: opt_list(self.will_edit_filepaths),
            dirty_files: opt_table(self.dirty_files),
            captured_checkpoint_id: opt_text(self.captured_checkpoint_id),
        }
    }
}

impl PendingRun {
    /// What is known so far.
    pub open spec fn view(&self) -> Pending {
        Pending {
            agent: self.agent_id@,
            repo_working_dir: opt_text(self.repo_working_dir),
            edited: opt_list(self.edited_filepaths),
            transcript_path: opt_text(self.transcript_path),
        }
    }
}

impl RunStep {
    /// What the step says.
    pub open spec fn view(&self) -> Step {
        match *self {
            RunStep::Finished(result) => Step::Finished(result@),
            RunStep::NeedsTranscript(pending) => Step::NeedsTranscript(pending@),
        }
    }
}

// ---------------------------------------------------------------------------
// What a hook event asks for
// ---------------------------------------------------------------------------

/// The text of the first of two members that is there; a member that is there but
/// is no text is not passed over.
pub open spec fn either_text(hook: Tree, first: Seq<char>, second: Seq<char>) -> Option<Seq<char>> {
    match hook.member(first) {
        Some(member) => member.text(),
        None => hook.text_member(second),
    }
}

/// The event that the hook ran on.
pub open spec fn event_name(hook: Tree) -> Option<Seq<char>> {
    either_text(hook, "hook_event_name"@, "hookEventName"@)
}

/// The conversation that the hook ran in.
pub open spec fn conversation(hook: Tree) -> Option<Seq<char>> {
    either_text(hook, "conversation_id"@, "session_id"@)
}

/// The directory that the hook ran in.
pub open spec fn working_dir(hook: Tree) -> Option<Seq<char>> {
    either_text(hook, "cwd"@, "repo_working_dir"@)
}

/// The model of the conversation.
pub open spec fn model_name(hook: Tree) -> Seq<char> {
    match hook.text_member("model"@) {
        Some(model) => model,
        None => "unknown"@,
    }
}

/// The file that the tool works on, as a list of one; nothing where the hook
/// names none, or an empty one.
pub open spec fn tool_files(hook: Tree) -> Option<Seq<Seq<char>>> {
    match hook.member("tool_input"@) {
        Some(input) => match input.text_member("file_path"@) {
            Some(path) if path.len() > 0 => Some(seq![path]),
            _ => None,
        },
        None => None,
    }
}

/// The conversation as the checkpoint names it.
pub open spec fn agent(hook: Tree) -> Agent
    recommends
        conversation(hook) is Some,
{
    Agent { tool: "trae"@, id: conversation(hook)->0, model: model_name(hook) }
}

/// The checkpoint before the use of a tool: it closes what the user did.
pub open spec fn human_checkpoint(hook: Tree) -> Checkpoint {
    Checkpoint {
        agent: agent(hook),
        metadata: None,
        kind: CheckpointKind::Human,
        transcript: None,
        repo_working_dir: working_dir(hook),
        edited: None,
        will_edit: tool_files(hook),
        dirty_files: None,
        captured_checkpoint_id: None,
    }
}

/// The checkpoint after the use of a tool, before the conversation is read.
pub open spec fn pending_checkpoint(hook: Tree) -> Pending {
    Pending {
        agent: agent(hook),
        repo_working_dir: working_dir(hook),
        edited: tool_files(hook),
        transcript_path: hook.text_member("transcript_path"@),
    }
}

/// The checkpoint after the use of a tool: it closes what the agent did, with the
/// conversation that led there.
pub open spec fn agent_checkpoint(pending: Pending, transcript: Seq<Saying>) -> Checkpoint {
    Checkpoint {
        agent: pending.agent,
        metadata: match pending.transcript_path {
            Some(path) => Some(map!["transcript_path"@ => path]),
            None => None,
        },
        kind: CheckpointKind::AiAgent,
        transcript: Some(transcript),
        repo_working_dir: pending.repo_working_dir,
        edited: pending.edited,
        will_edit: None,
        dirty_files: None,
        captured_checkpoint_id: None,
    }
}

/// What becomes of a hook event: a step, or the message that tells what is wrong
/// with it.
pub open spec fn step_for(hook: Tree) -> Result<Step, Seq<char>> {
    if event_name(hook) is None {
        Err("hook_event_name not found in hook_input"@)
    } else if conversation(hook) is None {
        Err("conversation_id or session_id not found in hook_input"@)
    } else if event_name(hook) == Some("preToolUse"@) {
        Ok(Step::Finished(human_checkpoint(hook)))
    } else if event_name(hook) == Some("postToolUse"@) {
        Ok(Step::NeedsTranscript(pending_checkpoint(hook)))
    } else {
        Err(
            "Invalid hook_event_name: "@ + event_name(hook)->0
                + ". Expected 'preToolUse' or 'postToolUse'"@,
        )
    }
}

/// What becomes of a hook input: a step, or the message that tells what is wrong
/// with it.
pub open spec fn step_for_input(input: Option<Seq<char>>) -> Result<Step, Seq<char>> {
    match input {
        Some(text) => match parsed(text) {
            Ok(hook) => step_for(hook),
            Err(message) => Err("Invalid JSON in hook_input: "@ + message),
        },
        None => Err("hook_input is required for Trae preset"@),
    }
}

/// Whether an outcome is that step, or that message.
pub open spec fn is_step(
    outcome: Result<RunStep, GitAiError>,
    expected: Result<Step, Seq<char>>,
) -> bool {
    match (outcome, expected) {
        (Ok(step), Ok(said)) => step@ == said,
        (Err(GitAiError::PresetError(message)), Err(text)) => message@ == text,
        _ => false,
    }
}

// ---------------------------------------------------------------------------
// What a transcript file says
// ---------------------------------------------------------------------------

/// The entry on a line; a blank line has none, nor has one that is not JSON.
pub open spec fn line_entry(line: Seq<char>) -> Option<Tree> {
    if trimmed(line).len() == 0 {
        None
    } else {
        match parsed(trimmed(line)) {
            Ok(entry) => Some(entry),
            Err(_) => None,
        }
    }
}

/// What a line says.
pub open spec fn line_sayings(line: Seq<char>) -> Seq<Saying> {
    match line_entry(line) {
        Some(entry) => sayings(entry),
        None => seq![],
    }
}

/// The model that a line names.
pub open spec fn line_model(line: Seq<char>) -> Option<Seq<char>> {
    match line_entry(line) {
        Some(entry) => named_model(entry),
        None => None,
    }
}

/// What the lines of a file say, one after the other.
pub open spec fn lines_sayings(list: Seq<Seq<char>>) -> Seq<Saying>
    decreases list.len(),
{
    if list.len() == 0 {
        seq![]
    } else {
        lines_sayings(list.drop_last()) + line_sayings(list.last())
    }
}

/// The first model that the lines of a file name.
pub open spec fn lines_model(list: Seq<Seq<char>>) -> Option<Seq<char>>
    decreases list.len(),
{
    if list.len() == 0 {
        None
    } else {
        match lines_model(list.drop_last()) {
            Some(model) => Some(model),
            None => line_model(list.last()),
        }
    }
}

// ---------------------------------------------------------------------------
// The preset
// ---------------------------------------------------------------------------

/// Trae IDE to checkpoint preset.
pub struct TraePreset;

/// The text of the first of two members that is there.
fn either_str<'a>(hook: &'a Json, first: &str, second: &str) -> (text: Option<&'a str>)
    ensures
        opt_str(text) == either_text(hook@, first@, second@),
{
    match hook.get(first) {
        Some(member) => member.as_str(),
        None => hook.get_str(second),
    }
}

/// The file that the tool works on, as a list of one.
fn files_of_tool(hook: &Json) -> (files: Option<Vec<String>>)
    ensures
        opt_list(files) == tool_files(hook@),
{
    let input = match hook.get("tool_input") {
        Some(input) => input,
        None => return None,
    };
    match input.get_str("file_path") {
        Some(path) if !path.is_empty() => {
            let mut files: Vec<String> = Vec::new();
            files.push(path.to_owned());
            assert(texts(files@) =~= seq![path@]);
            Some(files)
        },
        _ => None,
    }
}

impl TraePreset {
    /// Turns what the editor's hook handed in into a checkpoint, as far as that
    /// goes without the conversation.
    pub fn run(&self, flags: AgentCheckpointFlags) -> (outcome: Result<RunStep, GitAiError>)
        ensures
            is_step(outcome, step_for_input(opt_text(flags.hook_input))),
    {
        let input = match flags.hook_input {
            Some(input) => input,
            None => return Err(
                GitAiError::PresetError("hook_input is required for Trae preset".to_owned()),
            ),
        };
        match Json::parse(input.as_str()) {
            Ok(hook) => Self::step(&hook),
            Err(message) => Err(
                GitAiError::PresetError(
                    "Invalid JSON in hook_input: ".to_owned().concat(message.as_str()),
                ),
            ),
        }
    }

    /// Turns a hook event into a checkpoint, as far as that goes without the
    /// conversation.
    pub fn step(hook: &Json) -> (outcome: Result<RunStep, GitAiError>)
        ensures
            is_step(outcome, step_for(hook@)),
    {
        let event = match either_str(hook, "hook_event_name", "hookEventName") {
            Some(event) => event,
            None => return Err(
                GitAiError::PresetError("hook_event_name not found in hook_input".to_owned()),
            ),
        };
        let conversation_id = match either_str(hook, "conversation_id", "session_id") {
            Some(id) => id,
            None => return Err(
                GitAiError::PresetError(
                    "conversation_id or session_id not found in hook_input".to_owned(),
                ),
            ),
        };
        let model = match hook.get_str("model") {
            Some(model) => model.to_owned(),
            None => "unknown".to_owned(),
        };
        let repo_working_dir = owned(either_str(hook, "cwd", "repo_working_dir"));
        let before = same_text(event, "preToolUse");
        if !before && !same_text(event, "postToolUse") {
            let message = "Invalid hook_event_name: ".to_owned().concat(event).concat(
                ". Expected 'preToolUse' or 'postToolUse'",
            );
            return Err(GitAiError::PresetError(message));
        }
        let files = files_of_tool(hook);
        let agent_id = AgentId { tool: "trae".to_owned(), id: conversation_id.to_owned(), model };
        if before {
            Ok(
                RunStep::Finished(
                    AgentRunResult {
                        agent_id,
                        agent_metadata: None,
                        checkpoint_kind: CheckpointKind::Human,
                        transcript: None,
                        repo_working_dir,
                        edited_filepaths: None,
                        will_edit_filepaths: files,
                        dirty_files: None,
                        captured_checkpoint_id: None,
                    },
                ),
            )
        } else {
            Ok(
                RunStep::NeedsTranscript(
                    PendingRun {
                        agent_id,
                        repo_working_dir,
                        edited_filepaths: files,
                        transcript_path: owned(hook.get_str("transcript_path")),
                    },
                ),
            )
        }
    }

    /// Finishes a checkpoint with the text of the conversation, where it could be
    /// read; without one the conversation is left empty.
    pub fn finish(pending: PendingRun, content: Option<&str>) -> (result: AgentRunResult)
        ensures
            result@ == agent_checkpoint(
                pending@,
                match content {
                    Some(text) => lines_sayings(lines_of(text@)),
                    None => Seq::empty(),
                },
            ),
    {
        let transcript = match content {
            Some(text) => Self::transcript_and_model_from_trae_jsonl(text).0,
            None => AiTranscript::new(),
        };
        let agent_metadata = match pending.transcript_path {
            Some(path) => {
                let mut table: StringHashMap<String> = StringHashMap::new();
                table.insert("transcript_path".to_owned(), path);
                assert(table@.map_values(|value: String| value@)
                    =~= map!["transcript_path"@ => path@]);
                Some(table)
            },
            None => None,
        };
        AgentRunResult {
            agent_id: pending.agent_id,
            agent_metadata,
            checkpoint_kind: CheckpointKind::AiAgent,
            transcript: Some(transcript),
            repo_working_dir: pending.repo_working_dir,
            edited_filepaths: pending.edited_filepaths,
            will_edit_filepaths: None,
            dirty_files: None,
            captured_checkpoint_id: None,
        }
    }

    /// Parse the text of a Trae JSONL transcript into a transcript.
    /// Each line is a JSON object with a "type" field.
    pub fn transcript_and_model_from_trae_jsonl(content: &str) -> (res: (
        AiTranscript,
        Option<String>,
    ))
        ensures
            res.0@ == lines_sayings(lines_of(content@)),
            opt_text(res.1) == lines_model(lines_of(content@)),
    {
        let list = lines(content);
        let ghost all = lines_of(content@);
        let mut reading = Reading::new();
        let mut i: usize = 0;
        while i < list.len()
            invariant
                i <= list@.len(),
                all == texts(list@),
                reading.transcript@ == lines_sayings(all.take(i as int)),
                opt_text(reading.model) == lines_model(all.take(i as int)),
            decreases list@.len() - i,
        {
            proof {
                assert(all.take(i + 1).drop_last() =~= all.take(i as int));
                assert(all.take(i + 1).last() == list@[i as int]@);
            }
            let line = trim(list[i].as_str());
            if !line.as_str().is_empty() {
                if let Ok(entry) = Json::parse(line.as_str()) {
                    reading.take(&entry);
                }
            }
            assert(reading.transcript@ =~= lines_sayings(all.take(i + 1)));
            i += 1;
        }
        assert(all.take(i as int) =~= all);
        (reading.transcript, reading.model)
    }
}

// ---------------------------------------------------------------------------
// Laws
// ---------------------------------------------------------------------------

/// A hook event becomes a checkpoint if and only if it names a conversation and is
/// one of the two events; before the use of a tool the user's changes are closed,
/// after it the agent's.
pub proof fn law_events_become_checkpoints(hook: Tree)
    ensures
        step_for(hook) is Ok <==> conversation(hook) is Some && (event_name(hook) == Some(
            "preToolUse"@,
        ) || event_name(hook) == Some("postToolUse"@)),
        step_for(hook) matches Ok(Step::Finished(checkpoint)) ==> {
            &&& event_name(hook) == Some("preToolUse"@)
            &&& checkpoint.kind == CheckpointKind::Human
            &&& checkpoint.transcript is None
            &&& checkpoint.edited is None
        },
        step_for(hook) matches Ok(Step::NeedsTranscript(pending)) ==> {
            &&& event_name(hook) == Some("postToolUse"@)
            &&& forall|said: Seq<Saying>| #[trigger]
                agent_checkpoint(pending, said).kind == CheckpointKind::AiAgent
                    && agent_checkpoint(pending, said).transcript == Some(said)
                    && agent_checkpoint(pending, said).will_edit is None
        },
{
}

/// The path of the conversation is kept with the agent's checkpoint, so that it can
/// be read again, whatever came of reading it.
pub proof fn law_transcript_path_is_kept(hook: Tree, said: Seq<Saying>)
    ensures
        step_for(hook) matches Ok(Step::NeedsTranscript(pending)) ==> agent_checkpoint(
            pending,
            said,
        ).metadata == match hook.text_member("transcript_path"@) {
            Some(path) => Some(map!["transcript_path"@ => path]),
            None => None,
        },
{
}

/// What lines that follow one another say.
proof fn lemma_lines_add(front: Seq<Seq<char>>, back: Seq<Seq<char>>)
    ensures
        lines_sayings(front + back) == lines_sayings(front) + lines_sayings(back),
        lines_model(front + back) == match lines_model(front) {
            Some(model) => Some(model),
            None => lines_model(back),
        },
    decreases back.len(),
{
    if back.len() == 0 {
        assert(front + back =~= front);
        assert(lines_sayings(front) + lines_sayings(back) =~= lines_sayings(front));
    } else {
        assert((front + back).drop_last() =~= front + back.drop_last());
        lemma_lines_add(front, back.drop_last());
        assert(lines_sayings(front + back) =~= lines_sayings(front) + lines_sayings(back));
    }
}

/// Text added to a transcript file that ends with a line adds what it says, and
/// changes nothing of what was said before; the first model that was named stays.
pub proof fn law_transcripts_grow(front: Seq<char>, back: Seq<char>)
    requires
        front.len() == 0 || front.last() == '\n',
    ensures
        lines_sayings(lines_of(front + back)) == lines_sayings(lines_of(front)) + lines_sayings(
            lines_of(back),
        ),
        lines_model(lines_of(front + back)) == match lines_model(lines_of(front)) {
            Some(model) => Some(model),
            None => lines_model(lines_of(back)),
        },
{
    lemma_lines_concat(front, back);
    lemma_lines_add(lines_of(front), lines_of(back));
}

/// Two texts with a line feed between them say what the one says and then what the
/// other says, however the first one ends; the first model that was named counts.
pub proof fn law_transcripts_join(front: Seq<char>, back: Seq<char>)
    ensures
        lines_sayings(lines_of(front.push('\n') + back)) == lines_sayings(lines_of(front))
            + lines_sayings(lines_of(back)),
        lines_model(lines_of(front.push('\n') + back)) == match lines_model(lines_of(front)) {
            Some(model) => Some(model),
            None => lines_model(lines_of(back)),
        },
{
    law_transcripts_grow(front.push('\n'), back);
    lemma_lines_ended(front);
    let blank = Seq::<char>::empty();
    let list = lines_of(front);
    assert(line_entry(blank) is None);
    assert(list.push(blank).drop_last() =~= list);
    assert(lines_sayings(list.push(blank)) =~= lines_sayings(list));
}

/// A line that is blank or not JSON, or whose entry is neither the user's nor the
/// assistant's, might as well not be there.
pub proof fn law_other_lines_are_skipped(
    before: Seq<Seq<char>>,
    line: Seq<char>,
    after: Seq<Seq<char>>,
)
    requires
        line_entry(line) matches Some(entry) ==> {
            &&& entry.text_member("type"@) != Some("user"@)
            &&& entry.text_member("type"@) != Some("assistant"@)
        },
    ensures
        lines_sayings(before.push(line) + after) == lines_sayings(before + after),
        lines_model(before.push(line) + after) == lines_model(before + after),
{
    lemma_lines_add(before.push(line), after);
    lemma_lines_add(before, after);
    assert(before.push(line).drop_last() =~= before);
    assert(lines_sayings(before.push(line)) =~= lines_sayings(before));
}

/// Whether a saying in words has words, with no white space around them.
pub open spec fn has_words(saying: Saying) -> bool {
    match saying {
        Saying::User { text, .. } => {
            text.len() > 0 && !is_white_space(text[0]) && !is_white_space(text.last())
        },
        Saying::Assistant { text, .. } => {
            text.len() > 0 && !is_white_space(text[0]) && !is_white_space(text.last())
        },
        Saying::ToolUse { .. } => true,
    }
}

/// Nothing that was said in words is blank, and white space around it is gone.
pub proof fn law_sayings_have_words(list: Seq<Seq<char>>)
    ensures
        forall|i: int|
            0 <= i < lines_sayings(list).len() ==> has_words(#[trigger] lines_sayings(list)[i]),
    decreases list.len(),
{
    if list.len() > 0 {
        law_sayings_have_words(list.drop_last());
        if let Some(entry) = line_entry(list.last()) {
            lemma_entry_has_words(entry);
        }
        let front = lines_sayings(list.drop_last());
        let added = line_sayings(list.last());
        assert forall|i: int| 0 <= i < lines_sayings(list).len() implies has_words(
            #[trigger] lines_sayings(list)[i],
        ) by {
            if i < front.len() {
                assert(lines_sayings(list)[i] == front[i]);
            } else {
                assert(lines_sayings(list)[i] == added[i - front.len()]);
            }
        }
    }
}

proof fn lemma_entry_has_words(entry: Tree)
    ensures
        forall|i: int| 0 <= i < sayings(entry).len() ==> has_words(#[trigger] sayings(entry)[i]),
{
    if let Some(content) = entry.text_member("content"@) {
        lemma_trimmed(content);
    }
    if let Some(calls) = entry.array_member("tool_calls"@) {
        lemma_tools_have_words(calls, entry.text_member("timestamp"@));
    }
}

proof fn lemma_tools_have_words(calls: Seq<Tree>, timestamp: Option<Seq<char>>)
    ensures
        forall|i: int|
            0 <= i < tool_uses(calls, timestamp).len() ==> (#[trigger] tool_uses(
                calls,
                timestamp,
            )[i]) is ToolUse,
    decreases calls.len(),
{
    if calls.len() > 0 {
        lemma_tools_have_words(calls.drop_last(), timestamp);
    }
}

// ---------------------------------------------------------------------------
// What a checkpoint says of its event
// ---------------------------------------------------------------------------

/// Whether a text is that of the first of two members, or of the second one where the
/// first one is not there at all.
pub open spec fn names(hook: Tree, first: Seq<char>, second: Seq<char>, text: Seq<char>) -> bool {
    match hook.member(first) {
        Some(member) => member == Tree::Text(text),
        None => hook.member(second) == Some(Tree::Text(text)),
    }
}

/// Whether a hook event names that event.
pub open spec fn names_event(hook: Tree, event: Seq<char>) -> bool {
    names(hook, "hook_event_name"@, "hookEventName"@, event)
}

/// Whether a hook event names that conversation.
pub open spec fn names_conversation(hook: Tree, id: Seq<char>) -> bool {
    names(hook, "conversation_id"@, "session_id"@, id)
}

/// Whether a hook event names that directory.
pub open spec fn names_directory(hook: Tree, directory: Seq<char>) -> bool {
    names(hook, "cwd"@, "repo_working_dir"@, directory)
}

/// Whether the input of the tool names that file.
pub open spec fn names_file(hook: Tree, path: Seq<char>) -> bool {
    hook.member("tool_input"@) matches Some(input) && input.member("file_path"@) == Some(
        Tree::Text(path),
    )
}

/// Whether these are the files of a hook event: the one that the input of the tool
/// names, if that is not empty.
pub open spec fn are_files(hook: Tree, files: Option<Seq<Seq<char>>>) -> bool {
    match files {
        Some(list) => list.len() == 1 && list[0].len() > 0 && names_file(hook, list[0]),
        None => forall|path: Seq<char>| path.len() > 0 ==> !#[trigger] names_file(hook, path),
    }
}

/// The checkpoint that a step comes to, once the conversation is read.
pub open spec fn completed(step: Step, said: Seq<Saying>) -> Checkpoint {
    match step {
        Step::Finished(checkpoint) => checkpoint,
        Step::NeedsTranscript(pending) => agent_checkpoint(pending, said),
    }
}

/// The checkpoint of every event, before and after the use of a tool alike, belongs
/// to the conversation and the model that the event names, "unknown" only where it
/// names none, and to the directory that it names.
pub proof fn law_checkpoints_belong_to_their_event(hook: Tree, said: Seq<Saying>)
    requires
        step_for(hook) is Ok,
    ensures
        ({
            let made = completed(step_for(hook)->Ok_0, said);
            &&& made.agent.tool == "trae"@
            &&& names_conversation(hook, made.agent.id)
            &&& match hook.member("model"@) {
                Some(Tree::Text(model)) => made.agent.model == model,
                _ => made.agent.model == "unknown"@,
            }
            &&& match made.repo_working_dir {
                Some(directory) => names_directory(hook, directory),
                None => forall|directory: Seq<char>| !#[trigger] names_directory(hook, directory),
            }
            &&& made.dirty_files is None
            &&& made.captured_checkpoint_id is None
        }),
{
}

/// Before the use of a tool the checkpoint closes what the user did, and tells the
/// file that is going to be edited; it keeps no conversation.
pub proof fn law_checkpoint_before_a_tool(hook: Tree)
    requires
        names_event(hook, "preToolUse"@),
        step_for(hook) is Ok,
    ensures
        step_for(hook) matches Ok(Step::Finished(made)) && {
            &&& made.kind == CheckpointKind::Human
            &&& are_files(hook, made.will_edit)
            &&& made.edited is None
            &&& made.transcript is None
            &&& made.metadata is None
        },
{
    lemma_events_differ();
    lemma_tool_files(hook);
}

/// After the use of a tool the checkpoint closes what the agent did, and tells the
/// file that was edited, the conversation, and where that can be read again.
pub proof fn law_checkpoint_after_a_tool(hook: Tree, said: Seq<Saying>)
    requires
        names_event(hook, "postToolUse"@),
        step_for(hook) is Ok,
    ensures
        step_for(hook) matches Ok(Step::NeedsTranscript(pending)) && {
            let made = agent_checkpoint(pending, said);
            &&& made.kind == CheckpointKind::AiAgent
            &&& are_files(hook, made.edited)
            &&& made.will_edit is None
            &&& made.transcript == Some(said)
            &&& match hook.member("transcript_path"@) {
                Some(Tree::Text(path)) => {
                    &&& pending.transcript_path == Some(path)
                    &&& made.metadata matches Some(table) && table =~= map![
                        "transcript_path"@ => path,
                    ]
                },
                _ => pending.transcript_path is None && made.metadata is None,
            }
        },
{
    lemma_events_differ();
    lemma_tool_files(hook);
}

/// The names of the two events are different names.
proof fn lemma_events_differ()
    ensures
        "preToolUse"@ != "postToolUse"@,
{
    reveal_strlit("preToolUse");
    reveal_strlit("postToolUse");
    assert("preToolUse"@.len() != "postToolUse"@.len());
}

/// The files of the tool are the files of the hook event.
proof fn lemma_tool_files(hook: Tree)
    ensures
        are_files(hook, tool_files(hook)),
{
    if tool_files(hook) is None {
        assert forall|path: Seq<char>| path.len() > 0 implies !#[trigger] names_file(hook, path) by {
            if names_file(hook, path) {
                assert(hook.member("tool_input"@)->0.text_member("file_path"@) == Some(path));
            }
        }
    }
}

/// One and the same event, before and after the use of a tool: both checkpoints belong
/// to the same agent, conversation, model and directory, and the file that is going
/// to be edited is the file that was edited.
pub proof fn law_before_and_after_agree(hook: Tree, said: Seq<Saying>)
    requires
        hook is Object,
        exists|id: Seq<char>| names_conversation(hook, id),
    ensures
        ({
            let before = step_for(
                hook.with_member("hook_event_name"@, Tree::Text("preToolUse"@)),
            );
            let after = step_for(hook.with_member("hook_event_name"@, Tree::Text("postToolUse"@)));
            &&& before is Ok
            &&& after is Ok
            &&& completed(before->Ok_0, said).agent == completed(after->Ok_0, said).agent
            &&& completed(before->Ok_0, said).repo_working_dir == completed(
                after->Ok_0,
                said,
            ).repo_working_dir
            &&& completed(before->Ok_0, said).will_edit == completed(after->Ok_0, said).edited
        }),
{
    lemma_events_differ();
    reveal_strlit("hook_event_name");
    reveal_strlit("conversation_id");
    reveal_strlit("session_id");
    reveal_strlit("model");
    reveal_strlit("cwd");
    reveal_strlit("repo_working_dir");
    reveal_strlit("tool_input");
    let name = "hook_event_name"@;
    assert(name.len() == 15 && name[0] == 'h');
    assert("conversation_id"@[0] == 'c');
    assert("session_id"@.len() == 10);
    assert("model"@.len() == 5);
    assert("cwd"@.len() == 3);
    assert("repo_working_dir"@.len() == 16);
    assert("tool_input"@.len() == 10);
    let before = hook.with_member(name, Tree::Text("preToolUse"@));
    let after = hook.with_member(name, Tree::Text("postToolUse"@));
    assert forall|key: Seq<char>| key != name implies #[trigger] before.member(key) == hook.member(
        key,
    ) && after.member(key) == hook.member(key) by {}
    let id = choose|id: Seq<char>| names_conversation(hook, id);
    assert(conversation(before) == conversation(hook));
    assert(conversation(after) == conversation(hook));
    assert(conversation(hook) == Some(id));
    assert(working_dir(before) == working_dir(after));
    assert(model_name(before) == model_name(after));
    assert(tool_files(before) == tool_files(after));
}

/// Which events are refused, and what is said of them: first one that is not named,
/// then one without a conversation, then one of another name. Every other event
/// becomes a checkpoint.
pub proof fn law_refused_events(hook: Tree)
    ensures
        (forall|event: Seq<char>| !#[trigger] names_event(hook, event)) ==> step_for(hook) == Err::<
            Step,
            Seq<char>,
        >("hook_event_name not found in hook_input"@),
        forall|event: Seq<char>| #[trigger]
            names_event(hook, event) ==> {
                if forall|id: Seq<char>| !#[trigger] names_conversation(hook, id) {
                    step_for(hook) == Err::<Step, Seq<char>>(
                        "conversation_id or session_id not found in hook_input"@,
                    )
                } else if event == "preToolUse"@ || event == "postToolUse"@ {
                    step_for(hook) is Ok
                } else {
                    step_for(hook) == Err::<Step, Seq<char>>(
                        "Invalid hook_event_name: "@ + event
                            + ". Expected 'preToolUse' or 'postToolUse'"@,
                    )
                }
            },
{
    if let Some(event) = event_name(hook) {
        assert(names_event(hook, event));
    }
    if let Some(id) = conversation(hook) {
        assert(names_conversation(hook, id));
    }
}

/// What is made of the input of a hook: nothing without one, nor from one that is not
/// JSON, and that is said; otherwise what is made of the event in it.
pub proof fn law_hook_input(input: Seq<char>)
    ensures
        step_for_input(None) == Err::<Step, Seq<char>>("hook_input is required for Trae preset"@),
        parsed(input) matches Err(message) ==> step_for_input(Some(input)) == Err::<
            Step,
            Seq<char>,
        >("Invalid JSON in hook_input: "@ + message),
        parsed(input) matches Ok(hook) ==> step_for_input(Some(input)) == step_for(hook),
{
}

/// An outcome is a step if and only if it says that step, and a message if and only
/// if it is that message about the hook input.
pub proof fn law_outcomes_are_exact(
    outcome: Result<RunStep, GitAiError>,
    expected: Result<Step, Seq<char>>,
)
    requires
        is_step(outcome, expected),
    ensures
        outcome matches Ok(step) ==> expected == Ok::<Step, Seq<char>>(step@),
        outcome matches Err(error) ==> (error matches GitAiError::PresetError(message) && expected
            == Err::<Step, Seq<char>>(message@)),
{
}

/// A checkpoint, and one that waits, say all that they hold.
pub proof fn law_checkpoints_say_what_they_hold(result: AgentRunResult, pending: PendingRun)
    ensures
        result@.agent.tool == result.agent_id.tool@,
        result@.agent.id == result.agent_id.id@,
        result@.agent.model == result.agent_id.model@,
        result@.kind == result.checkpoint_kind,
        result@.transcript is Some <==> result.transcript is Some,
        result.transcript matches Some(transcript) ==> result@.transcript == Some(transcript@),
        result@.repo_working_dir == opt_text(result.repo_working_dir),
        result@.edited is Some <==> result.edited_filepaths is Some,
        result.edited_filepaths matches Some(list) ==> result@.edited == Some(texts(list@)),
        result@.will_edit is Some <==> result.will_edit_filepaths is Some,
        result.will_edit_filepaths matches Some(list) ==> result@.will_edit == Some(texts(list@)),
        result@.metadata is Some <==> result.agent_metadata is Some,
        result.agent_metadata matches Some(table) ==> {
            &&& result@.metadata->0.dom() =~= table@.dom()
            &&& forall|key: Seq<char>| #[trigger]
                table@.contains_key(key) ==> result@.metadata->0[key] == table@[key]@
        },
        result@.dirty_files is Some <==> result.dirty_files is Some,
        result@.captured_checkpoint_id == opt_text(result.captured_checkpoint_id),
        pending@.agent.tool == pending.agent_id.tool@,
        pending@.agent.id == pending.agent_id.id@,
        pending@.agent.model == pending.agent_id.model@,
        pending@.repo_working_dir == opt_text(pending.repo_working_dir),
        pending@.edited is Some <==> pending.edited_filepaths is Some,
        pending.edited_filepaths matches Some(list) ==> pending@.edited == Some(texts(list@)),
        pending@.transcript_path == opt_text(pending.transcript_path),
        RunStep::Finished(result)@ == Step::Finished(result@),
        RunStep::NeedsTranscript(pending)@ == Step::NeedsTranscript(pending@),
{
}

// ---------------------------------------------------------------------------
// What a transcript says, line by line
// ---------------------------------------------------------------------------

/// A file says what its lines say one after the other: two runs of lines say what
/// each of them says, no line says nothing, and one line says what its entry says.
pub proof fn law_lines_are_read_one_by_one(
    front: Seq<Seq<char>>,
    back: Seq<Seq<char>>,
    line: Seq<char>,
)
    ensures
        lines_sayings(front + back) == lines_sayings(front) + lines_sayings(back),
        lines_sayings(Seq::empty()) == Seq::<Saying>::empty(),
        is_blank(line) ==> lines_sayings(seq![line]) == Seq::<Saying>::empty(),
        !is_blank(line) ==> lines_sayings(seq![line]) == match parsed(trimmed(line)) {
            Ok(entry) => sayings(entry),
            Err(_) => Seq::empty(),
        },
{
    lemma_lines_add(front, back);
    law_trimming_takes_white_space_off(line);
    reveal_with_fuel(lines_sayings, 2);
    assert(seq![line].drop_last() =~= Seq::empty());
    assert(lines_sayings(seq![line]) =~= line_sayings(line));
}

/// The model of a file is the one that the first line names which names any; a line
/// names the model that its entry names.
pub proof fn law_first_model_counts(list: Seq<Seq<char>>, at: int)
    ensures
        (forall|i: int| 0 <= i < list.len() ==> (#[trigger] model_on(list[i])) is None)
            ==> lines_model(list) is None,
        0 <= at < list.len() && model_on(list[at]) is Some && (forall|i: int|
            0 <= i < at ==> (#[trigger] model_on(list[i])) is None) ==> lines_model(list)
            == model_on(list[at]),
    decreases list.len(),
{
    if list.len() > 0 {
        let front = list.drop_last();
        law_first_model_counts(front, at);
        law_trimming_takes_white_space_off(list.last());
        assert(line_model(list.last()) == model_on(list.last()));
        assert(list.last() == list[list.len() - 1]);
        if forall|i: int| 0 <= i < list.len() ==> (#[trigger] model_on(list[i])) is None {
            assert forall|i: int| 0 <= i < front.len() implies (
            #[trigger] model_on(front[i])) is None by {
                assert(model_on(list[i]) is None);
            }
            assert(model_on(list[list.len() - 1]) is None);
        }
        if 0 <= at < list.len() && model_on(list[at]) is Some && (forall|i: int|
            0 <= i < at ==> (#[trigger] model_on(list[i])) is None) {
            if at == list.len() - 1 {
                assert forall|i: int| 0 <= i < front.len() implies (
                #[trigger] model_on(front[i])) is None by {
                    assert(model_on(list[i]) is None);
                }
            } else {
                assert(front[at] == list[at]);
                assert forall|i: int| 0 <= i < at implies (
                #[trigger] model_on(front[i])) is None by {
                    assert(model_on(list[i]) is None);
                }
            }
        }
    }
}

/// The model that the entry on a line names, where the line is not blank and can be
/// read.
pub open spec fn model_on(line: Seq<char>) -> Option<Seq<char>> {
    match parsed(trimmed(line)) {
        Ok(entry) if !is_blank(line) => named_model(entry),
        _ => None,
    }
}

} // verus!
