//! Conversations: what was said, and how it is read out of the entries that the
//! editor writes.

use crate::json::{empty_object, item_trees, lemma_object_view, Json, Tree};
use crate::text::{
    is_blank, law_trimming_takes_white_space_off, opt_str, opt_text, same_text, trim, trimmed,
};
use vstd::prelude::*;

verus! {

/// One thing that was said or done in a conversation.
#[derive(Debug)]
pub enum Message {
    /// The user said something.
    User { text: String, timestamp: Option<String> },
    /// The assistant said something.
    Assistant { text: String, timestamp: Option<String> },
    /// The assistant used a tool.
    ToolUse { name: String, input: Json, timestamp: Option<String> },
}

/// What a [`Message`] says.
pub enum Saying {
    User { text: Seq<char>, timestamp: Option<Seq<char>> },
    Assistant { text: Seq<char>, timestamp: Option<Seq<char>> },
    ToolUse { name: Seq<char>, input: Tree, timestamp: Option<Seq<char>> },
}

impl Message {
    /// What the message says.
    pub open spec fn view(&self) -> Saying {
        match *self {
            Message::User { text, timestamp } => Saying::User {
                text: text@,
                timestamp: opt_text(timestamp),
            },
            Message::Assistant { text, timestamp } => Saying::Assistant {
                text: text@,
                timestamp: opt_text(timestamp),
            },
            Message::ToolUse { name, input, timestamp } => Saying::ToolUse {
                name: name@,
                input: input@,
                timestamp: opt_text(timestamp),
            },
        }
    }
}

/// A conversation, in the order in which it was held.
#[derive(Debug)]
pub struct AiTranscript {
    pub messages: Vec<Message>,
}

// ---------------------------------------------------------------------------
// What an entry says
// ---------------------------------------------------------------------------

/// What an entry says in words, where that is not blank.
pub open spec fn words(entry: Tree) -> Option<Seq<char>> {
    match entry.text_member("content"@) {
        Some(content) if trimmed(content).len() > 0 => Some(trimmed(content)),
        _ => None,
    }
}

/// What a call of a tool says; a call without a name says nothing.
pub open spec fn tool_use(call: Tree, timestamp: Option<Seq<char>>) -> Seq<Saying> {
    match call.text_member("name"@) {
        Some(name) => {
            let input = match call.member("args"@) {
                Some(args) => args,
                None => empty_object(),
            };
            seq![Saying::ToolUse { name, input, timestamp }]
        },
        None => seq![],
    }
}

/// What some calls of tools say, one after the other.
pub open spec fn tool_uses(calls: Seq<Tree>, timestamp: Option<Seq<char>>) -> Seq<Saying>
    decreases calls.len(),
{
    if calls.len() == 0 {
        seq![]
    } else {
        tool_uses(calls.drop_last(), timestamp) + tool_use(calls.last(), timestamp)
    }
}

/// What an entry of the user says.
pub open spec fn user_says(entry: Tree) -> Seq<Saying> {
    match words(entry) {
        Some(text) => seq![Saying::User { text, timestamp: entry.text_member("timestamp"@) }],
        None => seq![],
    }
}

/// What an entry of the assistant says in words.
pub open spec fn assistant_says(entry: Tree) -> Seq<Saying> {
    match words(entry) {
        Some(text) => seq![
            Saying::Assistant { text, timestamp: entry.text_member("timestamp"@) },
        ],
        None => seq![],
    }
}

/// What an entry of the assistant does with tools.
pub open spec fn assistant_does(entry: Tree) -> Seq<Saying> {
    match entry.array_member("tool_calls"@) {
        Some(calls) => tool_uses(calls, entry.text_member("timestamp"@)),
        None => seq![],
    }
}

/// What an entry says: what the user or the assistant said, and then what the
/// assistant did. An entry of another type says nothing.
pub open spec fn sayings(entry: Tree) -> Seq<Saying> {
    if entry.text_member("type"@) == Some("user"@) {
        user_says(entry)
    } else if entry.text_member("type"@) == Some("assistant"@) {
        assistant_says(entry) + assistant_does(entry)
    } else {
        seq![]
    }
}

/// The model that an entry of the assistant names.
pub open spec fn named_model(entry: Tree) -> Option<Seq<char>> {
    if entry.text_member("type"@) == Some("assistant"@) {
        entry.text_member("model"@)
    } else {
        None
    }
}

// ---------------------------------------------------------------------------
// Reading entries
// ---------------------------------------------------------------------------

/// A string of one's own, where there is one.
pub fn owned(text: Option<&str>) -> (copy: Option<String>)
    ensures
        opt_text(copy) == opt_str(text),
{
    match text {
        Some(chars) => Some(chars.to_owned()),
        None => None,
    }
}

/// What an entry says in words, where that is not blank.
fn words_of(entry: &Json) -> (text: Option<String>)
    ensures
        opt_text(text) == words(entry@),
{
    match entry.get_str("content") {
        Some(content) => {
            let text = trim(content);
            if text.as_str().is_empty() {
                None
            } else {
                Some(text)
            }
        },
        None => None,
    }
}

impl AiTranscript {
    /// What was said.
    pub open spec fn view(&self) -> Seq<Saying> {
        Seq::new(self.messages@.len(), |i: int| self.messages@[i]@)
    }

    /// A conversation in which nothing was said.
    pub fn new() -> (transcript: AiTranscript)
        ensures
            transcript@ == Seq::<Saying>::empty(),
    {
        let transcript = AiTranscript { messages: Vec::new() };
        assert(transcript@ =~= Seq::empty());
        transcript
    }

    /// Adds what was said next.
    pub fn add_message(&mut self, message: Message)
        ensures
            final(self)@ == old(self)@.push(message@),
    {
        self.messages.push(message);
        assert(self@ =~= old(self)@.push(message@));
    }

    /// Adds what a call of a tool says.
    fn add_tool_call(&mut self, call: &Json, timestamp: Option<&str>)
        ensures
            final(self)@ == old(self)@ + tool_use(call@, opt_str(timestamp)),
    {
        broadcast use lemma_object_view;

        if let Some(name) = call.get_str("name") {
            let input = match call.get("args") {
                Some(args) => args.clone(),
                None => Json::Object(Vec::new()),
            };
            self.add_message(
                Message::ToolUse { name: name.to_owned(), input, timestamp: owned(timestamp) },
            );
            assert(self@ =~= old(self)@ + seq![self@.last()]);
        } else {
            assert(self@ =~= old(self)@ + seq![]);
        }
    }

    /// Adds what an entry says.
    pub fn add_entry(&mut self, entry: &Json)
        ensures
            final(self)@ == old(self)@ + sayings(entry@),
    {
        let kind = match entry.get_str("type") {
            Some(kind) => kind,
            None => {
                assert(self@ =~= old(self)@ + sayings(entry@));
                return;
            },
        };
        let timestamp = entry.get_str("timestamp");
        if same_text(kind, "user") {
            if let Some(text) = words_of(entry) {
                self.add_message(Message::User { text, timestamp: owned(timestamp) });
            }
            assert(self@ =~= old(self)@ + sayings(entry@));
        } else if same_text(kind, "assistant") {
            if let Some(text) = words_of(entry) {
                self.add_message(Message::Assistant { text, timestamp: owned(timestamp) });
            }
            let ghost said = old(self)@ + assistant_says(entry@);
            assert(self@ =~= said);
            if let Some(calls) = entry.get_array("tool_calls") {
                let ghost trees = item_trees(calls@);
                let ghost time = entry@.text_member("timestamp"@);
                let mut i: usize = 0;
                assert(self@ =~= said + tool_uses(trees.take(0), time));
                while i < calls.len()
                    invariant
                        i <= calls@.len(),
                        trees == item_trees(calls@),
                        time == opt_str(timestamp),
                        self@ == said + tool_uses(trees.take(i as int), time),
                    decreases calls@.len() - i,
                {
                    self.add_tool_call(&calls[i], timestamp);
                    assert(trees.take(i + 1).drop_last() =~= trees.take(i as int));
                    assert(self@ =~= said + tool_uses(trees.take(i + 1), time));
                    i += 1;
                }
                assert(trees.take(i as int) =~= trees);
            }
            assert(self@ =~= old(self)@ + sayings(entry@));
        } else {
            assert("user"@ != kind@);
            assert(self@ =~= old(self)@ + sayings(entry@));
        }
    }
}

/// The model that an entry of the assistant names.
pub fn model_of_entry(entry: &Json) -> (model: Option<String>)
    ensures
        opt_text(model) == named_model(entry@),
{
    match entry.get_str("type") {
        Some(kind) if same_text(kind, "assistant") => owned(entry.get_str("model")),
        _ => None,
    }
}

/// What was read of a conversation so far, and the first model that it named.
#[derive(Debug)]
pub struct Reading {
    pub transcript: AiTranscript,
    pub model: Option<String>,
}

impl Reading {
    /// Nothing was read yet.
    pub fn new() -> (reading: Reading)
        ensures
            reading.transcript@ == Seq::<Saying>::empty(),
            reading.model is None,
    {
        Reading { transcript: AiTranscript::new(), model: None }
    }

    /// Takes the next entry.
    pub fn take(&mut self, entry: &Json)
        ensures
            final(self).transcript@ == old(self).transcript@ + sayings(entry@),
            opt_text(final(self).model) == match old(self).model {
                Some(model) => Some(model@),
                None => named_model(entry@),
            },
    {
        self.transcript.add_entry(entry);
        if self.model.is_none() {
            self.model = model_of_entry(entry);
        }
    }
}

// ---------------------------------------------------------------------------
// Laws
// ---------------------------------------------------------------------------

/// The time that an entry gives, if that is a text.
pub open spec fn time_given(entry: Tree) -> Option<Seq<char>> {
    match entry.member("timestamp"@) {
        Some(Tree::Text(time)) => Some(time),
        _ => None,
    }
}

/// Whether an entry has content that is a text and not blank.
pub open spec fn speaks(entry: Tree) -> bool {
    match entry.member("content"@) {
        Some(Tree::Text(content)) => !is_blank(content),
        _ => false,
    }
}

/// Whether a text is the content of an entry without the white space around it.
pub open spec fn spoken(entry: Tree, text: Seq<char>) -> bool {
    match entry.member("content"@) {
        Some(Tree::Text(content)) => text == trimmed(content),
        _ => false,
    }
}

/// The calls of tools that an entry lists with a name that is a text.
pub open spec fn named_calls(entry: Tree) -> Seq<Tree> {
    match entry.member("tool_calls"@) {
        Some(Tree::Array(calls)) => calls.filter(|call: Tree| call.member("name"@) is Some
            && call.member("name"@)->0 is Text),
        _ => Seq::empty(),
    }
}

/// Whether a saying is the use of a tool by that call: of that name, with its
/// arguments or an object without members where it has none, at that time.
pub open spec fn uses_tool(saying: Saying, call: Tree, time: Option<Seq<char>>) -> bool {
    match saying {
        Saying::ToolUse { name, input, timestamp } => {
            &&& call.member("name"@) == Some(Tree::Text(name))
            &&& match call.member("args"@) {
                Some(args) => input == args,
                None => input is Object && forall|key: Seq<char>| (#[trigger] input.member(
                    key,
                )) is None,
            }
            &&& timestamp == time
        },
        _ => false,
    }
}

/// What an entry of the assistant says: first its words, where it has any, and then,
/// whether it has words or not, the use of a tool for each call with a name, in the
/// order of the calls.
pub proof fn law_assistant_entries(entry: Tree)
    requires
        entry.member("type"@) == Some(Tree::Text("assistant"@)),
    ensures
        ({
            let said = sayings(entry);
            let before: int = if speaks(entry) {
                1
            } else {
                0
            };
            &&& said.len() == before + named_calls(entry).len()
            &&& speaks(entry) ==> (said[0] matches Saying::Assistant { text, timestamp } && spoken(
                entry,
                text,
            ) && timestamp == time_given(entry))
            &&& forall|i: int|
                0 <= i < named_calls(entry).len() ==> uses_tool(
                    said[before + i],
                    #[trigger] named_calls(entry)[i],
                    time_given(entry),
                )
        }),
{
    lemma_types_differ();
    if let Some(Tree::Text(content)) = entry.member("content"@) {
        law_trimming_takes_white_space_off(content);
    }
    let said = assistant_says(entry);
    let did = assistant_does(entry);
    assert(sayings(entry) == said + did);
    assert(said.len() == if speaks(entry) {
        1int
    } else {
        0int
    });
    if let Some(Tree::Array(calls)) = entry.member("tool_calls"@) {
        lemma_named_calls(calls, time_given(entry));
    }
    assert forall|i: int| 0 <= i < named_calls(entry).len() implies uses_tool(
        sayings(entry)[said.len() + i],
        #[trigger] named_calls(entry)[i],
        time_given(entry),
    ) by {
        assert(sayings(entry)[said.len() + i] == did[i]);
    }
}

/// The calls with a name are the ones that say something.
proof fn lemma_named_calls(calls: Seq<Tree>, time: Option<Seq<char>>)
    ensures
        ({
            let named = calls.filter(
                |call: Tree| call.member("name"@) is Some && call.member("name"@)->0 is Text,
            );
            &&& tool_uses(calls, time).len() == named.len()
            &&& forall|i: int|
                0 <= i < named.len() ==> uses_tool(
                    tool_uses(calls, time)[i],
                    #[trigger] named[i],
                    time,
                )
        }),
    decreases calls.len(),
{
    reveal(Seq::filter);
    let is_named = |call: Tree| call.member("name"@) is Some && call.member("name"@)->0 is Text;
    let named = calls.filter(is_named);
    if calls.len() > 0 {
        let front = calls.drop_last();
        lemma_named_calls(front, time);
        let fewer = front.filter(is_named);
        assert forall|i: int| 0 <= i < named.len() implies uses_tool(
            tool_uses(calls, time)[i],
            #[trigger] named[i],
            time,
        ) by {
            if i < fewer.len() {
                assert(named[i] == fewer[i]);
                assert(tool_uses(calls, time)[i] == tool_uses(front, time)[i]);
            } else {
                assert(named[i] == calls.last());
                assert(tool_uses(calls, time)[i] == tool_use(calls.last(), time)[0]);
            }
        }
    }
}

/// The names of the two types are different names.
proof fn lemma_types_differ()
    ensures
        "user"@ != "assistant"@,
{
    reveal_strlit("user");
    reveal_strlit("assistant");
    assert("user"@.len() != "assistant"@.len());
}

/// What an entry of the user says: its words, where it has any, and nothing else. It
/// names no model.
pub proof fn law_user_entries(entry: Tree)
    requires
        entry.member("type"@) == Some(Tree::Text("user"@)),
    ensures
        sayings(entry).len() == if speaks(entry) {
            1int
        } else {
            0int
        },
        speaks(entry) ==> (sayings(entry)[0] matches Saying::User { text, timestamp } && spoken(
            entry,
            text,
        ) && timestamp == time_given(entry)),
        named_model(entry) is None,
{
    lemma_types_differ();
    if let Some(Tree::Text(content)) = entry.member("content"@) {
        law_trimming_takes_white_space_off(content);
    }
}

/// An entry that is neither the user's nor the assistant's says nothing and names no
/// model.
pub proof fn law_other_entries(entry: Tree)
    requires
        entry.member("type"@) != Some(Tree::Text("user"@)),
        entry.member("type"@) != Some(Tree::Text("assistant"@)),
    ensures
        sayings(entry).len() == 0,
        named_model(entry) is None,
{
}

/// An entry of the assistant names the model that its member says, if that is a
/// text, whatever else it says.
pub proof fn law_assistant_names_model(entry: Tree)
    requires
        entry.member("type"@) == Some(Tree::Text("assistant"@)),
    ensures
        named_model(entry) == match entry.member("model"@) {
            Some(Tree::Text(model)) => Some(model),
            _ => None,
        },
{
}

/// A message says what it holds, and a conversation says what its messages say, in
/// their order.
pub proof fn law_messages_say_what_they_hold(
    text: String,
    name: String,
    input: Json,
    timestamp: Option<String>,
    transcript: AiTranscript,
)
    ensures
        (Message::User { text, timestamp })@ == (Saying::User {
            text: text@,
            timestamp: opt_text(timestamp),
        }),
        (Message::Assistant { text, timestamp })@ == (Saying::Assistant {
            text: text@,
            timestamp: opt_text(timestamp),
        }),
        (Message::ToolUse { name, input, timestamp })@ == (Saying::ToolUse {
            name: name@,
            input: input@,
            timestamp: opt_text(timestamp),
        }),
        timestamp matches Some(time) ==> opt_text(timestamp) == Some(time@),
        timestamp is None ==> opt_text(timestamp) is None,
        transcript@.len() == transcript.messages@.len(),
        forall|i: int|
            0 <= i < transcript.messages@.len() ==> #[trigger] transcript@[i]
                == transcript.messages@[i]@,
{
}

} // verus!
