//! The editor's hook file: which of its hooks are checkpoint hooks, and how they
//! are put in and taken out again.
//!
//! A hook file is an object whose member `hooks` maps the name of an event to the
//! list of hooks that run on it. A hook is an object with a `command`.

use crate::json::{
    decimal, empty_object, item_trees, lemma_array_view, lemma_object_view, Json, Tree,
};
use crate::text::{contains, occurs, same_text};
use vstd::prelude::*;

verus! {

// ---------------------------------------------------------------------------
// What the file says
// ---------------------------------------------------------------------------

/// What the checkpoint hook passes to the tool's binary.
pub const HOOK_ARGUMENTS: &'static str = "checkpoint trae --hook-input stdin";

/// Whether a command runs a Trae checkpoint.
pub open spec fn is_checkpoint_command(command: Seq<char>) -> bool {
    ||| occurs(command, "git-ai checkpoint trae"@)
    ||| {
        &&& occurs(command, "git-ai"@)
        &&& occurs(command, "checkpoint"@)
        &&& occurs(command, "trae"@)
    }
}

/// Whether a hook runs a Trae checkpoint.
pub open spec fn is_checkpoint_hook(hook: Tree) -> bool {
    match hook.text_member("command"@) {
        Some(command) => is_checkpoint_command(command),
        None => false,
    }
}

/// The command that the binary at `binary` is hooked in with.
pub open spec fn hook_command(binary: Seq<char>) -> Seq<char> {
    binary + " "@ + HOOK_ARGUMENTS@
}

/// The hook that runs a command.
pub open spec fn hook_of(command: Seq<char>) -> Tree {
    empty_object().with_member("command"@, Tree::Text(command))
}

/// The position of the first checkpoint hook from `from` on, or the length of the
/// list where there is none.
pub open spec fn first_checkpoint(hooks: Seq<Tree>, from: int) -> int
    decreases hooks.len() - from,
{
    if from >= hooks.len() || is_checkpoint_hook(hooks[from]) {
        from
    } else {
        first_checkpoint(hooks, from + 1)
    }
}

/// A list of hooks in which the command is hooked in: the first checkpoint hook
/// now runs it, and where there was none, a hook is added.
pub open spec fn hooked(hooks: Seq<Tree>, command: Seq<char>) -> Seq<Tree> {
    let at = first_checkpoint(hooks, 0);
    if at >= hooks.len() {
        hooks.push(hook_of(command))
    } else if hooks[at].text_member("command"@) == Some(command) {
        hooks
    } else {
        hooks.update(at, hook_of(command))
    }
}

/// The hooks of an event, none where the file lists none.
pub open spec fn hooks_on(hooks: Tree, event: Seq<char>) -> Seq<Tree> {
    match hooks.array_member(event) {
        Some(list) => list,
        None => Seq::empty(),
    }
}

/// The `hooks` of a file, empty where the file has none.
pub open spec fn hooks_in(file: Tree) -> Tree {
    match file.member("hooks"@) {
        Some(hooks) => hooks,
        None => empty_object(),
    }
}

/// The `hooks` of a file with the command hooked in on one event.
pub open spec fn hooked_on(hooks: Tree, event: Seq<char>, command: Seq<char>) -> Tree {
    hooks.with_member(event, Tree::Array(hooked(hooks_on(hooks, event), command)))
}

/// The file with its version, the first one where it names none.
pub open spec fn versioned(file: Tree) -> Tree {
    if file.member("version"@) is None {
        file.with_member("version"@, Tree::Number(decimal(1)))
    } else {
        file
    }
}

/// The file with the command hooked in, before and after the use of a tool.
pub open spec fn installed(file: Tree, command: Seq<char>) -> Tree {
    let before = hooked_on(hooks_in(file), "preToolUse"@, command);
    let after = hooked_on(before, "postToolUse"@, command);
    versioned(file).with_member("hooks"@, after)
}

/// The hooks of a list that run no checkpoint.
pub open spec fn other_hooks(hooks: Seq<Tree>) -> Seq<Tree> {
    hooks.filter(|hook: Tree| !is_checkpoint_hook(hook))
}

/// The `hooks` of a file without the checkpoint hooks on one event.
pub open spec fn unhooked_on(hooks: Tree, event: Seq<char>) -> Tree {
    match hooks.array_member(event) {
        Some(list) => hooks.with_member(event, Tree::Array(other_hooks(list))),
        None => hooks,
    }
}

/// The file without its checkpoint hooks.
pub open spec fn uninstalled(file: Tree) -> Tree {
    match file.member("hooks"@) {
        Some(hooks) => {
            let before = unhooked_on(hooks, "preToolUse"@);
            let after = unhooked_on(before, "postToolUse"@);
            file.with_member("hooks"@, after)
        },
        None => file,
    }
}

/// Whether the file hooks a checkpoint in before the use of a tool.
pub open spec fn hooks_checkpoint(file: Tree) -> bool {
    match file.member("hooks"@) {
        Some(hooks) => exists|i: int|
            0 <= i < hooks_on(hooks, "preToolUse"@).len() && is_checkpoint_hook(
                #[trigger] hooks_on(hooks, "preToolUse"@)[i],
            ),
        None => false,
    }
}

// ---------------------------------------------------------------------------
// Reading the file
// ---------------------------------------------------------------------------

/// Whether a command runs a Trae checkpoint.
pub fn runs_checkpoint(command: &str) -> (yes: bool)
    ensures
        yes == is_checkpoint_command(command@),
{
    contains(command, "git-ai checkpoint trae") || (contains(command, "git-ai") && contains(
        command,
        "checkpoint",
    ) && contains(command, "trae"))
}

/// Whether a hook runs a Trae checkpoint.
pub fn hook_runs_checkpoint(hook: &Json) -> (yes: bool)
    ensures
        yes == is_checkpoint_hook(hook@),
{
    match hook.get_str("command") {
        Some(command) => runs_checkpoint(command),
        None => false,
    }
}

/// Whether the file hooks a checkpoint in before the use of a tool.
pub fn has_hooks(file: &Json) -> (yes: bool)
    ensures
        yes == hooks_checkpoint(file@),
{
    let hooks = match file.get("hooks") {
        Some(hooks) => hooks,
        None => return false,
    };
    let list = match hooks.get_array("preToolUse") {
        Some(list) => list,
        None => return false,
    };
    let ghost trees = hooks_on(hooks@, "preToolUse"@);
    assert(trees == item_trees(list@));
    let mut i: usize = 0;
    while i < list.len()
        invariant
            i <= list@.len(),
            trees == item_trees(list@),
            trees == hooks_on(hooks@, "preToolUse"@),
            file@.member("hooks"@) == Some(hooks@),
            forall|j: int| 0 <= j < i ==> !is_checkpoint_hook(#[trigger] trees[j]),
        decreases list@.len() - i,
    {
        if hook_runs_checkpoint(&list[i]) {
            assert(is_checkpoint_hook(trees[i as int]));
            return true;
        }
        assert(!is_checkpoint_hook(trees[i as int]));
        i += 1;
    }
    false
}

// ---------------------------------------------------------------------------
// Putting the hooks in
// ---------------------------------------------------------------------------

/// The first checkpoint hook is the only place from `from` on that holds a
/// checkpoint hook with none before it.
pub proof fn lemma_first_checkpoint(hooks: Seq<Tree>, from: int, at: int)
    requires
        0 <= from <= at <= hooks.len(),
        forall|j: int| from <= j < at ==> !is_checkpoint_hook(#[trigger] hooks[j]),
        at < hooks.len() ==> is_checkpoint_hook(hooks[at]),
    ensures
        first_checkpoint(hooks, from) == at,
    decreases at - from,
{
    if from < at {
        assert(!is_checkpoint_hook(hooks[from]));
        lemma_first_checkpoint(hooks, from + 1, at);
    }
}

/// The hook that runs a command.
pub fn checkpoint_hook(command: &str) -> (hook: Json)
    ensures
        hook@ == hook_of(command@),
{
    broadcast use lemma_object_view;

    let mut hook = Json::Object(Vec::new());
    assert(hook@ == empty_object());
    hook.set("command", Json::Text(command.to_owned()));
    hook
}

/// Hooks the command in on one event.
pub fn hook_in(hooks: &mut Json, event: &str, command: &str)
    ensures
        final(hooks)@ == hooked_on(old(hooks)@, event@, command@),
{
    broadcast use lemma_array_view;

    let mut list: Vec<Json> = match hooks.get_array(event) {
        Some(list) => clone_list(list),
        None => Vec::new(),
    };
    let ghost trees = hooks_on(hooks@, event@);
    assert(item_trees(list@) =~= trees);
    let mut at: usize = 0;
    while at < list.len() && !hook_runs_checkpoint(&list[at])
        invariant
            at <= list@.len(),
            item_trees(list@) == trees,
            forall|j: int| 0 <= j < at ==> !is_checkpoint_hook(#[trigger] trees[j]),
        decreases list@.len() - at,
    {
        assert(!is_checkpoint_hook(trees[at as int]));
        at += 1;
    }
    proof {
        assert(at < trees.len() ==> is_checkpoint_hook(trees[at as int]));
        lemma_first_checkpoint(trees, 0, at as int);
    }
    if at == list.len() {
        list.push(checkpoint_hook(command));
        assert(item_trees(list@) =~= trees.push(hook_of(command@)));
    } else {
        let up_to_date = match list[at].get_str("command") {
            Some(present) => same_text(present, command),
            None => false,
        };
        if !up_to_date {
            list.set(at, checkpoint_hook(command));
            assert(item_trees(list@) =~= trees.update(at as int, hook_of(command@)));
        }
    }
    assert(item_trees(list@) == hooked(trees, command@));
    hooks.set(event, Json::Array(list));
}

/// A copy of a list of documents.
fn clone_list(list: &Vec<Json>) -> (copy: Vec<Json>)
    ensures
        item_trees(copy@) == item_trees(list@),
{
    let mut copy: Vec<Json> = Vec::new();
    let mut i: usize = 0;
    while i < list.len()
        invariant
            i <= list@.len(),
            copy@.len() == i,
            forall|j: int| 0 <= j < i ==> (#[trigger] copy@[j])@ == list@[j]@,
        decreases list@.len() - i,
    {
        copy.push(list[i].clone());
        i += 1;
    }
    assert(item_trees(copy@) =~= item_trees(list@));
    copy
}

/// The file with the command hooked in, before and after the use of a tool.
pub fn merge_hooks(file: &Json, command: &str) -> (merged: Json)
    ensures
        merged@ == installed(file@, command@),
{
    broadcast use lemma_object_view;

    let mut merged = file.clone();
    if merged.get("version").is_none() {
        merged.set("version", Json::integer(1));
    }
    let mut hooks = match file.get("hooks") {
        Some(hooks) => hooks.clone(),
        None => Json::Object(Vec::new()),
    };
    assert(hooks@ == hooks_in(file@));
    hook_in(&mut hooks, "preToolUse", command);
    hook_in(&mut hooks, "postToolUse", command);
    merged.set("hooks", hooks);
    merged
}

// ---------------------------------------------------------------------------
// Taking the hooks out
// ---------------------------------------------------------------------------

/// Takes the checkpoint hooks on one event out.
pub fn hook_out(hooks: &mut Json, event: &str)
    ensures
        final(hooks)@ == unhooked_on(old(hooks)@, event@),
{
    broadcast use lemma_array_view;

    let list = match hooks.get_array(event) {
        Some(list) => clone_list(list),
        None => return,
    };
    let ghost trees = item_trees(list@);
    let ghost keep = |hook: Tree| !is_checkpoint_hook(hook);
    let mut kept: Vec<Json> = Vec::new();
    let mut i: usize = 0;
    assert(trees.take(0).filter(keep) =~= Seq::empty()) by {
        reveal(Seq::filter);
    }
    while i < list.len()
        invariant
            i <= list@.len(),
            trees == item_trees(list@),
            keep == (|hook: Tree| !is_checkpoint_hook(hook)),
            item_trees(kept@) == trees.take(i as int).filter(keep),
        decreases list@.len() - i,
    {
        let ghost before = kept@;
        proof {
            reveal(Seq::filter);
            assert(trees.take(i + 1).drop_last() =~= trees.take(i as int));
            assert(trees.take(i + 1).last() == list@[i as int]@);
        }
        if !hook_runs_checkpoint(&list[i]) {
            kept.push(list[i].clone());
            assert(item_trees(kept@) =~= item_trees(before).push(list@[i as int]@));
        }
        i += 1;
    }
    assert(trees.take(i as int) =~= trees);
    hooks.set(event, Json::Array(kept));
}

/// The file without its checkpoint hooks.
pub fn strip_hooks(file: &Json) -> (stripped: Json)
    ensures
        stripped@ == uninstalled(file@),
{
    let mut hooks = match file.get("hooks") {
        Some(hooks) => hooks.clone(),
        None => return file.clone(),
    };
    hook_out(&mut hooks, "preToolUse");
    hook_out(&mut hooks, "postToolUse");
    let mut stripped = file.clone();
    stripped.set("hooks", hooks);
    stripped
}

} // verus!
