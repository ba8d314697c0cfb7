//! What holds of the hook file across operations: what installing and
//! uninstalling bring about, what they undo, and what they leave alone.

use crate::hooks::{
    first_checkpoint, hook_command, hook_of, hooked, hooked_on, hooks_checkpoint, hooks_in, hooks_on,
    installed, is_checkpoint_command, is_checkpoint_hook, lemma_first_checkpoint, other_hooks,
    unhooked_on, uninstalled, versioned, HOOK_ARGUMENTS,
};
use crate::json::{alike, decimal, empty_object, nested, whole_numbers, Tree};
use crate::text::{occurs, occurs_at};
use vstd::prelude::*;

verus! {

// ---------------------------------------------------------------------------
// Commands
// ---------------------------------------------------------------------------

/// What stands in a part of a text stands in the text.
pub proof fn lemma_occurs_within(front: Seq<char>, middle: Seq<char>, back: Seq<char>, needle: Seq<char>)
    requires
        occurs(middle, needle),
    ensures
        occurs(front + middle + back, needle),
{
    let at = choose|at: int| occurs_at(middle, needle, at);
    let whole = front + middle + back;
    let there = front.len() + at;
    assert(whole.subrange(there, there + needle.len()) =~= middle.subrange(
        at,
        at + needle.len(),
    ));
    assert(occurs_at(whole, needle, there));
}

/// What stands in a part of a needle stands wherever the needle does.
proof fn lemma_occurs_through(hay: Seq<char>, needle: Seq<char>, part: Seq<char>)
    requires
        occurs(hay, needle),
        occurs(needle, part),
    ensures
        occurs(hay, part),
{
    let at = choose|at: int| occurs_at(hay, needle, at);
    let front = hay.take(at);
    let back = hay.skip(at + needle.len());
    assert(hay =~= front + needle + back);
    lemma_occurs_within(front, needle, back, part);
}

/// A command runs a checkpoint if and only if the three words stand in it, in
/// whatever order.
pub proof fn law_checkpoint_words(command: Seq<char>)
    ensures
        is_checkpoint_command(command) <==> {
            &&& occurs(command, "git-ai"@)
            &&& occurs(command, "checkpoint"@)
            &&& occurs(command, "trae"@)
        },
{
    if occurs(command, "git-ai checkpoint trae"@) {
        reveal_strlit("git-ai checkpoint trae");
        reveal_strlit("git-ai");
        reveal_strlit("checkpoint");
        reveal_strlit("trae");
        let phrase = "git-ai checkpoint trae"@;
        assert(phrase.subrange(0, 6) =~= "git-ai"@);
        assert(occurs_at(phrase, "git-ai"@, 0));
        assert(phrase.subrange(7, 17) =~= "checkpoint"@);
        assert(occurs_at(phrase, "checkpoint"@, 7));
        assert(phrase.subrange(18, 22) =~= "trae"@);
        assert(occurs_at(phrase, "trae"@, 18));
        lemma_occurs_through(command, phrase, "git-ai"@);
        lemma_occurs_through(command, phrase, "checkpoint"@);
        lemma_occurs_through(command, phrase, "trae"@);
    }
}

/// The command that a binary is hooked in with runs a checkpoint if and only if the
/// path of the binary names the tool.
pub proof fn law_hook_command_runs_checkpoint(binary: Seq<char>)
    ensures
        is_checkpoint_command(hook_command(binary)) <==> occurs(binary, "git-ai"@),
{
    law_checkpoint_words(hook_command(binary));
    if occurs(binary, "git-ai"@) {
        lemma_tool_named(binary);
    }
    if occurs(hook_command(binary), "git-ai"@) {
        lemma_arguments_do_not_name_the_tool(binary);
    }
}

/// The command names the tool only where the path of the binary does.
proof fn lemma_arguments_do_not_name_the_tool(binary: Seq<char>)
    requires
        occurs(hook_command(binary), "git-ai"@),
    ensures
        occurs(binary, "git-ai"@),
{
    reveal_strlit(" ");
    reveal_strlit("checkpoint trae --hook-input stdin");
    reveal_strlit("git-ai");
    let command = hook_command(binary);
    let tail = " "@ + HOOK_ARGUMENTS@;
    let word = "git-ai"@;
    let at = choose|at: int| occurs_at(command, word, at);
    let found = command.subrange(at, at + word.len());
    assert(forall|i: int| 0 <= i < tail.len() ==> #[trigger] tail[i] != 'g');
    assert(command =~= binary + tail);
    if at >= binary.len() {
        assert(found[0] == tail[at - binary.len()]);
    } else if at + word.len() > binary.len() {
        assert(found[binary.len() - at] == tail[0]);
        assert(tail[0] == ' ');
    } else {
        assert(binary.subrange(at, at + word.len()) =~= found);
        assert(occurs_at(binary, word, at));
    }
}

/// Where the path of the binary names the tool, the command runs a checkpoint.
proof fn lemma_tool_named(binary: Seq<char>)
    requires
        occurs(binary, "git-ai"@),
    ensures
        is_checkpoint_command(hook_command(binary)),
{
    reveal_strlit(" ");
    reveal_strlit("checkpoint trae --hook-input stdin");
    reveal_strlit("checkpoint");
    reveal_strlit("trae");
    let arguments = HOOK_ARGUMENTS@;
    let none = Seq::<char>::empty();
    assert(arguments.subrange(0, 10) =~= "checkpoint"@);
    assert(occurs_at(arguments, "checkpoint"@, 0));
    assert(arguments.subrange(11, 15) =~= "trae"@);
    assert(occurs_at(arguments, "trae"@, 11));
    lemma_occurs_within(binary + " "@, arguments, none, "checkpoint"@);
    lemma_occurs_within(binary + " "@, arguments, none, "trae"@);
    lemma_occurs_within(none, binary, " "@ + arguments, "git-ai"@);
    assert(binary + " "@ + arguments + none =~= hook_command(binary));
    assert(none + binary + (" "@ + arguments) =~= hook_command(binary));
    law_checkpoint_words(hook_command(binary));
}

// ---------------------------------------------------------------------------
// Lists of hooks
// ---------------------------------------------------------------------------

/// The names in a hook file are different names.
proof fn lemma_names()
    ensures
        "version"@ != "hooks"@,
        "preToolUse"@ != "postToolUse"@,
{
    reveal_strlit("version");
    reveal_strlit("hooks");
    reveal_strlit("preToolUse");
    reveal_strlit("postToolUse");
    assert("version"@.len() != "hooks"@.len());
    assert("preToolUse"@.len() != "postToolUse"@.len());
}

/// The first checkpoint hook from a place on.
proof fn lemma_first(hooks: Seq<Tree>, from: int)
    requires
        0 <= from <= hooks.len(),
    ensures
        from <= first_checkpoint(hooks, from) <= hooks.len(),
        forall|j: int|
            from <= j < first_checkpoint(hooks, from) ==> !is_checkpoint_hook(#[trigger] hooks[j]),
        first_checkpoint(hooks, from) < hooks.len() ==> is_checkpoint_hook(
            hooks[first_checkpoint(hooks, from)],
        ),
    decreases hooks.len() - from,
{
    if from < hooks.len() && !is_checkpoint_hook(hooks[from]) {
        lemma_first(hooks, from + 1);
        assert forall|j: int|
            from <= j < first_checkpoint(hooks, from) implies !is_checkpoint_hook(
            #[trigger] hooks[j],
        ) by {
            if j > from {
                assert(from + 1 <= j);
            }
        }
    }
}

/// Whether the first checkpoint hook of a list runs the command.
pub open spec fn runs_first(hooks: Seq<Tree>, command: Seq<char>) -> bool {
    let at = first_checkpoint(hooks, 0);
    at < hooks.len() && hooks[at].text_member("command"@) == Some(command)
}

/// A list in which the command is hooked in runs it first.
proof fn lemma_hooked_runs_first(hooks: Seq<Tree>, command: Seq<char>)
    requires
        is_checkpoint_command(command),
    ensures
        runs_first(hooked(hooks, command), command),
{
    let at = first_checkpoint(hooks, 0);
    let after = hooked(hooks, command);
    lemma_first(hooks, 0);
    assert(hook_of(command).text_member("command"@) == Some(command));
    assert(is_checkpoint_hook(after[at]));
    assert forall|j: int| 0 <= j < at implies !is_checkpoint_hook(#[trigger] after[j]) by {
        assert(after[j] == hooks[j]);
    }
    lemma_first_checkpoint(after, 0, at);
}

/// Leaving checkpoint hooks out: of two lists that follow one another, each loses
/// its own.
proof fn lemma_other_hooks_add(front: Seq<Tree>, back: Seq<Tree>)
    ensures
        other_hooks(front + back) == other_hooks(front) + other_hooks(back),
    decreases back.len(),
{
    reveal(Seq::filter);
    if back.len() == 0 {
        assert(front + back =~= front);
        assert(other_hooks(front) + other_hooks(back) =~= other_hooks(front));
    } else {
        assert((front + back).drop_last() =~= front + back.drop_last());
        lemma_other_hooks_add(front, back.drop_last());
        assert((front + back).last() == back.last());
        assert(other_hooks(front + back) =~= other_hooks(front) + other_hooks(back));
    }
}

/// Leaving checkpoint hooks out of a list of one.
proof fn lemma_other_hooks_one(hook: Tree)
    ensures
        other_hooks(seq![hook]) == if is_checkpoint_hook(hook) {
            seq![]
        } else {
            seq![hook]
        },
{
    reveal(Seq::filter);
    let one = seq![hook];
    let none = one.drop_last();
    assert(none.len() == 0);
    assert(other_hooks(none) =~= seq![]);
    assert(one.last() == hook);
    assert(other_hooks(one) =~= if is_checkpoint_hook(hook) {
        seq![]
    } else {
        seq![hook]
    });
}

/// Putting a checkpoint hook in leaves the other hooks as they are.
proof fn lemma_hooked_keeps_others(hooks: Seq<Tree>, command: Seq<char>)
    requires
        is_checkpoint_command(command),
    ensures
        other_hooks(hooked(hooks, command)) == other_hooks(hooks),
{
    let at = first_checkpoint(hooks, 0);
    let hook = hook_of(command);
    lemma_first(hooks, 0);
    assert(hook.text_member("command"@) == Some(command));
    if at >= hooks.len() {
        assert(hooks.push(hook) =~= hooks + seq![hook]);
        lemma_other_hooks_add(hooks, seq![hook]);
        lemma_other_hooks_one(hook);
        assert(other_hooks(hooks) + seq![] =~= other_hooks(hooks));
    } else if hooks[at].text_member("command"@) != Some(command) {
        let front = hooks.take(at);
        let back = hooks.skip(at + 1);
        assert(hooks =~= front + seq![hooks[at]] + back);
        assert(hooks.update(at, hook) =~= front + seq![hook] + back);
        lemma_other_hooks_one(hook);
        lemma_other_hooks_one(hooks[at]);
        lemma_other_hooks_add(front, seq![hook]);
        lemma_other_hooks_add(front, seq![hooks[at]]);
        lemma_other_hooks_add(front + seq![hook], back);
        lemma_other_hooks_add(front + seq![hooks[at]], back);
    }
}

/// No checkpoint hook is among the others, and leaving them out twice is leaving
/// them out once.
proof fn lemma_other_hooks(hooks: Seq<Tree>)
    ensures
        forall|i: int|
            0 <= i < other_hooks(hooks).len() ==> !is_checkpoint_hook(
                #[trigger] other_hooks(hooks)[i],
            ),
        other_hooks(other_hooks(hooks)) == other_hooks(hooks),
        other_hooks(hooks) == hooks <==> forall|i: int|
            0 <= i < hooks.len() ==> !is_checkpoint_hook(#[trigger] hooks[i]),
    decreases hooks.len(),
{
    reveal(Seq::filter);
    if hooks.len() > 0 {
        let front = hooks.drop_last();
        let last = hooks.last();
        lemma_other_hooks(front);
        lemma_other_hooks_add(front, seq![last]);
        assert(hooks =~= front + seq![last]);
        lemma_other_hooks_one(last);
        lemma_other_hooks_length(front);
        if is_checkpoint_hook(last) {
            assert(other_hooks(hooks) =~= other_hooks(front));
            assert(hooks[hooks.len() - 1] == last);
        } else {
            assert(other_hooks(hooks) =~= other_hooks(front).push(last));
            lemma_other_hooks_add(other_hooks(front), seq![last]);
            assert(other_hooks(front).push(last) =~= other_hooks(front) + seq![last]);
            if other_hooks(hooks) == hooks {
                assert(other_hooks(front) =~= front) by {
                    assert(other_hooks(hooks).drop_last() =~= other_hooks(front));
                }
                assert forall|i: int| 0 <= i < hooks.len() implies !is_checkpoint_hook(
                    #[trigger] hooks[i],
                ) by {
                    if i < front.len() {
                        assert(front[i] == hooks[i]);
                    }
                }
            }
            if forall|i: int| 0 <= i < hooks.len() ==> !is_checkpoint_hook(#[trigger] hooks[i]) {
                assert forall|i: int| 0 <= i < front.len() implies !is_checkpoint_hook(
                    #[trigger] front[i],
                ) by {
                    assert(front[i] == hooks[i]);
                }
                assert(other_hooks(hooks) =~= hooks);
            }
        }
    } else {
        assert(other_hooks(hooks) =~= hooks);
    }
}

/// Leaving hooks out makes no list longer.
proof fn lemma_other_hooks_length(hooks: Seq<Tree>)
    ensures
        other_hooks(hooks).len() <= hooks.len(),
    decreases hooks.len(),
{
    reveal(Seq::filter);
    if hooks.len() > 0 {
        lemma_other_hooks_length(hooks.drop_last());
    }
}

// ---------------------------------------------------------------------------
// Installing
// ---------------------------------------------------------------------------

/// Whether hooks can be put into a file: it is an object, and so are its `hooks`,
/// where it has any.
pub open spec fn takes_hooks(file: Tree) -> bool {
    file is Object && hooks_in(file) is Object
}

/// Whether a file has a version, and runs the command as its first checkpoint
/// hook, before and after the use of a tool.
pub open spec fn up_to_date(file: Tree, command: Seq<char>) -> bool {
    &&& file.member("version"@) is Some
    &&& file.member("hooks"@) matches Some(hooks)
    &&& hooks is Object
    &&& hooks.array_member("preToolUse"@) matches Some(before)
    &&& runs_first(before, command)
    &&& hooks.array_member("postToolUse"@) matches Some(after)
    &&& runs_first(after, command)
}

/// The parts of a file in which the command is hooked in.
proof fn lemma_installed_parts(file: Tree, command: Seq<char>)
    requires
        takes_hooks(file),
    ensures
        installed(file, command).member("hooks"@) == Some(
            hooked_on(
                hooked_on(hooks_in(file), "preToolUse"@, command),
                "postToolUse"@,
                command,
            ),
        ),
        hooks_in(installed(file, command)) is Object,
        hooks_in(installed(file, command)).array_member("preToolUse"@) == Some(
            hooked(hooks_on(hooks_in(file), "preToolUse"@), command),
        ),
        hooks_in(installed(file, command)).array_member("postToolUse"@) == Some(
            hooked(hooks_on(hooks_in(file), "postToolUse"@), command),
        ),
        installed(file, command).member("version"@) == match file.member("version"@) {
            Some(version) => Some(version),
            None => Some(Tree::Number(decimal(1))),
        },
{
    lemma_names();
    let hooks = hooks_in(file);
    let before = hooked_on(hooks, "preToolUse"@, command);
    assert(before.member("postToolUse"@) == hooks.member("postToolUse"@));
    assert(hooks_on(before, "postToolUse"@) == hooks_on(hooks, "postToolUse"@));
    let after = hooked_on(before, "postToolUse"@, command);
    assert(after.member("preToolUse"@) == before.member("preToolUse"@));
}

/// After installing, the file is up to date.
pub proof fn law_install_brings_up_to_date(file: Tree, command: Seq<char>)
    requires
        takes_hooks(file),
        is_checkpoint_command(command),
    ensures
        up_to_date(installed(file, command), command),
{
    lemma_installed_parts(file, command);
    lemma_hooked_runs_first(hooks_on(hooks_in(file), "preToolUse"@), command);
    lemma_hooked_runs_first(hooks_on(hooks_in(file), "postToolUse"@), command);
}

/// Installing into a file that is up to date changes nothing.
pub proof fn law_up_to_date_stays(file: Tree, command: Seq<char>)
    requires
        up_to_date(file, command),
    ensures
        installed(file, command) == file,
{
    lemma_names();
    let hooks = hooks_in(file);
    let before = hooked_on(hooks, "preToolUse"@, command);
    assert(hooks->Object_0.insert("preToolUse"@, hooks->Object_0["preToolUse"@])
        =~= hooks->Object_0);
    assert(before == hooks);
    assert(hooks->Object_0.insert("postToolUse"@, hooks->Object_0["postToolUse"@])
        =~= hooks->Object_0);
    assert(hooked_on(before, "postToolUse"@, command) == hooks);
    assert(file->Object_0.insert("hooks"@, hooks) =~= file->Object_0);
}

/// A file that is up to date hooks a checkpoint in, if the command runs one.
pub proof fn law_up_to_date_checks(file: Tree, command: Seq<char>)
    requires
        up_to_date(file, command),
        is_checkpoint_command(command),
    ensures
        hooks_checkpoint(file),
{
    let hooks = file.member("hooks"@)->0;
    let list = hooks_on(hooks, "preToolUse"@);
    let at = first_checkpoint(list, 0);
    lemma_first(list, 0);
    assert(is_checkpoint_hook(list[at]));
}

/// After installing, the file is found to have its hooks.
pub proof fn law_install_then_check(file: Tree, command: Seq<char>)
    requires
        takes_hooks(file),
        is_checkpoint_command(command),
    ensures
        hooks_checkpoint(installed(file, command)),
{
    law_install_brings_up_to_date(file, command);
    law_up_to_date_checks(installed(file, command), command);
}

/// Installing twice is installing once.
pub proof fn law_install_is_idempotent(file: Tree, command: Seq<char>)
    requires
        is_checkpoint_command(command),
    ensures
        installed(installed(file, command), command) == installed(file, command),
{
    lemma_names();
    if takes_hooks(file) {
        law_install_brings_up_to_date(file, command);
        law_up_to_date_stays(installed(file, command), command);
    } else if file is Object {
        let hooks = hooks_in(file);
        let once = installed(file, command);
        assert(once.member("hooks"@) == Some(hooks));
        assert(once->Object_0.insert("hooks"@, hooks) =~= once->Object_0);
    }
}

/// A file that takes no hooks gets none: only its version may be filled in.
pub proof fn law_install_where_hooks_do_not_fit(file: Tree, command: Seq<char>)
    requires
        !takes_hooks(file),
    ensures
        installed(file, command) == versioned(file),
{
    lemma_names();
    if file is Object {
        let hooks = hooks_in(file);
        assert(versioned(file)->Object_0.insert("hooks"@, hooks) =~= versioned(file)->Object_0);
    }
}

/// Installing leaves alone what is not its own: every other member of the file,
/// a version that is there, the hooks of every other event, and every hook that
/// runs no checkpoint.
pub proof fn law_install_keeps_the_rest(file: Tree, command: Seq<char>)
    requires
        is_checkpoint_command(command),
    ensures
        forall|key: Seq<char>|
            key != "version"@ && key != "hooks"@ ==> #[trigger] installed(file, command).member(key)
                == file.member(key),
        file.member("version"@) is Some ==> installed(file, command).member("version"@)
            == file.member("version"@),
        forall|event: Seq<char>|
            event != "preToolUse"@ && event != "postToolUse"@ ==> #[trigger] hooks_in(
                installed(file, command),
            ).member(event) == hooks_in(file).member(event),
        forall|event: Seq<char>|
            other_hooks(#[trigger] hooks_on(hooks_in(installed(file, command)), event))
                == other_hooks(hooks_on(hooks_in(file), event)),
{
    lemma_names();
    if takes_hooks(file) {
        lemma_installed_parts(file, command);
        assert forall|event: Seq<char>|
            other_hooks(#[trigger] hooks_on(hooks_in(installed(file, command)), event))
                == other_hooks(hooks_on(hooks_in(file), event)) by {
            lemma_hooked_keeps_others(hooks_on(hooks_in(file), event), command);
            if event != "preToolUse"@ && event != "postToolUse"@ {
                assert(hooks_in(installed(file, command)).member(event) == hooks_in(file).member(
                    event,
                ));
            }
        }
    } else {
        law_install_where_hooks_do_not_fit(file, command);
        assert(hooks_in(versioned(file)) == hooks_in(file));
    }
}

// ---------------------------------------------------------------------------
// Uninstalling
// ---------------------------------------------------------------------------

/// Taking the checkpoint hooks on one event out.
proof fn lemma_unhooked_on(hooks: Tree, event: Seq<char>)
    ensures
        hooks_on(unhooked_on(hooks, event), event) == other_hooks(hooks_on(hooks, event)),
        forall|other: Seq<char>|
            other != event ==> #[trigger] unhooked_on(hooks, event).member(other) == hooks.member(
                other,
            ),
        unhooked_on(hooks, event) == hooks <==> other_hooks(hooks_on(hooks, event)) == hooks_on(
            hooks,
            event,
        ),
{
    reveal(Seq::filter);
    match hooks.array_member(event) {
        Some(list) => {
            assert(hooks->Object_0.insert(event, hooks->Object_0[event]) =~= hooks->Object_0);
            assert(unhooked_on(hooks, event)->Object_0[event] == Tree::Array(other_hooks(list)));
        },
        None => {
            assert(other_hooks(Seq::empty()) =~= Seq::empty());
        },
    }
}

/// The parts of a file without its checkpoint hooks.
proof fn lemma_uninstalled_parts(file: Tree)
    ensures
        file.member("hooks"@) is None ==> uninstalled(file) == file,
        file.member("hooks"@) is Some ==> uninstalled(file).member("hooks"@) == Some(
            unhooked_on(unhooked_on(hooks_in(file), "preToolUse"@), "postToolUse"@),
        ),
        hooks_on(hooks_in(uninstalled(file)), "preToolUse"@) == other_hooks(
            hooks_on(hooks_in(file), "preToolUse"@),
        ),
        hooks_on(hooks_in(uninstalled(file)), "postToolUse"@) == other_hooks(
            hooks_on(hooks_in(file), "postToolUse"@),
        ),
        forall|event: Seq<char>|
            event != "preToolUse"@ && event != "postToolUse"@ ==> #[trigger] hooks_in(
                uninstalled(file),
            ).member(event) == hooks_in(file).member(event),
{
    lemma_names();
    let hooks = hooks_in(file);
    lemma_unhooked_on(hooks, "preToolUse"@);
    lemma_unhooked_on(hooks, "postToolUse"@);
    let before = unhooked_on(hooks, "preToolUse"@);
    lemma_unhooked_on(before, "postToolUse"@);
    assert(before.member("postToolUse"@) == hooks.member("postToolUse"@));
    assert(hooks_on(before, "postToolUse"@) == hooks_on(hooks, "postToolUse"@));
    let after = unhooked_on(before, "postToolUse"@);
    assert(after.member("preToolUse"@) == before.member("preToolUse"@));
    if file.member("hooks"@) is None {
        assert(other_hooks(Seq::empty()) =~= Seq::empty()) by {
            reveal(Seq::filter);
        }
    }
}

/// After uninstalling, no checkpoint hook is left, before or after the use of a
/// tool.
pub proof fn law_uninstall_leaves_no_checkpoint(file: Tree)
    ensures
        !hooks_checkpoint(uninstalled(file)),
        forall|i: int|
            0 <= i < hooks_on(hooks_in(uninstalled(file)), "preToolUse"@).len()
                ==> !is_checkpoint_hook(
                #[trigger] hooks_on(hooks_in(uninstalled(file)), "preToolUse"@)[i],
            ),
        forall|i: int|
            0 <= i < hooks_on(hooks_in(uninstalled(file)), "postToolUse"@).len()
                ==> !is_checkpoint_hook(
                #[trigger] hooks_on(hooks_in(uninstalled(file)), "postToolUse"@)[i],
            ),
{
    lemma_uninstalled_parts(file);
    lemma_other_hooks(hooks_on(hooks_in(file), "preToolUse"@));
    lemma_other_hooks(hooks_on(hooks_in(file), "postToolUse"@));
}

/// Uninstalling changes nothing if and only if there is no checkpoint hook, before
/// or after the use of a tool.
pub proof fn law_uninstall_changes_only_checkpoints(file: Tree)
    ensures
        uninstalled(file) == file <==> {
            &&& forall|i: int|
                0 <= i < hooks_on(hooks_in(file), "preToolUse"@).len() ==> !is_checkpoint_hook(
                    #[trigger] hooks_on(hooks_in(file), "preToolUse"@)[i],
                )
            &&& forall|i: int|
                0 <= i < hooks_on(hooks_in(file), "postToolUse"@).len() ==> !is_checkpoint_hook(
                    #[trigger] hooks_on(hooks_in(file), "postToolUse"@)[i],
                )
        },
{
    lemma_names();
    let hooks = hooks_in(file);
    lemma_uninstalled_parts(file);
    lemma_other_hooks(hooks_on(hooks, "preToolUse"@));
    lemma_other_hooks(hooks_on(hooks, "postToolUse"@));
    lemma_unhooked_on(hooks, "preToolUse"@);
    lemma_unhooked_on(hooks, "postToolUse"@);
    if file.member("hooks"@) is Some {
        assert(file->Object_0.insert("hooks"@, hooks) =~= file->Object_0);
    }
}

/// Uninstalling twice is uninstalling once.
pub proof fn law_uninstall_is_idempotent(file: Tree)
    ensures
        uninstalled(uninstalled(file)) == uninstalled(file),
{
    law_uninstall_leaves_no_checkpoint(file);
    law_uninstall_changes_only_checkpoints(uninstalled(file));
}

/// Uninstalling leaves alone what is not its own: every other member of the file,
/// the hooks of every other event, and every hook that runs no checkpoint, in
/// their order.
pub proof fn law_uninstall_keeps_the_rest(file: Tree)
    ensures
        forall|key: Seq<char>|
            key != "hooks"@ ==> #[trigger] uninstalled(file).member(key) == file.member(key),
        forall|event: Seq<char>|
            event != "preToolUse"@ && event != "postToolUse"@ ==> #[trigger] hooks_in(
                uninstalled(file),
            ).member(event) == hooks_in(file).member(event),
        hooks_on(hooks_in(uninstalled(file)), "preToolUse"@) == other_hooks(
            hooks_on(hooks_in(file), "preToolUse"@),
        ),
        hooks_on(hooks_in(uninstalled(file)), "postToolUse"@) == other_hooks(
            hooks_on(hooks_in(file), "postToolUse"@),
        ),
{
    lemma_uninstalled_parts(file);
}

/// Uninstalling undoes installing: what is left on either event is what was there
/// before, less the checkpoint hooks.
pub proof fn law_uninstall_undoes_install(file: Tree, command: Seq<char>)
    requires
        is_checkpoint_command(command),
    ensures
        hooks_on(hooks_in(uninstalled(installed(file, command))), "preToolUse"@) == hooks_on(
            hooks_in(uninstalled(file)),
            "preToolUse"@,
        ),
        hooks_on(hooks_in(uninstalled(installed(file, command))), "postToolUse"@) == hooks_on(
            hooks_in(uninstalled(file)),
            "postToolUse"@,
        ),
        forall|event: Seq<char>|
            event != "preToolUse"@ && event != "postToolUse"@ ==> #[trigger] hooks_in(
                uninstalled(installed(file, command)),
            ).member(event) == hooks_in(file).member(event),
        forall|key: Seq<char>|
            key != "version"@ && key != "hooks"@ ==> #[trigger] uninstalled(
                installed(file, command),
            ).member(key) == file.member(key),
{
    law_install_keeps_the_rest(file, command);
    lemma_uninstalled_parts(file);
    lemma_uninstalled_parts(installed(file, command));
    law_uninstall_keeps_the_rest(installed(file, command));
    assert forall|event: Seq<char>|
        event != "preToolUse"@ && event != "postToolUse"@ implies #[trigger] hooks_in(
        uninstalled(installed(file, command)),
    ).member(event) == hooks_in(file).member(event) by {
        assert(hooks_in(installed(file, command)).member(event) == hooks_in(file).member(event));
    }
    assert forall|key: Seq<char>| key != "version"@ && key != "hooks"@ implies #[trigger] uninstalled(
        installed(file, command),
    ).member(key) == file.member(key) by {
        assert(installed(file, command).member(key) == file.member(key));
    }
}

/// Uninstalling undoes installing exactly where installing had neither a version
/// nor a list of hooks to add.
pub proof fn law_uninstall_restores_the_file(file: Tree, command: Seq<char>)
    requires
        is_checkpoint_command(command),
        file.member("version"@) is Some,
        hooks_in(file).array_member("preToolUse"@) is Some,
        hooks_in(file).array_member("postToolUse"@) is Some,
    ensures
        uninstalled(installed(file, command)) == uninstalled(file),
{
    lemma_names();
    let once = installed(file, command);
    law_uninstall_undoes_install(file, command);
    law_uninstall_keeps_the_rest(file);
    law_uninstall_keeps_the_rest(once);
    law_install_keeps_the_rest(file, command);
    lemma_installed_parts(file, command);
    lemma_uninstalled_parts(file);
    lemma_uninstalled_parts(once);
    lemma_lists_stay(file);
    lemma_lists_stay(once);
    let a = uninstalled(once);
    let b = uninstalled(file);
    assert forall|event: Seq<char>| #[trigger] hooks_in(a).member(event) == hooks_in(b).member(
        event,
    ) by {
        if event != "preToolUse"@ && event != "postToolUse"@ {
            assert(hooks_in(once).member(event) == hooks_in(file).member(event));
            assert(hooks_in(b).member(event) == hooks_in(file).member(event));
        }
    }
    lemma_same_members(hooks_in(a), hooks_in(b));
    assert forall|key: Seq<char>| #[trigger] a.member(key) == b.member(key) by {
        if key != "hooks"@ {
            assert(once.member(key) == file.member(key));
            assert(b.member(key) == file.member(key));
        }
    }
    lemma_same_members(a, b);
}

/// Objects with the same members are the same.
proof fn lemma_same_members(a: Tree, b: Tree)
    requires
        a is Object,
        b is Object,
        forall|key: Seq<char>| #[trigger] a.member(key) == b.member(key),
    ensures
        a == b,
{
    assert forall|key: Seq<char>| #[trigger]
        a->Object_0.contains_key(key) == b->Object_0.contains_key(key) && (
    a->Object_0.contains_key(key) ==> a->Object_0[key] == b->Object_0[key]) by {
        assert(a.member(key) == b.member(key));
    }
    assert(a->Object_0 =~= b->Object_0);
}

/// Where installing hooked a command in, uninstalling has something to take out.
pub proof fn law_install_can_be_undone(file: Tree, command: Seq<char>)
    requires
        takes_hooks(file),
        is_checkpoint_command(command),
    ensures
        uninstalled(installed(file, command)) != installed(file, command),
{
    law_install_then_check(file, command);
    law_uninstall_leaves_no_checkpoint(installed(file, command));
}

/// A list of hooks stays a list when its checkpoint hooks are taken out.
proof fn lemma_lists_stay(file: Tree)
    requires
        hooks_in(file).array_member("preToolUse"@) is Some,
        hooks_in(file).array_member("postToolUse"@) is Some,
    ensures
        uninstalled(file) is Object,
        hooks_in(uninstalled(file)) is Object,
        hooks_in(uninstalled(file)).array_member("preToolUse"@) is Some,
        hooks_in(uninstalled(file)).array_member("postToolUse"@) is Some,
{
    lemma_names();
}

// ---------------------------------------------------------------------------
// Documents that are alike
// ---------------------------------------------------------------------------

/// Documents that are alike are the same, if the numbers of the one are whole.
pub proof fn lemma_alike_whole(a: Tree, b: Tree)
    requires
        alike(a, b),
        whole_numbers(a),
    ensures
        a == b,
    decreases a,
{
    match (a, b) {
        (Tree::Array(s), Tree::Array(t)) => {
            assert forall|i: int| 0 <= i < s.len() implies s[i] == t[i] by {
                lemma_alike_whole(s[i], t[i]);
            }
            assert(s =~= t);
        },
        (Tree::Object(m), Tree::Object(n)) => {
            assert forall|key: Seq<char>| #[trigger] m.contains_key(key) implies m[key]
                == n[key] by {
                lemma_alike_whole(m[key], n[key]);
            }
            assert(m =~= n);
        },
        _ => {},
    }
}

/// What is alike something that is alike a third is alike that third.
pub proof fn lemma_alike_transitive(a: Tree, b: Tree, c: Tree)
    requires
        alike(a, b),
        alike(b, c),
    ensures
        alike(a, c),
    decreases a,
{
    match (a, b, c) {
        (Tree::Array(r), Tree::Array(s), Tree::Array(t)) => {
            assert forall|i: int| 0 <= i < r.len() implies alike(#[trigger] r[i], t[i]) by {
                assert(alike(s[i], t[i]));
                lemma_alike_transitive(r[i], s[i], t[i]);
            }
        },
        (Tree::Object(k), Tree::Object(m), Tree::Object(n)) => {
            assert forall|key: Seq<char>| #[trigger] k.contains_key(key) implies alike(
                k[key],
                n[key],
            ) by {
                assert(m.dom().contains(key));
                assert(m.contains_key(key));
                lemma_alike_transitive(k[key], m[key], n[key]);
            }
        },
        _ => {},
    }
}

/// Objects that are alike stay so when a member of each is set to what is alike.
proof fn lemma_alike_with_member(a: Tree, b: Tree, key: Seq<char>, x: Tree, y: Tree)
    requires
        alike(a, b),
        alike(x, y),
    ensures
        alike(a.with_member(key, x), b.with_member(key, y)),
{
    if let (Tree::Object(m), Tree::Object(n)) = (a, b) {
        assert(m.insert(key, x).dom() =~= n.insert(key, y).dom());
        assert forall|k: Seq<char>| #[trigger] m.insert(key, x).contains_key(k) implies alike(
            m.insert(key, x)[k],
            n.insert(key, y)[k],
        ) by {
            if k != key {
                assert(m.contains_key(k));
            }
        }
    }
}

/// Lists of hooks that are alike stay so when the checkpoint hooks are taken out.
proof fn lemma_alike_other_hooks(a: Seq<Tree>, b: Seq<Tree>)
    requires
        a.len() == b.len(),
        forall|i: int| 0 <= i < a.len() ==> alike(#[trigger] a[i], b[i]),
    ensures
        other_hooks(a).len() == other_hooks(b).len(),
        forall|i: int|
            0 <= i < other_hooks(a).len() ==> alike(#[trigger] other_hooks(a)[i], other_hooks(b)[i]),
    decreases a.len(),
{
    reveal(Seq::filter);
    if a.len() > 0 {
        let s = a.drop_last();
        let t = b.drop_last();
        assert forall|i: int| 0 <= i < s.len() implies alike(#[trigger] s[i], t[i]) by {
            assert(s[i] == a[i]);
        }
        lemma_alike_other_hooks(s, t);
        assert(alike(a[a.len() - 1], b[b.len() - 1]));
        lemma_alike_member(a.last(), b.last(), "command"@);
        assert forall|i: int| 0 <= i < other_hooks(a).len() implies alike(
            #[trigger] other_hooks(a)[i],
            other_hooks(b)[i],
        ) by {
            if i < other_hooks(s).len() {
                assert(other_hooks(a)[i] == other_hooks(s)[i]);
            }
        }
    }
}

/// Taking the hooks on one event out of what is alike leaves what is alike.
proof fn lemma_alike_unhooked_on(a: Tree, b: Tree, event: Seq<char>)
    requires
        alike(a, b),
    ensures
        alike(unhooked_on(a, event), unhooked_on(b, event)),
{
    lemma_alike_member(a, b, event);
    if let (Some(s), Some(t)) = (a.array_member(event), b.array_member(event)) {
        lemma_alike_other_hooks(s, t);
        let x = Tree::Array(other_hooks(s));
        let y = Tree::Array(other_hooks(t));
        assert(alike(x, y));
        lemma_alike_with_member(a, b, event, x, y);
    }
}

/// Uninstalling from files that are alike leaves files that are alike.
pub proof fn law_uninstall_keeps_alike(a: Tree, b: Tree)
    requires
        alike(a, b),
    ensures
        alike(uninstalled(a), uninstalled(b)),
{
    lemma_alike_member(a, b, "hooks"@);
    if let (Some(x), Some(y)) = (a.member("hooks"@), b.member("hooks"@)) {
        lemma_alike_unhooked_on(x, y, "preToolUse"@);
        let v = unhooked_on(x, "preToolUse"@);
        let w = unhooked_on(y, "preToolUse"@);
        lemma_alike_unhooked_on(v, w, "postToolUse"@);
        lemma_alike_with_member(
            a,
            b,
            "hooks"@,
            unhooked_on(v, "postToolUse"@),
            unhooked_on(w, "postToolUse"@),
        );
    }
}

/// Documents that are alike have the same members, and those are alike.
proof fn lemma_alike_member(a: Tree, b: Tree, key: Seq<char>)
    requires
        alike(a, b),
    ensures
        match (a.member(key), b.member(key)) {
            (Some(x), Some(y)) => alike(x, y),
            (None, None) => true,
            _ => false,
        },
        a.text_member(key) == b.text_member(key),
        match (a.array_member(key), b.array_member(key)) {
            (Some(x), Some(y)) => {
                &&& x.len() == y.len()
                &&& forall|i: int| 0 <= i < x.len() ==> alike(#[trigger] x[i], y[i])
            },
            (None, None) => true,
            _ => false,
        },
{
    reveal_with_fuel(alike, 3);
    if a is Object && a->Object_0.contains_key(key) {
        assert(b->Object_0.dom().contains(key));
    } else if b is Object && b->Object_0.contains_key(key) {
        assert(a->Object_0.dom().contains(key));
    }
}

/// Lists of hooks that are alike run the same commands.
proof fn lemma_alike_lists(a: Seq<Tree>, b: Seq<Tree>)
    requires
        a.len() == b.len(),
        forall|i: int| 0 <= i < a.len() ==> alike(#[trigger] a[i], b[i]),
    ensures
        forall|i: int|
            0 <= i < a.len() ==> (#[trigger] a[i]).text_member("command"@) == b[i].text_member(
                "command"@,
            ),
        first_checkpoint(a, 0) == first_checkpoint(b, 0),
{
    assert forall|i: int| 0 <= i < a.len() implies (#[trigger] a[i]).text_member("command"@)
        == b[i].text_member("command"@) by {
        lemma_alike_member(a[i], b[i], "command"@);
    }
    lemma_first(a, 0);
    let at = first_checkpoint(a, 0);
    assert forall|j: int| 0 <= j < at implies !is_checkpoint_hook(#[trigger] b[j]) by {
        assert(!is_checkpoint_hook(a[j]));
    }
    if at < a.len() {
        assert(a[at].text_member("command"@) == b[at].text_member("command"@));
    }
    lemma_first_checkpoint(b, 0, at);
}

/// Of files that are alike, both or none hook a checkpoint in.
pub proof fn law_alike_files_check_alike(a: Tree, b: Tree)
    requires
        alike(a, b),
    ensures
        hooks_checkpoint(a) == hooks_checkpoint(b),
{
    lemma_alike_member(a, b, "hooks"@);
    if let (Some(x), Some(y)) = (a.member("hooks"@), b.member("hooks"@)) {
        lemma_alike_member(x, y, "preToolUse"@);
        let s = hooks_on(x, "preToolUse"@);
        let t = hooks_on(y, "preToolUse"@);
        lemma_alike_lists(s, t);
        lemma_checks_by_first(s);
        lemma_checks_by_first(t);
    }
}

/// A list holds a checkpoint hook if and only if there is a first one.
proof fn lemma_checks_by_first(hooks: Seq<Tree>)
    ensures
        (exists|i: int| 0 <= i < hooks.len() && is_checkpoint_hook(#[trigger] hooks[i]))
            <==> first_checkpoint(hooks, 0) < hooks.len(),
{
    lemma_first(hooks, 0);
}

/// Lists of hooks that are alike run the same command first.
proof fn lemma_alike_runs_first(a: Seq<Tree>, b: Seq<Tree>, command: Seq<char>)
    requires
        a.len() == b.len(),
        forall|i: int| 0 <= i < a.len() ==> alike(#[trigger] a[i], b[i]),
        runs_first(a, command),
    ensures
        runs_first(b, command),
{
    lemma_alike_lists(a, b);
    lemma_first(a, 0);
    let at = first_checkpoint(a, 0);
    assert(a[at].text_member("command"@) == b[at].text_member("command"@));
}

/// A file that is alike one that is up to date is up to date too.
pub proof fn law_alike_files_are_up_to_date_alike(a: Tree, b: Tree, command: Seq<char>)
    requires
        alike(a, b),
        up_to_date(a, command),
    ensures
        up_to_date(b, command),
{
    reveal_with_fuel(alike, 2);
    lemma_alike_member(a, b, "version"@);
    lemma_alike_member(a, b, "hooks"@);
    let x = a.member("hooks"@)->0;
    let y = b.member("hooks"@)->0;
    lemma_alike_member(x, y, "preToolUse"@);
    lemma_alike_member(x, y, "postToolUse"@);
    lemma_alike_runs_first(hooks_on(x, "preToolUse"@), hooks_on(y, "preToolUse"@), command);
    lemma_alike_runs_first(hooks_on(x, "postToolUse"@), hooks_on(y, "postToolUse"@), command);
}

/// A file that is alike one with the command hooked in stays as it is when the
/// command is hooked in.
pub proof fn law_install_into_alike(file: Tree, read: Tree, command: Seq<char>)
    requires
        alike(installed(file, command), read),
        is_checkpoint_command(command),
    ensures
        installed(read, command) == read,
{
    lemma_names();
    let once = installed(file, command);
    if takes_hooks(file) {
        law_install_brings_up_to_date(file, command);
        law_alike_files_are_up_to_date_alike(once, read, command);
        law_up_to_date_stays(read, command);
    } else {
        reveal_with_fuel(alike, 2);
        law_install_where_hooks_do_not_fit(file, command);
        lemma_alike_member(once, read, "version"@);
        lemma_alike_member(once, read, "hooks"@);
        law_install_where_hooks_do_not_fit(read, command);
    }
}

/// A file that is alike one without checkpoint hooks stays as it is when they are
/// taken out.
pub proof fn law_uninstall_from_alike(file: Tree, read: Tree)
    requires
        alike(uninstalled(file), read),
    ensures
        uninstalled(read) == read,
        !hooks_checkpoint(read),
{
    let once = uninstalled(file);
    law_uninstall_leaves_no_checkpoint(file);
    law_alike_files_check_alike(once, read);
    lemma_alike_member(once, read, "hooks"@);
    if read.member("hooks"@) is Some {
        lemma_alike_no_checkpoint(hooks_in(once), hooks_in(read), "preToolUse"@);
        lemma_alike_no_checkpoint(hooks_in(once), hooks_in(read), "postToolUse"@);
    }
    law_uninstall_changes_only_checkpoints(read);
}

/// Of `hooks` that are alike, neither has a checkpoint hook on an event where the
/// one has none.
proof fn lemma_alike_no_checkpoint(a: Tree, b: Tree, event: Seq<char>)
    requires
        alike(a, b),
        forall|i: int|
            0 <= i < hooks_on(a, event).len() ==> !is_checkpoint_hook(
                #[trigger] hooks_on(a, event)[i],
            ),
    ensures
        forall|i: int|
            0 <= i < hooks_on(b, event).len() ==> !is_checkpoint_hook(
                #[trigger] hooks_on(b, event)[i],
            ),
{
    lemma_alike_member(a, b, event);
    let s = hooks_on(a, event);
    let t = hooks_on(b, event);
    lemma_alike_lists(s, t);
    lemma_checks_by_first(s);
    lemma_checks_by_first(t);
}

// ---------------------------------------------------------------------------
// Documents that can be read back
// ---------------------------------------------------------------------------

/// What stands no deeper than that stands no deeper than more.
proof fn lemma_nested_deeper(tree: Tree, depth: nat, more: nat)
    requires
        nested(tree, depth),
        depth <= more,
    ensures
        nested(tree, more),
    decreases depth,
{
    match tree {
        Tree::Array(items) => {
            assert forall|i: int| 0 <= i < items.len() implies nested(
                #[trigger] items[i],
                (more - 1) as nat,
            ) by {
                lemma_nested_deeper(items[i], (depth - 1) as nat, (more - 1) as nat);
            }
        },
        Tree::Object(members) => {
            assert forall|key: Seq<char>| #[trigger] members.contains_key(key) implies nested(
                members[key],
                (more - 1) as nat,
            ) by {
                lemma_nested_deeper(members[key], (depth - 1) as nat, (more - 1) as nat);
            }
        },
        _ => {},
    }
}

/// Hooking a command in makes no list deeper, nor does it add a number.
proof fn lemma_hooked_on_fits(hooks: Tree, event: Seq<char>, command: Seq<char>, depth: nat)
    requires
        nested(hooks, depth),
        depth >= 3,
    ensures
        nested(hooked_on(hooks, event, command), depth),
        whole_numbers(hooks) ==> whole_numbers(hooked_on(hooks, event, command)),
{
    let list = hooks_on(hooks, event);
    let after = hooked(list, command);
    let inner = (depth - 2) as nat;
    let hook = hook_of(command);
    reveal_with_fuel(nested, 3);
    reveal_with_fuel(whole_numbers, 3);
    assert(nested(hook, 1));
    lemma_nested_deeper(hook, 1, inner);
    assert(whole_numbers(hook));
    lemma_first(list, 0);
    if hooks.array_member(event) is Some {
        let members = hooks->Object_0;
        assert(members.contains_key(event));
        assert(members[event] == Tree::Array(list));
        assert(nested(members[event], (depth - 1) as nat));
    }
    assert forall|i: int| 0 <= i < after.len() implies nested(#[trigger] after[i], inner) by {
        if after[i] != hook {
            assert(after[i] == list[i]);
        }
    }
    assert(nested(Tree::Array(after), (depth - 1) as nat));
    if whole_numbers(hooks) {
        assert forall|i: int| 0 <= i < after.len() implies whole_numbers(#[trigger] after[i]) by {
            if after[i] != hook {
                assert(after[i] == list[i]);
            }
        }
        assert(whole_numbers(Tree::Array(after)));
    }
}

/// Installing makes no file deeper, nor does it add a number that is not whole.
pub proof fn law_install_keeps_files_readable(file: Tree, command: Seq<char>, depth: nat)
    requires
        nested(file, depth),
        depth >= 4,
    ensures
        nested(installed(file, command), depth),
        whole_numbers(file) ==> whole_numbers(installed(file, command)),
{
    let hooks = hooks_in(file);
    let inner = (depth - 1) as nat;
    reveal_with_fuel(nested, 2);
    reveal_with_fuel(whole_numbers, 2);
    if file.member("hooks"@) is Some {
        assert(file->Object_0.contains_key("hooks"@));
    }
    if file is Object {
        assert(nested(hooks, inner));
        lemma_hooked_on_fits(hooks, "preToolUse"@, command, inner);
        let before = hooked_on(hooks, "preToolUse"@, command);
        lemma_hooked_on_fits(before, "postToolUse"@, command, inner);
        assert(decimal(1) =~= seq!['1']) by {
            reveal_with_fuel(decimal, 2);
        }
        assert(whole_numbers(Tree::Number(decimal(1))));
    }
}

/// What is left of a list when hooks are taken out was in the list.
proof fn lemma_other_hooks_are_hooks(hooks: Seq<Tree>, at: int) -> (was: int)
    requires
        0 <= at < other_hooks(hooks).len(),
    ensures
        0 <= was < hooks.len(),
        hooks[was] == other_hooks(hooks)[at],
    decreases hooks.len(),
{
    reveal(Seq::filter);
    let front = hooks.drop_last();
    if at < other_hooks(front).len() {
        lemma_other_hooks_are_hooks(front, at)
    } else {
        hooks.len() - 1
    }
}

/// Taking the hooks on one event out makes nothing deeper.
proof fn lemma_unhooked_on_fits(hooks: Tree, event: Seq<char>, depth: nat)
    requires
        nested(hooks, depth),
    ensures
        nested(unhooked_on(hooks, event), depth),
{
    if let Some(list) = hooks.array_member(event) {
        let members = hooks->Object_0;
        assert(members.contains_key(event));
        assert(members[event] == Tree::Array(list));
        assert(nested(members[event], (depth - 1) as nat));
        let kept = other_hooks(list);
        let inner = (depth - 2) as nat;
        assert forall|i: int| 0 <= i < kept.len() implies nested(#[trigger] kept[i], inner) by {
            let was = lemma_other_hooks_are_hooks(list, i);
            assert(nested(list[was], inner));
        }
        assert(nested(Tree::Array(kept), (depth - 1) as nat));
    }
}

/// Uninstalling makes no file deeper.
pub proof fn law_uninstall_keeps_files_readable(file: Tree, depth: nat)
    requires
        nested(file, depth),
    ensures
        nested(uninstalled(file), depth),
{
    if let Some(hooks) = file.member("hooks"@) {
        assert(file->Object_0.contains_key("hooks"@));
        let inner = (depth - 1) as nat;
        lemma_unhooked_on_fits(hooks, "preToolUse"@, inner);
        lemma_unhooked_on_fits(unhooked_on(hooks, "preToolUse"@), "postToolUse"@, inner);
    }
}

/// Uninstalling adds no number that is not whole.
pub proof fn law_uninstall_keeps_numbers_whole(file: Tree)
    requires
        whole_numbers(file),
    ensures
        whole_numbers(uninstalled(file)),
{
    if let Some(hooks) = file.member("hooks"@) {
        assert(file->Object_0.contains_key("hooks"@));
        lemma_unhooked_on_whole(hooks, "preToolUse"@);
        lemma_unhooked_on_whole(unhooked_on(hooks, "preToolUse"@), "postToolUse"@);
    }
}

/// Taking the hooks on one event out adds no number.
proof fn lemma_unhooked_on_whole(hooks: Tree, event: Seq<char>)
    requires
        whole_numbers(hooks),
    ensures
        whole_numbers(unhooked_on(hooks, event)),
{
    if let Some(list) = hooks.array_member(event) {
        let members = hooks->Object_0;
        assert(members.contains_key(event));
        assert(members[event] == Tree::Array(list));
        assert(whole_numbers(members[event]));
        let kept = other_hooks(list);
        assert forall|i: int| 0 <= i < kept.len() implies whole_numbers(#[trigger] kept[i]) by {
            let was = lemma_other_hooks_are_hooks(list, i);
            assert(whole_numbers(list[was]));
        }
        assert(whole_numbers(Tree::Array(kept)));
    }
}

// ---------------------------------------------------------------------------
// What installing and uninstalling do, hook by hook
// ---------------------------------------------------------------------------

/// The hooks that a file lists on an event; none where it lists none.
pub open spec fn listed(file: Tree, event: Seq<char>) -> Seq<Tree> {
    match file.member("hooks"@) {
        Some(hooks) => match hooks.member(event) {
            Some(Tree::Array(list)) => list,
            _ => Seq::empty(),
        },
        None => Seq::empty(),
    }
}

/// Whether a hook has a command in which the three words stand.
pub open spec fn makes_checkpoint(hook: Tree) -> bool {
    match hook.member("command"@) {
        Some(Tree::Text(command)) => {
            &&& occurs(command, "git-ai"@)
            &&& occurs(command, "checkpoint"@)
            &&& occurs(command, "trae"@)
        },
        _ => false,
    }
}

/// Whether a hook has a command, that command, and nothing else.
pub open spec fn only_runs(hook: Tree, command: Seq<char>) -> bool {
    &&& hook is Object
    &&& hook.member("command"@) == Some(Tree::Text(command))
    &&& forall|key: Seq<char>| key != "command"@ ==> (#[trigger] hook.member(key)) is None
}

/// How many hooks of a list make a checkpoint.
pub open spec fn checkpoints(list: Seq<Tree>) -> nat
    decreases list.len(),
{
    if list.len() == 0 {
        0
    } else {
        checkpoints(list.drop_last()) + if makes_checkpoint(list.last()) {
            1nat
        } else {
            0nat
        }
    }
}

/// Whether an event is one that checkpoints are hooked in on.
pub open spec fn is_tool_event(event: Seq<char>) -> bool {
    event == "preToolUse"@ || event == "postToolUse"@
}

/// A hook is a checkpoint hook if and only if it makes a checkpoint.
pub proof fn law_checkpoint_hooks(hook: Tree)
    ensures
        is_checkpoint_hook(hook) <==> makes_checkpoint(hook),
{
    if let Some(Tree::Text(command)) = hook.member("command"@) {
        law_checkpoint_words(command);
    }
}

/// The command that a binary is hooked in with is its path, a blank, and what it is
/// called with.
pub proof fn law_hook_command_is_binary_and_arguments(binary: Seq<char>)
    ensures
        hook_command(binary) == binary + " checkpoint trae --hook-input stdin"@,
{
    reveal_strlit(" ");
    reveal_strlit("checkpoint trae --hook-input stdin");
    reveal_strlit(" checkpoint trae --hook-input stdin");
    assert(hook_command(binary) =~= binary + " checkpoint trae --hook-input stdin"@);
}

/// A file is found to have its hooks if and only if it lists a hook that makes a
/// checkpoint before the use of a tool.
pub proof fn law_found_if_listed(file: Tree)
    ensures
        hooks_checkpoint(file) <==> exists|i: int|
            0 <= i < listed(file, "preToolUse"@).len() && makes_checkpoint(
                #[trigger] listed(file, "preToolUse"@)[i],
            ),
{
    let list = listed(file, "preToolUse"@);
    if file.member("hooks"@) is Some {
        assert(list == hooks_on(file.member("hooks"@)->0, "preToolUse"@));
    }
    assert forall|i: int| 0 <= i < list.len() implies is_checkpoint_hook(#[trigger] list[i])
        == makes_checkpoint(list[i]) by {
        law_checkpoint_hooks(list[i]);
    }
    if exists|i: int| 0 <= i < list.len() && makes_checkpoint(#[trigger] list[i]) {
        let at = choose|i: int| 0 <= i < list.len() && makes_checkpoint(#[trigger] list[i]);
        assert(is_checkpoint_hook(hooks_on(file.member("hooks"@)->0, "preToolUse"@)[at]));
    }
    if hooks_checkpoint(file) {
        let hooks = file.member("hooks"@)->0;
        let at = choose|i: int|
            0 <= i < hooks_on(hooks, "preToolUse"@).len() && is_checkpoint_hook(
                #[trigger] hooks_on(hooks, "preToolUse"@)[i],
            );
        assert(makes_checkpoint(list[at]));
    }
}

/// What installing lists is what it hooks in.
proof fn lemma_listed_after_install(file: Tree, command: Seq<char>, event: Seq<char>)
    requires
        takes_hooks(file),
        is_tool_event(event),
    ensures
        listed(installed(file, command), event) == hooked(listed(file, event), command),
{
    lemma_installed_parts(file, command);
    assert(listed(file, event) == hooks_on(hooks_in(file), event));
}

/// Installing where no hook of an event makes a checkpoint: the hooks that were there
/// stay in their places, and one hook is added behind them, which runs the command
/// and does nothing else.
pub proof fn law_install_adds_one_hook(file: Tree, command: Seq<char>, event: Seq<char>)
    requires
        file is Object,
        file.member("hooks"@) matches Some(hooks) ==> hooks is Object,
        is_tool_event(event),
        forall|i: int|
            0 <= i < listed(file, event).len() ==> !makes_checkpoint(
                #[trigger] listed(file, event)[i],
            ),
    ensures
        listed(installed(file, command), event).len() == listed(file, event).len() + 1,
        forall|i: int|
            0 <= i < listed(file, event).len() ==> #[trigger] listed(
                installed(file, command),
                event,
            )[i] == listed(file, event)[i],
        only_runs(listed(installed(file, command), event).last(), command),
{
    lemma_listed_after_install(file, command, event);
    let list = listed(file, event);
    assert forall|i: int| 0 <= i < list.len() implies !is_checkpoint_hook(#[trigger] list[i]) by {
        law_checkpoint_hooks(list[i]);
    }
    lemma_first_checkpoint(list, 0, list.len() as int);
}

/// Installing where some hook of an event makes a checkpoint: no hook is added, and
/// all but the first such hook stay as they are. That one stays too if it runs the
/// command; if not, a hook stands in its place which runs the command and does
/// nothing else.
pub proof fn law_install_replaces_one_hook(
    file: Tree,
    command: Seq<char>,
    event: Seq<char>,
    at: int,
)
    requires
        file is Object,
        file.member("hooks"@) matches Some(hooks) ==> hooks is Object,
        is_tool_event(event),
        0 <= at < listed(file, event).len(),
        makes_checkpoint(listed(file, event)[at]),
        forall|i: int| 0 <= i < at ==> !makes_checkpoint(#[trigger] listed(file, event)[i]),
    ensures
        listed(installed(file, command), event).len() == listed(file, event).len(),
        forall|i: int|
            0 <= i < listed(file, event).len() && i != at ==> #[trigger] listed(
                installed(file, command),
                event,
            )[i] == listed(file, event)[i],
        if listed(file, event)[at].member("command"@) == Some(Tree::Text(command)) {
            listed(installed(file, command), event)[at] == listed(file, event)[at]
        } else {
            only_runs(listed(installed(file, command), event)[at], command)
        },
{
    lemma_listed_after_install(file, command, event);
    let list = listed(file, event);
    assert forall|i: int| 0 <= i < at implies !is_checkpoint_hook(#[trigger] list[i]) by {
        law_checkpoint_hooks(list[i]);
    }
    law_checkpoint_hooks(list[at]);
    lemma_first_checkpoint(list, 0, at);
}

/// The checkpoint hooks of two lists that follow one another.
proof fn lemma_checkpoints_add(front: Seq<Tree>, back: Seq<Tree>)
    ensures
        checkpoints(front + back) == checkpoints(front) + checkpoints(back),
    decreases back.len(),
{
    if back.len() == 0 {
        assert(front + back =~= front);
    } else {
        assert((front + back).drop_last() =~= front + back.drop_last());
        lemma_checkpoints_add(front, back.drop_last());
    }
}

/// The checkpoint hooks of a list of one.
proof fn lemma_checkpoints_one(hook: Tree)
    ensures
        checkpoints(seq![hook]) == if makes_checkpoint(hook) {
            1nat
        } else {
            0nat
        },
{
    reveal_with_fuel(checkpoints, 2);
    assert(seq![hook].drop_last() =~= Seq::empty());
}

/// A list without a hook that makes a checkpoint has none.
proof fn lemma_no_checkpoints(list: Seq<Tree>)
    ensures
        checkpoints(list) == 0 <==> forall|i: int|
            0 <= i < list.len() ==> !makes_checkpoint(#[trigger] list[i]),
    decreases list.len(),
{
    if list.len() > 0 {
        let front = list.drop_last();
        lemma_no_checkpoints(front);
        assert(forall|i: int| 0 <= i < front.len() ==> #[trigger] front[i] == list[i]);
        assert(list.last() == list[list.len() - 1]);
        if checkpoints(list) == 0 {
            assert forall|i: int| 0 <= i < list.len() implies !makes_checkpoint(
                #[trigger] list[i],
            ) by {
                if i < front.len() {
                    assert(!makes_checkpoint(front[i]));
                }
            }
        }
    }
}

/// Installing leaves as many checkpoint hooks on an event as there were, or one where
/// there were none.
pub proof fn law_install_makes_one_checkpoint(file: Tree, command: Seq<char>, event: Seq<char>)
    requires
        file is Object,
        file.member("hooks"@) matches Some(hooks) ==> hooks is Object,
        is_tool_event(event),
        occurs(command, "git-ai"@),
        occurs(command, "checkpoint"@),
        occurs(command, "trae"@),
    ensures
        checkpoints(listed(installed(file, command), event)) == if checkpoints(listed(file, event))
            == 0 {
            1
        } else {
            checkpoints(listed(file, event))
        },
{
    let list = listed(file, event);
    let after = listed(installed(file, command), event);
    lemma_no_checkpoints(list);
    if checkpoints(list) == 0 {
        law_install_adds_one_hook(file, command, event);
        assert(after =~= list + seq![after.last()]);
        lemma_checkpoints_add(list, seq![after.last()]);
        lemma_checkpoints_one(after.last());
    } else {
        lemma_first(list, 0);
        let at = first_checkpoint(list, 0);
        assert forall|i: int| 0 <= i < list.len() implies is_checkpoint_hook(#[trigger] list[i])
            == makes_checkpoint(list[i]) by {
            law_checkpoint_hooks(list[i]);
        }
        assert forall|i: int| 0 <= i < at implies !makes_checkpoint(#[trigger] list[i]) by {
            assert(!is_checkpoint_hook(list[i]));
        }
        assert(at < list.len());
        assert(is_checkpoint_hook(list[at]));
        law_install_replaces_one_hook(file, command, event, at);
        let front = list.take(at);
        let back = list.skip(at + 1);
        assert(list =~= front + seq![list[at]] + back);
        assert(after =~= front + seq![after[at]] + back);
        lemma_checkpoints_add(front, seq![list[at]]);
        lemma_checkpoints_add(front + seq![list[at]], back);
        lemma_checkpoints_add(front, seq![after[at]]);
        lemma_checkpoints_add(front + seq![after[at]], back);
        lemma_checkpoints_one(list[at]);
        lemma_checkpoints_one(after[at]);
    }
}

/// What installing leaves alone, whatever the command: all that is no object, every
/// member but the version and the hooks, a version that is there, hooks that are no
/// object, and what stands on every other event. A version that is not there is 1.
pub proof fn law_install_touches_nothing_else(file: Tree, command: Seq<char>)
    ensures
        file !is Object ==> installed(file, command) == file,
        file is Object ==> installed(file, command) is Object,
        forall|key: Seq<char>|
            key != "version"@ && key != "hooks"@ ==> #[trigger] installed(file, command).member(key)
                == file.member(key),
        file is Object ==> installed(file, command).member("version"@) == match file.member(
            "version"@,
        ) {
            Some(version) => Some(version),
            None => Some(Tree::Number(seq!['1'])),
        },
        file.member("hooks"@) matches Some(hooks) ==> (hooks !is Object ==> installed(
            file,
            command,
        ).member("hooks"@) == Some(hooks)),
        file is Object && (file.member("hooks"@) matches Some(hooks) ==> hooks is Object) ==> (
        installed(file, command).member("hooks"@) matches Some(after) && after is Object
            && forall|event: Seq<char>|
            !is_tool_event(event) ==> #[trigger] after.member(event) == match file.member(
                "hooks"@,
            ) {
                Some(hooks) => hooks.member(event),
                None => None,
            }),
{
    lemma_names();
    assert(decimal(1) =~= seq!['1']) by {
        reveal_with_fuel(decimal, 2);
    }
    if takes_hooks(file) {
        lemma_installed_parts(file, command);
        let hooks = hooks_in(file);
        let before = hooked_on(hooks, "preToolUse"@, command);
        let after = hooked_on(before, "postToolUse"@, command);
        assert(installed(file, command).member("hooks"@) == Some(after));
        assert forall|event: Seq<char>| !is_tool_event(event) implies #[trigger] after.member(event)
            == match file.member("hooks"@) {
            Some(hooks) => hooks.member(event),
            None => None,
        } by {
            assert(before.member(event) == hooks.member(event));
        }
    } else {
        law_install_where_hooks_do_not_fit(file, command);
    }
}

/// What uninstalling leaves of the hooks on an event, of two lists that follow one
/// another what it leaves of each; of one hook, the hook if it makes no checkpoint;
/// of none, none.
pub proof fn law_uninstall_takes_hooks_one_by_one(front: Seq<Tree>, back: Seq<Tree>, hook: Tree)
    ensures
        other_hooks(front + back) == other_hooks(front) + other_hooks(back),
        other_hooks(seq![hook]) == if makes_checkpoint(hook) {
            seq![]
        } else {
            seq![hook]
        },
        other_hooks(Seq::empty()) == Seq::<Tree>::empty(),
{
    lemma_other_hooks_add(front, back);
    lemma_other_hooks_one(hook);
    law_checkpoint_hooks(hook);
    lemma_other_hooks_length(Seq::empty());
    assert(other_hooks(Seq::empty()) =~= Seq::empty());
}

/// What uninstalling does to the hooks on an event: a list keeps its hooks that make
/// no checkpoint; what is no list stays as it is.
pub proof fn law_uninstall_on_event(file: Tree, event: Seq<char>)
    requires
        is_tool_event(event),
    ensures
        file.member("hooks"@) is None ==> uninstalled(file) == file,
        file.member("hooks"@) matches Some(hooks) ==> (uninstalled(file).member(
            "hooks"@,
        ) matches Some(after) && after.member(event) == match hooks.member(event) {
            Some(Tree::Array(list)) => Some(Tree::Array(other_hooks(list))),
            kept => kept,
        }),
{
    lemma_names();
    if let Some(hooks) = file.member("hooks"@) {
        let before = unhooked_on(hooks, "preToolUse"@);
        let after = unhooked_on(before, "postToolUse"@);
        lemma_unhooked_on(hooks, "preToolUse"@);
        lemma_unhooked_on(before, "postToolUse"@);
        assert(before.member("postToolUse"@) == hooks.member("postToolUse"@));
        assert(after.member("preToolUse"@) == before.member("preToolUse"@));
    }
}

/// What uninstalling leaves alone: all that is no object, every member but the hooks,
/// hooks that are no object, and what stands on every other event.
pub proof fn law_uninstall_touches_nothing_else(file: Tree)
    ensures
        file !is Object ==> uninstalled(file) == file,
        file is Object ==> uninstalled(file) is Object,
        forall|key: Seq<char>|
            key != "hooks"@ ==> #[trigger] uninstalled(file).member(key) == file.member(key),
        file.member("hooks"@) matches Some(hooks) ==> (hooks !is Object ==> uninstalled(
            file,
        ).member("hooks"@) == Some(hooks)),
        file.member("hooks"@) matches Some(hooks) ==> (hooks is Object ==> (uninstalled(
            file,
        ).member("hooks"@) matches Some(after) && after is Object && forall|event: Seq<char>|
            !is_tool_event(event) ==> #[trigger] after.member(event) == hooks.member(event))),
{
    lemma_names();
    if let Some(hooks) = file.member("hooks"@) {
        let before = unhooked_on(hooks, "preToolUse"@);
        let after = unhooked_on(before, "postToolUse"@);
        lemma_unhooked_on(hooks, "preToolUse"@);
        lemma_unhooked_on(before, "postToolUse"@);
        assert forall|event: Seq<char>| !is_tool_event(event) implies #[trigger] after.member(event)
            == hooks.member(event) by {
            assert(before.member(event) == hooks.member(event));
        }
    }
}

} // verus!
