//! The installer: where Trae is found, which hook files it uses, and what becomes
//! of them.

use crate::error::GitAiError;
use crate::extras::{Extras, ExtrasStep};
use crate::hooks::{
    has_hooks, hook_command, hooks_checkpoint, hooks_in, hooks_on, installed,
    is_checkpoint_command, is_checkpoint_hook, merge_hooks, runs_checkpoint, strip_hooks,
    uninstalled, HOOK_ARGUMENTS,
};
use crate::json::{
    alike, empty_object, lemma_object_view, nested, parsed, printed, read_back, whole_numbers, Json,
    Tree, MAX_DEPTH,
};
use crate::laws::{
    law_alike_files_check_alike, law_found_if_listed, law_hook_command_is_binary_and_arguments,
    law_hook_command_runs_checkpoint, law_install_into_alike, law_install_keeps_files_readable,
    law_install_then_check, law_install_touches_nothing_else, law_uninstall_from_alike,
    law_uninstall_keeps_alike, law_uninstall_keeps_files_readable,
    law_uninstall_keeps_numbers_whole, law_uninstall_leaves_no_checkpoint,
    law_uninstall_restores_the_file, lemma_alike_transitive, lemma_alike_whole, lemma_occurs_within,
    listed, makes_checkpoint, takes_hooks,
};
use crate::text::{
    is_blank, law_trimming_takes_white_space_off, lemma_not_blank, occurs, occurs_at, opt_str,
    opt_text, trim, trimmed,
};
use vstd::prelude::*;

verus! {

// ---------------------------------------------------------------------------
// Finding Trae
// ---------------------------------------------------------------------------

/// Trae product variant (international or China version).
#[derive(Clone, Copy, Debug, PartialEq, Eq, Structural)]
pub enum TraeVariant {
    International,
    CN,
}

/// What was found of Trae on a machine.
#[derive(Clone, Copy, Debug, PartialEq, Eq, Structural)]
pub struct InstallSigns {
    /// `.trae` is in the home directory.
    pub trae: bool,
    /// `.trae-cn` is in the home directory.
    pub trae_cn: bool,
    /// `.trae-cn-server` is in the home directory.
    pub trae_cn_server: bool,
    /// `.trae-aicc` is in the home directory.
    pub trae_aicc: bool,
    /// The command-line interface of the editor can be run.
    pub cli: bool,
    /// One of the editor's settings files is there to be kept in order.
    pub settings: bool,
}

/// The variants that left their directory in the home directory.
pub open spec fn variants_with_directory(signs: InstallSigns) -> Seq<TraeVariant> {
    let international = if signs.trae {
        seq![TraeVariant::International]
    } else {
        seq![]
    };
    let china = if signs.trae_cn || signs.trae_cn_server || signs.trae_aicc {
        seq![TraeVariant::CN]
    } else {
        seq![]
    };
    international + china
}

/// The variants that are there: where no directory tells, the command-line
/// interface stands for the international one.
pub open spec fn detected(signs: InstallSigns) -> Seq<TraeVariant> {
    if variants_with_directory(signs).len() == 0 && signs.cli {
        seq![TraeVariant::International]
    } else {
        variants_with_directory(signs)
    }
}

/// The variants to work on: the international one where none was detected.
pub open spec fn or_international(variants: Seq<TraeVariant>) -> Seq<TraeVariant> {
    if variants.len() == 0 {
        seq![TraeVariant::International]
    } else {
        variants
    }
}

/// Whether anything of Trae was found.
pub open spec fn tool_found(signs: InstallSigns) -> bool {
    detected(signs).len() > 0 || signs.cli || signs.trae || signs.settings
}

/// The variants whose hook files tell whether the hooks are in.
pub open spec fn variants_checked(signs: InstallSigns) -> Seq<TraeVariant> {
    if tool_found(signs) {
        or_international(detected(signs))
    } else {
        seq![]
    }
}

// ---------------------------------------------------------------------------
// Outcomes
// ---------------------------------------------------------------------------

/// The state of the hooks.
#[derive(Clone, Copy, Debug, PartialEq, Eq, Structural)]
pub struct HookCheckResult {
    pub tool_installed: bool,
    pub hooks_installed: bool,
    pub hooks_up_to_date: bool,
}

/// A change to a hook file: what it holds from now on, and whether that is to be
/// written.
#[derive(Debug)]
pub struct HookEdit {
    pub new_content: String,
    pub write: bool,
}

/// What became of one thing that was to be uninstalled.
#[derive(Debug)]
pub struct UninstallResult {
    pub changed: bool,
    pub diff: Option<String>,
    pub message: String,
}

/// Whether the text of a hook file hooks a checkpoint in. A file that is not
/// there, or that cannot be read as a document, hooks nothing in.
pub open spec fn content_hooks_checkpoint(content: Option<Seq<char>>) -> bool {
    match content {
        Some(text) => match parsed(text) {
            Ok(file) => hooks_checkpoint(file),
            Err(_) => false,
        },
        None => false,
    }
}

/// Whether the hooks are in: something of Trae was found, and every hook file that
/// tells hooks a checkpoint in.
pub open spec fn hooks_found(signs: InstallSigns, contents: Seq<Option<Seq<char>>>) -> bool {
    &&& tool_found(signs)
    &&& forall|i: int|
        0 <= i < contents.len() ==> content_hooks_checkpoint(#[trigger] contents[i])
}

/// Whether the text of a hook file has no checkpoint hook, before or after the use
/// of a tool. A file that is not there, or that cannot be read as a document, has
/// none.
pub open spec fn content_is_clean(content: Option<Seq<char>>) -> bool {
    match content {
        Some(text) => match parsed(text) {
            Ok(file) => {
                &&& forall|i: int|
                    0 <= i < hooks_on(hooks_in(file), "preToolUse"@).len() ==> !is_checkpoint_hook(
                        #[trigger] hooks_on(hooks_in(file), "preToolUse"@)[i],
                    )
                &&& forall|i: int|
                    0 <= i < hooks_on(hooks_in(file), "postToolUse"@).len() ==> !is_checkpoint_hook(
                        #[trigger] hooks_on(hooks_in(file), "postToolUse"@)[i],
                    )
            },
            Err(_) => true,
        },
        None => true,
    }
}

/// The document that a hook file holds, an empty object where the file is not
/// there or blank; or the message that tells why it cannot be read.
pub open spec fn file_of(content: Option<Seq<char>>) -> Result<Tree, Seq<char>> {
    match content {
        Some(text) if trimmed(text).len() > 0 => parsed(text),
        _ => Ok(empty_object()),
    }
}

/// The text of a changed document, nothing where it did not change.
pub open spec fn change_of(before: Tree, after: Tree) -> Option<Seq<char>> {
    if after == before {
        None
    } else {
        Some(printed(after))
    }
}

/// What installing does to a hook file, or the message that tells why the file
/// cannot be read.
pub open spec fn install_change(content: Option<Seq<char>>, binary: Seq<char>) -> Result<
    Option<Seq<char>>,
    Seq<char>,
> {
    match file_of(content) {
        Ok(file) => Ok(change_of(file, installed(file, hook_command(binary)))),
        Err(message) => Err(message),
    }
}

/// What uninstalling does to a hook file, or the message that tells why the file
/// cannot be read.
pub open spec fn uninstall_change(content: Option<Seq<char>>) -> Result<
    Option<Seq<char>>,
    Seq<char>,
> {
    match content {
        Some(text) => match parsed(text) {
            Ok(file) => Ok(change_of(file, uninstalled(file))),
            Err(message) => Err(message),
        },
        None => Ok(None),
    }
}

/// Whether an outcome says what a change says, to be written unless this is a dry
/// run.
pub open spec fn reports(
    outcome: Result<Option<HookEdit>, GitAiError>,
    change: Result<Option<Seq<char>>, Seq<char>>,
    dry_run: bool,
) -> bool {
    match (outcome, change) {
        (Ok(None), Ok(None)) => true,
        (Ok(Some(edit)), Ok(Some(text))) => edit.new_content@ == text && edit.write == !dry_run,
        (Err(GitAiError::JsonError(message)), Err(text)) => message@ == text,
        _ => false,
    }
}

/// What the text that installing writes is good for. It can be read, and gives the
/// changed document back, as far as its numbers are whole. If the path of the binary
/// names the tool, installing again changes nothing, and if the file took the hooks,
/// they are found.
pub open spec fn install_holds(
    content: Option<Seq<char>>,
    binary: Seq<char>,
    text: Seq<char>,
) -> bool {
    let file = file_of(content)->Ok_0;
    let runs = occurs(binary, "git-ai"@);
    &&& parsed(text) is Ok
    &&& read_back(installed(file, hook_command(binary)), text)
    &&& runs ==> install_change(Some(text), binary) == Ok::<Option<Seq<char>>, Seq<char>>(None)
    &&& runs && takes_hooks(file) ==> content_hooks_checkpoint(Some(text))
}

/// What the text that uninstalling writes is good for. It can be read, and gives the
/// changed document back, as far as its numbers are whole. No hooks are found in it,
/// and uninstalling again changes nothing.
pub open spec fn uninstall_holds(content: Option<Seq<char>>, text: Seq<char>) -> bool {
    let file = parsed(content->0)->Ok_0;
    &&& parsed(text) is Ok
    &&& read_back(uninstalled(file), text)
    &&& !content_hooks_checkpoint(Some(text))
    &&& uninstall_change(Some(text)) == Ok::<Option<Seq<char>>, Seq<char>>(None)
}

/// The text that installing writes holds what it should.
proof fn lemma_install_holds(
    content: Option<Seq<char>>,
    binary: Seq<char>,
    text: Seq<char>,
)
    requires
        file_of(content) is Ok,
        nested(file_of(content)->Ok_0, MAX_DEPTH as nat),
        installed(file_of(content)->Ok_0, hook_command(binary)) != file_of(content)->Ok_0,
        read_back(installed(file_of(content)->Ok_0, hook_command(binary)), text),
    ensures
        install_holds(content, binary, text),
{
    let file = file_of(content)->Ok_0;
    let command = hook_command(binary);
    law_install_keeps_files_readable(file, command, MAX_DEPTH as nat);
    lemma_not_blank(text);
    law_hook_command_runs_checkpoint(binary);
    if is_checkpoint_command(command) {
        let read = parsed(text)->Ok_0;
        law_install_into_alike(file, read, command);
        if takes_hooks(file) {
            law_install_then_check(file, command);
            law_alike_files_check_alike(installed(file, command), read);
        }
    }
}

/// The text that uninstalling writes holds what it should.
proof fn lemma_uninstall_holds(content: Option<Seq<char>>, text: Seq<char>)
    requires
        content is Some,
        parsed(content->0) is Ok,
        nested(parsed(content->0)->Ok_0, MAX_DEPTH as nat),
        read_back(uninstalled(parsed(content->0)->Ok_0), text),
    ensures
        uninstall_holds(content, text),
{
    let file = parsed(content->0)->Ok_0;
    law_uninstall_keeps_files_readable(file, MAX_DEPTH as nat);
    law_uninstall_from_alike(file, parsed(text)->Ok_0);
}

/// The diffs that were made, one below the other.
pub open spec fn joined(diffs: Seq<Option<Seq<char>>>) -> Seq<char>
    decreases diffs.len(),
{
    if diffs.len() == 0 {
        Seq::empty()
    } else {
        let front = joined(diffs.drop_last());
        match diffs.last() {
            Some(diff) => if front.len() == 0 {
                diff
            } else {
                front.push('\n') + diff
            },
            None => front,
        }
    }
}

/// The diffs that were made, one below the other; nothing where none was made.
pub open spec fn combined(diffs: Seq<Option<Seq<char>>>) -> Option<Seq<char>> {
    if exists|i: int| 0 <= i < diffs.len() && (#[trigger] diffs[i]) is Some {
        Some(joined(diffs))
    } else {
        None
    }
}

/// The texts of a list of optional strings.
pub open spec fn opt_texts(list: Seq<Option<String>>) -> Seq<Option<Seq<char>>> {
    Seq::new(list.len(), |i: int| opt_text(list[i]))
}

// ---------------------------------------------------------------------------
// Passes over the hook files
// ---------------------------------------------------------------------------

/// What is to be done to the hook files.
#[derive(Debug)]
pub enum HookWork {
    /// Hook the checkpoint of the binary at that path in.
    Install { binary: String },
    /// Take the checkpoint hooks out.
    Uninstall,
}

/// What a [`HookWork`] says.
pub enum Work {
    Install { binary: Seq<char> },
    Uninstall,
}

impl HookWork {
    /// What is to be done.
    pub open spec fn view(&self) -> Work {
        match *self {
            HookWork::Install { binary } => Work::Install { binary: binary@ },
            HookWork::Uninstall => Work::Uninstall,
        }
    }
}

/// What the work does to a hook file.
pub open spec fn change_by(work: Work, content: Option<Seq<char>>) -> Result<
    Option<Seq<char>>,
    Seq<char>,
> {
    match work {
        Work::Install { binary } => install_change(content, binary),
        Work::Uninstall => uninstall_change(content),
    }
}

/// What the text that the work writes is good for.
pub open spec fn change_holds(work: Work, content: Option<Seq<char>>, text: Seq<char>) -> bool {
    match work {
        Work::Install { binary } => install_holds(content, binary, text),
        Work::Uninstall => uninstall_holds(content, text),
    }
}

/// Whether the work on a hook file succeeded, with a change or without, and what is
/// written is good for what it should be.
pub open spec fn step_made(work: Work, content: Option<Seq<char>>, changed: bool) -> bool {
    &&& change_by(work, content) matches Ok(change)
    &&& (change is Some) == changed
    &&& change matches Some(text) ==> change_holds(work, content, text)
}

/// What the work does to the hook files one after the other. The first one that
/// cannot be read ends it.
pub open spec fn pass_change(work: Work, contents: Seq<Option<Seq<char>>>) -> Result<
    Seq<Option<Seq<char>>>,
    Seq<char>,
>
    decreases contents.len(),
{
    if contents.len() == 0 {
        Ok(Seq::empty())
    } else {
        match pass_change(work, contents.drop_last()) {
            Ok(changes) => match change_by(work, contents.last()) {
                Ok(change) => Ok(changes.push(change)),
                Err(message) => Err(message),
            },
            Err(message) => Err(message),
        }
    }
}

/// Whether these are the changes that a pass makes, and everything that is written
/// is good for what it should be.
pub open spec fn pass_made(
    work: Work,
    contents: Seq<Option<Seq<char>>>,
    changes: Seq<Option<Seq<char>>>,
) -> bool {
    &&& pass_change(work, contents) == Ok::<Seq<Option<Seq<char>>>, Seq<char>>(changes)
    &&& forall|i: int|
        0 <= i < contents.len() && (#[trigger] changes[i]) is Some ==> change_holds(
            work,
            contents[i],
            changes[i]->0,
        )
}

/// A pass over the hook files. The files are read, compared and written between
/// its steps: [`HookRun::next_variant`] names the file that is next,
/// [`HookRun::edit`] tells what becomes of it, and [`HookRun::advance`] takes the
/// diff, where there was a change. A pass ends where a file cannot be read as a
/// document, or where [`HookRun::fail`] ends it.
#[derive(Debug)]
pub struct HookRun {
    pub work: HookWork,
    pub dry_run: bool,
    /// The variants to work on.
    pub variants: Vec<TraeVariant>,
    /// The diffs of the hook files that were worked on, in the order of the
    /// variants.
    pub diffs: Vec<Option<String>>,
    /// Whether a step failed.
    pub failed: bool,
}

impl HookRun {
    /// The variant that is next, if one is left.
    pub open spec fn upcoming(&self) -> Option<TraeVariant> {
        if !self.failed && self.diffs@.len() < self.variants@.len() {
            Some(self.variants@[self.diffs@.len() as int])
        } else {
            None
        }
    }

    /// Whether this is the pass over hook files with these contents, as far as it
    /// came: every step succeeded, and there is a diff for every file that changed.
    pub open spec fn has_made(&self, contents: Seq<Option<Seq<char>>>) -> bool {
        &&& contents.len() == self.diffs@.len()
        &&& pass_change(self.work@, contents) matches Ok(changes)
        &&& pass_made(self.work@, contents, changes)
        &&& forall|i: int|
            0 <= i < contents.len() ==> (changes[i] is Some <==> (
            #[trigger] self.diffs@[i]) is Some)
    }

    /// The variant whose hook file is next, if one is left.
    pub fn next_variant(&self) -> (next: Option<TraeVariant>)
        ensures
            next == self.upcoming(),
    {
        if !self.failed && self.diffs.len() < self.variants.len() {
            Some(self.variants[self.diffs.len()])
        } else {
            None
        }
    }

    /// Ends the pass: no variant is next from here on.
    pub fn fail(&mut self)
        ensures
            final(self).work == old(self).work,
            final(self).dry_run == old(self).dry_run,
            final(self).variants@ == old(self).variants@,
            final(self).diffs@ == old(self).diffs@,
            final(self).failed,
            final(self).upcoming() is None,
    {
        self.failed = true;
    }

    /// What becomes of a hook file, whose text is handed in where the file is
    /// there. Nothing comes back where it stays as it is. A file that cannot be read
    /// ends the pass.
    pub fn edit(&mut self, content: Option<&str>) -> (outcome: Result<Option<HookEdit>, GitAiError>)
        ensures
            reports(outcome, change_by(old(self).work@, opt_str(content)), old(self).dry_run),
            outcome matches Ok(Some(edit)) ==> change_holds(
                old(self).work@,
                opt_str(content),
                edit.new_content@,
            ),
            outcome matches Ok(edit) ==> step_made(
                old(self).work@,
                opt_str(content),
                edit is Some,
            ),
            final(self).work == old(self).work,
            final(self).dry_run == old(self).dry_run,
            final(self).variants@ == old(self).variants@,
            final(self).diffs@ == old(self).diffs@,
            final(self).failed == (old(self).failed || outcome is Err),
            final(self).upcoming() == if outcome is Err {
                None
            } else {
                old(self).upcoming()
            },
    {
        let outcome = match &self.work {
            HookWork::Install { binary } => TraeInstaller.install_hooks_for_variant(
                content,
                binary.as_str(),
                self.dry_run,
            ),
            HookWork::Uninstall => TraeInstaller.uninstall_hooks_for_variant(content, self.dry_run),
        };
        if outcome.is_err() {
            self.fail();
        }
        outcome
    }

    /// Takes the diff of the hook file that was next, where it changed, and goes to
    /// the one after it. Where none is next, nothing is taken.
    pub fn advance(&mut self, diff: Option<String>)
        ensures
            final(self).work == old(self).work,
            final(self).dry_run == old(self).dry_run,
            final(self).variants@ == old(self).variants@,
            final(self).diffs@ == if old(self).upcoming() is Some {
                old(self).diffs@.push(diff)
            } else {
                old(self).diffs@
            },
            final(self).failed == old(self).failed,
            forall|contents: Seq<Option<Seq<char>>>, content: Option<Seq<char>>|
                old(self).has_made(contents) && old(self).upcoming() is Some && step_made(
                    old(self).work@,
                    content,
                    diff is Some,
                ) ==> #[trigger] final(self).has_made(contents.push(content)),
    {
        if !self.failed && self.diffs.len() < self.variants.len() {
            self.diffs.push(diff);
        }
        assert forall|contents: Seq<Option<Seq<char>>>, content: Option<Seq<char>>|
            old(self).has_made(contents) && old(self).upcoming() is Some && step_made(
                old(self).work@,
                content,
                diff is Some,
            ) implies #[trigger] self.has_made(contents.push(content)) by {
            let changes = pass_change(self.work@, contents)->Ok_0;
            let more = contents.push(content);
            let after = pass_change(self.work@, more)->Ok_0;
            lemma_pass(self.work@, contents);
            assert(more.drop_last() =~= contents);
            assert forall|i: int| 0 <= i < more.len() && (
            #[trigger] after[i]) is Some implies change_holds(self.work@, more[i], after[i]->0) by {
                if i < contents.len() {
                    assert(after[i] == changes[i]);
                }
            }
            assert forall|i: int| 0 <= i < more.len() implies (after[i] is Some <==> (
            #[trigger] self.diffs@[i]) is Some) by {
                if i < contents.len() {
                    assert(self.diffs@[i] == old(self).diffs@[i]);
                }
            }
        }
    }

    /// The diffs so far, one below the other; nothing where no file changed.
    pub fn diff(&self) -> (diff: Option<String>)
        ensures
            opt_text(diff) == combined(opt_texts(self.diffs@)),
    {
        TraeInstaller::combine_diffs(&self.diffs)
    }
}

// ---------------------------------------------------------------------------
// The installer
// ---------------------------------------------------------------------------

/// The installer of the Trae hooks.
pub struct TraeInstaller;

impl TraeInstaller {
    /// The path of a variant's hook file below the home directory, part by part.
    pub fn hooks_path(variant: TraeVariant) -> (parts: Vec<&'static str>)
        ensures
            parts@.len() == 2,
            parts@[0]@ == match variant {
                TraeVariant::International => ".trae"@,
                TraeVariant::CN => ".trae-cn"@,
            },
            parts@[1]@ == "hooks.json"@,
    {
        let dir = match variant {
            TraeVariant::International => ".trae",
            TraeVariant::CN => ".trae-cn",
        };
        vec![dir, "hooks.json"]
    }

    /// The directories in the home directory that tell of Trae, in the order of the
    /// fields of [`InstallSigns`]. The first one is that of the international
    /// variant, the others are those of the China version.
    pub fn sign_directories() -> (names: Vec<&'static str>)
        ensures
            names@.len() == 4,
            names@[0]@ == ".trae"@,
            names@[1]@ == ".trae-cn"@,
            names@[2]@ == ".trae-cn-server"@,
            names@[3]@ == ".trae-aicc"@,
    {
        vec![".trae", ".trae-cn", ".trae-cn-server", ".trae-aicc"]
    }

    /// The products whose settings files name the path of git.
    pub fn settings_targets() -> (products: Vec<&'static str>)
        ensures
            products@.len() == 2,
            products@[0]@ == "Trae"@,
            products@[1]@ == "Trae-CN"@,
    {
        vec!["Trae", "Trae-CN"]
    }

    /// The variants that are there. Where no directory tells, but the command-line
    /// interface is available, that is taken for the international one.
    pub fn detect_variants(signs: &InstallSigns) -> (variants: Vec<TraeVariant>)
        ensures
            variants@ == detected(*signs),
    {
        let mut variants: Vec<TraeVariant> = Vec::new();
        if signs.trae {
            variants.push(TraeVariant::International);
        }
        if signs.trae_cn || signs.trae_cn_server || signs.trae_aicc {
            variants.push(TraeVariant::CN);
        }
        assert(variants@ =~= variants_with_directory(*signs));
        if variants.is_empty() && signs.cli {
            variants.push(TraeVariant::International);
            assert(variants@ =~= seq![TraeVariant::International]);
        }
        variants
    }

    /// The variants to install to or uninstall from.
    pub fn variants_to_process(signs: &InstallSigns) -> (variants: Vec<TraeVariant>)
        ensures
            variants@ == or_international(detected(*signs)),
    {
        let variants = Self::detect_variants(signs);
        if variants.is_empty() {
            vec![TraeVariant::International]
        } else {
            variants
        }
    }

    /// The variants whose hook files tell whether the hooks are in; none where
    /// nothing of Trae was found.
    pub fn variants_to_check(signs: &InstallSigns) -> (variants: Vec<TraeVariant>)
        ensures
            variants@ == variants_checked(*signs),
    {
        let variants = Self::detect_variants(signs);
        let has_any_variant = !variants.is_empty() || signs.cli || signs.trae;
        if !has_any_variant && !signs.settings {
            return Vec::new();
        }
        Self::variants_to_process(signs)
    }

    /// Whether a command runs a Trae checkpoint.
    pub fn is_trae_checkpoint_command(cmd: &str) -> (yes: bool)
        ensures
            yes == is_checkpoint_command(cmd@),
    {
        runs_checkpoint(cmd)
    }

    /// The state of the hooks in one variant's hook file, whose text is handed in
    /// where the file is there.
    pub fn check_hooks_for_variant(&self, content: Option<&str>) -> (state: HookCheckResult)
        ensures
            state.tool_installed,
            state.hooks_installed == content_hooks_checkpoint(opt_str(content)),
            state.hooks_up_to_date == state.hooks_installed,
    {
        let has = match content {
            Some(text) => match Json::parse(text) {
                Ok(file) => has_hooks(&file),
                Err(_) => false,
            },
            None => false,
        };
        HookCheckResult { tool_installed: true, hooks_installed: has, hooks_up_to_date: has }
    }

    /// The state of the hooks over all variants, by the texts of the hook files of
    /// the variants to check.
    pub fn check_hooks(&self, signs: &InstallSigns, contents: &Vec<Option<String>>) -> (state:
        HookCheckResult)
        requires
            contents@.len() == variants_checked(*signs).len(),
        ensures
            state.tool_installed == tool_found(*signs),
            state.hooks_installed == hooks_found(*signs, opt_texts(contents@)),
            state.hooks_up_to_date == state.hooks_installed,
    {
        if contents.len() == 0 {
            return HookCheckResult {
                tool_installed: false,
                hooks_installed: false,
                hooks_up_to_date: false,
            };
        }
        let mut any_installed = false;
        let mut any_missing = false;
        let mut i: usize = 0;
        while i < contents.len()
            invariant
                i <= contents@.len(),
                !any_missing <==> forall|j: int|
                    0 <= j < i ==> content_hooks_checkpoint(#[trigger] opt_texts(contents@)[j]),
                i > 0 ==> any_installed || any_missing,
            decreases contents@.len() - i,
        {
            let content = match &contents[i] {
                Some(text) => Some(text.as_str()),
                None => None,
            };
            let state = self.check_hooks_for_variant(content);
            assert(state.hooks_installed == content_hooks_checkpoint(
                opt_texts(contents@)[i as int],
            ));
            if state.hooks_installed {
                any_installed = true;
            } else {
                any_missing = true;
            }
            i += 1;
        }
        HookCheckResult {
            tool_installed: true,
            hooks_installed: any_installed && !any_missing,
            hooks_up_to_date: any_installed && !any_missing,
        }
    }

    /// The document with the checkpoint of that binary hooked in, where it differs.
    pub fn plan_install(file: &Json, binary: &str) -> (change: Option<Json>)
        ensures
            match change {
                Some(merged) => {
                    &&& merged@ == installed(file@, hook_command(binary@))
                    &&& merged@ != file@
                },
                None => installed(file@, hook_command(binary@)) == file@,
            },
    {
        let command = binary.to_owned().concat(" ").concat(HOOK_ARGUMENTS);
        let merged = merge_hooks(file, command.as_str());
        if merged.same(file) {
            None
        } else {
            Some(merged)
        }
    }

    /// The document without its checkpoint hooks, where it differs.
    pub fn plan_uninstall(file: &Json) -> (change: Option<Json>)
        ensures
            match change {
                Some(stripped) => stripped@ == uninstalled(file@) && stripped@ != file@,
                None => uninstalled(file@) == file@,
            },
    {
        let stripped = strip_hooks(file);
        if stripped.same(file) {
            None
        } else {
            Some(stripped)
        }
    }

    /// Puts the hooks into one variant's hook file, whose text is handed in where
    /// the file is there. Nothing comes back where the hooks are in already.
    pub fn install_hooks_for_variant(
        &self,
        content: Option<&str>,
        binary: &str,
        dry_run: bool,
    ) -> (outcome: Result<Option<HookEdit>, GitAiError>)
        ensures
            reports(outcome, install_change(opt_str(content), binary@), dry_run),
            outcome matches Ok(Some(edit)) ==> install_holds(
                opt_str(content),
                binary@,
                edit.new_content@,
            ),
    {
        broadcast use lemma_object_view;

        let file = match content {
            Some(text) if !trim(text).as_str().is_empty() => match Json::parse(text) {
                Ok(file) => file,
                Err(message) => return Err(GitAiError::JsonError(message)),
            },
            _ => Json::Object(Vec::new()),
        };
        match Self::plan_install(&file, binary) {
            Some(merged) => match merged.print() {
                Ok(new_content) => {
                    proof {
                        lemma_install_holds(opt_str(content), binary@, new_content@);
                    }
                    Ok(Some(HookEdit { new_content, write: !dry_run }))
                },
                Err(message) => Err(GitAiError::JsonError(message)),
            },
            None => Ok(None),
        }
    }

    /// Takes the hooks out of one variant's hook file, whose text is handed in
    /// where the file is there. Nothing comes back where there are none.
    pub fn uninstall_hooks_for_variant(&self, content: Option<&str>, dry_run: bool) -> (outcome:
        Result<Option<HookEdit>, GitAiError>)
        ensures
            reports(outcome, uninstall_change(opt_str(content)), dry_run),
            outcome matches Ok(Some(edit)) ==> uninstall_holds(
                opt_str(content),
                edit.new_content@,
            ),
    {
        let file = match content {
            Some(text) => match Json::parse(text) {
                Ok(file) => file,
                Err(message) => return Err(GitAiError::JsonError(message)),
            },
            None => return Ok(None),
        };
        match Self::plan_uninstall(&file) {
            Some(stripped) => match stripped.print() {
                Ok(new_content) => {
                    proof {
                        lemma_uninstall_holds(opt_str(content), new_content@);
                    }
                    Ok(Some(HookEdit { new_content, write: !dry_run }))
                },
                Err(message) => Err(GitAiError::JsonError(message)),
            },
            None => Ok(None),
        }
    }

    /// Begins a pass that puts the hooks in for every variant to work on.
    pub fn install_hooks(&self, signs: &InstallSigns, binary: &str, dry_run: bool) -> (run: HookRun)
        ensures
            run.work@ == (Work::Install { binary: binary@ }),
            run.dry_run == dry_run,
            run.variants@ == or_international(detected(*signs)),
            run.diffs@.len() == 0,
            !run.failed,
            run.has_made(Seq::empty()),
    {
        HookRun {
            work: HookWork::Install { binary: binary.to_owned() },
            dry_run,
            variants: Self::variants_to_process(signs),
            diffs: Vec::new(),
            failed: false,
        }
    }

    /// Begins a pass that takes the hooks out for every variant to work on.
    pub fn uninstall_hooks(&self, signs: &InstallSigns, dry_run: bool) -> (run: HookRun)
        ensures
            run.work@ == Work::Uninstall,
            run.dry_run == dry_run,
            run.variants@ == or_international(detected(*signs)),
            run.diffs@.len() == 0,
            !run.failed,
            run.has_made(Seq::empty()),
    {
        HookRun {
            work: HookWork::Uninstall,
            dry_run,
            variants: Self::variants_to_process(signs),
            diffs: Vec::new(),
            failed: false,
        }
    }

    /// The diffs of all variants, one below the other; nothing where none changed.
    pub fn combine_diffs(diffs: &Vec<Option<String>>) -> (diff: Option<String>)
        ensures
            opt_text(diff) == combined(opt_texts(diffs@)),
    {
        let ghost all = opt_texts(diffs@);
        let mut combined_diff = String::new();
        let mut any_changed = false;
        let mut i: usize = 0;
        while i < diffs.len()
            invariant
                i <= diffs@.len(),
                all == opt_texts(diffs@),
                combined_diff@ == joined(all.take(i as int)),
                any_changed <==> exists|j: int| 0 <= j < i && (#[trigger] all[j]) is Some,
            decreases diffs@.len() - i,
        {
            assert(all.take(i + 1).drop_last() =~= all.take(i as int));
            assert(all.take(i + 1).last() == all[i as int]);
            if let Some(diff) = &diffs[i] {
                if !combined_diff.as_str().is_empty() {
                    combined_diff.push('\n');
                }
                combined_diff.append(diff.as_str());
                any_changed = true;
                assert(all[i as int] is Some);
                assert(combined_diff@ =~= joined(all.take(i + 1)));
            }
            i += 1;
        }
        assert(all.take(i as int) =~= all);
        if any_changed {
            Some(combined_diff)
        } else {
            None
        }
    }

    /// The name of the product.
    pub fn name(&self) -> (name: &'static str)
        ensures
            name@ == "Trae"@,
    {
        "Trae"
    }

    /// The name that the tool goes by.
    pub fn id(&self) -> (id: &'static str)
        ensures
            id@ == "trae"@,
    {
        "trae"
    }

    /// The names that the editor's processes go by.
    pub fn process_names(&self) -> (names: Vec<&'static str>)
        ensures
            names@.len() == 4,
            names@[0]@ == "Trae"@,
            names@[1]@ == "trae"@,
            names@[2]@ == "trae-cn"@,
            names@[3]@ == "trae-cn-server"@,
    {
        vec!["Trae", "trae", "trae-cn", "trae-cn-server"]
    }

    /// Begins a run of what is installed besides the hooks.
    pub fn install_extras(&self, dry_run: bool) -> (extras: Extras)
        ensures
            extras.dry_run == dry_run,
            extras.step == ExtrasStep::AskCodespaces,
            extras.results@.len() == 0,
            extras.has_seen(Seq::empty()),
    {
        Extras::new(dry_run)
    }

    /// Uninstalls nothing: the extension is left to the user.
    pub fn uninstall_extras(&self) -> (results: Vec<UninstallResult>)
        ensures
            results@.len() == 1,
            !results@[0].changed,
            results@[0].diff is None,
            results@[0].message@
                == "Trae: Extension must be uninstalled manually through the editor"@,
    {
        let result = UninstallResult {
            changed: false,
            diff: None,
            message: "Trae: Extension must be uninstalled manually through the editor".to_owned(),
        };
        vec![result]
    }
}

// ---------------------------------------------------------------------------
// Laws
// ---------------------------------------------------------------------------

/// Each variant is detected at most once, the international one first; and there
/// is always a variant to work on.
pub proof fn law_variants_are_detected_once(signs: InstallSigns)
    ensures
        detected(signs).no_duplicates(),
        detected(signs).len() <= 2,
        detected(signs).len() == 2 ==> detected(signs)[0] == TraeVariant::International,
        or_international(detected(signs)).len() >= 1,
{
}

/// The settings files do not tell which variants are there, nor does the command-line
/// interface where a directory tells.
pub proof fn law_directories_tell_first(signs: InstallSigns, other: InstallSigns)
    requires
        variants_with_directory(signs) == variants_with_directory(other),
        variants_with_directory(signs).len() > 0 || signs.cli == other.cli,
    ensures
        detected(signs) == detected(other),
{
}

/// Where something of Trae was found, the variants to check are the variants to
/// work on; the hooks of a tool that was not found are not looked for.
pub proof fn law_checked_where_processed(signs: InstallSigns)
    ensures
        tool_found(signs) ==> variants_checked(signs) == or_international(detected(signs)),
        tool_found(signs) <==> variants_checked(signs).len() > 0,
{
}

/// A pass succeeds if and only if the work on every file does, and makes the change
/// that the work makes to each.
proof fn lemma_pass(work: Work, contents: Seq<Option<Seq<char>>>)
    ensures
        pass_change(work, contents) is Ok <==> forall|i: int|
            0 <= i < contents.len() ==> (#[trigger] change_by(work, contents[i])) is Ok,
        pass_change(work, contents) matches Ok(changes) ==> {
            &&& changes.len() == contents.len()
            &&& forall|i: int|
                0 <= i < contents.len() ==> change_by(work, contents[i]) == Ok::<
                    Option<Seq<char>>,
                    Seq<char>,
                >(#[trigger] changes[i])
        },
    decreases contents.len(),
{
    if contents.len() > 0 {
        let front = contents.drop_last();
        lemma_pass(work, front);
        assert(forall|i: int| 0 <= i < front.len() ==> #[trigger] front[i] == contents[i]);
        if pass_change(work, contents) is Ok {
            assert forall|i: int| 0 <= i < contents.len() implies (
            #[trigger] change_by(work, contents[i])) is Ok by {
                if i < front.len() {
                    assert(change_by(work, front[i]) is Ok);
                }
            }
        }
        if forall|i: int| 0 <= i < contents.len() ==> (#[trigger] change_by(work, contents[i])) is Ok {
            assert forall|i: int| 0 <= i < front.len() implies (
            #[trigger] change_by(work, front[i])) is Ok by {
                assert(change_by(work, contents[i]) is Ok);
            }
            assert(change_by(work, contents[contents.len() - 1]) is Ok);
        }
    }
}

/// A pass in which a file cannot be read fails as the first such file does, whatever
/// comes after it.
pub proof fn law_first_failure_ends_the_pass(
    work: Work,
    contents: Seq<Option<Seq<char>>>,
    at: int,
)
    requires
        0 <= at < contents.len(),
        change_by(work, contents[at]) is Err,
        forall|i: int| 0 <= i < at ==> (#[trigger] change_by(work, contents[i])) is Ok,
    ensures
        pass_change(work, contents) == Err::<Seq<Option<Seq<char>>>, Seq<char>>(
            change_by(work, contents[at])->Err_0,
        ),
    decreases contents.len(),
{
    let front = contents.drop_last();
    if at == contents.len() - 1 {
        assert forall|i: int| 0 <= i < front.len() implies (
        #[trigger] change_by(work, front[i])) is Ok by {
            assert(front[i] == contents[i]);
            assert(change_by(work, contents[i]) is Ok);
        }
        lemma_pass(work, front);
    } else {
        assert(front[at] == contents[at]);
        assert forall|i: int| 0 <= i < at implies (
        #[trigger] change_by(work, front[i])) is Ok by {
            assert(front[i] == contents[i]);
            assert(change_by(work, contents[i]) is Ok);
        }
        law_first_failure_ends_the_pass(work, front, at);
    }
}

/// What a hook file holds after a change, where there was one.
pub open spec fn left_by(content: Option<Seq<char>>, change: Option<Seq<char>>) -> Option<
    Seq<char>,
> {
    if change is Some {
        change
    } else {
        content
    }
}

/// What the hook files hold after a pass.
pub open spec fn all_left_by(
    contents: Seq<Option<Seq<char>>>,
    changes: Seq<Option<Seq<char>>>,
) -> Seq<Option<Seq<char>>> {
    Seq::new(contents.len(), |i: int| left_by(contents[i], changes[i]))
}

/// Whether the work is such that doing it again changes nothing: hooks are taken
/// out, or the path of the binary that is hooked in names the tool.
pub open spec fn settles(work: Work) -> bool {
    match work {
        Work::Install { binary } => occurs(binary, "git-ai"@),
        Work::Uninstall => true,
    }
}

/// After the hooks were put into a file, whether that changed it or not, doing so
/// again changes nothing, and where the file took the hooks, they are found.
pub proof fn law_file_after_install(
    content: Option<Seq<char>>,
    binary: Seq<char>,
    change: Option<Seq<char>>,
)
    requires
        occurs(binary, "git-ai"@),
        install_change(content, binary) == Ok::<Option<Seq<char>>, Seq<char>>(change),
        change matches Some(text) ==> install_holds(content, binary, text),
    ensures
        install_change(left_by(content, change), binary) == Ok::<Option<Seq<char>>, Seq<char>>(
            None,
        ),
        takes_hooks(file_of(content)->Ok_0) ==> content_hooks_checkpoint(left_by(content, change)),
{
    law_hook_command_runs_checkpoint(binary);
    let file = file_of(content)->Ok_0;
    let command = hook_command(binary);
    if change is None && takes_hooks(file) {
        law_install_then_check(file, command);
        assert(installed(file, command) == file);
        assert(file.member("hooks"@) is Some);
    }
}

/// After the hooks were taken out of a file, whether that changed it or not, doing so
/// again changes nothing, and no checkpoint hook is found or left.
pub proof fn law_file_after_uninstall(content: Option<Seq<char>>, change: Option<Seq<char>>)
    requires
        uninstall_change(content) == Ok::<Option<Seq<char>>, Seq<char>>(change),
        change matches Some(text) ==> uninstall_holds(content, text),
    ensures
        uninstall_change(left_by(content, change)) == Ok::<Option<Seq<char>>, Seq<char>>(None),
        !content_hooks_checkpoint(left_by(content, change)),
        content_is_clean(left_by(content, change)),
{
    if let Some(text) = left_by(content, change) {
        let file = parsed(text)->Ok_0;
        assert(uninstalled(file) == file);
        law_uninstall_leaves_no_checkpoint(file);
    }
}

/// A second pass changes no file.
pub proof fn law_second_pass_changes_nothing(
    work: Work,
    contents: Seq<Option<Seq<char>>>,
    changes: Seq<Option<Seq<char>>>,
)
    requires
        pass_made(work, contents, changes),
        settles(work),
    ensures
        pass_change(work, all_left_by(contents, changes)) == Ok::<
            Seq<Option<Seq<char>>>,
            Seq<char>,
        >(Seq::new(contents.len(), |i: int| None)),
{
    let left = all_left_by(contents, changes);
    lemma_pass(work, contents);
    assert forall|i: int| 0 <= i < left.len() implies (#[trigger] change_by(work, left[i])) == Ok::<
        Option<Seq<char>>,
        Seq<char>,
    >(None) by {
        assert(change_by(work, contents[i]) == Ok::<Option<Seq<char>>, Seq<char>>(changes[i]));
        match work {
            Work::Install { binary } => {
                law_file_after_install(contents[i], binary, changes[i]);
            },
            Work::Uninstall => {
                law_file_after_uninstall(contents[i], changes[i]);
            },
        }
    }
    lemma_pass(work, left);
    let again = pass_change(work, left)->Ok_0;
    assert forall|i: int| 0 <= i < left.len() implies #[trigger] again[i] is None by {
        assert(change_by(work, left[i]) == Ok::<Option<Seq<char>>, Seq<char>>(again[i]));
    }
    assert(again =~= Seq::new(contents.len(), |i: int| None));
}

/// A second pass over what a first one left reports nothing, dry or not.
pub proof fn law_second_pass_reports_nothing(
    first: HookRun,
    run: HookRun,
    contents: Seq<Option<Seq<char>>>,
)
    requires
        first.has_made(contents),
        settles(first.work@),
        run.work@ == first.work@,
        run.has_made(all_left_by(contents, pass_change(first.work@, contents)->Ok_0)),
    ensures
        combined(opt_texts(run.diffs@)) is None,
{
    let changes = pass_change(first.work@, contents)->Ok_0;
    law_second_pass_changes_nothing(run.work@, contents, changes);
    let left = all_left_by(contents, changes);
    let again = pass_change(run.work@, left)->Ok_0;
    assert forall|i: int| 0 <= i < opt_texts(run.diffs@).len() implies (
    #[trigger] opt_texts(run.diffs@)[i]) is None by {
        assert(again[i] is None);
        assert(run.diffs@[i] is None);
    }
}

/// What is found of Trae after a pass that puts the hooks in: the directories of the
/// hook files are made where they were not there.
pub open spec fn signs_after_install(signs: InstallSigns) -> InstallSigns {
    let variants = or_international(detected(signs));
    InstallSigns {
        trae: signs.trae || variants.contains(TraeVariant::International),
        trae_cn: signs.trae_cn || variants.contains(TraeVariant::CN),
        trae_cn_server: signs.trae_cn_server,
        trae_aicc: signs.trae_aicc,
        cli: signs.cli,
        settings: signs.settings,
    }
}

/// A pass that puts the hooks in leaves the variants that it worked on to be found,
/// and no others, even where nothing of Trae had been found.
pub proof fn law_install_settles_the_variants(signs: InstallSigns)
    ensures
        tool_found(signs_after_install(signs)),
        variants_checked(signs_after_install(signs)) == or_international(detected(signs)),
        or_international(detected(signs_after_install(signs))) == or_international(detected(signs)),
{
    let variants = or_international(detected(signs));
    if !(signs.trae_cn || signs.trae_cn_server || signs.trae_aicc) {
        assert(variants =~= seq![TraeVariant::International]);
        assert(variants[0] == TraeVariant::International);
        assert(!variants.contains(TraeVariant::CN));
    } else if signs.trae {
        assert(variants =~= seq![TraeVariant::International, TraeVariant::CN]);
    } else {
        assert(variants =~= seq![TraeVariant::CN]);
        assert(!variants.contains(TraeVariant::International));
    }
    assert(variants_with_directory(signs_after_install(signs)) =~= variants);
}

/// After a pass that puts the hooks in, they are found, if every file takes hooks
/// and the path of the binary names the tool.
pub proof fn law_check_after_install(
    signs: InstallSigns,
    work: Work,
    contents: Seq<Option<Seq<char>>>,
    changes: Seq<Option<Seq<char>>>,
)
    requires
        work is Install,
        settles(work),
        pass_made(work, contents, changes),
        forall|i: int|
            0 <= i < contents.len() ==> takes_hooks((#[trigger] file_of(contents[i]))->Ok_0),
    ensures
        hooks_found(signs_after_install(signs), all_left_by(contents, changes)),
{
    law_install_settles_the_variants(signs);
    lemma_pass(work, contents);
    let left = all_left_by(contents, changes);
    assert forall|i: int| 0 <= i < left.len() implies content_hooks_checkpoint(
        #[trigger] left[i],
    ) by {
        assert(change_by(work, contents[i]) == Ok::<Option<Seq<char>>, Seq<char>>(changes[i]));
        assert(takes_hooks(file_of(contents[i])->Ok_0));
        law_file_after_install(contents[i], work->binary, changes[i]);
    }
}

/// After a pass that takes the hooks out, they are not found, and no file that it
/// worked on has a checkpoint hook.
pub proof fn law_check_after_uninstall(
    signs: InstallSigns,
    contents: Seq<Option<Seq<char>>>,
    changes: Seq<Option<Seq<char>>>,
)
    requires
        contents.len() == or_international(detected(signs)).len(),
        pass_made(Work::Uninstall, contents, changes),
    ensures
        !hooks_found(signs, all_left_by(contents, changes)),
        forall|i: int|
            0 <= i < contents.len() ==> content_is_clean(
                #[trigger] all_left_by(contents, changes)[i],
            ),
{
    lemma_pass(Work::Uninstall, contents);
    let left = all_left_by(contents, changes);
    assert forall|i: int| 0 <= i < left.len() implies content_is_clean(#[trigger] left[i])
        && !content_hooks_checkpoint(left[i]) by {
        assert(change_by(Work::Uninstall, contents[i]) == Ok::<Option<Seq<char>>, Seq<char>>(
            changes[i],
        ));
        law_file_after_uninstall(contents[i], changes[i]);
    }
    assert(!content_hooks_checkpoint(left[0]));
}

/// Putting the hooks into a file and taking them out again, from text to text: the
/// file says what it said before, less its checkpoint hooks, where it had a version
/// and lists of hooks; exactly so, if its numbers are whole.
pub proof fn law_uninstall_restores_the_text(
    content: Option<Seq<char>>,
    binary: Seq<char>,
    hooked: Seq<char>,
    restored: Seq<char>,
)
    requires
        occurs(binary, "git-ai"@),
        install_change(content, binary) == Ok::<Option<Seq<char>>, Seq<char>>(Some(hooked)),
        install_holds(content, binary, hooked),
        uninstall_change(Some(hooked)) == Ok::<Option<Seq<char>>, Seq<char>>(Some(restored)),
        uninstall_holds(Some(hooked), restored),
        file_of(content)->Ok_0.member("version"@) is Some,
        hooks_in(file_of(content)->Ok_0).array_member("preToolUse"@) is Some,
        hooks_in(file_of(content)->Ok_0).array_member("postToolUse"@) is Some,
    ensures
        parsed(restored) matches Ok(read) && alike(uninstalled(file_of(content)->Ok_0), read),
        whole_numbers(file_of(content)->Ok_0) ==> parsed(restored) == Ok::<Tree, Seq<char>>(
            uninstalled(file_of(content)->Ok_0),
        ),
{
    let file = file_of(content)->Ok_0;
    let command = hook_command(binary);
    let between = parsed(hooked)->Ok_0;
    let read = parsed(restored)->Ok_0;
    law_hook_command_runs_checkpoint(binary);
    law_uninstall_restores_the_file(file, command);
    law_uninstall_keeps_alike(installed(file, command), between);
    lemma_alike_transitive(uninstalled(file), uninstalled(between), read);
    if whole_numbers(file) {
        law_uninstall_keeps_numbers_whole(file);
        lemma_alike_whole(uninstalled(file), read);
    }
}

/// After hooks were put into a file that takes them, taking them out changes it.
pub proof fn law_installed_text_can_be_undone(
    content: Option<Seq<char>>,
    binary: Seq<char>,
    hooked: Seq<char>,
)
    requires
        occurs(binary, "git-ai"@),
        install_change(content, binary) == Ok::<Option<Seq<char>>, Seq<char>>(Some(hooked)),
        install_holds(content, binary, hooked),
        takes_hooks(file_of(content)->Ok_0),
    ensures
        uninstall_change(Some(hooked)) matches Ok(Some(_)),
{
    law_hook_command_runs_checkpoint(binary);
    law_uninstall_leaves_no_checkpoint(parsed(hooked)->Ok_0);
}

/// Only a file that cannot be read as a document fails the work on it; a blank file
/// is no failure where the hooks are put in.
pub proof fn law_only_unreadable_files_fail(content: Option<Seq<char>>, binary: Seq<char>)
    ensures
        install_change(content, binary) is Err <==> content is Some && trimmed(content->0).len() > 0
            && parsed(content->0) is Err,
        uninstall_change(content) is Err <==> content is Some && parsed(content->0) is Err,
{
}

/// Every diff that was made stands in what is reported.
pub proof fn law_every_diff_is_reported(diffs: Seq<Option<Seq<char>>>, at: int)
    requires
        0 <= at < diffs.len(),
        diffs[at] is Some,
    ensures
        combined(diffs) matches Some(reported) && occurs(reported, diffs[at]->0),
{
    lemma_joined(diffs, at);
}

/// Every diff stands in the diffs one below the other.
proof fn lemma_joined(diffs: Seq<Option<Seq<char>>>, at: int)
    requires
        0 <= at < diffs.len(),
        diffs[at] is Some,
    ensures
        occurs(joined(diffs), diffs[at]->0),
    decreases diffs.len(),
{
    let diff = diffs[at]->0;
    let whole = joined(diffs);
    let front = joined(diffs.drop_last());
    if at == diffs.len() - 1 {
        let start = whole.len() - diff.len();
        assert(whole.subrange(start, whole.len() as int) =~= diff);
        assert(occurs_at(whole, diff, start));
    } else {
        assert(diffs.drop_last()[at] == diffs[at]);
        lemma_joined(diffs.drop_last(), at);
        if front.len() == 0 {
            assert(diff.len() == 0);
            assert(whole.subrange(0, 0) =~= diff);
            assert(occurs_at(whole, diff, 0));
        } else {
            let back = whole.skip(front.len() as int);
            assert(whole =~= Seq::<char>::empty() + front + back);
            lemma_occurs_within(Seq::empty(), front, back, diff);
        }
    }
}

/// A dry run and a run proper come to the same text; only the run proper is to
/// write it.
pub proof fn law_dry_run_only_withholds_writing(
    change: Result<Option<Seq<char>>, Seq<char>>,
    dry: Result<Option<HookEdit>, GitAiError>,
    proper: Result<Option<HookEdit>, GitAiError>,
)
    requires
        reports(dry, change, true),
        reports(proper, change, false),
    ensures
        dry is Ok <==> proper is Ok,
        dry matches Ok(Some(edit)) ==> !edit.write && (proper matches Ok(Some(other))
            && other.write && other.new_content@ == edit.new_content@),
        dry matches Ok(None) ==> proper matches Ok(None),
{
}

// ---------------------------------------------------------------------------
// What is found, changed and told, file by file
// ---------------------------------------------------------------------------

/// Trae is found by any of its signs. A variant is detected by its own directories;
/// the international one also by the command-line interface where there is no
/// directory at all.
pub proof fn law_signs_tell_the_variants(signs: InstallSigns)
    ensures
        tool_found(signs) <==> signs.trae || signs.trae_cn || signs.trae_cn_server
            || signs.trae_aicc || signs.cli || signs.settings,
        detected(signs).contains(TraeVariant::CN) <==> signs.trae_cn || signs.trae_cn_server
            || signs.trae_aicc,
        detected(signs).contains(TraeVariant::International) <==> signs.trae || (signs.cli
            && !signs.trae_cn && !signs.trae_cn_server && !signs.trae_aicc),
        detected(signs).len() > 0 ==> or_international(detected(signs)) == detected(signs),
        detected(signs).len() == 0 ==> or_international(detected(signs)) == seq![
            TraeVariant::International,
        ],
        !tool_found(signs) ==> variants_checked(signs).len() == 0,
{
    let variants = detected(signs);
    let china = signs.trae_cn || signs.trae_cn_server || signs.trae_aicc;
    if signs.trae && china {
        assert(variants =~= seq![TraeVariant::International, TraeVariant::CN]);
        assert(variants[0] == TraeVariant::International);
        assert(variants[1] == TraeVariant::CN);
    } else if china {
        assert(variants =~= seq![TraeVariant::CN]);
        assert(variants[0] == TraeVariant::CN);
    } else if signs.trae || signs.cli {
        assert(variants =~= seq![TraeVariant::International]);
        assert(variants[0] == TraeVariant::International);
    } else {
        assert(variants =~= Seq::empty());
    }
}

/// The text of a hook file is found to have its hooks if and only if it can be read
/// as a document which lists a hook that makes a checkpoint before the use of a tool.
pub proof fn law_found_in_text(text: Seq<char>)
    ensures
        !content_hooks_checkpoint(None),
        content_hooks_checkpoint(Some(text)) <==> parsed(text) is Ok && exists|i: int|
            0 <= i < listed(parsed(text)->Ok_0, "preToolUse"@).len() && makes_checkpoint(
                #[trigger] listed(parsed(text)->Ok_0, "preToolUse"@)[i],
            ),
{
    if let Ok(file) = parsed(text) {
        law_found_if_listed(file);
    }
}

/// Where one hook file has no hooks, the hooks are not found, whatever the other files
/// hold.
pub proof fn law_one_file_without_hooks_is_enough(
    signs: InstallSigns,
    contents: Seq<Option<Seq<char>>>,
    at: int,
)
    requires
        0 <= at < contents.len(),
        !content_hooks_checkpoint(contents[at]),
    ensures
        !hooks_found(signs, contents),
{
}

/// The hooks are found if and only if something of Trae was found and every hook file,
/// taken alone, is found to have its hooks. Files in two groups are found so if and
/// only if each group is.
pub proof fn law_every_file_is_checked(
    signs: InstallSigns,
    contents: Seq<Option<Seq<char>>>,
    more: Seq<Option<Seq<char>>>,
)
    ensures
        hooks_found(signs, contents) <==> tool_found(signs) && forall|i: int|
            0 <= i < contents.len() ==> hooks_found(signs, seq![#[trigger] contents[i]]),
        forall|content: Option<Seq<char>>| #[trigger]
            hooks_found(signs, seq![content]) <==> tool_found(signs) && content_hooks_checkpoint(
                content,
            ),
        hooks_found(signs, contents + more) <==> hooks_found(signs, contents) && hooks_found(
            signs,
            more,
        ),
{
    assert forall|content: Option<Seq<char>>| #[trigger]
        hooks_found(signs, seq![content]) <==> tool_found(signs) && content_hooks_checkpoint(
        content,
    ) by {
        assert(seq![content][0] == content);
    }
    if hooks_found(signs, contents) {
        assert forall|i: int| 0 <= i < contents.len() implies hooks_found(
            signs,
            seq![#[trigger] contents[i]],
        ) by {
            assert(content_hooks_checkpoint(contents[i]));
        }
    }
    let all = contents + more;
    if hooks_found(signs, all) {
        assert forall|i: int| 0 <= i < contents.len() implies content_hooks_checkpoint(
            #[trigger] contents[i],
        ) by {
            assert(all[i] == contents[i]);
        }
        assert forall|i: int| 0 <= i < more.len() implies content_hooks_checkpoint(
            #[trigger] more[i],
        ) by {
            assert(all[contents.len() + i] == more[i]);
        }
    }
}

/// What installing does to a text: a file that is not there or blank is taken for an
/// object without members; another one is read, and fails if that fails. Where the
/// hooks change the document, its text is printed anew.
pub proof fn law_install_from_text(text: Seq<char>, binary: Seq<char>)
    ensures
        ({
            let command = binary + " checkpoint trae --hook-input stdin"@;
            let nothing = Tree::Object(Map::empty());
            let fresh = Ok::<Option<Seq<char>>, Seq<char>>(
                Some(printed(installed(nothing, command))),
            );
            &&& install_change(None, binary) == fresh
            &&& is_blank(text) ==> install_change(Some(text), binary) == fresh
            &&& !is_blank(text) ==> install_change(Some(text), binary) == match parsed(text) {
                Ok(file) => if installed(file, command) == file {
                    Ok(None)
                } else {
                    Ok(Some(printed(installed(file, command))))
                },
                Err(message) => Err(message),
            }
        }),
{
    law_hook_command_is_binary_and_arguments(binary);
    law_trimming_takes_white_space_off(text);
    let nothing = Tree::Object(Map::empty());
    law_install_touches_nothing_else(nothing, hook_command(binary));
    assert(installed(nothing, hook_command(binary)).member("version"@) is Some);
    assert(nothing.member("version"@) is None);
}

/// What uninstalling does to a text: a file that is not there stays so; another one is
/// read, and fails if that fails. Where the document changes, its text is printed
/// anew.
pub proof fn law_uninstall_from_text(text: Seq<char>)
    ensures
        uninstall_change(None) == Ok::<Option<Seq<char>>, Seq<char>>(None),
        uninstall_change(Some(text)) == match parsed(text) {
            Ok(file) => if uninstalled(file) == file {
                Ok(None)
            } else {
                Ok(Some(printed(uninstalled(file))))
            },
            Err(message) => Err(message),
        },
{
}

/// An outcome reports a change if and only if it holds its text, to be written unless
/// the run is dry; no change if and only if it holds none; and a failure if and only
/// if it tells its message.
pub proof fn law_outcomes_report_exactly(
    outcome: Result<Option<HookEdit>, GitAiError>,
    change: Result<Option<Seq<char>>, Seq<char>>,
    dry_run: bool,
)
    requires
        reports(outcome, change, dry_run),
    ensures
        match outcome {
            Ok(Some(edit)) => change == Ok::<Option<Seq<char>>, Seq<char>>(
                Some(edit.new_content@),
            ) && edit.write == !dry_run,
            Ok(None) => change == Ok::<Option<Seq<char>>, Seq<char>>(None),
            Err(error) => error matches GitAiError::JsonError(message) && change == Err::<
                Option<Seq<char>>,
                Seq<char>,
            >(message@),
        },
{
}

/// A pass does to every file what the work on that file alone does, and fails if and
/// only if the work on some file does.
pub proof fn law_passes_work_file_by_file(
    binary: Seq<char>,
    content: Option<Seq<char>>,
    work: Work,
    contents: Seq<Option<Seq<char>>>,
)
    ensures
        change_by(Work::Install { binary }, content) == install_change(content, binary),
        change_by(Work::Uninstall, content) == uninstall_change(content),
        pass_change(work, contents) is Ok <==> forall|i: int|
            0 <= i < contents.len() ==> (#[trigger] change_by(work, contents[i])) is Ok,
        pass_change(work, contents) matches Ok(changes) ==> {
            &&& changes.len() == contents.len()
            &&& forall|i: int|
                0 <= i < contents.len() ==> change_by(work, contents[i]) == Ok::<
                    Option<Seq<char>>,
                    Seq<char>,
                >(#[trigger] changes[i])
        },
{
    lemma_pass(work, contents);
}

/// The variants of a pass have their turns in their order: as many as there are diffs
/// had theirs, and the one behind them is next, unless a step failed or none is left.
pub proof fn law_variants_have_their_turns(run: HookRun)
    ensures
        run.failed ==> run.upcoming() is None,
        run.diffs@.len() >= run.variants@.len() ==> run.upcoming() is None,
        !run.failed && run.diffs@.len() < run.variants@.len() ==> run.upcoming() == Some(
            run.variants@[run.diffs@.len() as int],
        ),
{
}

/// What is reported of the diffs: nothing of none, nor of files that did not change;
/// of a first change its diff, and of a further one its diff on a line of its own
/// behind what was reported before, if that was not empty.
pub proof fn law_diffs_are_reported_below_each_other(
    diffs: Seq<Option<Seq<char>>>,
    diff: Seq<char>,
)
    ensures
        combined(Seq::empty()) is None,
        combined(diffs.push(None)) == combined(diffs),
        combined(diffs.push(Some(diff))) == match combined(diffs) {
            Some(before) if before.len() > 0 => Some(before + "\n"@ + diff),
            _ => Some(diff),
        },
{
    reveal_strlit("\n");
    let none = diffs.push(None);
    let some = diffs.push(Some(diff));
    assert(none.drop_last() =~= diffs);
    assert(some.drop_last() =~= diffs);
    assert(some[diffs.len() as int] is Some);
    lemma_nothing_joined(diffs);
    if combined(diffs) is Some {
        let at = choose|i: int| 0 <= i < diffs.len() && (#[trigger] diffs[i]) is Some;
        assert(none[at] is Some);
    }
    if combined(none) is Some {
        let at = choose|i: int| 0 <= i < none.len() && (#[trigger] none[i]) is Some;
        assert(diffs[at] is Some);
    }
    assert(joined(diffs).push('\n') =~= joined(diffs) + "\n"@);
}

/// Files that did not change have no diff.
proof fn lemma_nothing_joined(diffs: Seq<Option<Seq<char>>>)
    ensures
        combined(diffs) is None ==> joined(diffs).len() == 0,
    decreases diffs.len(),
{
    if diffs.len() > 0 && combined(diffs) is None {
        let front = diffs.drop_last();
        assert(diffs[diffs.len() - 1] is None);
        if combined(front) is Some {
            let at = choose|i: int| 0 <= i < front.len() && (#[trigger] front[i]) is Some;
            assert(diffs[at] is Some);
        }
        lemma_nothing_joined(front);
    }
}

/// A list of strings that may not be there is told by their characters.
pub proof fn law_optional_strings_are_their_characters(list: Seq<Option<String>>)
    ensures
        opt_texts(list).len() == list.len(),
        forall|i: int|
            0 <= i < list.len() ==> #[trigger] opt_texts(list)[i] == match list[i] {
                Some(text) => Some(text@),
                None => None,
            },
{
}

} // verus!
