//! What the installer does besides the hooks: the editor extension, and the path
//! of git in the editor's settings.
//!
//! The run alternates between work on the machine and decisions on how that went.
//! [`Extras`] makes the decisions: it names the next piece of work and takes what
//! came of it.

use crate::text::opt_text;
use vstd::prelude::*;

verus! {

/// What became of one thing that was to be installed.
#[derive(Debug)]
pub struct InstallResult {
    pub changed: bool,
    pub diff: Option<String>,
    pub message: String,
}

/// What an [`InstallResult`] says.
pub struct Report {
    pub changed: bool,
    pub diff: Option<Seq<char>>,
    pub message: Seq<char>,
}

impl InstallResult {
    /// What the result says.
    pub open spec fn view(&self) -> Report {
        Report { changed: self.changed, diff: opt_text(self.diff), message: self.message@ }
    }
}

/// What the results of a run say.
pub open spec fn reports_of(results: Seq<InstallResult>) -> Seq<Report> {
    Seq::new(results.len(), |i: int| results[i]@)
}

/// The next piece of work.
#[derive(Clone, Copy, Debug, PartialEq, Eq, Structural)]
pub enum ExtrasStep {
    /// Find out whether this is a GitHub Codespace.
    AskCodespaces,
    /// Look for the editor's command-line interface.
    ResolveCli,
    /// Ask the editor whether it has the extension.
    CheckExtension,
    /// Have the editor install the extension.
    InstallExtension,
    /// Go to the next settings file.
    NextSettings,
    /// Set the path of git in the settings file.
    UpdateGitPath,
    /// Nothing is left to be done.
    Done,
}

/// What came of a piece of work.
#[derive(Debug)]
pub enum ExtrasEvent {
    /// Whether this is a GitHub Codespace.
    Codespaces(bool),
    /// Whether the editor's command-line interface was found.
    Cli(bool),
    /// Whether the editor has the extension.
    ExtensionChecked(bool),
    /// The editor could not be asked for the extension.
    ExtensionCheckFailed(String),
    /// Whether the editor installed the extension.
    ExtensionInstalled(bool),
    /// There is a settings file, and whether it is to be kept in order.
    Settings(bool),
    /// There is no further settings file.
    NoMoreSettings,
    /// The settings file at `path` was changed, or would be in a dry run.
    GitPathUpdated { path: String, diff: String },
    /// The settings file at `path` holds the path already.
    GitPathUnchanged { path: String },
    /// The settings file could not be changed.
    GitPathFailed(String),
}

/// The extension.
pub const EXTENSION: &'static str = "git-ai.git-ai-vscode";

/// The report where the extension cannot be installed in a Codespace.
pub open spec fn codespaces_report() -> Report {
    Report {
        changed: false,
        diff: None,
        message: "Trae: Unable to install extension in GitHub Codespaces. Add to your devcontainer.json: \"customizations\": { \"vscode\": { \"extensions\": [\"git-ai.git-ai-vscode\"] } }"@,
    }
}

/// The report where the user has to install the extension.
pub open spec fn manual_report() -> Report {
    Report {
        changed: false,
        diff: None,
        message: "Trae: Unable to automatically install extension. Please cmd+click on the following link to install: trae:extension/git-ai.git-ai-vscode (or search for 'git-ai-vscode' in the Trae extensions tab)"@,
    }
}

/// A report without a diff.
pub open spec fn report(changed: bool, message: Seq<char>) -> Report {
    Report { changed, diff: None, message }
}

/// The step that follows, and what is reported, when a step had that outcome. An
/// outcome that the step does not have changes nothing.
pub open spec fn after_event(step: ExtrasStep, dry_run: bool, event: ExtrasEvent) -> (
    ExtrasStep,
    Option<Report>,
) {
    match (step, event) {
        (ExtrasStep::AskCodespaces, ExtrasEvent::Codespaces(yes)) => if yes {
            (ExtrasStep::Done, Some(codespaces_report()))
        } else {
            (ExtrasStep::ResolveCli, None)
        },
        (ExtrasStep::ResolveCli, ExtrasEvent::Cli(found)) => if found {
            (ExtrasStep::CheckExtension, None)
        } else {
            (ExtrasStep::NextSettings, Some(manual_report()))
        },
        (ExtrasStep::CheckExtension, ExtrasEvent::ExtensionChecked(present)) => if present {
            (ExtrasStep::NextSettings, Some(report(false, "Trae: Extension already installed"@)))
        } else if dry_run {
            (ExtrasStep::NextSettings, Some(report(true, "Trae: Pending extension install"@)))
        } else {
            (ExtrasStep::InstallExtension, None)
        },
        (ExtrasStep::CheckExtension, ExtrasEvent::ExtensionCheckFailed(error)) => (
            ExtrasStep::NextSettings,
            Some(report(false, "Trae: Failed to check extension: "@ + error@)),
        ),
        (ExtrasStep::InstallExtension, ExtrasEvent::ExtensionInstalled(ok)) => if ok {
            (
                ExtrasStep::NextSettings,
                Some(
                    report(
                        true,
                        "\tExtension 'git-ai.git-ai-vscode' was successfully installed."@,
                    ),
                ),
            )
        } else {
            (ExtrasStep::NextSettings, Some(manual_report()))
        },
        (ExtrasStep::NextSettings, ExtrasEvent::Settings(wanted)) => if wanted {
            (ExtrasStep::UpdateGitPath, None)
        } else {
            (ExtrasStep::NextSettings, None)
        },
        (ExtrasStep::NextSettings, ExtrasEvent::NoMoreSettings) => (ExtrasStep::Done, None),
        (ExtrasStep::UpdateGitPath, ExtrasEvent::GitPathUpdated { path, diff }) => (
            ExtrasStep::NextSettings,
            Some(
                Report {
                    changed: true,
                    diff: Some(diff@),
                    message: "Trae: git.path updated in "@ + path@,
                },
            ),
        ),
        (ExtrasStep::UpdateGitPath, ExtrasEvent::GitPathUnchanged { path }) => (
            ExtrasStep::NextSettings,
            Some(report(false, "Trae: git.path already configured in "@ + path@)),
        ),
        (ExtrasStep::UpdateGitPath, ExtrasEvent::GitPathFailed(error)) => (
            ExtrasStep::NextSettings,
            Some(report(false, "Trae: Failed to configure git.path: "@ + error@)),
        ),
        _ => (step, None),
    }
}

/// A run of the installer's extras: the next step, and the results so far.
#[derive(Debug)]
pub struct Extras {
    pub dry_run: bool,
    pub step: ExtrasStep,
    pub results: Vec<InstallResult>,
}

impl Extras {
    /// Whether this is the run after those events.
    pub open spec fn has_seen(&self, events: Seq<ExtrasEvent>) -> bool {
        run_of(self.dry_run, events) == (self.step, reports_of(self.results@))
    }

    /// A run that has yet to begin.
    pub fn new(dry_run: bool) -> (extras: Extras)
        ensures
            extras.dry_run == dry_run,
            extras.step == ExtrasStep::AskCodespaces,
            extras.results@.len() == 0,
            extras.has_seen(Seq::empty()),
    {
        let extras = Extras { dry_run, step: ExtrasStep::AskCodespaces, results: Vec::new() };
        assert(reports_of(extras.results@) =~= Seq::empty());
        extras
    }

    /// Adds a result.
    fn add_result(&mut self, changed: bool, diff: Option<String>, message: String)
        ensures
            final(self).dry_run == old(self).dry_run,
            final(self).step == old(self).step,
            reports_of(final(self).results@) == reports_of(old(self).results@).push(
                (Report { changed, diff: opt_text(diff), message: message@ }),
            ),
    {
        self.results.push(InstallResult { changed, diff, message });
        assert(reports_of(self.results@) =~= reports_of(old(self).results@).push(
            (Report { changed, diff: opt_text(diff), message: message@ }),
        ));
    }

    /// Adds the result where the user has to install the extension.
    fn add_manual(&mut self)
        ensures
            final(self).dry_run == old(self).dry_run,
            final(self).step == old(self).step,
            reports_of(final(self).results@) == reports_of(old(self).results@).push(
                manual_report(),
            ),
    {
        self.add_result(
            false,
            None,
            "Trae: Unable to automatically install extension. Please cmd+click on the following link to install: trae:extension/git-ai.git-ai-vscode (or search for 'git-ai-vscode' in the Trae extensions tab)".to_owned(),
        );
    }

    /// Takes what came of the present step and goes to the next.
    pub fn advance(&mut self, event: ExtrasEvent)
        ensures
            final(self).dry_run == old(self).dry_run,
            final(self).step == after_event(old(self).step, old(self).dry_run, event).0,
            reports_of(final(self).results@) == match after_event(
                old(self).step,
                old(self).dry_run,
                event,
            ).1 {
                Some(added) => reports_of(old(self).results@).push(added),
                None => reports_of(old(self).results@),
            },
            forall|events: Seq<ExtrasEvent>|
                old(self).has_seen(events) ==> #[trigger] final(self).has_seen(events.push(event)),
    {
        proof {
            assert forall|events: Seq<ExtrasEvent>| (#[trigger] events.push(event)).drop_last()
                == events by {
                assert(events.push(event).drop_last() =~= events);
            }
        }
        match (self.step, event) {
            (ExtrasStep::AskCodespaces, ExtrasEvent::Codespaces(yes)) => {
                if yes {
                    self.add_result(
                        false,
                        None,
                        "Trae: Unable to install extension in GitHub Codespaces. Add to your devcontainer.json: \"customizations\": { \"vscode\": { \"extensions\": [\"git-ai.git-ai-vscode\"] } }".to_owned(),
                    );
                    self.step = ExtrasStep::Done;
                } else {
                    self.step = ExtrasStep::ResolveCli;
                }
            },
            (ExtrasStep::ResolveCli, ExtrasEvent::Cli(found)) => {
                if found {
                    self.step = ExtrasStep::CheckExtension;
                } else {
                    self.add_manual();
                    self.step = ExtrasStep::NextSettings;
                }
            },
            (ExtrasStep::CheckExtension, ExtrasEvent::ExtensionChecked(present)) => {
                if present {
                    self.add_result(false, None, "Trae: Extension already installed".to_owned());
                    self.step = ExtrasStep::NextSettings;
                } else if self.dry_run {
                    self.add_result(true, None, "Trae: Pending extension install".to_owned());
                    self.step = ExtrasStep::NextSettings;
                } else {
                    self.step = ExtrasStep::InstallExtension;
                }
            },
            (ExtrasStep::CheckExtension, ExtrasEvent::ExtensionCheckFailed(error)) => {
                let message = "Trae: Failed to check extension: ".to_owned().concat(
                    error.as_str(),
                );
                self.add_result(false, None, message);
                self.step = ExtrasStep::NextSettings;
            },
            (ExtrasStep::InstallExtension, ExtrasEvent::ExtensionInstalled(ok)) => {
                if ok {
                    self.add_result(
                        true,
                        None,
                        "\tExtension 'git-ai.git-ai-vscode' was successfully installed.".to_owned(),
                    );
                } else {
                    self.add_manual();
                }
                self.step = ExtrasStep::NextSettings;
            },
            (ExtrasStep::NextSettings, ExtrasEvent::Settings(wanted)) => {
                if wanted {
                    self.step = ExtrasStep::UpdateGitPath;
                }
            },
            (ExtrasStep::NextSettings, ExtrasEvent::NoMoreSettings) => {
                self.step = ExtrasStep::Done;
            },
            (ExtrasStep::UpdateGitPath, ExtrasEvent::GitPathUpdated { path, diff }) => {
                let message = "Trae: git.path updated in ".to_owned().concat(path.as_str());
                self.add_result(true, Some(diff), message);
                self.step = ExtrasStep::NextSettings;
            },
            (ExtrasStep::UpdateGitPath, ExtrasEvent::GitPathUnchanged { path }) => {
                let message = "Trae: git.path already configured in ".to_owned().concat(
                    path.as_str(),
                );
                self.add_result(false, None, message);
                self.step = ExtrasStep::NextSettings;
            },
            (ExtrasStep::UpdateGitPath, ExtrasEvent::GitPathFailed(error)) => {
                let message = "Trae: Failed to configure git.path: ".to_owned().concat(
                    error.as_str(),
                );
                self.add_result(false, None, message);
                self.step = ExtrasStep::NextSettings;
            },
            _ => {},
        }
    }
}

// ---------------------------------------------------------------------------
// Whole runs
// ---------------------------------------------------------------------------

/// The step that a run is at after some events, and what it reported so far.
pub open spec fn run_of(dry_run: bool, events: Seq<ExtrasEvent>) -> (ExtrasStep, Seq<Report>)
    decreases events.len(),
{
    if events.len() == 0 {
        (ExtrasStep::AskCodespaces, Seq::empty())
    } else {
        let (step, reports) = run_of(dry_run, events.drop_last());
        let (next, added) = after_event(step, dry_run, events.last());
        (
            next,
            match added {
                Some(report) => reports.push(report),
                None => reports,
            },
        )
    }
}

/// A dry run never has the extension installed.
pub proof fn law_dry_run_installs_nothing(events: Seq<ExtrasEvent>)
    ensures
        run_of(true, events).0 != ExtrasStep::InstallExtension,
    decreases events.len(),
{
    if events.len() > 0 {
        law_dry_run_installs_nothing(events.drop_last());
    }
}

/// What became of the extension is reported, whatever became of it: nothing is
/// reported until that is settled, and something is from there on.
pub proof fn law_every_run_reports(dry_run: bool, events: Seq<ExtrasEvent>)
    ensures
        run_of(dry_run, events).1.len() == 0 <==> match run_of(dry_run, events).0 {
            ExtrasStep::AskCodespaces => true,
            ExtrasStep::ResolveCli => true,
            ExtrasStep::CheckExtension => true,
            ExtrasStep::InstallExtension => true,
            ExtrasStep::NextSettings => false,
            ExtrasStep::UpdateGitPath => false,
            ExtrasStep::Done => false,
        },
    decreases events.len(),
{
    if events.len() > 0 {
        law_every_run_reports(dry_run, events.drop_last());
    }
}

/// Whether a run found itself in a Codespace.
pub open spec fn in_codespace(dry_run: bool, events: Seq<ExtrasEvent>) -> bool
    decreases events.len(),
{
    events.len() > 0 && (in_codespace(dry_run, events.drop_last()) || (run_of(
        dry_run,
        events.drop_last(),
    ).0 == ExtrasStep::AskCodespaces && events.last() == ExtrasEvent::Codespaces(true)))
}

/// How many settings files a run came to that are to be kept in order.
pub open spec fn wanted_settings(dry_run: bool, events: Seq<ExtrasEvent>) -> nat
    decreases events.len(),
{
    if events.len() == 0 {
        0
    } else {
        let (step, _) = run_of(dry_run, events.drop_last());
        let before = wanted_settings(dry_run, events.drop_last());
        if step == ExtrasStep::NextSettings && events.last() == ExtrasEvent::Settings(true) {
            before + 1
        } else {
            before
        }
    }
}

/// What is reported of a settings file.
pub open spec fn settings_report(event: ExtrasEvent) -> Option<Report> {
    match event {
        ExtrasEvent::GitPathUpdated { path, diff } => Some(
            Report {
                changed: true,
                diff: Some(diff@),
                message: "Trae: git.path updated in "@ + path@,
            },
        ),
        ExtrasEvent::GitPathUnchanged { path } => Some(
            report(false, "Trae: git.path already configured in "@ + path@),
        ),
        ExtrasEvent::GitPathFailed(error) => Some(
            report(false, "Trae: Failed to configure git.path: "@ + error@),
        ),
        _ => None,
    }
}

/// What a run reported of the settings files, in the order in which it came to them.
pub open spec fn settings_reports(dry_run: bool, events: Seq<ExtrasEvent>) -> Seq<Report>
    decreases events.len(),
{
    if events.len() == 0 {
        Seq::empty()
    } else {
        let (step, _) = run_of(dry_run, events.drop_last());
        let before = settings_reports(dry_run, events.drop_last());
        match settings_report(events.last()) {
            Some(added) if step == ExtrasStep::UpdateGitPath => before.push(added),
            _ => before,
        }
    }
}

/// The report where the editor could not be asked for the extension.
pub open spec fn check_failed_report(error: Seq<char>) -> Report {
    report(false, "Trae: Failed to check extension: "@ + error)
}

/// Whether a report tells what became of the extension.
pub open spec fn is_extension_report(added: Report) -> bool {
    ||| added == manual_report()
    ||| added == report(false, "Trae: Extension already installed"@)
    ||| added == report(true, "Trae: Pending extension install"@)
    ||| added == report(true, "\tExtension 'git-ai.git-ai-vscode' was successfully installed."@)
    ||| exists|error: Seq<char>| added == #[trigger] check_failed_report(error)
}

/// A run outside a Codespace reports once what became of the extension, and then
/// once for each settings file that is to be kept in order, in their order; it is
/// not done before it reported of all of them. In a Codespace it only says why
/// nothing was installed.
pub proof fn law_reports_in_order(dry_run: bool, events: Seq<ExtrasEvent>)
    ensures
        ({
            let (step, reports) = run_of(dry_run, events);
            let settings = settings_reports(dry_run, events);
            let wanted = wanted_settings(dry_run, events);
            let begun = reports.len() > 0 && is_extension_report(reports[0]) && reports
                == seq![reports[0]] + settings;
            if in_codespace(dry_run, events) {
                &&& step == ExtrasStep::Done
                &&& reports == seq![codespaces_report()]
            } else {
                match step {
                    ExtrasStep::NextSettings => begun && settings.len() == wanted,
                    ExtrasStep::UpdateGitPath => begun && settings.len() + 1 == wanted,
                    ExtrasStep::Done => begun && settings.len() == wanted,
                    _ => reports.len() == 0 && settings.len() == 0 && wanted == 0,
                }
            }
        }),
    decreases events.len(),
{
    if events.len() > 0 {
        let front = events.drop_last();
        law_reports_in_order(dry_run, front);
        let (step, reports) = run_of(dry_run, front);
        let (next, added) = after_event(step, dry_run, events.last());
        let after = run_of(dry_run, events).1;
        if let ExtrasEvent::ExtensionCheckFailed(error) = events.last() {
            assert(check_failed_report(error@) == report(
                false,
                "Trae: Failed to check extension: "@ + error@,
            ));
        }
        if let Some(report) = added {
            if step == ExtrasStep::UpdateGitPath {
                assert(settings_report(events.last()) == Some(report));
                assert(after =~= seq![after[0]] + settings_reports(dry_run, events));
            } else {
                assert(after =~= seq![report]);
                assert(settings_reports(dry_run, events) =~= Seq::empty());
                assert(after =~= seq![after[0]] + settings_reports(dry_run, events));
            }
        }
    }
}

/// A run that is done stays done, and reports nothing more.
pub proof fn law_done_is_done(dry_run: bool, events: Seq<ExtrasEvent>, more: Seq<ExtrasEvent>)
    requires
        run_of(dry_run, events).0 == ExtrasStep::Done,
    ensures
        run_of(dry_run, events + more) == run_of(dry_run, events),
    decreases more.len(),
{
    if more.len() == 0 {
        assert(events + more =~= events);
    } else {
        assert((events + more).drop_last() =~= events + more.drop_last());
        law_done_is_done(dry_run, events, more.drop_last());
    }
}

/// In a Codespace nothing is touched: whatever follows, the run is done and has
/// said why.
pub proof fn law_codespaces_end_the_run(dry_run: bool, more: Seq<ExtrasEvent>)
    ensures
        run_of(dry_run, seq![ExtrasEvent::Codespaces(true)] + more) == (
            ExtrasStep::Done,
            seq![codespaces_report()],
        ),
{
    let first = seq![ExtrasEvent::Codespaces(true)];
    assert(first.drop_last() =~= Seq::empty());
    reveal_with_fuel(run_of, 2);
    assert(run_of(dry_run, first).1 =~= seq![codespaces_report()]);
    law_done_is_done(dry_run, first, more);
}

// ---------------------------------------------------------------------------
// What every outcome leads to
// ---------------------------------------------------------------------------

/// A result says what it holds, and the results of a run say what each of them says,
/// in their order.
pub proof fn law_results_say_what_they_hold(results: Seq<InstallResult>)
    ensures
        reports_of(results).len() == results.len(),
        forall|i: int|
            0 <= i < results.len() ==> {
                &&& (#[trigger] reports_of(results)[i]).changed == results[i].changed
                &&& reports_of(results)[i].message == results[i].message@
                &&& reports_of(results)[i].diff is Some <==> results[i].diff is Some
                &&& results[i].diff matches Some(diff) ==> reports_of(results)[i].diff == Some(
                    diff@,
                )
            },
{
}

/// What a run comes to with one more event.
proof fn lemma_one_more(dry_run: bool, events: Seq<ExtrasEvent>, event: ExtrasEvent)
    ensures
        run_of(dry_run, events.push(event)).0 == after_event(
            run_of(dry_run, events).0,
            dry_run,
            event,
        ).0,
        run_of(dry_run, events.push(event)).1 == match after_event(
            run_of(dry_run, events).0,
            dry_run,
            event,
        ).1 {
            Some(added) => run_of(dry_run, events).1.push(added),
            None => run_of(dry_run, events).1,
        },
{
    assert(events.push(event).drop_last() =~= events);
}

/// A run begins by asking whether this is a Codespace, with nothing reported. In one
/// it ends there and says how the extension is had; elsewhere it looks for the
/// command-line interface.
pub proof fn law_runs_begin_with_codespaces(dry_run: bool)
    ensures
        run_of(dry_run, Seq::empty()) == (ExtrasStep::AskCodespaces, Seq::<Report>::empty()),
        run_of(dry_run, seq![ExtrasEvent::Codespaces(false)]) == (
            ExtrasStep::ResolveCli,
            Seq::<Report>::empty(),
        ),
        run_of(dry_run, seq![ExtrasEvent::Codespaces(true)]) == (
            ExtrasStep::Done,
            seq![
                Report {
                    changed: false,
                    diff: None,
                    message: "Trae: Unable to install extension in GitHub Codespaces. Add to your devcontainer.json: \"customizations\": { \"vscode\": { \"extensions\": [\"git-ai.git-ai-vscode\"] } }"@,
                },
            ],
        ),
{
    let none = Seq::<ExtrasEvent>::empty();
    lemma_one_more(dry_run, none, ExtrasEvent::Codespaces(false));
    lemma_one_more(dry_run, none, ExtrasEvent::Codespaces(true));
    assert(none.push(ExtrasEvent::Codespaces(false)) =~= seq![ExtrasEvent::Codespaces(false)]);
    assert(none.push(ExtrasEvent::Codespaces(true)) =~= seq![ExtrasEvent::Codespaces(true)]);
    assert(run_of(dry_run, seq![ExtrasEvent::Codespaces(true)]).1 =~= seq![codespaces_report()]);
}

/// With the command-line interface the editor is asked for the extension; without it
/// the user is told to install the extension, and that nothing changed.
pub proof fn law_extension_needs_the_cli(dry_run: bool, events: Seq<ExtrasEvent>)
    requires
        run_of(dry_run, events).0 == ExtrasStep::ResolveCli,
    ensures
        run_of(dry_run, events.push(ExtrasEvent::Cli(true))) == (
            ExtrasStep::CheckExtension,
            run_of(dry_run, events).1,
        ),
        run_of(dry_run, events.push(ExtrasEvent::Cli(false))) == (
            ExtrasStep::NextSettings,
            run_of(dry_run, events).1.push(
                Report {
                    changed: false,
                    diff: None,
                    message: "Trae: Unable to automatically install extension. Please cmd+click on the following link to install: trae:extension/git-ai.git-ai-vscode (or search for 'git-ai-vscode' in the Trae extensions tab)"@,
                },
            ),
        ),
{
    lemma_one_more(dry_run, events, ExtrasEvent::Cli(true));
    lemma_one_more(dry_run, events, ExtrasEvent::Cli(false));
}

/// Where the editor has the extension, nothing changed, in a dry run as in a run
/// proper. Where it does not, a dry run tells that the install is pending, and a run
/// proper goes to it with nothing reported yet. Where the editor could not be asked,
/// that is told, and nothing changed.
pub proof fn law_extension_is_installed_where_missing(
    dry_run: bool,
    events: Seq<ExtrasEvent>,
    error: String,
)
    requires
        run_of(dry_run, events).0 == ExtrasStep::CheckExtension,
    ensures
        run_of(dry_run, events.push(ExtrasEvent::ExtensionChecked(true))) == (
            ExtrasStep::NextSettings,
            run_of(dry_run, events).1.push(
                Report {
                    changed: false,
                    diff: None,
                    message: "Trae: Extension already installed"@,
                },
            ),
        ),
        dry_run ==> run_of(dry_run, events.push(ExtrasEvent::ExtensionChecked(false))) == (
            ExtrasStep::NextSettings,
            run_of(dry_run, events).1.push(
                Report {
                    changed: true,
                    diff: None,
                    message: "Trae: Pending extension install"@,
                },
            ),
        ),
        !dry_run ==> run_of(dry_run, events.push(ExtrasEvent::ExtensionChecked(false))) == (
            ExtrasStep::InstallExtension,
            run_of(dry_run, events).1,
        ),
        run_of(dry_run, events.push(ExtrasEvent::ExtensionCheckFailed(error))) == (
            ExtrasStep::NextSettings,
            run_of(dry_run, events).1.push(
                Report {
                    changed: false,
                    diff: None,
                    message: "Trae: Failed to check extension: "@ + error@,
                },
            ),
        ),
{
    lemma_one_more(dry_run, events, ExtrasEvent::ExtensionChecked(true));
    lemma_one_more(dry_run, events, ExtrasEvent::ExtensionChecked(false));
    lemma_one_more(dry_run, events, ExtrasEvent::ExtensionCheckFailed(error));
}

/// An install that succeeds changed something; one that fails changed nothing, and
/// the user is told to install the extension. Either way the settings come next.
pub proof fn law_installs_are_told(dry_run: bool, events: Seq<ExtrasEvent>)
    requires
        run_of(dry_run, events).0 == ExtrasStep::InstallExtension,
    ensures
        run_of(dry_run, events.push(ExtrasEvent::ExtensionInstalled(true))) == (
            ExtrasStep::NextSettings,
            run_of(dry_run, events).1.push(
                Report {
                    changed: true,
                    diff: None,
                    message: "\tExtension 'git-ai.git-ai-vscode' was successfully installed."@,
                },
            ),
        ),
        run_of(dry_run, events.push(ExtrasEvent::ExtensionInstalled(false))) == (
            ExtrasStep::NextSettings,
            run_of(dry_run, events).1.push(
                Report {
                    changed: false,
                    diff: None,
                    message: "Trae: Unable to automatically install extension. Please cmd+click on the following link to install: trae:extension/git-ai.git-ai-vscode (or search for 'git-ai-vscode' in the Trae extensions tab)"@,
                },
            ),
        ),
{
    lemma_one_more(dry_run, events, ExtrasEvent::ExtensionInstalled(true));
    lemma_one_more(dry_run, events, ExtrasEvent::ExtensionInstalled(false));
}

/// A settings file that is to be kept in order is worked on, one that is not is passed
/// over in silence, and the run is done when there is none left.
pub proof fn law_settings_come_one_by_one(dry_run: bool, events: Seq<ExtrasEvent>)
    requires
        run_of(dry_run, events).0 == ExtrasStep::NextSettings,
    ensures
        run_of(dry_run, events.push(ExtrasEvent::Settings(true))) == (
            ExtrasStep::UpdateGitPath,
            run_of(dry_run, events).1,
        ),
        run_of(dry_run, events.push(ExtrasEvent::Settings(false))) == run_of(dry_run, events),
        run_of(dry_run, events.push(ExtrasEvent::NoMoreSettings)) == (
            ExtrasStep::Done,
            run_of(dry_run, events).1,
        ),
{
    lemma_one_more(dry_run, events, ExtrasEvent::Settings(true));
    lemma_one_more(dry_run, events, ExtrasEvent::Settings(false));
    lemma_one_more(dry_run, events, ExtrasEvent::NoMoreSettings);
}

/// What became of a settings file is told: changed with its diff, or not changed with
/// its path or with the error. Whatever became of it, the next one comes next.
pub proof fn law_settings_are_told(
    dry_run: bool,
    events: Seq<ExtrasEvent>,
    path: String,
    diff: String,
    error: String,
)
    requires
        run_of(dry_run, events).0 == ExtrasStep::UpdateGitPath,
    ensures
        run_of(dry_run, events.push(ExtrasEvent::GitPathUpdated { path, diff })) == (
            ExtrasStep::NextSettings,
            run_of(dry_run, events).1.push(
                Report {
                    changed: true,
                    diff: Some(diff@),
                    message: "Trae: git.path updated in "@ + path@,
                },
            ),
        ),
        run_of(dry_run, events.push(ExtrasEvent::GitPathUnchanged { path })) == (
            ExtrasStep::NextSettings,
            run_of(dry_run, events).1.push(
                Report {
                    changed: false,
                    diff: None,
                    message: "Trae: git.path already configured in "@ + path@,
                },
            ),
        ),
        run_of(dry_run, events.push(ExtrasEvent::GitPathFailed(error))) == (
            ExtrasStep::NextSettings,
            run_of(dry_run, events).1.push(
                Report {
                    changed: false,
                    diff: None,
                    message: "Trae: Failed to configure git.path: "@ + error@,
                },
            ),
        ),
{
    lemma_one_more(dry_run, events, ExtrasEvent::GitPathUpdated { path, diff });
    lemma_one_more(dry_run, events, ExtrasEvent::GitPathUnchanged { path });
    lemma_one_more(dry_run, events, ExtrasEvent::GitPathFailed(error));
}

/// Whether an event is an outcome of that step.
pub open spec fn answers(event: ExtrasEvent, step: ExtrasStep) -> bool {
    match event {
        ExtrasEvent::Codespaces(_) => step == ExtrasStep::AskCodespaces,
        ExtrasEvent::Cli(_) => step == ExtrasStep::ResolveCli,
        ExtrasEvent::ExtensionChecked(_) => step == ExtrasStep::CheckExtension,
        ExtrasEvent::ExtensionCheckFailed(_) => step == ExtrasStep::CheckExtension,
        ExtrasEvent::ExtensionInstalled(_) => step == ExtrasStep::InstallExtension,
        ExtrasEvent::Settings(_) => step == ExtrasStep::NextSettings,
        ExtrasEvent::NoMoreSettings => step == ExtrasStep::NextSettings,
        ExtrasEvent::GitPathUpdated { .. } => step == ExtrasStep::UpdateGitPath,
        ExtrasEvent::GitPathUnchanged { .. } => step == ExtrasStep::UpdateGitPath,
        ExtrasEvent::GitPathFailed(_) => step == ExtrasStep::UpdateGitPath,
    }
}

/// An event that is no outcome of the step that a run is at changes nothing.
pub proof fn law_events_out_of_turn_change_nothing(
    dry_run: bool,
    events: Seq<ExtrasEvent>,
    event: ExtrasEvent,
)
    requires
        !answers(event, run_of(dry_run, events).0),
    ensures
        run_of(dry_run, events.push(event)) == run_of(dry_run, events),
{
    lemma_one_more(dry_run, events, event);
}

/// Whether a run proper came to install the extension.
pub open spec fn came_to_install(events: Seq<ExtrasEvent>) -> bool
    decreases events.len(),
{
    ||| run_of(false, events).0 == ExtrasStep::InstallExtension
    ||| events.len() > 0 && came_to_install(events.drop_last())
}

/// A dry run and a run proper come to the same steps and tell the same, as long as
/// the run proper does not come to install the extension.
pub proof fn law_dry_runs_tell_the_same(events: Seq<ExtrasEvent>)
    requires
        !came_to_install(events),
    ensures
        run_of(true, events) == run_of(false, events),
    decreases events.len(),
{
    if events.len() > 0 {
        law_dry_runs_tell_the_same(events.drop_last());
    }
}

/// A change is told only where there was one: the editor said that it does not have
/// the extension and the run is dry, or that it installed the extension, or a
/// settings file was changed. A pending install is told only in the first case.
pub proof fn law_changes_told_were_made(dry_run: bool, events: Seq<ExtrasEvent>)
    ensures
        forall|i: int|
            0 <= i < run_of(dry_run, events).1.len() && (
            #[trigger] run_of(dry_run, events).1[i]).changed ==> {
                ||| dry_run && events.contains(ExtrasEvent::ExtensionChecked(false))
                ||| events.contains(ExtrasEvent::ExtensionInstalled(true))
                ||| exists|j: int|
                    0 <= j < events.len() && (#[trigger] events[j]) is GitPathUpdated
            },
        forall|i: int|
            0 <= i < run_of(dry_run, events).1.len() && (#[trigger] run_of(dry_run, events).1[i])
                == (Report {
                changed: true,
                diff: None,
                message: "Trae: Pending extension install"@,
            }) ==> dry_run && events.contains(ExtrasEvent::ExtensionChecked(false)),
    decreases events.len(),
{
    reveal_strlit("Trae: Pending extension install");
    reveal_strlit("\tExtension 'git-ai.git-ai-vscode' was successfully installed.");
    assert("Trae: Pending extension install"@[0] == 'T');
    assert("\tExtension 'git-ai.git-ai-vscode' was successfully installed."@[0] == '\t');
    if events.len() > 0 {
        let front = events.drop_last();
        law_changes_told_were_made(dry_run, front);
        let told = run_of(dry_run, front).1;
        let all = run_of(dry_run, events).1;
        assert(events[events.len() - 1] == events.last());
        assert(events.contains(events.last()));
        assert forall|event: ExtrasEvent| #[trigger] front.contains(event) implies events.contains(
            event,
        ) by {
            let j = choose|j: int| 0 <= j < front.len() && front[j] == event;
            assert(events[j] == event);
        }
        assert forall|j: int| 0 <= j < front.len() implies #[trigger] front[j] == events[j] by {}
        assert forall|i: int|
            0 <= i < all.len() && (#[trigger] all[i]).changed implies {
            ||| dry_run && events.contains(ExtrasEvent::ExtensionChecked(false))
            ||| events.contains(ExtrasEvent::ExtensionInstalled(true))
            ||| exists|j: int| 0 <= j < events.len() && (#[trigger] events[j]) is GitPathUpdated
        } by {
            if i < told.len() {
                assert(all[i] == told[i]);
                if exists|j: int| 0 <= j < front.len() && (#[trigger] front[j]) is GitPathUpdated {
                    let j = choose|j: int|
                        0 <= j < front.len() && (#[trigger] front[j]) is GitPathUpdated;
                    assert(events[j] is GitPathUpdated);
                }
            } else {
                assert(all[i] == all.last());
            }
        }
        assert forall|i: int|
            0 <= i < all.len() && (#[trigger] all[i]) == (Report {
                changed: true,
                diff: None,
                message: "Trae: Pending extension install"@,
            }) implies dry_run && events.contains(ExtrasEvent::ExtensionChecked(false)) by {
            if i < told.len() {
                assert(all[i] == told[i]);
            } else {
                assert(all[i] == all.last());
            }
        }
    }
}

} // verus!
