use trae_agent::extras::{Extras, ExtrasEvent, ExtrasStep};
use trae_agent::installer::TraeInstaller;

fn run(dry_run: bool, events: Vec<ExtrasEvent>) -> Extras {
    let mut extras = TraeInstaller.install_extras(dry_run);
    for event in events {
        extras.advance(event);
    }
    extras
}

fn messages(extras: &Extras) -> Vec<(bool, Option<&str>, &str)> {
    extras
        .results
        .iter()
        .map(|r| (r.changed, r.diff.as_deref(), r.message.as_str()))
        .collect()
}

const MANUAL: &str = "Trae: Unable to automatically install extension. Please cmd+click on the following link to install: trae:extension/git-ai.git-ai-vscode (or search for 'git-ai-vscode' in the Trae extensions tab)";

#[test]
fn codespaces_end_the_run() {
    let extras = run(false, vec![ExtrasEvent::Codespaces(true), ExtrasEvent::Cli(true)]);
    assert_eq!(extras.step, ExtrasStep::Done);
    assert_eq!(
        messages(&extras),
        vec![(
            false,
            None,
            "Trae: Unable to install extension in GitHub Codespaces. Add to your devcontainer.json: \"customizations\": { \"vscode\": { \"extensions\": [\"git-ai.git-ai-vscode\"] } }"
        )]
    );
}

#[test]
fn without_a_cli_the_user_installs() {
    let extras = run(false, vec![ExtrasEvent::Codespaces(false), ExtrasEvent::Cli(false)]);
    assert_eq!(extras.step, ExtrasStep::NextSettings);
    assert_eq!(messages(&extras), vec![(false, None, MANUAL)]);
}

#[test]
fn an_extension_that_is_there_is_left() {
    let extras = run(
        false,
        vec![
            ExtrasEvent::Codespaces(false),
            ExtrasEvent::Cli(true),
            ExtrasEvent::ExtensionChecked(true),
        ],
    );
    assert_eq!(extras.step, ExtrasStep::NextSettings);
    assert_eq!(messages(&extras), vec![(false, None, "Trae: Extension already installed")]);
}

#[test]
fn a_dry_run_installs_nothing() {
    let extras = run(
        true,
        vec![
            ExtrasEvent::Codespaces(false),
            ExtrasEvent::Cli(true),
            ExtrasEvent::ExtensionChecked(false),
        ],
    );
    assert_eq!(extras.step, ExtrasStep::NextSettings);
    assert_eq!(messages(&extras), vec![(true, None, "Trae: Pending extension install")]);
}

#[test]
fn the_extension_is_installed() {
    let begin = || {
        vec![
            ExtrasEvent::Codespaces(false),
            ExtrasEvent::Cli(true),
            ExtrasEvent::ExtensionChecked(false),
        ]
    };
    assert_eq!(run(false, begin()).step, ExtrasStep::InstallExtension);
    let mut events = begin();
    events.push(ExtrasEvent::ExtensionInstalled(true));
    assert_eq!(
        messages(&run(false, events)),
        vec![(true, None, "\tExtension 'git-ai.git-ai-vscode' was successfully installed.")]
    );
    let mut events = begin();
    events.push(ExtrasEvent::ExtensionInstalled(false));
    let extras = run(false, events);
    assert_eq!(extras.step, ExtrasStep::NextSettings);
    assert_eq!(messages(&extras), vec![(false, None, MANUAL)]);
}

#[test]
fn a_failed_check_is_reported() {
    let extras = run(
        false,
        vec![
            ExtrasEvent::Codespaces(false),
            ExtrasEvent::Cli(true),
            ExtrasEvent::ExtensionCheckFailed("no such file".to_string()),
        ],
    );
    assert_eq!(
        messages(&extras),
        vec![(false, None, "Trae: Failed to check extension: no such file")]
    );
}

#[test]
fn every_wanted_settings_file_is_reported() {
    let path = || "/s.json".to_string();
    let mut extras = run(false, vec![ExtrasEvent::Codespaces(false), ExtrasEvent::Cli(false)]);
    extras.advance(ExtrasEvent::Settings(false));
    assert_eq!(extras.step, ExtrasStep::NextSettings);
    extras.advance(ExtrasEvent::Settings(true));
    assert_eq!(extras.step, ExtrasStep::UpdateGitPath);
    extras.advance(ExtrasEvent::GitPathUpdated { path: path(), diff: "+x".to_string() });
    extras.advance(ExtrasEvent::Settings(true));
    extras.advance(ExtrasEvent::GitPathUnchanged { path: path() });
    extras.advance(ExtrasEvent::Settings(true));
    extras.advance(ExtrasEvent::GitPathFailed("denied".to_string()));
    assert_eq!(extras.step, ExtrasStep::NextSettings);
    extras.advance(ExtrasEvent::NoMoreSettings);
    assert_eq!(extras.step, ExtrasStep::Done);
    assert_eq!(
        messages(&extras)[1..].to_vec(),
        vec![
            (true, Some("+x"), "Trae: git.path updated in /s.json"),
            (false, None, "Trae: git.path already configured in /s.json"),
            (false, None, "Trae: Failed to configure git.path: denied"),
        ]
    );
}

#[test]
fn an_outcome_out_of_turn_changes_nothing() {
    let extras = run(
        false,
        vec![ExtrasEvent::ExtensionInstalled(true), ExtrasEvent::NoMoreSettings],
    );
    assert_eq!(extras.step, ExtrasStep::AskCodespaces);
    assert!(extras.results.is_empty());
}

#[test]
fn done_is_done() {
    let mut extras = run(
        false,
        vec![
            ExtrasEvent::Codespaces(false),
            ExtrasEvent::Cli(false),
            ExtrasEvent::NoMoreSettings,
        ],
    );
    extras.advance(ExtrasEvent::Settings(true));
    extras.advance(ExtrasEvent::Codespaces(true));
    assert_eq!(extras.step, ExtrasStep::Done);
    assert_eq!(extras.results.len(), 1);
}
