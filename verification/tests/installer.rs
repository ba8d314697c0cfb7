use trae_agent::error::GitAiError;
use trae_agent::installer::{
    HookCheckResult, HookRun, InstallSigns, TraeInstaller, TraeVariant,
};
use trae_agent::json::Json;

const NOTHING: InstallSigns = InstallSigns {
    trae: false,
    trae_cn: false,
    trae_cn_server: false,
    trae_aicc: false,
    cli: false,
    settings: false,
};

const BINARY: &str = "/usr/local/bin/git-ai";

fn state(tool: bool, hooks: bool) -> HookCheckResult {
    HookCheckResult { tool_installed: tool, hooks_installed: hooks, hooks_up_to_date: hooks }
}

fn install(content: Option<&str>, binary: &str) -> Option<String> {
    TraeInstaller
        .install_hooks_for_variant(content, binary, false)
        .expect("a readable file")
        .map(|edit| edit.new_content)
}

#[test]
fn checkpoint_commands_name_all_three_words() {
    assert!(TraeInstaller::is_trae_checkpoint_command("git-ai checkpoint trae"));
    assert!(TraeInstaller::is_trae_checkpoint_command(
        "/opt/git-ai checkpoint trae --hook-input stdin"
    ));
    assert!(TraeInstaller::is_trae_checkpoint_command("trae; checkpoint; git-ai"));
    assert!(!TraeInstaller::is_trae_checkpoint_command("git-ai checkpoint cursor"));
    assert!(!TraeInstaller::is_trae_checkpoint_command("git-ai trae"));
    assert!(!TraeInstaller::is_trae_checkpoint_command("checkpoint trae"));
    assert!(!TraeInstaller::is_trae_checkpoint_command(""));
}

#[test]
fn hook_files_stand_below_the_home_directory() {
    assert_eq!(TraeInstaller::hooks_path(TraeVariant::International), vec![".trae", "hooks.json"]);
    assert_eq!(TraeInstaller::hooks_path(TraeVariant::CN), vec![".trae-cn", "hooks.json"]);
}

#[test]
fn trae_is_told_by_its_directories() {
    let names = TraeInstaller::sign_directories();
    assert_eq!(names, vec![".trae", ".trae-cn", ".trae-cn-server", ".trae-aicc"]);
    assert_eq!(TraeInstaller::hooks_path(TraeVariant::International)[0], names[0]);
    assert_eq!(TraeInstaller::hooks_path(TraeVariant::CN)[0], names[1]);
}

#[test]
fn names_of_the_product() {
    assert_eq!(TraeInstaller::settings_targets(), vec!["Trae", "Trae-CN"]);
    assert_eq!(TraeInstaller.name(), "Trae");
    assert_eq!(TraeInstaller.id(), "trae");
    assert_eq!(
        TraeInstaller.process_names(),
        vec!["Trae", "trae", "trae-cn", "trae-cn-server"]
    );
}

#[test]
fn variants_are_detected_by_their_directories() {
    let detect = |signs: InstallSigns| TraeInstaller::detect_variants(&signs);
    assert!(detect(NOTHING).is_empty());
    assert_eq!(detect(InstallSigns { trae: true, ..NOTHING }), vec![TraeVariant::International]);
    for signs in [
        InstallSigns { trae_cn: true, ..NOTHING },
        InstallSigns { trae_cn_server: true, cli: true, ..NOTHING },
        InstallSigns { trae_aicc: true, ..NOTHING },
    ] {
        assert_eq!(detect(signs), vec![TraeVariant::CN]);
    }
    assert_eq!(
        detect(InstallSigns { trae: true, trae_aicc: true, cli: true, ..NOTHING }),
        vec![TraeVariant::International, TraeVariant::CN]
    );
    assert_eq!(detect(InstallSigns { cli: true, ..NOTHING }), vec![TraeVariant::International]);
    assert!(detect(InstallSigns { settings: true, ..NOTHING }).is_empty());
}

#[test]
fn there_is_always_a_variant_to_process() {
    assert_eq!(TraeInstaller::variants_to_process(&NOTHING), vec![TraeVariant::International]);
    assert_eq!(
        TraeInstaller::variants_to_process(&InstallSigns { trae_cn: true, ..NOTHING }),
        vec![TraeVariant::CN]
    );
}

#[test]
fn variants_are_checked_where_the_tool_was_found() {
    assert!(TraeInstaller::variants_to_check(&NOTHING).is_empty());
    assert_eq!(
        TraeInstaller::variants_to_check(&InstallSigns { settings: true, ..NOTHING }),
        vec![TraeVariant::International]
    );
    assert_eq!(
        TraeInstaller::variants_to_check(&InstallSigns { trae_cn: true, ..NOTHING }),
        vec![TraeVariant::CN]
    );
}

#[test]
fn one_hook_file_is_checked() {
    let check = |content: Option<&str>| TraeInstaller.check_hooks_for_variant(content);
    assert_eq!(check(None), state(true, false));
    assert_eq!(check(Some("")), state(true, false));
    assert_eq!(check(Some("{broken")), state(true, false));
    assert_eq!(check(Some("{}")), state(true, false));
    assert_eq!(
        check(Some(r#"{"hooks": {"preToolUse": [{"command": "git-ai checkpoint trae"}]}}"#)),
        state(true, true)
    );
}

#[test]
fn all_hook_files_are_checked() {
    let hooked = Some(r#"{"hooks": {"preToolUse": [{"command": "git-ai checkpoint trae"}]}}"#.to_string());
    let both = InstallSigns { trae: true, trae_cn: true, ..NOTHING };
    assert_eq!(TraeInstaller.check_hooks(&NOTHING, &vec![]), state(false, false));
    assert_eq!(
        TraeInstaller.check_hooks(&both, &vec![hooked.clone(), hooked.clone()]),
        state(true, true)
    );
    assert_eq!(TraeInstaller.check_hooks(&both, &vec![hooked.clone(), None]), state(true, false));
    assert_eq!(TraeInstaller.check_hooks(&both, &vec![None, hooked.clone()]), state(true, false));
    let settings = InstallSigns { settings: true, ..NOTHING };
    assert_eq!(TraeInstaller.check_hooks(&settings, &vec![hooked]), state(true, true));
    assert_eq!(TraeInstaller.check_hooks(&settings, &vec![None]), state(true, false));
}

#[test]
fn installing_into_nothing_writes_the_hooks() {
    let expected = "{\n  \"hooks\": {\n    \"postToolUse\": [\n      {\n        \"command\": \"/usr/local/bin/git-ai checkpoint trae --hook-input stdin\"\n      }\n    ],\n    \"preToolUse\": [\n      {\n        \"command\": \"/usr/local/bin/git-ai checkpoint trae --hook-input stdin\"\n      }\n    ]\n  },\n  \"version\": 1\n}";
    assert_eq!(install(None, BINARY).as_deref(), Some(expected));
    assert_eq!(install(Some(" \n\t"), BINARY).as_deref(), Some(expected));
    assert_eq!(install(Some("{}"), BINARY).as_deref(), Some(expected));
}

#[test]
fn what_was_installed_is_found_and_stays() {
    let text = install(Some(r#"{"x": 0.1, "hooks": {"stop": []}}"#), BINARY).expect("a change");
    assert_eq!(TraeInstaller.check_hooks_for_variant(Some(&text)), state(true, true));
    assert!(install(Some(&text), BINARY).is_none());
}

#[test]
fn a_moved_binary_is_followed() {
    let text = install(None, "/old/git-ai").expect("a change");
    let moved = install(Some(&text), BINARY).expect("a change");
    assert_eq!(Some(moved), install(None, BINARY));
}

#[test]
fn what_was_uninstalled_is_not_found() {
    let text = install(Some(r#"{"hooks": {"preToolUse": [{"command": "echo"}]}}"#), BINARY).unwrap();
    let edit = TraeInstaller
        .uninstall_hooks_for_variant(Some(&text), false)
        .unwrap()
        .expect("a change");
    assert_eq!(
        edit.new_content,
        "{\n  \"hooks\": {\n    \"postToolUse\": [],\n    \"preToolUse\": [\n      {\n        \"command\": \"echo\"\n      }\n    ]\n  },\n  \"version\": 1\n}"
    );
    assert_eq!(
        TraeInstaller.check_hooks_for_variant(Some(&edit.new_content)),
        state(true, false)
    );
    assert!(matches!(
        TraeInstaller.uninstall_hooks_for_variant(Some(&edit.new_content), false),
        Ok(None)
    ));
}

#[test]
fn nothing_is_uninstalled_where_nothing_is() {
    for content in [None, Some("{}"), Some("[]"), Some(r#"{"hooks": {}}"#)] {
        assert!(matches!(
            TraeInstaller.uninstall_hooks_for_variant(content, false),
            Ok(None)
        ));
    }
}

#[test]
fn a_dry_run_comes_to_the_same_text() {
    let dry = TraeInstaller.install_hooks_for_variant(None, BINARY, true).unwrap().unwrap();
    let wet = TraeInstaller.install_hooks_for_variant(None, BINARY, false).unwrap().unwrap();
    assert!(!dry.write && wet.write);
    assert_eq!(dry.new_content, wet.new_content);
    let text = wet.new_content;
    let dry = TraeInstaller.uninstall_hooks_for_variant(Some(&text), true).unwrap().unwrap();
    assert!(!dry.write);
}

#[test]
fn a_broken_file_is_an_error() {
    match TraeInstaller.install_hooks_for_variant(Some("{"), BINARY, false) {
        Err(GitAiError::JsonError(message)) => {
            assert_eq!(message, "EOF while parsing an object at line 1 column 1")
        }
        _ => panic!("an error was due"),
    }
    match TraeInstaller.uninstall_hooks_for_variant(Some(""), false) {
        Err(GitAiError::JsonError(message)) => {
            assert_eq!(message, "EOF while parsing a value at line 1 column 0")
        }
        _ => panic!("an error was due"),
    }
}

#[test]
fn plans_leave_out_what_would_not_change() {
    let file = Json::parse(&install(None, BINARY).unwrap()).unwrap();
    assert!(TraeInstaller::plan_install(&file, BINARY).is_none());
    let stripped = TraeInstaller::plan_uninstall(&file).expect("a change");
    assert!(TraeInstaller::plan_uninstall(&stripped).is_none());
    assert!(TraeInstaller::plan_install(&stripped, BINARY).expect("a change").same(&file));
}

#[test]
fn diffs_are_put_one_below_the_other() {
    let some = |text: &str| Some(text.to_string());
    let combine = |diffs: Vec<Option<String>>| TraeInstaller::combine_diffs(&diffs);
    assert_eq!(combine(vec![]), None);
    assert_eq!(combine(vec![None, None]), None);
    assert_eq!(combine(vec![some("a"), None]), some("a"));
    assert_eq!(combine(vec![some("a"), None, some("b")]), some("a\nb"));
    assert_eq!(combine(vec![some(""), some("b")]), some("b"));
    assert_eq!(combine(vec![some("a"), some("")]), some("a\n"));
    assert_eq!(combine(vec![some("")]), some(""));
}

#[test]
fn the_extension_is_not_uninstalled() {
    let results = TraeInstaller.uninstall_extras();
    assert_eq!(results.len(), 1);
    assert!(!results[0].changed);
    assert!(results[0].diff.is_none());
    assert_eq!(
        results[0].message,
        "Trae: Extension must be uninstalled manually through the editor"
    );
}

fn answer(run: &mut HookRun, content: Option<&str>) -> Option<String> {
    let edit = run.edit(content).expect("a readable file");
    let text = edit.map(|edit| edit.new_content);
    run.advance(text.clone());
    text
}

#[test]
fn a_pass_works_on_every_variant_once() {
    let both = InstallSigns { trae: true, trae_cn: true, ..NOTHING };
    let mut run = TraeInstaller.install_hooks(&both, BINARY, false);
    assert_eq!(run.next_variant(), Some(TraeVariant::International));
    let first = answer(&mut run, None);
    assert_eq!(first, install(None, BINARY));
    assert_eq!(run.next_variant(), Some(TraeVariant::CN));
    let second = answer(&mut run, first.as_deref());
    assert!(second.is_none());
    assert_eq!(run.next_variant(), None);
    assert_eq!(run.diff(), first);
    run.advance(Some("more".to_string()));
    assert_eq!(run.diff(), first);
}

#[test]
fn a_pass_that_uninstalls_reports_every_diff() {
    let both = InstallSigns { trae: true, trae_aicc: true, ..NOTHING };
    let mut run = TraeInstaller.uninstall_hooks(&both, true);
    let hooked = install(None, BINARY);
    assert!(!run.edit(hooked.as_deref()).unwrap().expect("a change").write);
    let first = answer(&mut run, hooked.as_deref()).expect("a change");
    let second = answer(&mut run, hooked.as_deref()).expect("a change");
    assert_eq!(run.diff(), Some(format!("{}\n{}", first, second)));
}

#[test]
fn a_pass_that_changes_nothing_reports_nothing() {
    let mut run = TraeInstaller.uninstall_hooks(&NOTHING, false);
    assert_eq!(run.next_variant(), Some(TraeVariant::International));
    assert!(answer(&mut run, None).is_none());
    assert_eq!(run.next_variant(), None);
    assert_eq!(run.diff(), None);
}

#[test]
fn a_pass_fails_on_a_broken_file() {
    let mut run = TraeInstaller.install_hooks(&NOTHING, BINARY, false);
    assert!(matches!(run.edit(Some("nonsense")), Err(GitAiError::JsonError(_))));
    assert_eq!(run.next_variant(), None);
    run.advance(Some("more".to_string()));
    assert_eq!(run.diff(), None);
}

#[test]
fn a_pass_can_be_ended() {
    let both = InstallSigns { trae: true, trae_cn: true, ..NOTHING };
    let mut run = TraeInstaller.install_hooks(&both, BINARY, false);
    let first = answer(&mut run, None);
    run.fail();
    assert_eq!(run.next_variant(), None);
    assert_eq!(run.diff(), first);
}

#[test]
fn a_second_pass_reports_nothing() {
    let both = InstallSigns { trae: true, trae_cn: true, ..NOTHING };
    let files = [None, Some(r#"{"x": 1.7976931348623157e308, "y": [0.1, 5e-324]}"#)];
    let mut texts = Vec::new();
    let mut run = TraeInstaller.install_hooks(&both, BINARY, false);
    for file in files {
        texts.push(answer(&mut run, file));
    }
    assert!(run.diff().is_some());
    assert_eq!(TraeInstaller.check_hooks(&both, &texts), state(true, true));
    let mut again = TraeInstaller.install_hooks(&both, BINARY, true);
    for text in &texts {
        assert!(answer(&mut again, text.as_deref()).is_none());
    }
    assert_eq!(again.diff(), None);
    let mut out = TraeInstaller.uninstall_hooks(&both, false);
    let left: Vec<Option<String>> =
        texts.iter().map(|text| answer(&mut out, text.as_deref())).collect();
    assert_eq!(TraeInstaller.check_hooks(&both, &left), state(true, false));
    let mut again = TraeInstaller.uninstall_hooks(&both, false);
    for text in &left {
        assert!(answer(&mut again, text.as_deref()).is_none());
    }
    assert_eq!(again.diff(), None);
}

#[test]
fn uninstalling_restores_the_text() {
    let text = r#"{"hooks": {"postToolUse": [], "preToolUse": [{"command": "echo"}]}, "version": 3}"#;
    let hooked = install(Some(text), BINARY).expect("a change");
    let edit = TraeInstaller
        .uninstall_hooks_for_variant(Some(&hooked), false)
        .unwrap()
        .expect("a change");
    let before = Json::parse(text).unwrap();
    assert!(Json::parse(&edit.new_content).unwrap().same(&before));
}

#[test]
fn an_install_leaves_its_variants_to_be_found() {
    let after = InstallSigns { trae: true, ..NOTHING };
    assert_eq!(
        TraeInstaller::variants_to_check(&after),
        TraeInstaller::variants_to_process(&NOTHING)
    );
}
