use ygramul::cli::{Args, CliOptions};
use ygramul::config::{
    all_actions_list, choose_app_dir, known_subcommands, neo4j_config, Action, ActionConfig,
    AppDirChoice, ConfigBuilder,
    Neo4jConfigBuilder, PigeanConfigBuilder,
};
use ygramul::error::ErrorKind;
use ygramul::options::Options;

fn some(s: &str) -> Option<String> {
    Some(s.to_string())
}

fn no_args() -> Args {
    Args { data_dir: None, uri: None, user: None, password: None, file: None, out: None }
}

#[test]
fn action_names_round_trip() {
    for name in ["hello", "survey", "ping", "upload", "wipe", "cat", "ls", "bulk", "factors", "pgs"] {
        let a = Action::from_name(name).ok().unwrap();
        assert_eq!(a.name(), name);
        assert!(!a.about().is_empty());
    }
    let e = Action::from_name("dance").err().unwrap();
    assert_eq!(e.kind, ErrorKind::Configuration);
    assert_eq!(e.describe(), "Unknown action: dance");
}

#[test]
fn actions_are_listed() {
    assert_eq!(
        all_actions_list(),
        "hello, survey, ping, upload, wipe, cat, ls, bulk, factors, pgs"
    );
    assert!(known_subcommands().starts_with("Known subcommands are 'hello, "));
}

#[test]
fn neo4j_settings_need_all_three() {
    let mut b = Neo4jConfigBuilder::new();
    b.uri = some("bolt://x");
    b.user = some("u");
    assert_eq!(b.build().err().unwrap().describe(), "No password (neo4j/password) specified.");
    let b = Neo4jConfigBuilder { uri: some("bolt://x"), user: some("u"), password: some("p") };
    let c = b.build().ok().unwrap();
    assert_eq!((c.uri.as_str(), c.user.as_str(), c.password.as_str()), ("bolt://x", "u", "p"));
    assert!(neo4j_config(None).is_err());
}

#[test]
fn pigean_settings_need_all_four() {
    let b = PigeanConfigBuilder {
        data_dir: some("d"),
        sub_dir: some("s"),
        factors_dir: some("f"),
        factors_sub_dir: None,
    };
    assert_eq!(b.build("o".to_string()).err().unwrap().kind, ErrorKind::Configuration);
    let b = PigeanConfigBuilder {
        data_dir: some("d"),
        sub_dir: some("s"),
        factors_dir: some("f"),
        factors_sub_dir: some("fs"),
    };
    let c = b.build("o".to_string()).ok().unwrap();
    assert_eq!(c.out, "o");
    assert_eq!(c.factors_sub_dir, "fs");
}

#[test]
fn command_line_overrides_file_settings() {
    let mut file = ConfigBuilder::new();
    file.data_dir = some("/file");
    file.neo4j_mut().uri = some("bolt://file");
    file.neo4j_mut().user = some("file-user");
    let cli = CliOptions {
        action: Some(Action::Upload),
        args: Args { user: some("cli-user"), password: some("pw"), ..no_args() },
    };
    let b = file.with_cli_options(cli);
    assert_eq!(b.action, Some(Action::Upload));
    assert_eq!(b.data_dir, some("/file"));
    match b.build().ok().unwrap() {
        ActionConfig::Upload(c) => {
            assert_eq!(c.local_config.data_dir, "/file");
            assert_eq!(c.neo4j.uri, "bolt://file");
            assert_eq!(c.neo4j.user, "cli-user");
            assert_eq!(c.neo4j.password, "pw");
        }
        _ => panic!("wrong action"),
    }
}

#[test]
fn build_reports_what_is_missing() {
    let b = ConfigBuilder::new();
    let e = b.build().err().unwrap();
    assert_eq!(
        e.describe(),
        "No action specified. Possible actions are hello, survey, ping, upload, wipe, cat, ls, bulk, factors, pgs."
    );
    let mut b = ConfigBuilder::new();
    b.action = Some(Action::Cat);
    assert_eq!(b.build().err().unwrap().describe(), "No file specified.");
    let mut b = ConfigBuilder::new();
    b.action = Some(Action::Ls);
    b.file = some("s3://b/k");
    match b.build().ok().unwrap() {
        ActionConfig::Ls(f) => assert_eq!(f, "s3://b/k"),
        _ => panic!("wrong action"),
    }
    let mut b = ConfigBuilder::new();
    b.action = Some(Action::Survey);
    b.data_dir = some("/d");
    assert!(matches!(b.build().ok().unwrap(), ActionConfig::Survey(_)));
    let mut b = ConfigBuilder::new();
    b.action = Some(Action::Wipe);
    b.data_dir = some("/d");
    assert!(b.build().is_err());
}

#[test]
fn pigean_actions_need_output_directory() {
    let mut b = ConfigBuilder::new();
    b.action = Some(Action::Factors);
    b.pigean = Some(PigeanConfigBuilder {
        data_dir: some("d"),
        sub_dir: some("s"),
        factors_dir: some("f"),
        factors_sub_dir: some("fs"),
    });
    let no_out = ConfigBuilder { out: None, ..b };
    assert_eq!(no_out.build().err().unwrap().describe(), "No output directory specified.");
}

#[test]
fn presets_start_empty() {
    let b = Options::Ping.to_config();
    assert!(b.action.is_none() && b.file.is_none());
}

#[test]
fn app_dir_choice() {
    assert_eq!(choose_app_dir(true, true, true, false, false), AppDirChoice::First { create: true });
    assert_eq!(choose_app_dir(true, true, false, true, true), AppDirChoice::Conflict);
    assert_eq!(choose_app_dir(true, true, false, false, true), AppDirChoice::Second { create: false });
    assert_eq!(choose_app_dir(true, true, false, false, false), AppDirChoice::First { create: true });
    assert_eq!(choose_app_dir(false, true, false, false, false), AppDirChoice::Second { create: true });
    assert_eq!(choose_app_dir(false, false, false, false, false), AppDirChoice::Unknown);
}
