use artifex_mcp_server::cli::{build_cli, TransportMode};
use artifex_mcp_server::tasks::{parse_task, usage, Task, TaskError};

fn args(items: &[&str]) -> Vec<String> {
    items.iter().map(|s| s.to_string()).collect()
}

#[test]
fn transport_defaults_to_http() {
    let cli = build_cli(None, None);
    assert_eq!(cli.transport, TransportMode::Http);
    assert_eq!(cli.config, None);
}

#[test]
fn given_settings_are_kept() {
    let cli = build_cli(Some("data/samples/config.toml".to_string()), Some(TransportMode::Stdio));
    assert_eq!(cli.transport, TransportMode::Stdio);
    assert_eq!(cli.config.as_deref(), Some("data/samples/config.toml"));
}

#[test]
fn override_task_reads_crate_and_path() {
    match parse_task(&args(&["override", "artifex-engine", "../artifex", "extra"])) {
        Ok(Task::Override { package, path }) => {
            assert_eq!(package, "artifex-engine");
            assert_eq!(path, "../artifex");
        }
        other => panic!("unexpected {:?}", other),
    }
}

#[test]
fn override_task_without_arguments_is_refused() {
    let e = parse_task(&args(&["override"])).unwrap_err();
    assert_eq!(e, TaskError::MissingCrateName);
    assert_eq!(e.message(), "Missing crate name");
    let e = parse_task(&args(&["override", "serde"])).unwrap_err();
    assert_eq!(e, TaskError::MissingSourcesPath);
    assert_eq!(e.message(), "Missing local sources path");
}

#[test]
fn prepare_and_unknown_tasks() {
    assert!(matches!(parse_task(&args(&["prepare"])), Ok(Task::Prepare)));
    assert!(matches!(parse_task(&args(&[])), Ok(Task::Usage)));
    assert!(matches!(parse_task(&args(&["build"])), Ok(Task::Usage)));
    assert!(matches!(parse_task(&args(&["Override", "a", "b"])), Ok(Task::Usage)));
}

#[test]
fn usage_lists_tasks() {
    assert_eq!(
        usage(),
        "Tasks:\n\noverride Override dependency with local source\nprepare  Prepare development environment\n"
    );
}
