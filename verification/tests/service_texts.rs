use std::time::Duration;

use artifex_mcp_server::service::{
    artifex_execute, artifex_inspect, artifex_upgrade, execute_prompt, instructions,
    upgrade_progress_message, ExecutePromptArgs, ExecuteRequest, ExecuteResult, InspectResult,
    UpgradeResult,
};

#[test]
fn execute_prompt_without_arguments() {
    let args = ExecutePromptArgs { command: "uname".to_string(), arguments: vec![] };
    assert_eq!(
        artifex_execute(&args),
        "Use the 'execute' tool to run 'uname'. Capture stdout and stderr. Return a concise summary and include short outputs."
    );
}

#[test]
fn execute_prompt_with_arguments() {
    let args = ExecutePromptArgs {
        command: "ls".to_string(),
        arguments: vec!["-l".to_string(), "/tmp".to_string()],
    };
    assert_eq!(
        artifex_execute(&args),
        "Use the 'execute' tool to run 'ls' with arguments [\"-l\", \"/tmp\"]. Capture stdout and stderr. Return a concise summary and include short outputs."
    );
}

#[test]
fn execute_prompt_escapes_arguments() {
    let args = ExecutePromptArgs {
        command: "echo".to_string(),
        arguments: vec!["say \"hi\"".to_string()],
    };
    assert_eq!(
        artifex_execute(&args),
        "Use the 'execute' tool to run 'echo' with arguments [\"say \\\"hi\\\"\"]. Capture stdout and stderr. Return a concise summary and include short outputs."
    );
}

#[test]
fn execute_prompt_from_rendered_arguments() {
    assert_eq!(
        execute_prompt("cat", Some("[\"a\"]")),
        "Use the 'execute' tool to run 'cat' with arguments [\"a\"]. Capture stdout and stderr. Return a concise summary and include short outputs."
    );
}

#[test]
fn fixed_prompts_and_instructions() {
    assert_eq!(
        artifex_inspect(),
        "Use the 'inspect' tool to retrieve the kernel version and system uptime. Then summarize the results in 1–2 sentences."
    );
    assert_eq!(
        artifex_upgrade(),
        "Call the 'upgrade' tool and wait for completion. The server streams progress updates; report final status concisely when done."
    );
    assert_eq!(instructions(), "This server provides Artifex Engine tools. Tools: inspect");
}

#[test]
fn progress_messages() {
    assert_eq!(upgrade_progress_message(0), "Upgrade: 0%");
    assert_eq!(upgrade_progress_message(7), "Upgrade: 7%");
    assert_eq!(upgrade_progress_message(42), "Upgrade: 42%");
    assert_eq!(upgrade_progress_message(100), "Upgrade: 100%");
    assert_eq!(upgrade_progress_message(u64::MAX), format!("Upgrade: {}%", u64::MAX));
}

#[test]
fn results_keep_what_they_were_given() {
    let r = ExecuteResult::new(3, "out".to_string(), "err".to_string());
    assert_eq!(r.into_parts(), (3, "out".to_string(), "err".to_string()));
    let i = InspectResult::new("6.1.0".to_string(), Duration::from_secs(90));
    assert_eq!(i.kernel_version, "6.1.0");
    assert_eq!(i.system_uptime, Duration::from_secs(90));
    assert!(UpgradeResult::finished().completed());
    assert!(!UpgradeResult::new(false).completed());
    let q = ExecuteRequest::new("ls".to_string(), vec!["-a".to_string()]);
    assert_eq!(q.into_parts(), ("ls".to_string(), vec!["-a".to_string()]));
}
