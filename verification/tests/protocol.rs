use pathfinder::errors::PluginError;
use pathfinder::protocol::{
    from_pipe_message, parse_layout, parse_run_external_program_payload,
    parse_scan_repository_root_payload, LayoutInfo, PathFinderPluginCommand,
    PathFinderPluginConfig, PATHFINDER_COMMAND_RUN_EXTERNAL_PROGRAM,
    PATHFINDER_COMMAND_SCAN_REPOSITORY_ROOT,
};

fn cv(s: &str) -> Vec<char> {
    s.chars().collect()
}

#[test]
fn parse_run_external_program_payload_no_payload() {
    let command = from_pipe_message(PATHFINDER_COMMAND_RUN_EXTERNAL_PROGRAM.to_string(), None);

    assert!(matches!(
        command,
        PathFinderPluginCommand::PluginCommandError(
            PluginError::MissingPipeMessagePayloadError(name)
        ) if name == PATHFINDER_COMMAND_RUN_EXTERNAL_PROGRAM
    ));
}

#[test]
fn parse_run_external_program_payload_empty_payload() {
    let command = from_pipe_message(
        PATHFINDER_COMMAND_RUN_EXTERNAL_PROGRAM.to_string(),
        Some("".to_string()),
    );

    assert!(matches!(
        command,
        PathFinderPluginCommand::RunExternalProgram { programs: _ }
    ));

    assert!(
        matches!(command, PathFinderPluginCommand::RunExternalProgram { programs } if programs.is_empty())
    );
}

#[test]
fn parse_run_external_program_payload_single_program() {
    let command = from_pipe_message(
        PATHFINDER_COMMAND_RUN_EXTERNAL_PROGRAM.to_string(),
        Some("/path/to/program".to_string()),
    );

    assert!(matches!(
        command,
        PathFinderPluginCommand::RunExternalProgram {
            programs
        } if programs == vec![cv("/path/to/program")]
    ));
}

#[test]
fn parse_run_external_program_payload_multiple_programs() {
    let command = from_pipe_message(
        PATHFINDER_COMMAND_RUN_EXTERNAL_PROGRAM.to_string(),
        Some("/path/to/program1:/path/to/program2".to_string()),
    );

    assert!(matches!(
        command,
        PathFinderPluginCommand::RunExternalProgram {
            programs
        } if programs == vec![
            cv("/path/to/program1"),
            cv("/path/to/program2")
        ]
    ));
}

#[test]
fn parse_run_external_program_payload_trailing_colon_keeps_empty_segment() {
    let command =
        parse_run_external_program_payload("run_external_program".to_string(), Some("/a:".to_string()));

    assert!(matches!(
        command,
        PathFinderPluginCommand::RunExternalProgram { programs } if programs == vec![cv("/a"), cv("")]
    ));
}

#[test]
fn parse_scan_repository_root_payload_no_payload_is_unbounded() {
    let command =
        parse_scan_repository_root_payload(PATHFINDER_COMMAND_SCAN_REPOSITORY_ROOT.to_string(), None);

    assert!(matches!(
        command,
        PathFinderPluginCommand::ScanRepositoryRoot { max_depth } if max_depth == usize::MAX
    ));
}

#[test]
fn parse_scan_repository_root_payload_decimal() {
    let command = parse_scan_repository_root_payload(
        PATHFINDER_COMMAND_SCAN_REPOSITORY_ROOT.to_string(),
        Some("3".to_string()),
    );

    assert!(matches!(
        command,
        PathFinderPluginCommand::ScanRepositoryRoot { max_depth: 3 }
    ));
}

#[test]
fn parse_scan_repository_root_payload_leading_plus() {
    let command = parse_scan_repository_root_payload(
        PATHFINDER_COMMAND_SCAN_REPOSITORY_ROOT.to_string(),
        Some("+7".to_string()),
    );

    assert!(matches!(
        command,
        PathFinderPluginCommand::ScanRepositoryRoot { max_depth: 7 }
    ));
}

#[test]
fn parse_scan_repository_root_payload_rejects_garbage() {
    let command = parse_scan_repository_root_payload(
        PATHFINDER_COMMAND_SCAN_REPOSITORY_ROOT.to_string(),
        Some("abc".to_string()),
    );

    assert!(matches!(
        command,
        PathFinderPluginCommand::PluginCommandError(PluginError::ConfigurationError { name, payload })
            if name == PATHFINDER_COMMAND_SCAN_REPOSITORY_ROOT && payload == "abc"
    ));
}

#[test]
fn parse_scan_repository_root_payload_rejects_empty() {
    let command = parse_scan_repository_root_payload(
        PATHFINDER_COMMAND_SCAN_REPOSITORY_ROOT.to_string(),
        Some("".to_string()),
    );

    assert!(matches!(
        command,
        PathFinderPluginCommand::PluginCommandError(PluginError::ConfigurationError { .. })
    ));
}

#[test]
fn parse_scan_repository_root_payload_rejects_overflow() {
    let command = parse_scan_repository_root_payload(
        PATHFINDER_COMMAND_SCAN_REPOSITORY_ROOT.to_string(),
        Some("99999999999999999999999999".to_string()),
    );

    assert!(matches!(
        command,
        PathFinderPluginCommand::PluginCommandError(PluginError::ConfigurationError { .. })
    ));
}

#[test]
fn from_pipe_message_unknown_name() {
    let command = from_pipe_message("do_something_else".to_string(), None);

    assert!(matches!(
        command,
        PathFinderPluginCommand::PluginCommandError(PluginError::UnknownPipeMessageError(name))
            if name == "do_something_else"
    ));
}

#[test]
fn parse_layout_defaults() {
    assert!(matches!(parse_layout(&None), LayoutInfo::BuiltIn(name) if name == "default"));
    assert!(
        matches!(parse_layout(&Some("nocolon".to_string())), LayoutInfo::BuiltIn(name) if name == "default")
    );
    assert!(
        matches!(parse_layout(&Some("weird:x".to_string())), LayoutInfo::BuiltIn(name) if name == "default")
    );
}

#[test]
fn parse_layout_schemes() {
    assert!(
        matches!(parse_layout(&Some("builtin:compact".to_string())), LayoutInfo::BuiltIn(name) if name == "compact")
    );
    assert!(
        matches!(parse_layout(&Some("file:/tmp/l.kdl".to_string())), LayoutInfo::File(name) if name == "/tmp/l.kdl")
    );
    assert!(
        matches!(parse_layout(&Some("stringified:layout {}".to_string())), LayoutInfo::Stringified(name) if name == "layout {}")
    );
    assert!(
        matches!(parse_layout(&Some("url:https://example.org/l".to_string())), LayoutInfo::Url(name) if name == "https://example.org/l")
    );
}

#[test]
fn config_load_sets_message_and_kill_after_switch() {
    let mut config = PathFinderPluginConfig::default();
    assert!(!config.kill_after_switch);
    assert!(config.pipe_message.is_none());

    config.load(
        Some("builtin:compact".to_string()),
        Some("scan_repository_root".to_string()),
        Some("2".to_string()),
    );

    assert!(matches!(&config.layout, LayoutInfo::BuiltIn(name) if name == "compact"));
    let message = config.pipe_message.as_ref().unwrap();
    assert_eq!(message.name, "scan_repository_root");
    assert_eq!(message.payload.as_deref(), Some("2"));
    assert!(config.kill_after_switch);

    config.load(None, None, None);
    assert!(matches!(&config.layout, LayoutInfo::BuiltIn(name) if name == "default"));
    assert!(config.pipe_message.is_none());
    assert!(!config.kill_after_switch);
}
