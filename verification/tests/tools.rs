use nastalli::tools::{parse_command, ToolCommand};

#[test]
fn tool_subcommands_are_recognised() {
    assert_eq!(parse_command(Some(b"build")), ToolCommand::Build);
    assert_eq!(parse_command(Some(b"image")), ToolCommand::Image);
    assert_eq!(parse_command(Some(b"run")), ToolCommand::Run);
    assert_eq!(parse_command(Some(b"test")), ToolCommand::Test);
}

#[test]
fn unknown_or_missing_subcommands_ask_for_usage() {
    assert_eq!(parse_command(None), ToolCommand::Usage);
    assert_eq!(parse_command(Some(b"")), ToolCommand::Usage);
    assert_eq!(parse_command(Some(b"bui")), ToolCommand::Usage);
    assert_eq!(parse_command(Some(b"builds")), ToolCommand::Usage);
    assert_eq!(parse_command(Some(b"Run")), ToolCommand::Usage);
}
