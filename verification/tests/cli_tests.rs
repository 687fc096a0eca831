use agent_codemap::cli::{Cli, OutputFormat};

#[test]
fn test_cli_default_input() {
    let cli = Cli { input: String::from("."), format: OutputFormat::Markdown };
    assert_eq!(cli.input, String::from("."));
}

#[test]
fn test_cli_json_format() {
    let cli = Cli { input: String::from("src"), format: OutputFormat::Json };
    assert!(matches!(cli.format, OutputFormat::Json));
}

#[test]
fn test_cli_default_format_is_markdown() {
    let format: OutputFormat = Default::default();
    assert!(matches!(format, OutputFormat::Markdown));
}
