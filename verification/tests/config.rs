use gptrs::config::{merge, CliConfig, ConfigError, FileConfig, Prompt, Role};
use gptrs::input::Mode;
use gptrs::ui::mask_api_key;

fn empty_cli() -> CliConfig {
    CliConfig {
        api_key: None,
        model: None,
        prompt: None,
        debug: false,
        offline: false,
        vim: false,
        api_base: None,
    }
}

fn empty_file() -> FileConfig {
    FileConfig {
        api_key: None,
        model: None,
        prompt: None,
        debug: None,
        offline: None,
        vim: None,
        api_base: None,
    }
}

#[test]
fn cli_values_win_over_file_values() {
    let mut cli = empty_cli();
    cli.api_key = Some(String::from("cli-key"));
    cli.model = Some(String::from("cli-model"));
    cli.debug = true;
    let mut file = empty_file();
    file.api_key = Some(String::from("file-key"));
    file.model = Some(String::from("file-model"));
    file.api_base = Some(String::from("http://example.test"));
    let f = merge(cli, file).unwrap();
    assert_eq!(f.api_key, "cli-key");
    assert_eq!(f.model, "cli-model");
    assert_eq!(f.api_base, "http://example.test");
    assert!(f.debug);
    assert!(!f.offline);
}

#[test]
fn file_fills_what_the_cli_leaves_open() {
    let cli = empty_cli();
    let mut file = empty_file();
    file.api_key = Some(String::from("k"));
    file.model = Some(String::from("m"));
    file.vim = Some(true);
    file.prompt = Some(vec![Prompt {
        role: Role::System,
        content: String::from("p"),
    }]);
    let f = merge(cli, file).unwrap();
    assert_eq!(f.api_key, "k");
    assert_eq!(f.model, "m");
    assert!(f.vim);
    assert_eq!(f.prompt.len(), 1);
    assert_eq!(f.api_base, "https://api.openai.com/v1");
}

#[test]
fn missing_api_key_is_reported_first() {
    let r = merge(empty_cli(), empty_file());
    assert!(matches!(r, Err(ConfigError::MissingApiKey)));
}

#[test]
fn missing_model_is_reported() {
    let mut cli = empty_cli();
    cli.api_key = Some(String::from("k"));
    let r = merge(cli, empty_file());
    assert!(matches!(r, Err(ConfigError::MissingModel)));
}

#[test]
fn mask_api_key_keeps_a_prefix() {
    assert_eq!(mask_api_key("abcdefgh", 3), String::from("abc*****"));
    assert_eq!(mask_api_key("abc", 3), String::from("abc"));
    assert_eq!(mask_api_key("secret", 0), String::from("******"));
}

#[test]
fn mode_labels() {
    assert_eq!(Mode::Normal.label(), "Normal");
    assert_eq!(Mode::Insert.label(), "Insert");
    assert_eq!(Mode::Visual.label(), "Visual");
    assert_eq!(Mode::Operator('d').label(), "Operator");
    assert_ne!(Mode::Normal, Mode::Insert);
}
