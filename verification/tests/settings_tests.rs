use haystack_ui::settings::{resolve_dark_mode, ThemeMode};
use haystack_ui::settings::{
    confirm_before_deleting, desktop_config_path, mcp_agent_setup_prompt, mcp_cli_add_command,
    mcp_codex_server_toml, shell_quote, Platform, SettingsIcon, SettingsSection,
};

#[test]
fn confirmation_label_maps_to_existing_skip_setting() {
    assert!(confirm_before_deleting(false));
    assert!(!confirm_before_deleting(true));
    for skip in [false, true] {
        assert_eq!(!confirm_before_deleting(skip), skip);
    }
}

#[test]
fn agent_setup_prompt_uses_dynamic_path_and_safe_global_stdio_config() {
    let prompt = mcp_agent_setup_prompt("/Applications/Haystack.app/Contents/MacOS/haystack");
    assert!(prompt.contains("user/global MCP server"));
    assert!(prompt.contains("/Applications/Haystack.app/Contents/MacOS/haystack"));
    assert!(prompt.contains("args: [\"--mcp\"]"));
    assert!(prompt.contains("Preserve existing MCP servers"));
    assert!(prompt.contains("Transport: stdio"));
    assert!(prompt.contains("session_info"));
    assert!(prompt.contains("required file or UI step"));
    assert!(!prompt.contains("http://"));
}

#[test]
fn codex_and_cli_snippets_use_expected_transport_shapes() {
    let path = "/tmp/haystack";
    let codex = mcp_codex_server_toml(path);
    assert!(codex.contains("[mcp_servers.haystack]"));
    assert!(codex.contains("command = \"/tmp/haystack\""));
    assert!(codex.contains("args = [\"--mcp\"]"));
    assert!(!codex.contains("http"));
    assert!(!codex.contains("Authorization"));
    assert!(!codex.contains("--mcp-gui"));

    let command = mcp_cli_add_command("assistant", path, Platform::Linux);
    assert!(command.contains("--scope user"));
    assert!(command.ends_with("--mcp"));
}

#[test]
fn codex_command_is_json_escaped() {
    assert_eq!(
        mcp_codex_server_toml("C:\\Hay \"stack\"\n"),
        "[mcp_servers.haystack]\ncommand = \"C:\\\\Hay \\\"stack\\\"\\n\"\nargs = [\"--mcp\"]\nstartup_timeout_sec = 20"
    );
    assert!(mcp_codex_server_toml("a\u{1}").contains("\"a\\u0001\""));
}

#[test]
fn shell_quoting_follows_the_platform() {
    assert_eq!(shell_quote("/opt/it's/app", Platform::MacOs), "'/opt/it'\\''s/app'");
    assert_eq!(shell_quote("C:\\A \"B\"", Platform::Windows), "\"C:\\A \\\"B\\\"\"");
    assert_eq!(
        mcp_cli_add_command("assistant", "/a b", Platform::Linux),
        "assistant mcp add --scope user haystack -- '/a b' --mcp"
    );
}

#[test]
fn settings_sections_and_paths() {
    assert_eq!(SettingsSection::Appearance.label(), "Appearance");
    assert_eq!(SettingsSection::Parsing.label(), "Log parsing");
    assert_eq!(SettingsSection::Assistant.label(), "AI Assistant");
    assert_eq!(SettingsSection::Support.label(), "Support");
    assert_eq!(SettingsSection::Assistant.icon(), SettingsIcon::Mcp);
    assert_eq!(SettingsSection::Appearance.icon(), SettingsIcon::ThemeLight);
    let file = "assistant_desktop_config.json";
    assert_eq!(
        desktop_config_path("Assistant", file, Platform::Linux),
        "~/.config/Assistant/assistant_desktop_config.json"
    );
    assert_eq!(
        desktop_config_path("Assistant", file, Platform::Windows),
        "%APPDATA%\\Assistant\\assistant_desktop_config.json"
    );
    assert_eq!(
        desktop_config_path("Assistant", file, Platform::MacOs),
        "~/Library/Application Support/Assistant/assistant_desktop_config.json"
    );
    assert_eq!(
        desktop_config_path("Assistant", file, Platform::Other),
        "Assistant Desktop → Settings → Developer → Edit Config"
    );
}

#[test]
fn theme_follows_the_choice_or_the_system() {
    assert!(!resolve_dark_mode(ThemeMode::Light, Some(true)));
    assert!(resolve_dark_mode(ThemeMode::Dark, Some(false)));
    assert!(!resolve_dark_mode(ThemeMode::System, Some(false)));
    assert!(resolve_dark_mode(ThemeMode::System, None));
}
