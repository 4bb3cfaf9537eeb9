//! Settings and agent-integration texts: the settings sections, the delete
//! confirmation switch, and the snippets that register the executable as an
//! MCP server with various clients.

use vstd::prelude::*;

use crate::text::{chars_of, push_char, push_str};

verus! {

/// Whether deleting asks for confirmation: unless the user chose to skip it.
pub fn confirm_before_deleting(skip_confirmation: bool) -> (confirm: bool)
    ensures
        confirm == !skip_confirmation,
{
    !skip_confirmation
}

/// A page of the settings window.
#[derive(Clone, Copy, Debug, PartialEq, Eq, Structural)]
pub enum SettingsSection {
    Appearance,
    Parsing,
    Assistant,
    Support,
}

/// The icon shown beside a settings page.
#[derive(Clone, Copy, Debug, PartialEq, Eq, Structural)]
pub enum SettingsIcon {
    ThemeLight,
    Log,
    Mcp,
    Help,
}

impl SettingsSection {
    /// The page's title in the navigation.
    pub fn label(self) -> (label: &'static str)
        ensures
            label@ == match self {
                SettingsSection::Appearance => "Appearance"@,
                SettingsSection::Parsing => "Log parsing"@,
                SettingsSection::Assistant => "AI Assistant"@,
                SettingsSection::Support => "Support"@,
            },
    {
        match self {
            SettingsSection::Appearance => "Appearance",
            SettingsSection::Parsing => "Log parsing",
            SettingsSection::Assistant => "AI Assistant",
            SettingsSection::Support => "Support",
        }
    }

    /// The page's icon in the navigation.
    pub fn icon(self) -> (icon: SettingsIcon)
        ensures
            icon == match self {
                SettingsSection::Appearance => SettingsIcon::ThemeLight,
                SettingsSection::Parsing => SettingsIcon::Log,
                SettingsSection::Assistant => SettingsIcon::Mcp,
                SettingsSection::Support => SettingsIcon::Help,
            },
    {
        match self {
            SettingsSection::Appearance => SettingsIcon::ThemeLight,
            SettingsSection::Parsing => SettingsIcon::Log,
            SettingsSection::Assistant => SettingsIcon::Mcp,
            SettingsSection::Support => SettingsIcon::Help,
        }
    }
}

/// The operating system the snippets are written for.
#[derive(Clone, Copy, Debug, PartialEq, Eq, Structural)]
pub enum Platform {
    MacOs,
    Windows,
    Linux,
    Other,
}

/// The prompt that asks an agent to register the executable as a global
/// stdio MCP server.
pub open spec fn agent_setup_prompt(exe_path: Seq<char>) -> Seq<char> {
    "Set up Haystack as a user/global MCP server for this client. Preserve existing MCP servers and use this client's native MCP configuration format.\n\nTransport: stdio\ncommand: \""@
        + exe_path
        + "\"\nargs: [\"--mcp\"]\n\nReload MCP servers and verify `session_info` is available. If you cannot update the user configuration, tell me the required file or UI step."@
}

/// The agent setup prompt for an executable path.
pub fn mcp_agent_setup_prompt(exe_path: &str) -> (prompt: String)
    ensures
        prompt@ == agent_setup_prompt(exe_path@),
{
    let mut out = String::new();
    push_str(
        &mut out,
        "Set up Haystack as a user/global MCP server for this client. Preserve existing MCP servers and use this client's native MCP configuration format.\n\nTransport: stdio\ncommand: \"",
    );
    push_str(&mut out, exe_path);
    push_str(
        &mut out,
        "\"\nargs: [\"--mcp\"]\n\nReload MCP servers and verify `session_info` is available. If you cannot update the user configuration, tell me the required file or UI step.",
    );
    out
}

/// A lower-case hex digit.
pub open spec fn hex_digit_char(d: int) -> char {
    if d < 10 {
        (48 + d) as char
    } else {
        (87 + d) as char
    }
}

/// How a JSON string writes one character: quote, backslash and control
/// characters escaped (the short forms where JSON has them, `\u00XX`
/// otherwise), every other character as it is.
pub open spec fn json_escape_char(c: char) -> Seq<char> {
    if c == '"' {
        seq!['\\', '"']
    } else if c == '\\' {
        seq!['\\', '\\']
    } else if c == '\u{08}' {
        seq!['\\', 'b']
    } else if c == '\t' {
        seq!['\\', 't']
    } else if c == '\n' {
        seq!['\\', 'n']
    } else if c == '\u{0C}' {
        seq!['\\', 'f']
    } else if c == '\r' {
        seq!['\\', 'r']
    } else if (c as u32) < 32 {
        seq!['\\', 'u', '0', '0', hex_digit_char((c as u32 / 16) as int), hex_digit_char((c as u32 % 16) as int)]
    } else {
        seq![c]
    }
}

/// The escaped characters of a JSON string's contents.
pub open spec fn json_escaped(s: Seq<char>) -> Seq<char>
    decreases s.len(),
{
    if s.len() == 0 {
        Seq::empty()
    } else {
        json_escaped(s.drop_last()) + json_escape_char(s.last())
    }
}

/// `s` as a JSON string literal.
pub open spec fn json_string(s: Seq<char>) -> Seq<char> {
    seq!['"'] + json_escaped(s) + seq!['"']
}

/// Calls `serde_json::to_string` on a string slice. Its source writes a
/// quote, the contents with `"`, `\` and the control characters escaped
/// (`\b`, `\t`, `\n`, `\f`, `\r`, else `\u00` and two lower-case hex
/// digits), and a quote; writing into a `Vec` cannot fail, so the result is
/// always `Ok`.
#[verifier::external_body]
fn json_string_of(text: &str) -> (r: Option<String>)
    ensures
        r is Some,
        r matches Some(s) ==> s@ == json_string(text@),
{
    serde_json::to_string(text).ok()
}

/// The Codex configuration snippet: the command as a quoted string (JSON
/// escaping is valid in a TOML basic string), the `--mcp` argument and a
/// startup timeout.
pub open spec fn codex_server_toml(quoted_command: Seq<char>) -> Seq<char> {
    "[mcp_servers.haystack]\ncommand = "@ + quoted_command + "\nargs = [\"--mcp\"]\nstartup_timeout_sec = 20"@
}

/// The Codex configuration snippet for an executable path.
pub fn mcp_codex_server_toml(exe_path: &str) -> (toml: String)
    ensures
        toml@ == codex_server_toml(json_string(exe_path@)),
{
    let command = match json_string_of(exe_path) {
        Some(quoted) => quoted,
        None => "\"haystack\"".to_owned(),
    };
    let mut out = String::new();
    push_str(&mut out, "[mcp_servers.haystack]\ncommand = ");
    push_str(&mut out, command.as_str());
    push_str(&mut out, "\nargs = [\"--mcp\"]\nstartup_timeout_sec = 20");
    out
}

/// `s` with every `from` replaced by `to`.
pub open spec fn replace_char(s: Seq<char>, from: char, to: Seq<char>) -> Seq<char>
    decreases s.len(),
{
    if s.len() == 0 {
        Seq::empty()
    } else {
        replace_char(s.drop_last(), from, to) + if s.last() == from {
            to
        } else {
            seq![s.last()]
        }
    }
}

/// An executable path quoted for the platform's shell: in single quotes
/// with `'` written `'\''`, or on Windows in double quotes with `"`
/// written `\"`.
pub open spec fn shell_quoted(value: Seq<char>, platform: Platform) -> Seq<char> {
    if platform == Platform::Windows {
        seq!['"'] + replace_char(value, '"', seq!['\\', '"']) + seq!['"']
    } else {
        seq!['\''] + replace_char(value, '\'', seq!['\'', '\\', '\'', '\'']) + seq!['\'']
    }
}

/// Quotes an executable path for the platform's shell (see `shell_quoted`).
pub fn shell_quote(value: &str, platform: Platform) -> (quoted: String)
    ensures
        quoted@ == shell_quoted(value@, platform),
{
    let cs = chars_of(value);
    let windows = match platform {
        Platform::Windows => true,
        _ => false,
    };
    let quote = if windows {
        '"'
    } else {
        '\''
    };
    let mut out = String::new();
    push_char(&mut out, quote);
    let ghost start = out@;
    let mut k: usize = 0;
    while k < cs.len()
        invariant
            cs@ == value@,
            k <= cs@.len(),
            quote == (if windows {
                '"'
            } else {
                '\''
            }),
            windows == (platform == Platform::Windows),
            start == seq![quote],
            out@ == start + if windows {
                replace_char(cs@.take(k as int), '"', seq!['\\', '"'])
            } else {
                replace_char(cs@.take(k as int), '\'', seq!['\'', '\\', '\'', '\''])
            },
        decreases cs@.len() - k,
    {
        proof {
            assert(cs@.take(k + 1).drop_last() =~= cs@.take(k as int));
        }
        let c = cs[k];
        if c == quote {
            if windows {
                push_char(&mut out, '\\');
                push_char(&mut out, '"');
            } else {
                push_char(&mut out, '\'');
                push_char(&mut out, '\\');
                push_char(&mut out, '\'');
                push_char(&mut out, '\'');
            }
        } else {
            push_char(&mut out, c);
        }
        k += 1;
    }
    push_char(&mut out, quote);
    proof {
        assert(cs@.take(k as int) =~= cs@);
    }
    out
}

/// The command with which an assistant's command-line tool `cli`
/// registers the executable as a user-wide MCP server.
pub fn mcp_cli_add_command(cli: &str, exe_path: &str, platform: Platform) -> (command: String)
    ensures
        command@ == cli@ + " mcp add --scope user haystack -- "@ + shell_quoted(exe_path@, platform) + " --mcp"@,
{
    let quoted = shell_quote(exe_path, platform);
    let mut out = String::new();
    push_str(&mut out, cli);
    push_str(&mut out, " mcp add --scope user haystack -- ");
    push_str(&mut out, quoted.as_str());
    push_str(&mut out, " --mcp");
    out
}

/// Where a desktop assistant named `app` keeps its configuration file
/// `file` on the platform, or how to reach it where the place is unknown.
pub open spec fn desktop_config_location(app: Seq<char>, file: Seq<char>, platform: Platform) -> Seq<char> {
    match platform {
        Platform::MacOs => "~/Library/Application Support/"@ + app + "/"@ + file,
        Platform::Windows => "%APPDATA%\\"@ + app + "\\"@ + file,
        Platform::Linux => "~/.config/"@ + app + "/"@ + file,
        Platform::Other => app + " Desktop → Settings → Developer → Edit Config"@,
    }
}

/// Where a desktop assistant keeps its configuration (see
/// `desktop_config_location`).
pub fn desktop_config_path(app: &str, file: &str, platform: Platform) -> (path: String)
    ensures
        path@ == desktop_config_location(app@, file@, platform),
{
    let mut out = String::new();
    match platform {
        Platform::MacOs => {
            push_str(&mut out, "~/Library/Application Support/");
            push_str(&mut out, app);
            push_str(&mut out, "/");
            push_str(&mut out, file);
        },
        Platform::Windows => {
            push_str(&mut out, "%APPDATA%\\");
            push_str(&mut out, app);
            push_str(&mut out, "\\");
            push_str(&mut out, file);
        },
        Platform::Linux => {
            push_str(&mut out, "~/.config/");
            push_str(&mut out, app);
            push_str(&mut out, "/");
            push_str(&mut out, file);
        },
        Platform::Other => {
            push_str(&mut out, app);
            push_str(&mut out, " Desktop → Settings → Developer → Edit Config");
        },
    }
    proof {
        assert(Seq::<char>::empty() + app@ =~= app@);
    }
    out
}


/// The theme the user chose.
#[derive(Clone, Copy, Debug, PartialEq, Eq, Structural)]
pub enum ThemeMode {
    Light,
    Dark,
    System,
}

/// Whether to paint dark: as chosen, or following the system theme
/// (`Some(true)` when it is dark), dark when the system does not say.
pub fn resolve_dark_mode(mode: ThemeMode, system_dark: Option<bool>) -> (dark: bool)
    ensures
        dark == match mode {
            ThemeMode::Light => false,
            ThemeMode::Dark => true,
            ThemeMode::System => match system_dark {
                Some(d) => d,
                None => true,
            },
        },
{
    match mode {
        ThemeMode::Light => false,
        ThemeMode::Dark => true,
        ThemeMode::System => match system_dark {
            Some(d) => d,
            None => true,
        },
    }
}

} // verus!
