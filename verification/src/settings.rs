//! Terminal provider settings: what happens to the terminal on quit, the
//! kinds of providers, their configuration and the built-in providers.
use vstd::prelude::*;

use crate::text::{str_eq, strings_of};

verus! {

/// `serde_json::Value`, carried through provider configurations unread.
#[verifier::external_type_specification]
#[verifier::external_body]
pub struct ExJsonValue(serde_json::Value);

/// `serde_json::Value::Object(serde_json::Map::new())`: an empty JSON
/// object. Nothing is stated of the value, which the library never reads.
#[verifier::external_body]
pub(crate) fn default_extra() -> serde_json::Value {
    serde_json::Value::Object(serde_json::Map::new())
}

/// What stopping the docked terminal does with its window.
#[derive(Clone, Copy, Debug, PartialEq, Eq, Structural)]
pub enum QuitBehavior {
    Close,
    Quit,
    Leave,
}

/// How a provider launches its terminal.
#[derive(Clone, Copy, Debug, PartialEq, Eq, Structural)]
pub enum ProviderKind {
    Applescript,
    Cli,
}

impl QuitBehavior {
    /// The default: close the terminal window.
    pub fn default() -> (r: QuitBehavior)
        ensures
            r == QuitBehavior::Close,
    {
        QuitBehavior::Close
    }
}

impl ProviderKind {
    /// The default kind: a command line.
    pub fn default() -> (r: ProviderKind)
        ensures
            r == ProviderKind::Cli,
    {
        ProviderKind::Cli
    }
}

/// The stop mode named by the front end: "close", "quit" or "leave"; any
/// other name closes.
pub fn quit_behavior_from_mode(mode: &str) -> (r: QuitBehavior)
    ensures
        r == (if mode@ == "quit"@ {
            QuitBehavior::Quit
        } else if mode@ == "leave"@ {
            QuitBehavior::Leave
        } else {
            QuitBehavior::Close
        }),
{
    if str_eq(mode, "close") {
        proof {
            reveal_strlit("close");
            reveal_strlit("quit");
            reveal_strlit("leave");
            assert(mode@[0] != "quit"@[0]);
            assert(mode@[0] != "leave"@[0]);
        }
        QuitBehavior::Close
    } else if str_eq(mode, "quit") {
        QuitBehavior::Quit
    } else if str_eq(mode, "leave") {
        QuitBehavior::Leave
    } else {
        QuitBehavior::Close
    }
}

/// The kind as the front end names it: the lower-cased variant name.
pub fn kind_name(kind: ProviderKind) -> (r: String)
    ensures
        r@ == (match kind {
            ProviderKind::Applescript => "applescript"@,
            ProviderKind::Cli => "cli"@,
        }),
{
    match kind {
        ProviderKind::Applescript => "applescript".to_owned(),
        ProviderKind::Cli => "cli".to_owned(),
    }
}

/// One terminal provider in the settings.
#[derive(Debug)]
pub struct ProviderConfig {
    pub id: String,
    pub name: String,
    pub kind: ProviderKind,
    pub enabled: bool,
    pub app_name: Option<String>,
    pub app_path: Option<String>,
    pub command: Vec<String>,
    pub extra: serde_json::Value,
}

pub open spec fn opt_view(o: Option<String>) -> Option<Seq<char>> {
    match o {
        Some(s) => Some(s@),
        None => None,
    }
}

/// The plain fields of a provider configuration.
pub struct ProviderConfigView {
    pub id: Seq<char>,
    pub name: Seq<char>,
    pub kind: ProviderKind,
    pub enabled: bool,
    pub app_name: Option<Seq<char>>,
    pub app_path: Option<Seq<char>>,
    pub command: Seq<Seq<char>>,
}

impl View for ProviderConfig {
    type V = ProviderConfigView;

    open spec fn view(&self) -> ProviderConfigView {
        ProviderConfigView {
            id: self.id@,
            name: self.name@,
            kind: self.kind,
            enabled: self.enabled,
            app_name: opt_view(self.app_name),
            app_path: opt_view(self.app_path),
            command: strings_of(self.command@),
        }
    }
}

impl ProviderConfig {
    /// An unnamed, disabled command-line provider with no command.
    pub fn default() -> (r: ProviderConfig)
        ensures
            r@.id.len() == 0,
            r@.name.len() == 0,
            r@.kind == ProviderKind::Cli,
            !r@.enabled,
            r@.app_name is None,
            r@.app_path is None,
            r@.command.len() == 0,
    {
        let r = ProviderConfig {
            id: String::new(),
            name: String::new(),
            kind: ProviderKind::Cli,
            enabled: false,
            app_name: None,
            app_path: None,
            command: Vec::new(),
            extra: default_extra(),
        };
        assert(r@.command =~= Seq::<Seq<char>>::empty());
        r
    }
}

fn command_of(ws: &Vec<&str>) -> (r: Vec<String>)
    ensures
        r@.len() == ws@.len(),
        forall|j: int| 0 <= j < ws@.len() ==> #[trigger] r@[j]@ == ws@[j]@,
{
    let mut r: Vec<String> = Vec::new();
    let mut i = 0usize;
    while i < ws.len()
        invariant
            i <= ws@.len(),
            r@.len() == i,
            forall|j: int| 0 <= j < i ==> #[trigger] r@[j]@ == ws@[j]@,
        decreases ws@.len() - i,
    {
        r.push(ws[i].to_owned());
        i += 1;
    }
    r
}

fn provider(
    id: &str,
    name: &str,
    kind: ProviderKind,
    app_name: &str,
    app_path: Option<&str>,
    command: Vec<String>,
) -> (r: ProviderConfig)
    ensures
        r@.id == id@,
        r@.name == name@,
        r@.kind == kind,
        r@.enabled,
        r@.app_name == Some(app_name@),
        r@.app_path == (match app_path {
            Some(p) => Some(p@),
            None => None::<Seq<char>>,
        }),
        r.command@ == command@,
{
    ProviderConfig {
        id: id.to_owned(),
        name: name.to_owned(),
        kind,
        enabled: true,
        app_name: Some(app_name.to_owned()),
        app_path: match app_path {
            Some(p) => Some(p.to_owned()),
            None => None,
        },
        command,
        extra: default_extra(),
    }
}

/// The provider has these fields.
pub open spec fn provider_is(
    p: ProviderConfigView,
    id: Seq<char>,
    name: Seq<char>,
    kind: ProviderKind,
    app_name: Seq<char>,
    app_path: Option<Seq<char>>,
    command: Seq<Seq<char>>,
) -> bool {
    &&& p.id == id
    &&& p.name == name
    &&& p.kind == kind
    &&& p.enabled
    &&& p.app_name == Some(app_name)
    &&& p.app_path == app_path
    &&& p.command == command
}

/// The built-in providers, all enabled: iTerm2 and Terminal by AppleScript,
/// WezTerm, Alacritty and kitty by command line ("{cwd}" stands for the
/// working directory).
pub fn default_providers() -> (r: Vec<ProviderConfig>)
    ensures
        r@.len() == 5,
        provider_is(
            r@[0]@,
            "iterm2"@,
            "iTerm2"@,
            ProviderKind::Applescript,
            "iTerm2"@,
            Some("/Applications/iTerm.app"@),
            Seq::empty(),
        ),
        provider_is(
            r@[1]@,
            "wezterm"@,
            "WezTerm"@,
            ProviderKind::Cli,
            "wezterm-gui"@,
            None,
            seq!["wezterm"@, "start"@, "--cwd"@, "{cwd}"@],
        ),
        provider_is(
            r@[2]@,
            "alacritty"@,
            "Alacritty"@,
            ProviderKind::Cli,
            "Alacritty"@,
            None,
            seq!["alacritty"@, "--working-directory"@, "{cwd}"@],
        ),
        provider_is(
            r@[3]@,
            "kitty"@,
            "kitty"@,
            ProviderKind::Cli,
            "kitty"@,
            None,
            seq!["kitty"@, "--single-instance"@, "--directory"@, "{cwd}"@],
        ),
        provider_is(
            r@[4]@,
            "terminal"@,
            "Terminal"@,
            ProviderKind::Applescript,
            "Terminal"@,
            None,
            Seq::empty(),
        ),
{
    let mut r: Vec<ProviderConfig> = Vec::new();
    let p0 = provider(
        "iterm2",
        "iTerm2",
        ProviderKind::Applescript,
        "iTerm2",
        Some("/Applications/iTerm.app"),
        Vec::new(),
    );
    assert(p0@.command =~= Seq::<Seq<char>>::empty());
    let mut c1: Vec<&str> = Vec::new();
    c1.push("wezterm");
    c1.push("start");
    c1.push("--cwd");
    c1.push("{cwd}");
    let p1 = provider("wezterm", "WezTerm", ProviderKind::Cli, "wezterm-gui", None, command_of(&c1));
    assert(p1@.command =~= seq!["wezterm"@, "start"@, "--cwd"@, "{cwd}"@]);
    let mut c2: Vec<&str> = Vec::new();
    c2.push("alacritty");
    c2.push("--working-directory");
    c2.push("{cwd}");
    let p2 = provider("alacritty", "Alacritty", ProviderKind::Cli, "Alacritty", None, command_of(&c2));
    assert(p2@.command =~= seq!["alacritty"@, "--working-directory"@, "{cwd}"@]);
    let mut c3: Vec<&str> = Vec::new();
    c3.push("kitty");
    c3.push("--single-instance");
    c3.push("--directory");
    c3.push("{cwd}");
    let p3 = provider("kitty", "kitty", ProviderKind::Cli, "kitty", None, command_of(&c3));
    assert(p3@.command =~= seq!["kitty"@, "--single-instance"@, "--directory"@, "{cwd}"@]);
    let p4 = provider("terminal", "Terminal", ProviderKind::Applescript, "Terminal", None, Vec::new());
    assert(p4@.command =~= Seq::<Seq<char>>::empty());
    r.push(p0);
    r.push(p1);
    r.push(p2);
    r.push(p3);
    r.push(p4);
    r
}

/// The docking settings, kept in settings.toml. The width of the docked
/// terminal, a fraction of the window, is a float and is kept beside these
/// by the application.
#[derive(Debug)]
pub struct TerminalSettings {
    pub default_provider: String,
    pub follow_window: bool,
    pub auto_redock: bool,
    pub redock_interval_ms: u64,
    pub quit_behavior: QuitBehavior,
    pub providers: Vec<ProviderConfig>,
}

impl TerminalSettings {
    /// The settings before the user changes any: iTerm2 by default, the
    /// terminal follows the window and is docked again every 250 ms, it is
    /// closed when the session stops, and the built-in providers.
    pub fn default() -> (r: TerminalSettings)
        ensures
            r.default_provider@ == "iterm2"@,
            r.follow_window,
            r.auto_redock,
            r.redock_interval_ms == 250,
            r.quit_behavior == QuitBehavior::Close,
            r.providers@.len() == 5,
            provider_is(
                r.providers@[0]@,
                "iterm2"@,
                "iTerm2"@,
                ProviderKind::Applescript,
                "iTerm2"@,
                Some("/Applications/iTerm.app"@),
                Seq::empty(),
            ),
            provider_is(
                r.providers@[1]@,
                "wezterm"@,
                "WezTerm"@,
                ProviderKind::Cli,
                "wezterm-gui"@,
                None,
                seq!["wezterm"@, "start"@, "--cwd"@, "{cwd}"@],
            ),
            provider_is(
                r.providers@[2]@,
                "alacritty"@,
                "Alacritty"@,
                ProviderKind::Cli,
                "Alacritty"@,
                None,
                seq!["alacritty"@, "--working-directory"@, "{cwd}"@],
            ),
            provider_is(
                r.providers@[3]@,
                "kitty"@,
                "kitty"@,
                ProviderKind::Cli,
                "kitty"@,
                None,
                seq!["kitty"@, "--single-instance"@, "--directory"@, "{cwd}"@],
            ),
            provider_is(
                r.providers@[4]@,
                "terminal"@,
                "Terminal"@,
                ProviderKind::Applescript,
                "Terminal"@,
                None,
                Seq::empty(),
            ),
    {
        TerminalSettings {
            default_provider: "iterm2".to_owned(),
            follow_window: true,
            auto_redock: true,
            redock_interval_ms: 250,
            quit_behavior: QuitBehavior::Close,
            providers: default_providers(),
        }
    }
}

} // verus!
