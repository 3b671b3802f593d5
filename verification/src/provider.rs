//! External terminal providers: which backend drives a configured provider,
//! the command line of a CLI terminal, the AppleScript that opens iTerm2 or
//! Terminal.app, how a failed script is classified, how a process id is read
//! from `pgrep`, and the errors the providers report.
use vstd::prelude::*;

use crate::commands::{file_name, file_name_of};
use crate::settings::{opt_view, ProviderConfig, ProviderKind};
use crate::text::{
    all_digits, concat, contains, contains_text, digits_value, lines_of, parse_usize,
    replace, replaced, split_lines, str_eq, strings_of, trim, trimmed, unsigned_digits, decimal,
    u64_to_decimal,
};

verus! {

/// Where and for which project a terminal is launched.
#[derive(Debug)]
pub struct LaunchContext {
    pub cwd: String,
    pub project_name: String,
}

/// A provider as the front end lists it.
#[derive(Debug)]
pub struct ProviderInfo {
    pub id: String,
    pub name: String,
    pub kind: String,
    pub enabled: bool,
    pub installed: bool,
}

/// The project a terminal opens in is named by the last component of its
/// working directory, or "project" when it has none.
pub open spec fn project_name_of(cwd: Seq<char>) -> Seq<char> {
    match file_name_of(cwd) {
        Some(n) => n,
        None => "project"@,
    }
}

/// The launch context for a working directory.
pub fn launch_context(cwd: &str) -> (r: LaunchContext)
    ensures
        r.cwd@ == cwd@,
        r.project_name@ == project_name_of(cwd@),
{
    let project_name = match file_name(cwd) {
        Some(n) => n,
        None => "project".to_owned(),
    };
    LaunchContext { cwd: cwd.to_owned(), project_name }
}

/// Why a provider could not launch or close its terminal.
#[derive(Debug)]
pub enum ProviderError {
    NotInstalled(String),
    NotAuthorized(String),
    LaunchTimeout(String),
    WindowNotFound(String),
    Other(String),
}

/// The text of an error: its kind, then its detail.
pub open spec fn error_text(e: ProviderError) -> Seq<char> {
    match e {
        ProviderError::NotInstalled(m) => "未安装: "@ + m@,
        ProviderError::NotAuthorized(m) => "未授权: "@ + m@,
        ProviderError::LaunchTimeout(m) => "启动超时: "@ + m@,
        ProviderError::WindowNotFound(m) => "窗口未找到: "@ + m@,
        ProviderError::Other(m) => m@,
    }
}

impl ProviderError {
    /// The error as it is shown to the user.
    pub fn message(&self) -> (r: String)
        ensures
            r@ == error_text(*self),
    {
        match self {
            ProviderError::NotInstalled(m) => concat("未安装: ", m.as_str()),
            ProviderError::NotAuthorized(m) => concat("未授权: ", m.as_str()),
            ProviderError::LaunchTimeout(m) => concat("启动超时: ", m.as_str()),
            ProviderError::WindowNotFound(m) => concat("窗口未找到: ", m.as_str()),
            ProviderError::Other(m) => m.clone(),
        }
    }
}

/// What drives a provider's terminal.
#[derive(Clone, Copy, Debug, PartialEq, Eq, Structural)]
pub enum ProviderBackend {
    /// iTerm2 or Terminal.app, scripted through AppleScript.
    Applescript,
    /// A terminal started from its command line.
    Cli,
}

/// The backend for a configured provider: AppleScript drives only the
/// providers "iterm2" and "terminal"; every command-line provider is
/// started from its command.
pub open spec fn backend_of(kind: ProviderKind, id: Seq<char>) -> Option<ProviderBackend> {
    match kind {
        ProviderKind::Applescript => if id == "iterm2"@ || id == "terminal"@ {
            Some(ProviderBackend::Applescript)
        } else {
            None
        },
        ProviderKind::Cli => Some(ProviderBackend::Cli),
    }
}

/// The backend for a configured provider, if one can drive it.
pub fn create_provider(config: &ProviderConfig) -> (r: Option<ProviderBackend>)
    ensures
        r == backend_of(config.kind, config.id@),
{
    match config.kind {
        ProviderKind::Applescript => if str_eq(config.id.as_str(), "iterm2") || str_eq(
            config.id.as_str(),
            "terminal",
        ) {
            Some(ProviderBackend::Applescript)
        } else {
            None
        },
        ProviderKind::Cli => Some(ProviderBackend::Cli),
    }
}

// ---------------------------------------------------------------------
// Error texts
// ---------------------------------------------------------------------

/// `name` is not installed.
pub fn not_installed(name: &str) -> (r: ProviderError)
    ensures
        r matches ProviderError::NotInstalled(m) && m@ == "未找到 "@ + name@ + "，请确认已安装。"@,
{
    let a = concat("未找到 ", name);
    ProviderError::NotInstalled(concat(a.as_str(), "，请确认已安装。"))
}

/// No window of `name` appeared.
pub fn window_not_found(name: &str) -> (r: ProviderError)
    ensures
        r matches ProviderError::WindowNotFound(m) && m@ == "未找到 "@ + name@ + " 的窗口"@,
{
    let a = concat("未找到 ", name);
    ProviderError::WindowNotFound(concat(a.as_str(), " 的窗口"))
}

// ---------------------------------------------------------------------
// Command-line terminals
// ---------------------------------------------------------------------

/// The program of a command-line provider: the first word of its command.
pub fn executable(config: &ProviderConfig) -> (r: Option<String>)
    ensures
        match r {
            Some(e) => config.command@.len() > 0 && e@ == config.command@[0]@,
            None => config.command@.len() == 0,
        },
{
    if config.command.len() == 0 {
        None
    } else {
        Some(config.command[0].clone())
    }
}

/// The name used for the program in messages: the executable, or "命令".
pub open spec fn program_label(command: Seq<Seq<char>>) -> Seq<char> {
    if command.len() > 0 {
        command[0]
    } else {
        "命令"@
    }
}

/// The arguments of a command-line provider for a working directory: the
/// words after the program, each with "{cwd}" replaced by the directory.
pub open spec fn cli_args(command: Seq<Seq<char>>, cwd: Seq<char>) -> Seq<Seq<char>> {
    if command.len() == 0 {
        Seq::empty()
    } else {
        command.skip(1).map_values(|w: Seq<char>| replaced(w, "{cwd}"@, cwd))
    }
}

/// The arguments the provider's program is started with in `cwd`.
pub fn build_args(config: &ProviderConfig, cwd: &str) -> (r: Vec<String>)
    ensures
        strings_of(r@) == cli_args(strings_of(config.command@), cwd@),
{
    let mut r: Vec<String> = Vec::new();
    let mut i = 1usize;
    proof {
        reveal_strlit("{cwd}");
    }
    while i < config.command.len()
        invariant
            1 <= i <= config.command@.len() || (i == 1 && config.command@.len() == 0),
            r@.len() == i - 1,
            "{cwd}"@.len() == 5,
            forall|k: int| 0 <= k < r@.len() ==> #[trigger] r@[k]@ == replaced(config.command@[k + 1]@, "{cwd}"@, cwd@),
        decreases config.command@.len() - i,
    {
        r.push(replace(config.command[i].as_str(), "{cwd}", cwd));
        i += 1;
    }
    proof {
        if config.command@.len() > 0 {
            assert(strings_of(r@) =~= cli_args(strings_of(config.command@), cwd@));
        } else {
            assert(strings_of(r@) =~= Seq::<Seq<char>>::empty());
        }
    }
    r
}

/// The program path that `which` printed: its first line, trimmed, unless
/// that is empty.
pub open spec fn which_path(stdout: Seq<char>) -> Option<Seq<char>> {
    let lines = lines_of(stdout);
    if lines.len() > 0 && trimmed(lines[0]).len() > 0 {
        Some(trimmed(lines[0]))
    } else {
        None
    }
}

/// The program path in the output of `which`, if it printed one.
pub fn which_output_path(stdout: &str) -> (r: Option<String>)
    ensures
        match (r, which_path(stdout@)) {
            (Some(p), Some(q)) => p@ == q,
            (None, None) => true,
            _ => false,
        },
{
    let lines = split_lines(stdout);
    if lines.len() == 0 {
        return None;
    }
    assert(lines@.map_values(|l: String| l@)[0] == lines@[0]@);
    let p = trim(lines[0].as_str());
    if p.as_str().is_empty() {
        None
    } else {
        Some(p)
    }
}

/// The program of a command-line provider was not found.
pub fn cli_not_installed(config: &ProviderConfig) -> (r: ProviderError)
    ensures
        r matches ProviderError::NotInstalled(m) && m@ == "未找到 "@ + program_label(strings_of(config.command@)) + "，请确认已安装。"@,
{
    let label = match executable(config) {
        Some(e) => e,
        None => "命令".to_owned(),
    };
    not_installed(label.as_str())
}

/// The program of a command-line provider could not be located to start.
pub fn cli_program_missing(config: &ProviderConfig) -> (r: ProviderError)
    ensures
        r matches ProviderError::NotInstalled(m) && m@ == "未找到 "@ + program_label(strings_of(config.command@)),
{
    let label = match executable(config) {
        Some(e) => e,
        None => "命令".to_owned(),
    };
    ProviderError::NotInstalled(concat("未找到 ", label.as_str()))
}

/// Starting the program failed with `reason`.
pub fn spawn_failed(reason: &str) -> (r: ProviderError)
    ensures
        r matches ProviderError::Other(m) && m@ == "启动失败: "@ + reason@,
{
    ProviderError::Other(concat("启动失败: ", reason))
}

/// The name of a command-line terminal's application in messages: its
/// configured application name, or "终端".
pub open spec fn terminal_label(app_name: Option<Seq<char>>) -> Seq<char> {
    match app_name {
        Some(n) => n,
        None => "终端"@,
    }
}

fn terminal_name(config: &ProviderConfig) -> (r: String)
    ensures
        r@ == terminal_label(opt_view(config.app_name)),
{
    match &config.app_name {
        Some(n) => n.clone(),
        None => "终端".to_owned(),
    }
}

/// No window of a command-line terminal appeared.
pub fn cli_window_not_found(config: &ProviderConfig) -> (r: ProviderError)
    ensures
        r matches ProviderError::WindowNotFound(m) && m@ == "未找到 "@ + terminal_label(opt_view(config.app_name)) + " 的窗口"@,
{
    let name = terminal_name(config);
    window_not_found(name.as_str())
}

/// The window of a command-line terminal could not be closed.
pub fn cli_close_failed(config: &ProviderConfig) -> (r: ProviderError)
    ensures
        r matches ProviderError::WindowNotFound(m) && m@ == "无法关闭 "@ + terminal_label(opt_view(config.app_name)) + " 窗口"@,
{
    let name = terminal_name(config);
    let a = concat("无法关闭 ", name.as_str());
    ProviderError::WindowNotFound(concat(a.as_str(), " 窗口"))
}

// ---------------------------------------------------------------------
// iTerm2 and Terminal.app
// ---------------------------------------------------------------------

/// The application an AppleScript provider scripts: its configured name,
/// or "iTerm2".
pub open spec fn script_app_name(app_name: Option<Seq<char>>) -> Seq<char> {
    match app_name {
        Some(n) => n,
        None => "iTerm2"@,
    }
}

/// The application a provider scripts.
pub fn app_name(config: &ProviderConfig) -> (r: String)
    ensures
        r@ == script_app_name(opt_view(config.app_name)),
{
    match &config.app_name {
        Some(n) => n.clone(),
        None => "iTerm2".to_owned(),
    }
}

/// The bundle id searched for when the configured application path is
/// missing.
pub fn bundle_id(config: &ProviderConfig) -> (r: String)
    ensures
        r@ == (if config.id@ == "terminal"@ {
            "com.apple.Terminal"@
        } else {
            "com.googlecode.iterm2"@
        }),
{
    if str_eq(config.id.as_str(), "terminal") {
        "com.apple.Terminal".to_owned()
    } else {
        "com.googlecode.iterm2".to_owned()
    }
}

/// The script that opens a terminal in `cwd`: a Terminal.app window for
/// the provider "terminal", a new iTerm2 window for any other. The
/// directory is embedded between double quotes as it is.
pub open spec fn launch_script_text(id: Seq<char>, cwd: Seq<char>) -> Seq<char> {
    if id == "terminal"@ {
        "tell application \"Terminal\"\n  do script \"cd \" & quoted form of \""@ + cwd
            + "\" & \" && clear\"\n  activate\nend tell"@
    } else {
        "tell application \"iTerm2\"\n  set w to create window with default profile\n  tell current session of w to write text \"cd \" & quoted form of \""@
            + cwd + "\" & \" && clear\"\n  activate\nend tell"@
    }
}

/// The script that opens the provider's terminal in `cwd`.
pub fn launch_script(config: &ProviderConfig, cwd: &str) -> (r: String)
    ensures
        r@ == launch_script_text(config.id@, cwd@),
{
    let (head, tail) = if str_eq(config.id.as_str(), "terminal") {
        (
            "tell application \"Terminal\"\n  do script \"cd \" & quoted form of \"",
            "\" & \" && clear\"\n  activate\nend tell",
        )
    } else {
        (
            "tell application \"iTerm2\"\n  set w to create window with default profile\n  tell current session of w to write text \"cd \" & quoted form of \"",
            "\" & \" && clear\"\n  activate\nend tell",
        )
    };
    let a = concat(head, cwd);
    concat(a.as_str(), tail)
}

/// `stderr` of a failed script says that automation was not permitted
/// (errAEEventNotPermitted is -1743).
pub open spec fn denied(stderr: Seq<char>) -> bool {
    contains_text(stderr, "-1743"@) || contains_text(stderr, "not authorized"@) || contains_text(
        stderr,
        "not allowed"@,
    )
}

/// The error for a launch script that failed with `stderr`: a refusal of
/// automation asks the user to allow it; anything else reports the
/// trimmed output.
pub fn script_failure(app: &str, stderr: &str) -> (r: ProviderError)
    ensures
        denied(stderr@) ==> (r matches ProviderError::NotAuthorized(m) && m@ == "需要授权控制 "@ + app@
            + "。请前往 系统设置 > 隐私与安全性 > 自动化 允许。"@),
        !denied(stderr@) ==> (r matches ProviderError::Other(m) && m@ == app@ + " 启动失败: "@ + trimmed(stderr@)),
{
    if contains(stderr, "-1743") || contains(stderr, "not authorized") || contains(stderr, "not allowed") {
        let a = concat("需要授权控制 ", app);
        ProviderError::NotAuthorized(concat(a.as_str(), "。请前往 系统设置 > 隐私与安全性 > 自动化 允许。"))
    } else {
        let a = concat(app, " 启动失败: ");
        let t = trim(stderr);
        ProviderError::Other(concat(a.as_str(), t.as_str()))
    }
}

/// `osascript` itself could not be run.
pub fn script_not_run(reason: &str) -> (r: ProviderError)
    ensures
        r matches ProviderError::Other(m) && m@ == "osascript 执行失败: "@ + reason@,
{
    ProviderError::Other(concat("osascript 执行失败: ", reason))
}

/// The pattern `pgrep -f` looks for when the application's process is not
/// found by name.
pub fn pgrep_pattern(config: &ProviderConfig) -> (r: String)
    ensures
        r@ == (if config.id@ == "terminal"@ {
            "Terminal.app/Contents/MacOS/Terminal"@
        } else {
            "iTerm.app/Contents/MacOS/iTerm2"@
        }),
{
    if str_eq(config.id.as_str(), "terminal") {
        "Terminal.app/Contents/MacOS/Terminal".to_owned()
    } else {
        "iTerm.app/Contents/MacOS/iTerm2".to_owned()
    }
}

/// What `u32::from_str` accepts: an optional '+' then one or more ASCII
/// digits whose value fits in 32 bits.
pub open spec fn parsed_u32(s: Seq<char>) -> Option<u32> {
    let ds = unsigned_digits(s);
    if ds.len() > 0 && all_digits(ds) && digits_value(ds) <= u32::MAX {
        Some(digits_value(ds) as u32)
    } else {
        None
    }
}

/// Parses a u32 in base 10 as `str::parse::<u32>` does.
pub fn parse_u32(s: &str) -> (r: Option<u32>)
    ensures
        r == parsed_u32(s@),
{
    match parse_usize(s) {
        Some(v) => if v <= 0xffff_ffffusize {
            Some(v as u32)
        } else {
            None
        },
        None => None,
    }
}

/// The larger of two optional process ids.
pub open spec fn max_pid(a: Option<u32>, b: Option<u32>) -> Option<u32> {
    match (a, b) {
        (Some(x), Some(y)) => Some(if x >= y { x } else { y }),
        (Some(x), None) => Some(x),
        (None, _) => b,
    }
}

/// The largest process id among the lines that hold one, trimmed.
pub open spec fn largest_pid(lines: Seq<Seq<char>>) -> Option<u32>
    decreases lines.len(),
{
    if lines.len() == 0 {
        None
    } else {
        max_pid(largest_pid(lines.drop_last()), parsed_u32(trimmed(lines.last())))
    }
}

/// The newest matching process in the output of `pgrep`: the largest id it
/// lists.
pub fn pgrep_pid(stdout: &str) -> (r: Option<u32>)
    ensures
        r == largest_pid(lines_of(stdout@)),
{
    let lines = split_lines(stdout);
    let ghost ls = lines@.map_values(|l: String| l@);
    let mut best: Option<u32> = None;
    let mut i = 0usize;
    while i < lines.len()
        invariant
            i <= lines@.len(),
            ls == lines@.map_values(|l: String| l@),
            ls == lines_of(stdout@),
            best == largest_pid(ls.take(i as int)),
        decreases lines@.len() - i,
    {
        proof {
            assert(ls.take(i + 1).drop_last() =~= ls.take(i as int));
            assert(ls.take(i + 1).last() == lines@[i as int]@);
        }
        let t = trim(lines[i].as_str());
        let v = parse_u32(t.as_str());
        best = match (best, v) {
            (Some(x), Some(y)) => Some(if x >= y { x } else { y }),
            (Some(x), None) => Some(x),
            (None, _) => v,
        };
        i += 1;
    }
    assert(ls.take(i as int) =~= ls);
    best
}

/// The process id of the scripted application could not be read.
pub fn pid_timeout(app: &str) -> (r: ProviderError)
    ensures
        r matches ProviderError::LaunchTimeout(m) && m@ == "无法获取 "@ + app@ + " 的 PID"@,
{
    let a = concat("无法获取 ", app);
    ProviderError::LaunchTimeout(concat(a.as_str(), " 的 PID"))
}

/// The scripted application's window could not be closed, since no handle
/// to it is held.
pub fn script_close_failed(app: &str) -> (r: ProviderError)
    ensures
        r matches ProviderError::WindowNotFound(m) && m@ == "无法关闭 "@ + app@ + " 窗口：未持有窗口句柄"@,
{
    let a = concat("无法关闭 ", app);
    ProviderError::WindowNotFound(concat(a.as_str(), " 窗口：未持有窗口句柄"))
}

// ---------------------------------------------------------------------
// Waiting for a launched terminal
// ---------------------------------------------------------------------

/// How long to wait for something that takes time to appear, and how often
/// to look again.
#[derive(Clone, Copy, Debug, PartialEq, Eq, Structural)]
pub struct WaitSchedule {
    pub limit_ms: u64,
    pub interval_ms: u64,
}

/// The next step of a wait.
#[derive(Clone, Copy, Debug, PartialEq, Eq, Structural)]
pub enum WaitStep {
    /// What was waited for is there.
    Done,
    /// Look (again) now, and sleep this long if it is not there.
    Sleep(u64),
    /// The time is up.
    GiveUp,
}

/// The step after `elapsed_ms` of waiting: done once it was found, given up
/// once the limit is reached, else another look and a sleep of the interval.
pub open spec fn wait_step(s: WaitSchedule, elapsed_ms: u64, found: bool) -> WaitStep {
    if found {
        WaitStep::Done
    } else if elapsed_ms >= s.limit_ms {
        WaitStep::GiveUp
    } else {
        WaitStep::Sleep(s.interval_ms)
    }
}

/// The next step of a wait.
pub fn next_wait(s: WaitSchedule, elapsed_ms: u64, found: bool) -> (r: WaitStep)
    ensures
        r == wait_step(s, elapsed_ms, found),
{
    if found {
        WaitStep::Done
    } else if elapsed_ms >= s.limit_ms {
        WaitStep::GiveUp
    } else {
        WaitStep::Sleep(s.interval_ms)
    }
}

/// Waiting for the process id of a scripted terminal: 5 s, every 300 ms.
pub fn pid_wait() -> (r: WaitSchedule)
    ensures
        r == (WaitSchedule { limit_ms: 5000, interval_ms: 300 }),
{
    WaitSchedule { limit_ms: 5000, interval_ms: 300 }
}

/// Waiting for a terminal's window: 3 s, every 200 ms. A second wait
/// follows a first one that failed.
pub fn window_wait() -> (r: WaitSchedule)
    ensures
        r == (WaitSchedule { limit_ms: 3000, interval_ms: 200 }),
{
    WaitSchedule { limit_ms: 3000, interval_ms: 200 }
}

/// The first wait for the window of a command-line terminal: 4 s, every
/// 200 ms (its program may take longer to start).
pub fn first_cli_window_wait() -> (r: WaitSchedule)
    ensures
        r == (WaitSchedule { limit_ms: 4000, interval_ms: 200 }),
{
    WaitSchedule { limit_ms: 4000, interval_ms: 200 }
}

/// The pause between the first wait for a window and the second one.
pub const RETRY_PAUSE_MS: u64 = 500;

/// Waiting for `osascript` to finish: 30 s (the first run may ask the user
/// for permission), looking every 100 ms.
pub fn script_wait() -> (r: WaitSchedule)
    ensures
        r == (WaitSchedule { limit_ms: 30000, interval_ms: 100 }),
{
    WaitSchedule { limit_ms: 30000, interval_ms: 100 }
}

/// The message for a script that ran out of time: its limit in whole
/// seconds.
pub fn script_timed_out(s: WaitSchedule) -> (r: String)
    ensures
        r@ == "osascript 执行超时（"@ + decimal((s.limit_ms / 1000) as nat) + "s）"@,
{
    let secs = u64_to_decimal(s.limit_ms / 1000);
    let a = concat("osascript 执行超时（", secs.as_str());
    concat(a.as_str(), "s）")
}

} // verus!
