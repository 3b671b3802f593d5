use modou::commands::{git_source, login_shell, provider_info, terminal_cwd, terminal_info, GitSource, SessionState};
use modou::docking::{
    is_trusted, mdfind, mdfind_path, mdfind_query, pid_from_output, pid_of_process, pid_script, request_trust,
    AxError,
};
use modou::provider::{
    app_name, build_args, bundle_id, cli_close_failed, cli_not_installed, cli_program_missing,
    cli_window_not_found, create_provider, executable, launch_context, launch_script, not_installed, parse_u32, pgrep_pattern,
    pgrep_pid, pid_timeout, script_close_failed, script_failure, script_not_run, spawn_failed, which_output_path,
    window_not_found, ProviderBackend, ProviderError, next_wait, pid_wait, window_wait, first_cli_window_wait, script_wait,
    script_timed_out, WaitSchedule, WaitStep, RETRY_PAUSE_MS,
};
use modou::settings::{default_providers, ProviderConfig, ProviderKind};
use modou::terminal::TerminalManager;
use modou::text::{contains, replace, trim};
use modou::watch::{change_kind, path_key_of, watch_targets, WatchEventKind, WatchTable};

fn config(id: &str, kind: ProviderKind) -> ProviderConfig {
    let mut c = ProviderConfig::default();
    c.id = id.to_string();
    c.kind = kind;
    c
}

fn err_text(e: &ProviderError) -> String {
    e.message()
}

#[test]
fn terminal_ids_are_never_reused() {
    let mut m: TerminalManager<&str> = TerminalManager::new();
    assert_eq!(m.create("first"), 0);
    assert_eq!(m.create("second"), 1);
    assert_eq!(m.close(0), Some("first"));
    assert_eq!(m.close(0), None);
    assert_eq!(m.terminal(0).unwrap_err(), "Terminal not found");
    assert_eq!(m.create("third"), 2);
    assert_eq!(*m.terminal(2).unwrap(), "third");
    assert_eq!(m.next_id(), 3);
}

#[test]
fn terminal_sizes() {
    let mut m: TerminalManager<u8> = TerminalManager::new();
    let id = m.create(7);
    let s = m.size(id).unwrap();
    assert_eq!((s.rows, s.cols), (24, 80));
    m.resize(id, 120, 40).unwrap();
    let s = m.size(id).unwrap();
    assert_eq!((s.rows, s.cols), (40, 120));
    assert_eq!(*m.terminal(id).unwrap(), 7);
    assert_eq!(m.resize(99, 1, 1).unwrap_err(), "Terminal not found");
    assert_eq!(m.size(99).unwrap_err(), "Terminal not found");
}

#[test]
fn terminal_titles_count_from_one() {
    let t = terminal_info(0);
    assert_eq!(t.id, 0);
    assert_eq!(t.title, "Terminal 1");
    assert_eq!(terminal_info(41).title, "Terminal 42");
}

#[test]
fn terminal_working_directory_choice() {
    let req = Some("/req".to_string());
    let win = Some("/win".to_string());
    let cwd = Some("/proc".to_string());
    assert_eq!(terminal_cwd(req.clone(), true, win.clone(), cwd.clone()), req);
    assert_eq!(terminal_cwd(req.clone(), false, win.clone(), cwd.clone()), win);
    assert_eq!(terminal_cwd(None, true, None, cwd.clone()), cwd);
    assert_eq!(terminal_cwd(None, false, None, None), None);
}

#[test]
fn login_shell_choice() {
    assert_eq!(login_shell(Some("/bin/fish".into()), Some("/bin/bash".into())), "/bin/fish");
    assert_eq!(login_shell(Some(String::new()), Some("/bin/bash".into())), "/bin/bash");
    assert_eq!(login_shell(None, None), "/bin/zsh");
    assert_eq!(login_shell(None, Some(String::new())), "");
}

#[test]
fn git_source_choice() {
    assert!(matches!(git_source(true, Some("/r".into())), Ok(GitSource::ProjectRepo)));
    match git_source(false, Some("/r/sub".into())) {
        Ok(GitSource::NestedRepo(p)) => assert_eq!(p, "/r/sub"),
        other => panic!("unexpected {other:?}"),
    }
    assert_eq!(git_source(false, None).unwrap_err(), "No git repository");
}

#[test]
fn empty_session() {
    let s = SessionState::default();
    assert!(s.project_root.is_none() && s.open_files.is_empty() && s.active_file.is_none());
    assert!(s.expanded_dirs.is_empty());
}

#[test]
fn provider_listing_record() {
    let providers = default_providers();
    let info = provider_info(&providers[0], true);
    assert_eq!(info.id, "iterm2");
    assert_eq!(info.name, "iTerm2");
    assert_eq!(info.kind, "applescript");
    assert!(info.enabled && info.installed);
    let info = provider_info(&providers[2], false);
    assert_eq!(info.kind, "cli");
    assert!(!info.installed);
}

#[test]
fn provider_backends() {
    assert_eq!(create_provider(&config("iterm2", ProviderKind::Applescript)), Some(ProviderBackend::Applescript));
    assert_eq!(create_provider(&config("terminal", ProviderKind::Applescript)), Some(ProviderBackend::Applescript));
    assert_eq!(create_provider(&config("warp", ProviderKind::Applescript)), None);
    assert_eq!(create_provider(&config("anything", ProviderKind::Cli)), Some(ProviderBackend::Cli));
}

#[test]
fn cli_command_line() {
    let providers = default_providers();
    assert_eq!(executable(&providers[1]).as_deref(), Some("wezterm"));
    assert_eq!(build_args(&providers[1], "/w d"), vec!["start", "--cwd", "/w d"]);
    let mut c = config("custom", ProviderKind::Cli);
    c.command = vec!["t".into(), "--dir={cwd}:{cwd}".into(), "{cw".into()];
    assert_eq!(build_args(&c, "/x"), vec!["--dir=/x:/x", "{cw"]);
    let empty = config("none", ProviderKind::Cli);
    assert_eq!(executable(&empty), None);
    assert!(build_args(&empty, "/x").is_empty());
}

#[test]
fn which_and_mdfind_output() {
    assert_eq!(which_output_path("/usr/local/bin/wezterm\n").as_deref(), Some("/usr/local/bin/wezterm"));
    assert_eq!(which_output_path("  /a b \n/second\n").as_deref(), Some("/a b"));
    assert_eq!(which_output_path("   \n/second\n"), None);
    assert_eq!(which_output_path(""), None);
    assert_eq!(mdfind_path("/Applications/iTerm.app\n").as_deref(), Some("/Applications/iTerm.app"));
    assert_eq!(mdfind_query("com.googlecode.iterm2"), "kMDItemCFBundleIdentifier == 'com.googlecode.iterm2'");
}

#[test]
fn provider_error_texts() {
    let providers = default_providers();
    assert_eq!(err_text(&cli_not_installed(&providers[1])), "未安装: 未找到 wezterm，请确认已安装。");
    let empty = config("none", ProviderKind::Cli);
    assert_eq!(err_text(&cli_not_installed(&empty)), "未安装: 未找到 命令，请确认已安装。");
    assert_eq!(err_text(&cli_program_missing(&providers[2])), "未安装: 未找到 alacritty");
    assert_eq!(err_text(&spawn_failed("denied")), "启动失败: denied");
    assert_eq!(err_text(&cli_window_not_found(&providers[3])), "窗口未找到: 未找到 kitty 的窗口");
    assert_eq!(err_text(&cli_window_not_found(&empty)), "窗口未找到: 未找到 终端 的窗口");
    assert_eq!(err_text(&cli_close_failed(&empty)), "窗口未找到: 无法关闭 终端 窗口");
    assert_eq!(err_text(&not_installed("iTerm2")), "未安装: 未找到 iTerm2，请确认已安装。");
    assert_eq!(err_text(&window_not_found("iTerm2")), "窗口未找到: 未找到 iTerm2 的窗口");
    assert_eq!(err_text(&pid_timeout("iTerm2")), "启动超时: 无法获取 iTerm2 的 PID");
    assert_eq!(err_text(&script_close_failed("Terminal")), "窗口未找到: 无法关闭 Terminal 窗口：未持有窗口句柄");
    assert_eq!(err_text(&script_not_run("no such file")), "osascript 执行失败: no such file");
    assert_eq!(err_text(&ProviderError::NotAuthorized("x".into())), "未授权: x");
    assert_eq!(err_text(&ProviderError::Other("plain".into())), "plain");
}

#[test]
fn applescript_provider_details() {
    let providers = default_providers();
    assert_eq!(app_name(&providers[0]), "iTerm2");
    assert_eq!(app_name(&config("x", ProviderKind::Applescript)), "iTerm2");
    assert_eq!(app_name(&providers[4]), "Terminal");
    assert_eq!(bundle_id(&providers[4]), "com.apple.Terminal");
    assert_eq!(bundle_id(&providers[0]), "com.googlecode.iterm2");
    assert_eq!(pgrep_pattern(&providers[4]), "Terminal.app/Contents/MacOS/Terminal");
    assert_eq!(pgrep_pattern(&providers[0]), "iTerm.app/Contents/MacOS/iTerm2");
    assert_eq!(
        launch_script(&providers[4], "/p"),
        "tell application \"Terminal\"\n  do script \"cd \" & quoted form of \"/p\" & \" && clear\"\n  activate\nend tell"
    );
    assert_eq!(
        launch_script(&providers[0], "/p"),
        "tell application \"iTerm2\"\n  set w to create window with default profile\n  tell current session of w to write text \"cd \" & quoted form of \"/p\" & \" && clear\"\n  activate\nend tell"
    );
}

#[test]
fn failed_script_classification() {
    let e = script_failure("iTerm2", "execution error: Not authorised (-1743)");
    assert!(matches!(e, ProviderError::NotAuthorized(_)));
    assert_eq!(e.message(), "未授权: 需要授权控制 iTerm2。请前往 系统设置 > 隐私与安全性 > 自动化 允许。");
    assert!(matches!(script_failure("iTerm2", "osascript is not allowed assistive access"), ProviderError::NotAuthorized(_)));
    assert!(matches!(script_failure("iTerm2", "app not authorized"), ProviderError::NotAuthorized(_)));
    let e = script_failure("iTerm2", "  syntax error \n");
    assert_eq!(e.message(), "iTerm2 启动失败: syntax error");
}

#[test]
fn pids_from_tool_output() {
    assert_eq!(pgrep_pid("123\n4567\n89\n"), Some(4567));
    assert_eq!(pgrep_pid(" 12 \nabc\n\n"), Some(12));
    assert_eq!(pgrep_pid("junk\n"), None);
    assert_eq!(pgrep_pid(""), None);
    assert_eq!(pgrep_pid("99999999999\n5\n"), Some(5));
    assert_eq!(pid_from_output(" 321\n"), Some(321));
    assert_eq!(pid_from_output("1 2"), None);
    assert_eq!(parse_u32("+7"), Some(7));
    assert_eq!(parse_u32("4294967295"), Some(u32::MAX));
    assert_eq!(parse_u32("4294967296"), None);
    assert_eq!(parse_u32("-1"), None);
    assert_eq!(parse_u32(""), None);
    assert_eq!(
        pid_script("iTerm2"),
        "tell application \"System Events\" to unix id of first process whose name is \"iTerm2\""
    );
}

#[test]
fn accessibility_without_the_api() {
    assert!(!is_trusted());
    assert!(!request_trust());
    assert_eq!(mdfind("com.googlecode.iterm2"), None);
    assert_eq!(pid_of_process("iTerm2"), None);
}

#[test]
fn accessibility_error_codes() {
    assert_eq!(AxError::from(0), AxError::Success);
    assert_eq!(AxError::from(-25200), AxError::Failure);
    assert_eq!(AxError::from(-25202), AxError::InvalidUIElement);
    assert_eq!(AxError::from(-25208), AxError::NotificationUnsupported);
    assert_eq!(AxError::from(-25215), AxError::NotEnoughPrecision);
    assert_eq!(AxError::from(-25207), AxError::Other);
    assert_eq!(AxError::from(42), AxError::Other);
    assert_eq!(AxError::APIDisabled.code(), -25212);
    assert_eq!(AxError::Other.code(), -25999);
    assert_eq!(AxError::from(AxError::NoValue.code()), AxError::NoValue);
}

#[test]
fn watch_event_kinds() {
    assert_eq!(change_kind(WatchEventKind::Modify).as_deref(), Some("modified"));
    assert_eq!(change_kind(WatchEventKind::Create).as_deref(), Some("modified"));
    assert_eq!(change_kind(WatchEventKind::Remove).as_deref(), Some("removed"));
    assert_eq!(change_kind(WatchEventKind::Access), None);
    assert_eq!(change_kind(WatchEventKind::Any), None);
    assert_eq!(change_kind(WatchEventKind::Other), None);
}

#[test]
fn watch_targets_map_resolved_paths_back() {
    let paths = vec!["/tmp/a.txt".to_string(), "/w/b.txt".to_string()];
    let resolved = vec![Some("/private/tmp/a.txt".to_string()), None];
    let t = watch_targets(&paths, &resolved);
    assert_eq!(t.len(), 3);
    assert_eq!(t.get("/tmp/a.txt").as_deref(), Some("/tmp/a.txt"));
    assert_eq!(t.get("/private/tmp/a.txt").as_deref(), Some("/tmp/a.txt"));
    assert_eq!(t.get("/w/b.txt").as_deref(), Some("/w/b.txt"));
    assert_eq!(t.frontend_path("/private/tmp/a.txt", None).as_deref(), Some("/tmp/a.txt"));
    assert_eq!(
        t.frontend_path("/elsewhere", Some("/w/b.txt".to_string())).as_deref(),
        Some("/w/b.txt")
    );
    assert_eq!(t.frontend_path("/elsewhere", None), None);
}

#[test]
fn watch_sync_drops_keeps_and_adds() {
    let mut table = WatchTable::new();
    table.set("/old".into(), "/old".into());
    table.set("/kept".into(), "/kept-front".into());
    let paths = vec!["/kept".to_string(), "/new".to_string(), "/fails".to_string()];
    let target = watch_targets(&paths, &vec![None, None, None]);
    let stale = table.stale_keys(&target);
    assert_eq!(stale, vec!["/old".to_string()]);
    let fresh = table.new_entries(&table);
    assert!(fresh.is_empty());
    let fresh: Vec<String> = target.new_entries(&table).into_iter().map(|(k, _)| k).collect();
    assert_eq!(fresh, vec!["/new".to_string(), "/fails".to_string()]);
    table.apply_sync(&target, &vec!["/new".to_string()]);
    assert_eq!(table.len(), 2);
    assert!(!table.contains("/old"));
    assert!(!table.contains("/fails"));
    assert_eq!(table.get("/kept").as_deref(), Some("/kept-front"));
    assert_eq!(table.get("/new").as_deref(), Some("/new"));
    table.apply_sync(&target, &vec!["/new".to_string(), "/fails".to_string()]);
    assert_eq!(table.len(), 3);
    table.remove("/new");
    assert!(!table.contains("/new"));
    let (k, v) = table.entry(0);
    assert_eq!(table.get(&k), Some(v));
}

#[test]
fn text_helpers() {
    assert_eq!(replace("a{cwd}b{cwd}", "{cwd}", "/x"), "a/xb/x");
    assert_eq!(replace("aaa", "aa", "b"), "ba");
    assert!(contains("error -1743 here", "-1743"));
    assert!(contains("abc", ""));
    assert!(!contains("ab", "abc"));
    assert_eq!(trim("\t x y \u{3000}\n"), "x y");
    assert_eq!(trim("   "), "");
}

#[test]
fn launch_context_names_the_project() {
    let c = launch_context("/Users/me/code/modou");
    assert_eq!(c.cwd, "/Users/me/code/modou");
    assert_eq!(c.project_name, "modou");
    assert_eq!(launch_context("/").project_name, "project");
    assert_eq!(launch_context("/a/b/").project_name, "b");
}

#[test]
fn wait_schedules() {
    assert_eq!(pid_wait(), WaitSchedule { limit_ms: 5000, interval_ms: 300 });
    assert_eq!(window_wait(), WaitSchedule { limit_ms: 3000, interval_ms: 200 });
    assert_eq!(first_cli_window_wait(), WaitSchedule { limit_ms: 4000, interval_ms: 200 });
    assert_eq!(script_wait(), WaitSchedule { limit_ms: 30000, interval_ms: 100 });
    assert_eq!(RETRY_PAUSE_MS, 500);
    let s = pid_wait();
    assert_eq!(next_wait(s, 0, false), WaitStep::Sleep(300));
    assert_eq!(next_wait(s, 4999, false), WaitStep::Sleep(300));
    assert_eq!(next_wait(s, 5000, false), WaitStep::GiveUp);
    assert_eq!(next_wait(s, 9000, true), WaitStep::Done);
    assert_eq!(script_timed_out(script_wait()), "osascript 执行超时（30s）");
}

#[test]
fn watch_repeat_after_a_failed_watch_changes_nothing() {
    let mut table = WatchTable::new();
    let paths = vec!["/a".to_string(), "/missing".to_string()];
    let target = watch_targets(&paths, &vec![None, None]);
    table.apply_sync(&target, &vec!["/a".to_string()]);
    assert!(table.stale_keys(&target).is_empty());
    table.apply_sync(&target, &vec![]);
    assert_eq!(table.len(), 1);
    assert_eq!(table.get("/a").as_deref(), Some("/a"));
    assert!(!table.contains("/missing"));
}

#[test]
fn watched_paths_are_keyed_by_components() {
    assert_eq!(path_key_of("/x//f.txt"), "/x/f.txt");
    assert_eq!(path_key_of("/x/./f.txt/"), "/x/f.txt");
    assert_eq!(path_key_of("./a//b"), "./a/b");
    assert_eq!(path_key_of("a/../b"), "a/../b");
    assert_eq!(path_key_of("/"), "/");
    assert_eq!(path_key_of("/."), "/");
    assert_eq!(path_key_of("."), ".");
    assert_eq!(path_key_of(""), "");
    let paths = vec!["/x//f.txt".to_string()];
    let t = watch_targets(&paths, &vec![None]);
    assert_eq!(t.len(), 1);
    assert_eq!(t.frontend_path("/x/f.txt", None).as_deref(), Some("/x//f.txt"));
    assert_eq!(t.frontend_path("/x/./f.txt", None).as_deref(), Some("/x//f.txt"));
    let two = watch_targets(&vec!["/y/a".to_string(), "/y//a/".to_string()], &vec![None, None]);
    assert_eq!(two.len(), 1);
    assert_eq!(two.get("/y/a").as_deref(), Some("/y//a/"));
}
