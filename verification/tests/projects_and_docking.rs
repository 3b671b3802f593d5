use modou::dock::{
    dock_command_for, next_start_step, tick_interval_ms, CommandPlan, DockCommand, DockState, DockWorker, FitPlan,
    StartFailure, StartStage, StartStep, WindowEvent,
};
use modou::recent::{
    display_name, dock_menu_entries, new_window_label, on_menu_event, recent_menu_entries, DockMenuEntry, MenuAction,
    MenuEntry, RecentProjects, MAX_RECENT,
};
use modou::settings::{
    default_providers, kind_name, quit_behavior_from_mode, ProviderConfig, ProviderKind, QuitBehavior,
    TerminalSettings,
};

#[test]
fn default_has_iterm2_as_default() {
    let s = TerminalSettings::default();
    assert_eq!(s.default_provider, "iterm2");
    assert!(s.follow_window);
    assert!(s.auto_redock);
    assert_eq!(s.quit_behavior, QuitBehavior::Close);
    assert!(s.providers.iter().any(|p| p.id == "iterm2" && p.enabled));
}

#[test]
fn default_settings_values() {
    let s = TerminalSettings::default();
    assert_eq!(s.redock_interval_ms, 250);
    let ids: Vec<&str> = s.providers.iter().map(|p| p.id.as_str()).collect();
    assert_eq!(ids, vec!["iterm2", "wezterm", "alacritty", "kitty", "terminal"]);
    assert_eq!(s.providers[1].command, vec!["wezterm", "start", "--cwd", "{cwd}"]);
    assert_eq!(s.providers[0].app_path.as_deref(), Some("/Applications/iTerm.app"));
    assert_eq!(s.providers[4].kind, ProviderKind::Applescript);
    assert_eq!(default_providers().len(), 5);
    let p = ProviderConfig::default();
    assert!(p.id.is_empty() && !p.enabled && p.command.is_empty());
    assert_eq!(p.kind, ProviderKind::Cli);
    assert_eq!(QuitBehavior::default(), QuitBehavior::Close);
    assert_eq!(ProviderKind::default(), ProviderKind::Cli);
}

#[test]
fn stop_modes_and_kind_names() {
    assert_eq!(quit_behavior_from_mode("close"), QuitBehavior::Close);
    assert_eq!(quit_behavior_from_mode("quit"), QuitBehavior::Quit);
    assert_eq!(quit_behavior_from_mode("leave"), QuitBehavior::Leave);
    assert_eq!(quit_behavior_from_mode("whatever"), QuitBehavior::Close);
    assert_eq!(kind_name(ProviderKind::Applescript), "applescript");
    assert_eq!(kind_name(ProviderKind::Cli), "cli");
}

#[test]
fn recent_add_moves_to_front_without_duplicates() {
    let mut r = RecentProjects::new();
    r.add("/a");
    r.add("/b");
    r.add("/a");
    assert_eq!(r.list(), vec!["/a".to_string(), "/b".to_string()]);
    r.add("/a");
    assert_eq!(r.list(), vec!["/a".to_string(), "/b".to_string()]);
}

#[test]
fn recent_keeps_at_most_ten() {
    let mut r = RecentProjects::new();
    for i in 0..12 {
        r.add(&format!("/p{i}"));
    }
    let l = r.list();
    assert_eq!(l.len(), MAX_RECENT);
    assert_eq!(l[0], "/p11");
    assert_eq!(l[9], "/p2");
}

#[test]
fn recent_remove_and_clear() {
    let mut r = RecentProjects::new();
    r.add("/a");
    r.add("/b");
    r.remove("/a");
    assert_eq!(r.list(), vec!["/b".to_string()]);
    r.remove("/zzz");
    assert_eq!(r.list(), vec!["/b".to_string()]);
    r.clear();
    assert!(r.list().is_empty());
    assert_eq!(r.get(0), None);
}

#[test]
fn recent_json_round_trip() {
    let r = RecentProjects::from_json("[\"/x/one\", \"/y/two\"]");
    assert_eq!(r.list(), vec!["/x/one".to_string(), "/y/two".to_string()]);
    let text = r.to_json().unwrap();
    let back = RecentProjects::from_json(&text);
    assert_eq!(back.list(), r.list());
    assert!(RecentProjects::from_json("not json").list().is_empty());
    assert!(RecentProjects::from_json("{\"a\": 1}").list().is_empty());
}

#[test]
fn display_names() {
    assert_eq!(display_name("/Users/me/modou"), "modou");
    assert_eq!(display_name("plain"), "plain");
    assert_eq!(display_name("/trailing/"), "");
}

#[test]
fn menu_events() {
    let mut r = RecentProjects::new();
    r.add("/one");
    r.add("/two");
    assert!(matches!(on_menu_event("modou.open_folder", &r), MenuAction::OpenFolder));
    assert!(matches!(on_menu_event("modou.new_window", &r), MenuAction::NewWindow));
    assert!(matches!(on_menu_event("modou.recent.clear", &r), MenuAction::ClearRecent));
    assert!(matches!(on_menu_event("modou.close_window", &r), MenuAction::CloseWindow));
    match on_menu_event("modou.recent.1", &r) {
        MenuAction::OpenProject(p) => assert_eq!(p, "/one"),
        other => panic!("unexpected {other:?}"),
    }
    match on_menu_event("modou.recent.+0", &r) {
        MenuAction::OpenProject(p) => assert_eq!(p, "/two"),
        other => panic!("unexpected {other:?}"),
    }
    assert!(matches!(on_menu_event("modou.recent.2", &r), MenuAction::Ignore));
    assert!(matches!(on_menu_event("modou.recent.empty", &r), MenuAction::Ignore));
    assert!(matches!(on_menu_event("modou.recent.x", &r), MenuAction::Ignore));
    assert!(matches!(on_menu_event("other", &r), MenuAction::Ignore));
}

#[test]
fn recent_menu_items() {
    let empty = RecentProjects::new();
    let e = recent_menu_entries(&empty);
    assert_eq!(e.len(), 1);
    match &e[0] {
        MenuEntry::Item { id, label, enabled } => {
            assert_eq!(id, "modou.recent.empty");
            assert_eq!(label, "（无最近项目）");
            assert!(!enabled);
        }
        MenuEntry::Separator => panic!("placeholder expected"),
    }
    let mut r = RecentProjects::new();
    r.add("/a/first");
    r.add("/b/second");
    let e = recent_menu_entries(&r);
    assert_eq!(e.len(), 4);
    match &e[0] {
        MenuEntry::Item { id, label, enabled } => {
            assert_eq!(id, "modou.recent.0");
            assert_eq!(label, "second");
            assert!(enabled);
        }
        MenuEntry::Separator => panic!("item expected"),
    }
    assert!(matches!(e[2], MenuEntry::Separator));
    match &e[3] {
        MenuEntry::Item { id, label, .. } => {
            assert_eq!(id, "modou.recent.clear");
            assert_eq!(label, "清除全部记录");
        }
        MenuEntry::Separator => panic!("item expected"),
    }
}

#[test]
fn dock_start_unknown_and_disabled_providers() {
    let mut providers = default_providers();
    let mut w = DockWorker::new();
    let e = w.begin_start("nope", &providers, 1000).unwrap_err();
    assert_eq!(e, "未找到 provider: nope");
    let s = w.session_view().unwrap();
    assert_eq!(s.state, DockState::Error);
    assert_eq!(s.id, "dock-1000");
    providers[1].enabled = false;
    let e = w.begin_start("wezterm", &providers, 2000).unwrap_err();
    assert_eq!(e, "WezTerm 已在设置中禁用");
    assert_eq!(w.session_view().unwrap().id, "dock-1000");
}

#[test]
fn dock_launch_fit_and_detach() {
    let providers = default_providers();
    let mut w = DockWorker::new();
    assert_eq!(w.begin_start("kitty", &providers, 5).unwrap(), 3);
    let v = w.session_view().unwrap();
    assert_eq!(v.state, DockState::Launching);
    assert_eq!(v.message, "正在启动终端...");
    let v = w.launched(7);
    assert_eq!(v.state, DockState::Docked);
    assert_eq!(v.provider_name, "kitty");
    assert!(w.has_active_window());
    assert!(w.may_redock(true, true));
    assert!(!w.may_redock(false, true));
    for _ in 0..3 {
        assert_eq!(w.fit_plan(false), FitPlan::Force);
        assert!(w.after_fit(true, 8).is_none());
    }
    assert_eq!(w.fit_plan(true), FitPlan::Tolerant);
    assert_eq!(w.fit_plan(false), FitPlan::Measure);
    for _ in 0..11 {
        assert!(w.after_measure(Some(true), 9).is_none());
    }
    let v = w.after_measure(Some(true), 9).unwrap();
    assert_eq!(v.state, DockState::Detached);
    assert_eq!(v.message, "终端窗口已脱离停靠区域");
    let v = w.after_fit(false, 10).unwrap();
    assert_eq!(v.state, DockState::Docked);
}

#[test]
fn dock_measure_without_deviation_resets() {
    let providers = default_providers();
    let mut w = DockWorker::new();
    w.begin_start("iterm2", &providers, 1).unwrap();
    w.launched(1);
    for _ in 0..11 {
        w.after_measure(Some(true), 2);
    }
    assert!(w.after_measure(Some(false), 2).is_none());
    assert!(w.after_measure(None, 2).is_none());
    assert!(w.after_measure(Some(true), 2).is_none());
}

#[test]
fn dock_stop_modes() {
    let providers = default_providers();
    let mut w = DockWorker::new();
    w.begin_start("iterm2", &providers, 1).unwrap();
    w.launched(1);
    assert!(!w.must_close_window(QuitBehavior::Leave));
    let v = w.stop(QuitBehavior::Leave, 2);
    assert_eq!(v.state, DockState::Detached);
    assert_eq!(v.message, "终端已折叠");
    assert!(w.has_active_window());
    assert!(w.must_close_window(QuitBehavior::Quit));
    let v = w.stop(QuitBehavior::Close, 3);
    assert_eq!(v.state, DockState::Exited);
    assert_eq!(v.message, "终端已停止");
    assert!(!w.has_active_window());
    assert!(!w.redock_on_tick(true));
}

#[test]
fn dock_start_failures() {
    let providers = default_providers();
    let mut w = DockWorker::new();
    w.begin_start("alacritty", &providers, 1).unwrap();
    assert_eq!(w.fail_start(StartFailure::NotInstalled, 2), "未安装 Alacritty");
    assert_eq!(w.session_view().unwrap().state, DockState::Error);
    assert_eq!(w.fail_start(StartFailure::Unsupported, 2), "该 provider 在当前平台不支持");
    assert_eq!(
        w.fail_start(StartFailure::NotTrusted, 2),
        "需要辅助功能权限。请前往 系统设置 > 隐私与安全性 > 辅助功能 授权。"
    );
    assert_eq!(w.fail_start(StartFailure::Launch("boom".into()), 2), "boom");
}

#[test]
fn tick_interval_has_a_floor() {
    assert_eq!(tick_interval_ms(250), 250);
    assert_eq!(tick_interval_ms(50), 50);
    assert_eq!(tick_interval_ms(10), 50);
}

#[test]
fn dock_icon_menu() {
    let empty = RecentProjects::new();
    let e = dock_menu_entries(&empty);
    assert_eq!(e.len(), 3);
    assert!(matches!(&e[0], DockMenuEntry::NewWindow { label } if label == "新建窗口"));
    assert!(matches!(e[1], DockMenuEntry::Separator));
    assert!(matches!(&e[2], DockMenuEntry::Placeholder { label } if label == "（无最近项目）"));
    let mut r = RecentProjects::new();
    r.add("/code/alpha");
    r.add("/code/beta");
    let e = dock_menu_entries(&r);
    assert_eq!(e.len(), 4);
    assert!(matches!(&e[2], DockMenuEntry::Project { label, path } if label == "beta" && path == "/code/beta"));
    assert!(matches!(&e[3], DockMenuEntry::Project { label, path } if label == "alpha" && path == "/code/alpha"));
}

#[test]
fn window_labels() {
    assert_eq!(new_window_label(0), "modou-0");
    assert_eq!(new_window_label(1700000000123), "modou-1700000000123");
}

#[test]
fn dock_command_plans() {
    let providers = default_providers();
    let mut w = DockWorker::new();
    assert_eq!(w.plan_command(DockCommand::Redock), CommandPlan::Nothing);
    assert_eq!(w.plan_command(DockCommand::UpdateSlot), CommandPlan::Nothing);
    assert_eq!(w.plan_command(DockCommand::Start), CommandPlan::Start);
    assert_eq!(w.plan_command(DockCommand::Shutdown), CommandPlan::StopAndEnd);
    assert_eq!(w.plan_command(DockCommand::Stop(QuitBehavior::Leave)), CommandPlan::Stop(QuitBehavior::Leave));
    w.begin_start("iterm2", &providers, 1).unwrap();
    w.launched(1);
    assert_eq!(w.plan_command(DockCommand::Redock), CommandPlan::Redock);
    assert_eq!(w.plan_command(DockCommand::UpdateSlot), CommandPlan::Redock);
    w.stop(QuitBehavior::Close, 2);
    assert!(!w.has_provider && !w.has_window);
    assert_eq!(w.plan_command(DockCommand::Redock), CommandPlan::Nothing);
}

#[test]
fn window_events_to_commands() {
    assert_eq!(dock_command_for(WindowEvent::Moved), Some(DockCommand::Redock));
    assert_eq!(dock_command_for(WindowEvent::Resized), Some(DockCommand::Redock));
    assert_eq!(dock_command_for(WindowEvent::CloseRequested), Some(DockCommand::Shutdown));
    assert_eq!(dock_command_for(WindowEvent::Other), None);
}

#[test]
fn start_checks_in_order() {
    assert_eq!(next_start_step(StartStage::Backend, true), StartStep::Next(StartStage::Installed));
    assert_eq!(next_start_step(StartStage::Backend, false), StartStep::Unsupported);
    assert_eq!(next_start_step(StartStage::Installed, true), StartStep::Next(StartStage::Trusted));
    assert_eq!(next_start_step(StartStage::Installed, false), StartStep::NotInstalled);
    assert_eq!(next_start_step(StartStage::Trusted, true), StartStep::Next(StartStage::Launch));
    assert_eq!(next_start_step(StartStage::Trusted, false), StartStep::NotTrusted);
    assert_eq!(next_start_step(StartStage::Launch, true), StartStep::Launched);
    assert_eq!(next_start_step(StartStage::Launch, false), StartStep::LaunchFailed);
}

#[test]
fn fit_and_measure_report_exactly_when_the_session_changes() {
    let providers = default_providers();
    let mut w = DockWorker::new();
    w.begin_start("iterm2", &providers, 1).unwrap();
    w.launched(1);
    assert!(w.after_fit(false, 2).is_none());
    for _ in 0..11 {
        assert!(w.after_measure(Some(true), 3).is_none());
    }
    assert!(w.after_measure(Some(true), 3).is_some());
    assert!(w.after_measure(Some(true), 3).is_some());
    assert!(w.after_fit(false, 4).is_some());
    assert!(w.after_fit(false, 4).is_none());
}
