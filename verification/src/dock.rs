//! The decisions of the terminal docking worker: starting a provider,
//! keeping its window fitted to the dock slot, noticing when the user pulls
//! it away, and stopping it. The worker thread performs the window and
//! process operations and reports what it observed.
use vstd::prelude::*;

use crate::settings::{ProviderConfig, QuitBehavior};
use crate::text::{concat, decimal, str_eq, u64_to_decimal};

verus! {

/// State of the docked terminal session.
#[derive(Clone, Copy, Debug, PartialEq, Eq, Structural)]
pub enum DockState {
    Launching,
    Docked,
    Detached,
    Exited,
    Error,
}

/// The session as the front end sees it.
#[derive(Debug)]
pub struct DockSessionView {
    pub id: String,
    pub provider_id: String,
    pub provider_name: String,
    pub title: String,
    pub state: DockState,
    pub message: String,
}

/// The contents of a session view.
pub struct SessionSpec {
    pub id: Seq<char>,
    pub provider_id: Seq<char>,
    pub provider_name: Seq<char>,
    pub title: Seq<char>,
    pub state: DockState,
    pub message: Seq<char>,
}

impl View for DockSessionView {
    type V = SessionSpec;

    open spec fn view(&self) -> SessionSpec {
        SessionSpec {
            id: self.id@,
            provider_id: self.provider_id@,
            provider_name: self.provider_name@,
            title: self.title@,
            state: self.state,
            message: self.message@,
        }
    }
}

impl DockSessionView {
    /// A copy of the view.
    pub fn duplicate(&self) -> (r: DockSessionView)
        ensures
            r@ == self@,
    {
        DockSessionView {
            id: self.id.clone(),
            provider_id: self.provider_id.clone(),
            provider_name: self.provider_name.clone(),
            title: self.title.clone(),
            state: self.state,
            message: self.message.clone(),
        }
    }
}

/// The id of a session first seen at `now_ms` milliseconds after the epoch.
pub open spec fn session_id_for(now_ms: u64) -> Seq<char> {
    "dock-"@ + decimal(now_ms as nat)
}

/// The decision state of the docking worker. The worker itself holds the
/// provider, its window and the slot rectangle; `has_provider` and
/// `has_window` say whether it holds them.
pub struct DockWorker {
    pub provider_id: String,
    pub provider_name: String,
    pub session_id: String,
    pub has_provider: bool,
    pub has_window: bool,
    pub consecutive_deviation: u32,
    pub initial_fits_remaining: u32,
    pub session: Option<DockSessionView>,
}

/// The contents of the worker state.
pub struct WorkerSpec {
    pub provider_id: Seq<char>,
    pub provider_name: Seq<char>,
    pub session_id: Seq<char>,
    pub has_provider: bool,
    pub has_window: bool,
    pub consecutive_deviation: nat,
    pub initial_fits_remaining: nat,
    pub session: Option<SessionSpec>,
}

pub open spec fn session_view(s: Option<DockSessionView>) -> Option<SessionSpec> {
    match s {
        Some(v) => Some(v@),
        None => None,
    }
}

impl View for DockWorker {
    type V = WorkerSpec;

    open spec fn view(&self) -> WorkerSpec {
        WorkerSpec {
            provider_id: self.provider_id@,
            provider_name: self.provider_name@,
            session_id: self.session_id@,
            has_provider: self.has_provider,
            has_window: self.has_window,
            consecutive_deviation: self.consecutive_deviation as nat,
            initial_fits_remaining: self.initial_fits_remaining as nat,
            session: session_view(self.session),
        }
    }
}

/// Number of window fits that are forced after a launch or an unfold,
/// because the new terminal takes the focus.
pub const FORCED_FITS: u32 = 3;

/// Consecutive deviating checks after which the window counts as detached.
pub const DETACH_AFTER: u32 = 12;

/// The worker after it publishes a session state: the session keeps its id
/// (a new session gets one from the clock) and takes the rest.
pub open spec fn emitted(
    w: WorkerSpec,
    provider_id: Seq<char>,
    provider_name: Seq<char>,
    state: DockState,
    message: Seq<char>,
    now_ms: u64,
) -> WorkerSpec {
    WorkerSpec {
        session: Some(
            SessionSpec {
                id: match w.session {
                    Some(s) => s.id,
                    None => session_id_for(now_ms),
                },
                provider_id,
                provider_name,
                title: Seq::empty(),
                state,
                message,
            },
        ),
        ..w
    }
}

/// The worker after a stop: leaving folds the terminal away but keeps its
/// window for a later redock (with forced fits again); closing or quitting
/// lets go of the provider and the window.
pub open spec fn stopped(w: WorkerSpec, mode: QuitBehavior, now_ms: u64) -> WorkerSpec {
    match mode {
        QuitBehavior::Leave => emitted(
            WorkerSpec { initial_fits_remaining: FORCED_FITS as nat, ..w },
            w.provider_id,
            w.provider_name,
            DockState::Detached,
            "终端已折叠"@,
            now_ms,
        ),
        _ => emitted(
            WorkerSpec { has_provider: false, has_window: false, ..w },
            w.provider_id,
            w.provider_name,
            DockState::Exited,
            "终端已停止"@,
            now_ms,
        ),
    }
}

/// Why a start failed after its configuration was found.
#[derive(Debug)]
pub enum StartFailure {
    /// No provider of this kind exists on this platform.
    Unsupported,
    /// The provider's program is not installed.
    NotInstalled,
    /// The accessibility permission is missing.
    NotTrusted,
    /// Launching failed with this message.
    Launch(String),
}

/// The message of a failed start.
pub open spec fn failure_message(reason: StartFailure, provider_name: Seq<char>) -> Seq<char> {
    match reason {
        StartFailure::Unsupported => "该 provider 在当前平台不支持"@,
        StartFailure::NotInstalled => "未安装 "@ + provider_name,
        StartFailure::NotTrusted => "需要辅助功能权限。请前往 系统设置 > 隐私与安全性 > 辅助功能 授权。"@,
        StartFailure::Launch(m) => m@,
    }
}

/// The checks of a start once its configuration is found, in the order
/// they are made.
#[derive(Clone, Copy, Debug, PartialEq, Eq, Structural)]
pub enum StartStage {
    /// A provider exists for this configuration on this platform.
    Backend,
    /// Its program is installed.
    Installed,
    /// The accessibility permission is granted.
    Trusted,
    /// The terminal was launched and its window found.
    Launch,
}

/// What follows a check of a start.
#[derive(Clone, Copy, Debug, PartialEq, Eq, Structural)]
pub enum StartStep {
    /// Make this check next.
    Next(StartStage),
    /// The terminal is launched.
    Launched,
    /// No provider exists for it on this platform.
    Unsupported,
    /// Its program is not installed.
    NotInstalled,
    /// The accessibility permission is missing.
    NotTrusted,
    /// The launch failed (with the provider's message).
    LaunchFailed,
}

/// The step after a check: a passed check leads to the next one (backend,
/// installed, trusted, launch) and the last to a launched terminal; a
/// failed check ends the start with its failure.
pub open spec fn start_step(stage: StartStage, passed: bool) -> StartStep {
    match stage {
        StartStage::Backend => if passed { StartStep::Next(StartStage::Installed) } else { StartStep::Unsupported },
        StartStage::Installed => if passed { StartStep::Next(StartStage::Trusted) } else { StartStep::NotInstalled },
        StartStage::Trusted => if passed { StartStep::Next(StartStage::Launch) } else { StartStep::NotTrusted },
        StartStage::Launch => if passed { StartStep::Launched } else { StartStep::LaunchFailed },
    }
}

/// The step after a check of a start.
pub fn next_start_step(stage: StartStage, passed: bool) -> (r: StartStep)
    ensures
        r == start_step(stage, passed),
{
    match stage {
        StartStage::Backend => if passed { StartStep::Next(StartStage::Installed) } else { StartStep::Unsupported },
        StartStage::Installed => if passed { StartStep::Next(StartStage::Trusted) } else { StartStep::NotInstalled },
        StartStage::Trusted => if passed { StartStep::Next(StartStage::Launch) } else { StartStep::NotTrusted },
        StartStage::Launch => if passed { StartStep::Launched } else { StartStep::LaunchFailed },
    }
}

/// The index of the first provider with this id.
pub open spec fn provider_index(providers: Seq<ProviderConfig>, id: Seq<char>) -> Option<int> {
    if exists|i: int| 0 <= i < providers.len() && #[trigger] providers[i].id@ == id {
        Some(
            choose|i: int|
                0 <= i < providers.len() && #[trigger] providers[i].id@ == id && forall|j: int|
                    0 <= j < i ==> providers[j].id@ != id,
        )
    } else {
        None
    }
}

/// What the worker does next with the window on a redock.
#[derive(Clone, Copy, Debug, PartialEq, Eq, Structural)]
pub enum FitPlan {
    /// Set the frame unconditionally (the terminal has just appeared).
    Force,
    /// Set the frame unless it is already within 2 points.
    Tolerant,
    /// The editor is in the background: only measure how far the window is.
    Measure,
}

/// The worker after it fitted the window: forced fits count down, the
/// deviation count resets, and a detached session is docked again.
pub open spec fn after_fit_spec(w: WorkerSpec, forced: bool, now_ms: u64) -> WorkerSpec {
    let w1 = WorkerSpec {
        initial_fits_remaining: if forced {
            (w.initial_fits_remaining - 1) as nat
        } else {
            w.initial_fits_remaining
        },
        consecutive_deviation: 0,
        ..w
    };
    match w.session {
        Some(s) => if s.state == DockState::Detached {
            emitted(w1, w.provider_id, w.provider_name, DockState::Docked, Seq::empty(), now_ms)
        } else {
            w1
        },
        None => w1,
    }
}

/// The worker after measuring the window while the editor is in the
/// background (`None` when the window frame could not be read): a deviation
/// of more than 4 points counts, and the twelfth one in a row and every one
/// after it detaches the session; a window in place resets the count.
pub open spec fn after_measure_spec(w: WorkerSpec, deviated: Option<bool>, now_ms: u64) -> WorkerSpec {
    match deviated {
        None => w,
        Some(false) => WorkerSpec { consecutive_deviation: 0, ..w },
        Some(true) => {
            let w1 = WorkerSpec { consecutive_deviation: w.consecutive_deviation + 1, ..w };
            if w1.consecutive_deviation >= DETACH_AFTER {
                emitted(
                    w1,
                    w.provider_id,
                    w.provider_name,
                    DockState::Detached,
                    "终端窗口已脱离停靠区域"@,
                    now_ms,
                )
            } else {
                w1
            }
        },
    }
}

/// The worker after a successful launch: it holds the provider and the
/// window, the next three fits are forced, and the session is docked.
pub open spec fn launched_spec(w: WorkerSpec, now_ms: u64) -> WorkerSpec {
    emitted(
        WorkerSpec {
            has_provider: true,
            has_window: true,
            session_id: session_id_for(now_ms),
            consecutive_deviation: 0,
            initial_fits_remaining: FORCED_FITS as nat,
            ..w
        },
        w.provider_id,
        w.provider_name,
        DockState::Docked,
        Seq::empty(),
        now_ms,
    )
}

impl DockWorker {
    /// A worker with no session.
    pub fn new() -> (r: DockWorker)
        ensures
            r@.provider_id.len() == 0,
            r@.provider_name.len() == 0,
            r@.session_id.len() == 0,
            !r@.has_provider,
            !r@.has_window,
            r@.consecutive_deviation == 0,
            r@.initial_fits_remaining == 0,
            r@.session is None,
    {
        DockWorker {
            provider_id: String::new(),
            provider_name: String::new(),
            session_id: String::new(),
            has_provider: false,
            has_window: false,
            consecutive_deviation: 0,
            initial_fits_remaining: 0,
            session: None,
        }
    }

    /// A provider and its window are active.
    pub fn has_active_window(&self) -> (r: bool)
        ensures
            r == (self@.has_provider && self@.has_window),
    {
        self.has_provider && self.has_window
    }

    /// A copy of the current session view.
    pub fn session_view(&self) -> (r: Option<DockSessionView>)
        ensures
            session_view(r) == self@.session,
    {
        match &self.session {
            Some(s) => Some(s.duplicate()),
            None => None,
        }
    }

    /// Publishes a session state and returns the new view.
    pub fn emit_state(
        &mut self,
        provider_id: &str,
        provider_name: &str,
        state: DockState,
        message: &str,
        now_ms: u64,
    ) -> (r: DockSessionView)
        ensures
            final(self)@ == emitted(old(self)@, provider_id@, provider_name@, state, message@, now_ms),
            Some(r@) == final(self)@.session,
    {
        let id = match &self.session {
            Some(s) => s.id.clone(),
            None => concat("dock-", u64_to_decimal(now_ms).as_str()),
        };
        let view = DockSessionView {
            id,
            provider_id: provider_id.to_owned(),
            provider_name: provider_name.to_owned(),
            title: String::new(),
            state,
            message: message.to_owned(),
        };
        let r = view.duplicate();
        self.session = Some(view);
        r
    }

    /// Whether stopping in this mode must close the terminal window first.
    pub fn must_close_window(&self, mode: QuitBehavior) -> (r: bool)
        ensures
            r == (mode != QuitBehavior::Leave && self@.has_provider && self@.has_window),
    {
        match mode {
            QuitBehavior::Leave => false,
            _ => self.has_provider && self.has_window,
        }
    }

    /// Records a stop (after the window was closed when
    /// `must_close_window` asked for it).
    pub fn stop(&mut self, mode: QuitBehavior, now_ms: u64) -> (r: DockSessionView)
        ensures
            final(self)@ == stopped(old(self)@, mode, now_ms),
            Some(r@) == final(self)@.session,
    {
        let pid = self.provider_id.clone();
        let pname = self.provider_name.clone();
        match mode {
            QuitBehavior::Leave => {
                self.initial_fits_remaining = FORCED_FITS;
                self.emit_state(pid.as_str(), pname.as_str(), DockState::Detached, "终端已折叠", now_ms)
            },
            _ => {
                self.has_provider = false;
                self.has_window = false;
                self.emit_state(pid.as_str(), pname.as_str(), DockState::Exited, "终端已停止", now_ms)
            },
        }
    }

    /// The first steps of a start: takes the provider id and looks up its
    /// configuration. An unknown id or a disabled provider fails (the
    /// session shows the error, and the message is returned); otherwise
    /// the session shows that the terminal is launching, and the index of
    /// the configuration is returned.
    pub fn begin_start(&mut self, provider_id: &str, providers: &Vec<ProviderConfig>, now_ms: u64) -> (r:
        Result<usize, String>)
        ensures
            final(self)@.provider_id == provider_id@,
            match provider_index(providers@, provider_id@) {
                None => {
                    let msg = "未找到 provider: "@ + provider_id@;
                    &&& r matches Err(m) && m@ == msg
                    &&& final(self)@ == emitted(
                        WorkerSpec { provider_id: provider_id@, ..old(self)@ },
                        provider_id@,
                        provider_id@,
                        DockState::Error,
                        msg,
                        now_ms,
                    )
                },
                Some(i) => {
                    let name = providers@[i].name@;
                    let w1 = WorkerSpec {
                        provider_id: provider_id@,
                        provider_name: name,
                        ..old(self)@
                    };
                    if providers@[i].enabled {
                        &&& r == Ok::<usize, String>(i as usize)
                        &&& final(self)@ == emitted(
                            w1,
                            provider_id@,
                            name,
                            DockState::Launching,
                            "正在启动终端..."@,
                            now_ms,
                        )
                    } else {
                        let msg = name + " 已在设置中禁用"@;
                        &&& r matches Err(m) && m@ == msg
                        &&& final(self)@ == emitted(
                            w1,
                            provider_id@,
                            name,
                            DockState::Error,
                            msg,
                            now_ms,
                        )
                    }
                },
            },
    {
        self.provider_id = provider_id.to_owned();
        let mut i = 0usize;
        while i < providers.len()
            invariant
                i <= providers@.len(),
                forall|j: int| 0 <= j < i ==> providers@[j].id@ != provider_id@,
        ensures
            i <= providers@.len(),
            forall|j: int| 0 <= j < i ==> providers@[j].id@ != provider_id@,
            i < providers@.len() ==> providers@[i as int].id@ == provider_id@,
        decreases providers@.len() - i,
        {
            if str_eq(providers[i].id.as_str(), provider_id) {
                break;
            }
            i += 1;
        }
        if i == providers.len() {
            assert(provider_index(providers@, provider_id@) is None);
            let msg = concat("未找到 provider: ", provider_id);
            let _ = self.emit_state(provider_id, provider_id, DockState::Error, msg.as_str(), now_ms);
            return Err(msg);
        }
        proof {
            assert(providers@[i as int].id@ == provider_id@);
            let k = provider_index(providers@, provider_id@)->0;
            assert(provider_index(providers@, provider_id@) is Some);
            if k < i {
                assert(providers@[k].id@ != provider_id@);
            }
            if k > i {
                assert(providers@[i as int].id@ != provider_id@);
            }
            assert(k == i);
        }
        let config = &providers[i];
        self.provider_name = config.name.clone();
        if !config.enabled {
            let msg = concat(config.name.as_str(), " 已在设置中禁用");
            let _ = self.emit_state(provider_id, config.name.as_str(), DockState::Error, msg.as_str(), now_ms);
            return Err(msg);
        }
        let _ = self.emit_state(
            provider_id,
            config.name.as_str(),
            DockState::Launching,
            "正在启动终端...",
            now_ms,
        );
        Ok(i)
    }

    /// Records a start that failed after the configuration was found; the
    /// session shows the error, and its message is returned.
    pub fn fail_start(&mut self, reason: StartFailure, now_ms: u64) -> (r: String)
        ensures
            r@ == failure_message(reason, old(self)@.provider_name),
            final(self)@ == emitted(
                old(self)@,
                old(self)@.provider_id,
                old(self)@.provider_name,
                DockState::Error,
                r@,
                now_ms,
            ),
    {
        let msg = match reason {
            StartFailure::Unsupported => "该 provider 在当前平台不支持".to_owned(),
            StartFailure::NotInstalled => concat("未安装 ", self.provider_name.as_str()),
            StartFailure::NotTrusted => "需要辅助功能权限。请前往 系统设置 > 隐私与安全性 > 辅助功能 授权。".to_owned(),
            StartFailure::Launch(m) => m,
        };
        let pid = self.provider_id.clone();
        let pname = self.provider_name.clone();
        let _ = self.emit_state(pid.as_str(), pname.as_str(), DockState::Error, msg.as_str(), now_ms);
        msg
    }

    /// Records a successful launch; returns the docked session view.
    pub fn launched(&mut self, now_ms: u64) -> (r: DockSessionView)
        ensures
            final(self)@ == launched_spec(old(self)@, now_ms),
            Some(r@) == final(self)@.session,
    {
        self.has_provider = true;
        self.has_window = true;
        self.session_id = concat("dock-", u64_to_decimal(now_ms).as_str());
        self.consecutive_deviation = 0;
        self.initial_fits_remaining = FORCED_FITS;
        let pid = self.provider_id.clone();
        let pname = self.provider_name.clone();
        proof {
            reveal_strlit("");
            assert(""@ =~= Seq::<char>::empty());
        }
        self.emit_state(pid.as_str(), pname.as_str(), DockState::Docked, "", now_ms)
    }

    /// Whether a redock can go ahead: the worker holds a window with an
    /// accessibility handle, and the slot is at least one point wide.
    pub fn may_redock(&self, has_ax_handle: bool, slot_wide: bool) -> (r: bool)
        ensures
            r == (self@.has_window && has_ax_handle && slot_wide),
    {
        self.has_window && has_ax_handle && slot_wide
    }

    /// How to treat the window on this redock.
    pub fn fit_plan(&self, focused: bool) -> (r: FitPlan)
        ensures
            r == (if self@.initial_fits_remaining > 0 {
                FitPlan::Force
            } else if focused {
                FitPlan::Tolerant
            } else {
                FitPlan::Measure
            }),
    {
        if self.initial_fits_remaining > 0 {
            FitPlan::Force
        } else if focused {
            FitPlan::Tolerant
        } else {
            FitPlan::Measure
        }
    }

    /// Records a fit of the window (forced or tolerant); returns the new
    /// view when the session is docked again.
    pub fn after_fit(&mut self, forced: bool, now_ms: u64) -> (r: Option<DockSessionView>)
        requires
            forced ==> old(self)@.initial_fits_remaining > 0,
        ensures
            final(self)@ == after_fit_spec(old(self)@, forced, now_ms),
            r is Some <==> (old(self)@.session is Some && old(self)@.session->0.state
                == DockState::Detached),
            r is Some ==> Some(r->0@) == final(self)@.session,
    {
        if forced {
            self.initial_fits_remaining = self.initial_fits_remaining - 1;
        }
        self.consecutive_deviation = 0;
        let detached = match &self.session {
            Some(s) => s.state == DockState::Detached,
            None => false,
        };
        if detached {
            let pid = self.provider_id.clone();
            let pname = self.provider_name.clone();
            proof {
                reveal_strlit("");
                assert(""@ =~= Seq::<char>::empty());
            }
            Some(self.emit_state(pid.as_str(), pname.as_str(), DockState::Docked, "", now_ms))
        } else {
            None
        }
    }

    /// Records a measurement of the window taken while the editor was in the
    /// background; returns the new view when the session becomes detached.
    pub fn after_measure(&mut self, deviated: Option<bool>, now_ms: u64) -> (r: Option<DockSessionView>)
        requires
            deviated == Some(true) ==> old(self)@.consecutive_deviation < u32::MAX,
        ensures
            final(self)@ == after_measure_spec(old(self)@, deviated, now_ms),
            r is Some <==> (deviated == Some(true) && old(self)@.consecutive_deviation + 1
                >= DETACH_AFTER),
            r is Some ==> Some(r->0@) == final(self)@.session,
    {
        match deviated {
            None => None,
            Some(false) => {
                self.consecutive_deviation = 0;
                None
            },
            Some(true) => {
                self.consecutive_deviation = self.consecutive_deviation + 1;
                if self.consecutive_deviation >= DETACH_AFTER {
                    let pid = self.provider_id.clone();
                    let pname = self.provider_name.clone();
                    Some(
                        self.emit_state(
                            pid.as_str(),
                            pname.as_str(),
                            DockState::Detached,
                            "终端窗口已脱离停靠区域",
                            now_ms,
                        ),
                    )
                } else {
                    None
                }
            },
        }
    }

    /// Whether a quiet period triggers a redock: when the settings follow
    /// the editor window and a terminal is active.
    pub fn redock_on_tick(&self, follow_window: bool) -> (r: bool)
        ensures
            r == (follow_window && self@.has_provider && self@.has_window),
    {
        follow_window && self.has_active_window()
    }
}

/// How long the worker waits for a command before it redocks on its own:
/// the configured interval, at least 50 ms.
pub fn tick_interval_ms(redock_interval_ms: u64) -> (r: u64)
    ensures
        r == (if redock_interval_ms >= 50 {
            redock_interval_ms
        } else {
            50
        }),
{
    if redock_interval_ms >= 50 {
        redock_interval_ms
    } else {
        50
    }
}

/// A command of the docking worker, without what it carries (the slot
/// rectangle of `UpdateSlot` and the reply channel of `Start` stay with the
/// worker thread).
#[derive(Clone, Copy, Debug, PartialEq, Eq, Structural)]
pub enum DockCommand {
    Start,
    UpdateSlot,
    Redock,
    Stop(QuitBehavior),
    Shutdown,
}

/// What the worker does for a command.
#[derive(Clone, Copy, Debug, PartialEq, Eq, Structural)]
pub enum CommandPlan {
    /// Start the requested provider.
    Start,
    /// Fit the window to the slot again.
    Redock,
    /// Nothing (no terminal is docked).
    Nothing,
    /// Stop the session in this mode.
    Stop(QuitBehavior),
    /// Close the session, then end the worker.
    StopAndEnd,
}

/// The plan for a command: a new slot or a redock request fits the window
/// when a terminal is docked, a stop stops in its mode, and a shutdown
/// closes the session and ends the worker.
pub open spec fn plan_for(w: WorkerSpec, cmd: DockCommand) -> CommandPlan {
    match cmd {
        DockCommand::Start => CommandPlan::Start,
        DockCommand::UpdateSlot | DockCommand::Redock => if w.has_provider && w.has_window {
            CommandPlan::Redock
        } else {
            CommandPlan::Nothing
        },
        DockCommand::Stop(mode) => CommandPlan::Stop(mode),
        DockCommand::Shutdown => CommandPlan::StopAndEnd,
    }
}

impl DockWorker {
    /// What to do for a command.
    pub fn plan_command(&self, cmd: DockCommand) -> (r: CommandPlan)
        ensures
            r == plan_for(self@, cmd),
    {
        match cmd {
            DockCommand::Start => CommandPlan::Start,
            DockCommand::UpdateSlot | DockCommand::Redock => if self.has_active_window() {
                CommandPlan::Redock
            } else {
                CommandPlan::Nothing
            },
            DockCommand::Stop(mode) => CommandPlan::Stop(mode),
            DockCommand::Shutdown => CommandPlan::StopAndEnd,
        }
    }
}

/// What happened to the editor window.
#[derive(Clone, Copy, Debug, PartialEq, Eq, Structural)]
pub enum WindowEvent {
    Moved,
    Resized,
    CloseRequested,
    Other,
}

/// The command an editor window event sends the worker: moving or resizing
/// the window redocks the terminal, and closing it shuts the worker down.
pub open spec fn command_for_event(e: WindowEvent) -> Option<DockCommand> {
    match e {
        WindowEvent::Moved | WindowEvent::Resized => Some(DockCommand::Redock),
        WindowEvent::CloseRequested => Some(DockCommand::Shutdown),
        WindowEvent::Other => None,
    }
}

/// The command an editor window event sends the worker, if any.
pub fn dock_command_for(e: WindowEvent) -> (r: Option<DockCommand>)
    ensures
        r == command_for_event(e),
{
    match e {
        WindowEvent::Moved | WindowEvent::Resized => Some(DockCommand::Redock),
        WindowEvent::CloseRequested => Some(DockCommand::Shutdown),
        WindowEvent::Other => None,
    }
}

/// The worker after n deviating measurements in a row.
pub open spec fn deviate_times(w: WorkerSpec, n: nat, now_ms: u64) -> WorkerSpec
    decreases n,
{
    if n == 0 {
        w
    } else {
        after_measure_spec(deviate_times(w, (n - 1) as nat, now_ms), Some(true), now_ms)
    }
}

/// Once a session has an id, publishing states never changes it.
pub proof fn lemma_session_keeps_id(
    w: WorkerSpec,
    provider_id: Seq<char>,
    provider_name: Seq<char>,
    state: DockState,
    message: Seq<char>,
    now_ms: u64,
)
    requires
        w.session is Some,
    ensures
        emitted(w, provider_id, provider_name, state, message, now_ms).session->0.id == w.session->0.id,
{
}

/// Folding the terminal away ("leave") keeps its window for a later redock,
/// forces the next three fits and shows the session as detached.
pub proof fn lemma_leave_keeps_window(w: WorkerSpec, now_ms: u64)
    ensures
        stopped(w, QuitBehavior::Leave, now_ms).has_provider == w.has_provider,
        stopped(w, QuitBehavior::Leave, now_ms).has_window == w.has_window,
        stopped(w, QuitBehavior::Leave, now_ms).initial_fits_remaining == FORCED_FITS,
        stopped(w, QuitBehavior::Leave, now_ms).session->0.state == DockState::Detached,
{
}

/// Closing or quitting lets go of the provider and its window, and the
/// session shows that the terminal exited.
pub proof fn lemma_close_releases_window(w: WorkerSpec, mode: QuitBehavior, now_ms: u64)
    requires
        mode != QuitBehavior::Leave,
    ensures
        !stopped(w, mode, now_ms).has_provider,
        !stopped(w, mode, now_ms).has_window,
        stopped(w, mode, now_ms).session->0.state == DockState::Exited,
{
}

/// Deviating measurements add up, and only the state of the session can
/// change along the way.
pub proof fn lemma_deviate_times(w: WorkerSpec, n: nat, now_ms: u64)
    ensures
        deviate_times(w, n, now_ms).consecutive_deviation == w.consecutive_deviation + n,
        deviate_times(w, n, now_ms).has_window == w.has_window,
        deviate_times(w, n, now_ms).has_provider == w.has_provider,
        w.consecutive_deviation + n < DETACH_AFTER ==> deviate_times(w, n, now_ms).session == w.session,
        n >= 1 && w.consecutive_deviation + n >= DETACH_AFTER ==> deviate_times(w, n, now_ms).session
            is Some && deviate_times(w, n, now_ms).session->0.state == DockState::Detached,
    decreases n,
{
    if n > 0 {
        lemma_deviate_times(w, (n - 1) as nat, now_ms);
    }
}

/// Twelve deviating measurements in a row detach the session, whatever the
/// state before.
pub proof fn lemma_twelve_deviations_detach(w: WorkerSpec, now_ms: u64)
    ensures
        deviate_times(w, DETACH_AFTER as nat, now_ms).session->0.state == DockState::Detached,
{
    lemma_deviate_times(w, DETACH_AFTER as nat, now_ms);
}

/// From a window in place, eleven deviating measurements in a row change
/// nothing but the count.
pub proof fn lemma_eleven_deviations_keep_session(w: WorkerSpec, now_ms: u64)
    requires
        w.consecutive_deviation == 0,
    ensures
        deviate_times(w, (DETACH_AFTER - 1) as nat, now_ms).session == w.session,
{
    lemma_deviate_times(w, (DETACH_AFTER - 1) as nat, now_ms);
}

/// After a launch the session is docked with the window held, and exactly
/// three forced fits follow.
pub proof fn lemma_launch_forces_three_fits(w: WorkerSpec, now_ms: u64)
    ensures
        launched_spec(w, now_ms).session->0.state == DockState::Docked,
        launched_spec(w, now_ms).has_provider && launched_spec(w, now_ms).has_window,
        launched_spec(w, now_ms).initial_fits_remaining == 3,
        after_fit_spec(
            after_fit_spec(after_fit_spec(launched_spec(w, now_ms), true, now_ms), true, now_ms),
            true,
            now_ms,
        ).initial_fits_remaining == 0,
{
}

/// The worker holds a provider exactly when it holds its window.
pub open spec fn holds_together(w: WorkerSpec) -> bool {
    w.has_provider == w.has_window
}

/// Every step of the worker keeps the provider and its window together:
/// taking a start request (which records the provider), publishing a state
/// (as a failed start does), stopping, launching, fitting and measuring.
pub proof fn lemma_steps_keep_provider_with_window(
    w: WorkerSpec,
    provider_id: Seq<char>,
    provider_name: Seq<char>,
    state: DockState,
    message: Seq<char>,
    mode: QuitBehavior,
    forced: bool,
    deviated: Option<bool>,
    now_ms: u64,
)
    requires
        holds_together(w),
    ensures
        holds_together(WorkerSpec { provider_id, provider_name, ..w }),
        holds_together(emitted(w, provider_id, provider_name, state, message, now_ms)),
        holds_together(stopped(w, mode, now_ms)),
        holds_together(launched_spec(w, now_ms)),
        holds_together(after_fit_spec(w, forced, now_ms)),
        holds_together(after_measure_spec(w, deviated, now_ms)),
{
}

/// Only a shutdown ends the worker, and it lets go of the provider and its
/// window first.
pub proof fn lemma_only_shutdown_ends(w: WorkerSpec, cmd: DockCommand, now_ms: u64)
    ensures
        (plan_for(w, cmd) == CommandPlan::StopAndEnd) == (cmd == DockCommand::Shutdown),
        cmd == DockCommand::Shutdown ==> !stopped(w, QuitBehavior::Close, now_ms).has_provider
            && !stopped(w, QuitBehavior::Close, now_ms).has_window,
{
}

/// Fitting the window of a detached session docks it again.
pub proof fn lemma_fit_redocks(w: WorkerSpec, forced: bool, now_ms: u64)
    requires
        w.session is Some,
        w.session->0.state == DockState::Detached,
    ensures
        after_fit_spec(w, forced, now_ms).session->0.state == DockState::Docked,
        after_fit_spec(w, forced, now_ms).consecutive_deviation == 0,
{
}

} // verus!
