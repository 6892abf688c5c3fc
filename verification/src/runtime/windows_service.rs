//! The Windows service: where its files lie, how it reports its state, and how
//! it is installed, watched and removed.
use crate::clock::{Duration, Instant};
use crate::runtime::service_setup::SystemFault;
use crate::runtime::windows_path;
use crate::text;
use vstd::prelude::*;

verus! {

pub const SERVICE_NAME: &'static str = "meow";

pub const SERVICE_DISPLAY_NAME: &'static str = "meow-rs Proxy Service";

pub const SERVICE_DESCRIPTION: &'static str = "meow-rs rule-based proxy kernel";

/// How long a start may take, in seconds.
pub const SERVICE_START_TIMEOUT_SECS: u64 = 120;

/// How long a stop may take, in seconds.
pub const SERVICE_STOP_TIMEOUT_SECS: u64 = 30;

/// How long a removal is waited for, in seconds.
pub const SERVICE_DELETE_TIMEOUT_SECS: u64 = 10;

/// How long a start without progress is waited for at first, in seconds.
pub const START_PENDING_WAIT_HINT_SECS: u64 = 15;

/// How often a start reports progress, in seconds.
pub const STARTUP_CHECKPOINT_INTERVAL_SECS: u64 = 5;

/// Most seconds that a start without progress is waited for.
pub const MAX_WAIT_HINT_SECS: u64 = 30;

/// The system's error for a service that is not there.
pub const ERROR_SERVICE_DOES_NOT_EXIST: i32 = 1060;

/// The system's error for a service that takes no control now.
pub const ERROR_SERVICE_CANNOT_ACCEPT_CTRL: i32 = 1061;

/// The system's error for a service that does not run.
pub const ERROR_SERVICE_NOT_ACTIVE: i32 = 1062;

/// The system's error for a service that is being removed.
pub const ERROR_SERVICE_MARKED_FOR_DELETE: i32 = 1072;

/// The directory of the service's own files: the one that is asked for, or the
/// default, below the current directory where it is not absolute.
pub open spec fn home_of(
    explicit: Option<Seq<char>>,
    default_home: Seq<char>,
    cwd: Seq<char>,
) -> Seq<char> {
    let home = match explicit {
        Some(h) => h,
        None => default_home,
    };
    if windows_path::absolute(home) {
        home
    } else {
        windows_path::joined(cwd, home)
    }
}

/// The directory of the service's own files.
pub fn resolve_service_home(explicit: Option<&str>, default_home: &str, cwd: &str) -> (out: String)
    ensures
        out@ == home_of(
            match explicit {
                Some(h) => Some(h@),
                None => None,
            },
            default_home@,
            cwd@,
        ),
{
    let home: &str = match explicit {
        Some(h) => h,
        None => default_home,
    };
    absolute_path(home, cwd)
}

/// A path, below the current directory where it is not absolute.
pub fn absolute_path(path: &str, cwd: &str) -> (out: String)
    ensures
        out@ == (if windows_path::absolute(path@) {
            path@
        } else {
            windows_path::joined(cwd@, path@)
        }),
{
    if windows_path::is_absolute(path) {
        path.to_owned()
    } else {
        windows_path::join(cwd, path)
    }
}

/// The directory of the system's shared data, which has to be set.
pub fn program_data_dir(value: Option<&str>) -> (r: Result<String, String>)
    ensures
        match value {
            Some(v) if v@.len() > 0 => r matches Ok(p) && p@ == v@,
            _ => r matches Err(e) && e@ == "ProgramData environment variable is not set"@,
        },
{
    if let Some(v) = value {
        if !v.is_empty() {
            return Ok(v.to_owned());
        }
    }
    Err("ProgramData environment variable is not set".to_owned())
}

/// Where the service writes its log.
pub open spec fn log_dir(program_data: Seq<char>) -> Seq<char> {
    windows_path::joined(windows_path::joined(program_data, "meow"@), "logs"@)
}

/// Where the service writes its log.
pub fn log_dir_from_program_data(program_data: &str) -> (out: String)
    ensures
        out@ == log_dir(program_data@),
{
    let dir = windows_path::join(program_data, "meow");
    windows_path::join(dir.as_str(), "logs")
}

/// The error for a file that is not there.
pub fn not_found(description: &str, path: &str) -> (out: String)
    ensures
        out@ == description@ + " not found: "@ + path@,
{
    text::join3(description, " not found: ", path)
}

/// When the system starts a service.
#[derive(Clone, Copy, Debug, PartialEq, Eq, Structural)]
pub enum ServiceStartType {
    AutoStart,
    OnDemand,
    Disabled,
}

/// How a service runs.
#[derive(Clone, Copy, Debug, PartialEq, Eq, Structural)]
pub enum ServiceType {
    FileSystemDriver,
    KernelDriver,
    ShareProcess,
    OwnProcess,
    UserShareProcess,
    UserOwnProcess,
}

/// What the system makes of a service that fails to start.
#[derive(Clone, Copy, Debug, PartialEq, Eq, Structural)]
pub enum ServiceErrorControl {
    Critical,
    Ignore,
    Normal,
    Severe,
}

/// What the system is told of the service.
#[derive(Debug)]
pub struct ServiceInfo {
    pub name: String,
    pub display_name: String,
    pub service_type: ServiceType,
    pub start_type: ServiceStartType,
    pub error_control: ServiceErrorControl,
    pub executable_path: String,
    pub launch_arguments: Vec<String>,
    pub dependencies: Vec<String>,
    pub account_name: Option<String>,
    pub account_password: Option<String>,
}

/// The arguments that the service is started with.
pub open spec fn launch_arguments(config: Seq<char>, home: Seq<char>) -> Seq<Seq<char>> {
    seq!["-f"@, config, "-d"@, home, "run-service"@]
}

/// What the system is told of the service: it starts with the system, in a
/// process of its own and under the system's own account.
pub fn build_service_info(executable: &str, config: &str, home_dir: &str) -> (info: ServiceInfo)
    ensures
        info.name@ == SERVICE_NAME@,
        info.display_name@ == SERVICE_DISPLAY_NAME@,
        info.service_type is OwnProcess,
        info.start_type is AutoStart,
        info.error_control is Normal,
        info.executable_path@ == executable@,
        text::texts(info.launch_arguments@) == launch_arguments(config@, home_dir@),
        info.dependencies@.len() == 0,
        info.account_name is None,
        info.account_password is None,
{
    let mut args: Vec<String> = Vec::new();
    args.push("-f".to_owned());
    args.push(config.to_owned());
    args.push("-d".to_owned());
    args.push(home_dir.to_owned());
    args.push("run-service".to_owned());
    assert(text::texts(args@) =~= launch_arguments(config@, home_dir@));
    ServiceInfo {
        name: SERVICE_NAME.to_owned(),
        display_name: SERVICE_DISPLAY_NAME.to_owned(),
        service_type: ServiceType::OwnProcess,
        start_type: ServiceStartType::AutoStart,
        error_control: ServiceErrorControl::Normal,
        executable_path: executable.to_owned(),
        launch_arguments: args,
        dependencies: Vec::new(),
        account_name: None,
        account_password: None,
    }
}

/// The state of a service, as the system knows it.
#[derive(Clone, Copy, Debug, PartialEq, Eq, Structural)]
pub enum ServiceState {
    Stopped,
    StartPending,
    StopPending,
    Running,
    ContinuePending,
    PausePending,
    Paused,
}

impl ServiceState {
    /// How the state is shown.
    pub open spec fn word(self) -> Seq<char> {
        match self {
            ServiceState::Stopped => "Stopped"@,
            ServiceState::StartPending => "StartPending"@,
            ServiceState::StopPending => "StopPending"@,
            ServiceState::Running => "Running"@,
            ServiceState::ContinuePending => "ContinuePending"@,
            ServiceState::PausePending => "PausePending"@,
            ServiceState::Paused => "Paused"@,
        }
    }

    fn text(self) -> (out: &'static str)
        ensures
            out@ == self.word(),
    {
        match self {
            ServiceState::Stopped => "Stopped",
            ServiceState::StartPending => "StartPending",
            ServiceState::StopPending => "StopPending",
            ServiceState::Running => "Running",
            ServiceState::ContinuePending => "ContinuePending",
            ServiceState::PausePending => "PausePending",
            ServiceState::Paused => "Paused",
        }
    }
}

/// How a service ended.
#[derive(Clone, Copy, Debug, PartialEq, Eq, Structural)]
pub enum ServiceExitCode {
    Win32(u32),
    ServiceSpecific(u32),
}

impl ServiceExitCode {
    /// How the code is shown.
    pub open spec fn words(self) -> Seq<char> {
        match self {
            ServiceExitCode::Win32(n) => "Win32("@ + text::decimal(n as nat) + ")"@,
            ServiceExitCode::ServiceSpecific(n) => "ServiceSpecific("@ + text::decimal(n as nat)
                + ")"@,
        }
    }

    fn text(self) -> (out: String)
        ensures
            out@ == self.words(),
    {
        let (mut out, n): (String, u32) = match self {
            ServiceExitCode::Win32(n) => ("Win32(".to_owned(), n),
            ServiceExitCode::ServiceSpecific(n) => ("ServiceSpecific(".to_owned(), n),
        };
        text::push_decimal(&mut out, n as u64);
        text::push_text(&mut out, ")");
        out
    }
}

/// The controls that a service takes.
#[allow(non_camel_case_types)]
#[derive(Clone, Copy, Debug, PartialEq, Eq, Structural)]
pub enum ServiceControlAccept {
    NONE,
    STOP,
    SHUTDOWN,
    STOP_AND_SHUTDOWN,
}

impl ServiceControlAccept {
    /// Whether a stop is taken.
    pub open spec fn takes_stop(self) -> bool {
        self is STOP || self is STOP_AND_SHUTDOWN
    }

    /// Whether a shutdown is taken.
    pub open spec fn takes_shutdown(self) -> bool {
        self is SHUTDOWN || self is STOP_AND_SHUTDOWN
    }

    /// Whether no control is taken.
    pub fn is_empty(self) -> (b: bool)
        ensures
            b == (!self.takes_stop() && !self.takes_shutdown()),
    {
        match self {
            ServiceControlAccept::NONE => true,
            _ => false,
        }
    }

    /// Whether all of the other controls are taken.
    pub fn contains(self, other: ServiceControlAccept) -> (b: bool)
        ensures
            b == ((other.takes_stop() ==> self.takes_stop()) && (other.takes_shutdown()
                ==> self.takes_shutdown())),
    {
        match (self, other) {
            (_, ServiceControlAccept::NONE) => true,
            (ServiceControlAccept::STOP_AND_SHUTDOWN, _) => true,
            (ServiceControlAccept::STOP, ServiceControlAccept::STOP) => true,
            (ServiceControlAccept::SHUTDOWN, ServiceControlAccept::SHUTDOWN) => true,
            _ => false,
        }
    }
}

/// A report of a service to the system.
#[derive(Clone, Copy, Debug, PartialEq, Eq, Structural)]
pub struct ServiceStatus {
    pub service_type: ServiceType,
    pub current_state: ServiceState,
    pub controls_accepted: ServiceControlAccept,
    pub exit_code: ServiceExitCode,
    pub checkpoint: u32,
    pub wait_hint: Duration,
    pub process_id: Option<u32>,
}

/// A report of a service that runs.
pub open spec fn running() -> ServiceStatus {
    ServiceStatus {
        service_type: ServiceType::OwnProcess,
        current_state: ServiceState::Running,
        controls_accepted: ServiceControlAccept::STOP_AND_SHUTDOWN,
        exit_code: ServiceExitCode::Win32(0),
        checkpoint: 0,
        wait_hint: Duration { nanos: 0 },
        process_id: None,
    }
}

/// A report of a service that starts.
pub open spec fn starting(checkpoint: u32) -> ServiceStatus {
    ServiceStatus {
        service_type: ServiceType::OwnProcess,
        current_state: ServiceState::StartPending,
        controls_accepted: ServiceControlAccept::NONE,
        exit_code: ServiceExitCode::Win32(0),
        checkpoint,
        wait_hint: Duration { nanos: 15_000_000_000 },
        process_id: None,
    }
}

/// A report of a service that stops.
pub open spec fn stopping() -> ServiceStatus {
    ServiceStatus {
        service_type: ServiceType::OwnProcess,
        current_state: ServiceState::StopPending,
        controls_accepted: ServiceControlAccept::NONE,
        exit_code: ServiceExitCode::Win32(0),
        checkpoint: 1,
        wait_hint: Duration { nanos: 30_000_000_000 },
        process_id: None,
    }
}

/// A report of a service that has stopped.
pub open spec fn stopped(exit_code: ServiceExitCode) -> ServiceStatus {
    ServiceStatus {
        service_type: ServiceType::OwnProcess,
        current_state: ServiceState::Stopped,
        controls_accepted: ServiceControlAccept::NONE,
        exit_code,
        checkpoint: 0,
        wait_hint: Duration { nanos: 0 },
        process_id: None,
    }
}

/// A report of a service that runs.
pub fn running_status() -> (s: ServiceStatus)
    ensures
        s == running(),
{
    ServiceStatus {
        service_type: ServiceType::OwnProcess,
        current_state: ServiceState::Running,
        controls_accepted: ServiceControlAccept::STOP_AND_SHUTDOWN,
        exit_code: ServiceExitCode::Win32(0),
        checkpoint: 0,
        wait_hint: Duration::zero(),
        process_id: None,
    }
}

/// A report of a service that starts.
pub fn start_pending_status(checkpoint: u32) -> (s: ServiceStatus)
    ensures
        s == starting(checkpoint),
{
    ServiceStatus {
        service_type: ServiceType::OwnProcess,
        current_state: ServiceState::StartPending,
        controls_accepted: ServiceControlAccept::NONE,
        exit_code: ServiceExitCode::Win32(0),
        checkpoint,
        wait_hint: Duration::from_secs(START_PENDING_WAIT_HINT_SECS),
        process_id: None,
    }
}

/// A report of a service that stops.
pub fn stop_pending_status() -> (s: ServiceStatus)
    ensures
        s == stopping(),
{
    ServiceStatus {
        service_type: ServiceType::OwnProcess,
        current_state: ServiceState::StopPending,
        controls_accepted: ServiceControlAccept::NONE,
        exit_code: ServiceExitCode::Win32(0),
        checkpoint: 1,
        wait_hint: Duration::from_secs(SERVICE_STOP_TIMEOUT_SECS),
        process_id: None,
    }
}

/// A report of a service that has stopped.
pub fn stopped_status(exit_code: ServiceExitCode) -> (s: ServiceStatus)
    ensures
        s == stopped(exit_code),
{
    ServiceStatus {
        service_type: ServiceType::OwnProcess,
        current_state: ServiceState::Stopped,
        controls_accepted: ServiceControlAccept::NONE,
        exit_code,
        checkpoint: 0,
        wait_hint: Duration::zero(),
        process_id: None,
    }
}

/// Of the reports that a service makes, only that of one that runs takes
/// controls, and it takes both.
pub proof fn law_controls_only_when_running(checkpoint: u32, exit_code: ServiceExitCode)
    ensures
        running().controls_accepted.takes_stop() && running().controls_accepted.takes_shutdown(),
        !starting(checkpoint).controls_accepted.takes_stop(),
        !starting(checkpoint).controls_accepted.takes_shutdown(),
        !stopping().controls_accepted.takes_stop(),
        !stopping().controls_accepted.takes_shutdown(),
        !stopped(exit_code).controls_accepted.takes_stop(),
        !stopped(exit_code).controls_accepted.takes_shutdown(),
{
}

/// How a report is shown.
pub open spec fn status_text(s: ServiceStatus) -> Seq<char> {
    "Service: "@ + SERVICE_NAME@ + "\nState: "@ + s.current_state.word() + "\nPID: "@ + (
    match s.process_id {
        Some(pid) => text::decimal(pid as nat),
        None => "-"@,
    }) + "\nExit code: "@ + s.exit_code.words() + "\n"@
}

/// How a report is shown.
pub fn format_service_status(status: &ServiceStatus) -> (out: String)
    ensures
        out@ == status_text(*status),
{
    let mut out = text::join3("Service: ", SERVICE_NAME, "\nState: ");
    text::push_text(&mut out, status.current_state.text());
    text::push_text(&mut out, "\nPID: ");
    match status.process_id {
        Some(pid) => {
            text::push_decimal(&mut out, pid as u64);
        },
        None => {
            text::push_text(&mut out, "-");
        },
    }
    text::push_text(&mut out, "\nExit code: ");
    let code = status.exit_code.text();
    text::push_text(&mut out, code.as_str());
    text::push_text(&mut out, "\n");
    out
}

/// How far a service has come.
#[derive(Clone, Copy, Debug, PartialEq, Eq, Structural)]
pub enum ServicePhase {
    Starting,
    Running,
    Stopping,
    Stopped,
}

/// A control that the system sends.
#[derive(Clone, Copy, Debug, PartialEq, Eq, Structural)]
pub enum ServiceControl {
    Interrogate,
    Stop,
    Shutdown,
    Other,
}

/// What to do about a control.
#[derive(Clone, Copy, Debug, PartialEq, Eq, Structural)]
pub struct ControlReply {
    /// Whether the service knows the control.
    pub known: bool,
    /// What to report to the system.
    pub report: Option<ServiceStatus>,
    /// Whether to tell the program to end.
    pub shut_down: bool,
}

/// The life of a service.
#[derive(Clone, Copy, Debug, PartialEq, Eq, Structural)]
pub struct ServiceLifecycle {
    pub phase: ServicePhase,
    /// Grows while the service starts.
    pub checkpoint: u32,
    /// Whether the system takes reports yet.
    pub registered: bool,
    /// Whether the program was not yet told to end.
    pub can_shut_down: bool,
}

/// What the reporter of a start does when its time has come.
#[derive(Clone, Copy, Debug, PartialEq, Eq, Structural)]
pub enum ReporterStep {
    /// The start is over.
    End,
    /// Report, where the system takes reports yet, and wait again.
    Wait(Option<ServiceStatus>),
}

impl ServiceLifecycle {
    /// A service at its start.
    pub fn new() -> (l: Self)
        ensures
            l == (ServiceLifecycle {
                phase: ServicePhase::Starting,
                checkpoint: 1,
                registered: false,
                can_shut_down: true,
            }),
    {
        ServiceLifecycle {
            phase: ServicePhase::Starting,
            checkpoint: 1,
            registered: false,
            can_shut_down: true,
        }
    }

    /// The system takes reports from now on; the first one is returned.
    pub fn register(&mut self) -> (s: ServiceStatus)
        ensures
            *final(self) == (ServiceLifecycle { registered: true, ..*old(self) }),
            s == starting(old(self).checkpoint),
    {
        self.registered = true;
        start_pending_status(self.checkpoint)
    }

    /// The state after a control of the system, and the answer to it.
    pub open spec fn controlled(self, control: ServiceControl) -> (ServiceLifecycle, ControlReply) {
        match control {
            ServiceControl::Interrogate => (
                self,
                ControlReply { known: true, report: None, shut_down: false },
            ),
            ServiceControl::Stop | ServiceControl::Shutdown => (
                ServiceLifecycle { phase: ServicePhase::Stopping, can_shut_down: false, ..self },
                ControlReply {
                    known: true,
                    report: if self.registered {
                        Some(stopping())
                    } else {
                        None
                    },
                    shut_down: self.can_shut_down,
                },
            ),
            ServiceControl::Other => (
                self,
                ControlReply { known: false, report: None, shut_down: false },
            ),
        }
    }

    /// The system sent a control. The program is told to end at most once.
    pub fn on_control(&mut self, control: ServiceControl) -> (reply: ControlReply)
        ensures
            *final(self) == old(self).controlled(control).0,
            reply == old(self).controlled(control).1,
    {
        match control {
            ServiceControl::Interrogate => ControlReply {
                known: true,
                report: None,
                shut_down: false,
            },
            ServiceControl::Stop | ServiceControl::Shutdown => {
                self.phase = ServicePhase::Stopping;
                let report = if self.registered {
                    Some(stop_pending_status())
                } else {
                    None
                };
                let shut_down = self.can_shut_down;
                self.can_shut_down = false;
                ControlReply { known: true, report, shut_down }
            },
            ServiceControl::Other => ControlReply { known: false, report: None, shut_down: false },
        }
    }

    /// The time between two reports of a start has passed.
    pub fn on_checkpoint_timer(&mut self) -> (step: ReporterStep)
        ensures
            if old(self).phase is Starting {
                let next: u32 = if old(self).checkpoint == u32::MAX {
                    u32::MAX
                } else {
                    (old(self).checkpoint + 1) as u32
                };
                &&& *final(self) == (ServiceLifecycle { checkpoint: next, ..*old(self) })
                &&& step == ReporterStep::Wait(
                    if old(self).registered {
                        Some(starting(next))
                    } else {
                        None
                    },
                )
            } else {
                *final(self) == *old(self) && step is End
            },
    {
        match self.phase {
            ServicePhase::Starting => {
                if self.checkpoint < u32::MAX {
                    self.checkpoint = self.checkpoint + 1;
                }
                ReporterStep::Wait(
                    if self.registered {
                        Some(start_pending_status(self.checkpoint))
                    } else {
                        None
                    },
                )
            },
            _ => ReporterStep::End,
        }
    }

    /// The program is ready: the report to make before [`Self::running`]. A
    /// service that was stopped meanwhile does not start any more.
    pub fn on_ready(&self) -> (r: Result<ServiceStatus, String>)
        ensures
            if self.phase is Starting {
                r == Ok::<ServiceStatus, String>(running())
            } else {
                r matches Err(e) && e@
                    == "Windows service stopped before application startup completed"@
            },
    {
        match self.phase {
            ServicePhase::Starting => Ok(running_status()),
            _ => Err("Windows service stopped before application startup completed".to_owned()),
        }
    }

    /// The system took the report that the service runs.
    pub fn running(&mut self)
        requires
            old(self).phase is Starting,
        ensures
            *final(self) == (ServiceLifecycle { phase: ServicePhase::Running, ..*old(self) }),
    {
        self.phase = ServicePhase::Running;
    }

    /// The program has ended; the last report is returned.
    pub fn on_finished(&mut self, succeeded: bool) -> (s: ServiceStatus)
        ensures
            *final(self) == (ServiceLifecycle { phase: ServicePhase::Stopped, ..*old(self) }),
            s == stopped(
                if succeeded {
                    ServiceExitCode::Win32(0)
                } else {
                    ServiceExitCode::ServiceSpecific(1)
                },
            ),
    {
        self.phase = ServicePhase::Stopped;
        stopped_status(
            if succeeded {
                ServiceExitCode::Win32(0)
            } else {
                ServiceExitCode::ServiceSpecific(1)
            },
        )
    }
}

/// The state after some controls, in order.
pub open spec fn controlled_by(l: ServiceLifecycle, controls: Seq<ServiceControl>) -> ServiceLifecycle
    decreases controls.len(),
{
    if controls.len() == 0 {
        l
    } else {
        controlled_by(l, controls.drop_last()).controlled(controls.last()).0
    }
}

/// The program is told to end at most once: after a control that told it so,
/// none of the later ones does.
pub proof fn law_told_to_end_once(
    l: ServiceLifecycle,
    first: ServiceControl,
    between: Seq<ServiceControl>,
    later: ServiceControl,
)
    requires
        l.controlled(first).1.shut_down,
    ensures
        !controlled_by(l.controlled(first).0, between).controlled(later).1.shut_down,
{
    lemma_stays_told(l.controlled(first).0, between);
}

proof fn lemma_stays_told(l: ServiceLifecycle, controls: Seq<ServiceControl>)
    requires
        !l.can_shut_down,
    ensures
        !controlled_by(l, controls).can_shut_down,
    decreases controls.len(),
{
    if controls.len() > 0 {
        lemma_stays_told(l, controls.drop_last());
    }
}

/// An error with what was being done in front of it.
pub open spec fn while_doing(what: Seq<char>, e: Seq<char>) -> Seq<char> {
    what + ": "@ + e
}

/// How a service ended as a whole: by the program's own error, else by the
/// error of the start's reporter, else by that of the last report.
pub fn service_result(
    program: Result<(), String>,
    reporter: Result<(), String>,
    last_report: Result<(), String>,
) -> (r: Result<(), String>)
    ensures
        match (program, reporter, last_report) {
            (Err(e), _, _) => r == Err::<(), String>(e),
            (Ok(_), Err(e), _) => r matches Err(what) && what@ == while_doing(
                "failed to update the pending service status"@,
                e@,
            ),
            (Ok(_), Ok(_), Err(e)) => r matches Err(what) && what@ == while_doing(
                "failed to report the stopped service status"@,
                e@,
            ),
            (Ok(_), Ok(_), Ok(_)) => r is Ok,
        },
{
    match (program, reporter, last_report) {
        (Err(e), _, _) => Err(e),
        (Ok(_), Err(e), _) => Err(
            text::join3("failed to update the pending service status", ": ", e.as_str()),
        ),
        (Ok(_), Ok(_), Err(e)) => Err(
            text::join3("failed to report the stopped service status", ": ", e.as_str()),
        ),
        (Ok(_), Ok(_), Ok(_)) => Ok(()),
    }
}

/// Whether an error of the system has a code.
pub fn is_winapi_error(raw_os_error: Option<i32>, code: i32) -> (b: bool)
    ensures
        b == (raw_os_error == Some(code)),
{
    match raw_os_error {
        Some(n) => n == code,
        None => false,
    }
}

/// What an installation does next, once the service was looked for.
#[derive(Debug)]
pub enum InstallStep {
    /// Stop the service and change it.
    Update,
    /// Create the service.
    Create,
    /// Give up, for this reason.
    Refuse(&'static str),
    /// Give up with the system's error, after these words.
    Fail(&'static str),
}

/// What an installation does next: a service that is there is updated, one
/// that is not is created, and one that is being removed cannot be installed.
/// `opened` is the system's error where the service could not be opened.
pub fn install_step(opened: Result<(), Option<i32>>) -> (step: InstallStep)
    ensures
        match opened {
            Ok(_) => step is Update,
            Err(code) => if code == Some(ERROR_SERVICE_DOES_NOT_EXIST) {
                step is Create
            } else if code == Some(ERROR_SERVICE_MARKED_FOR_DELETE) {
                step matches InstallStep::Refuse(w) && w@
                    == "the meow service is pending deletion; wait for it to disappear or restart Windows before installing again"@
            } else {
                step matches InstallStep::Fail(w) && w@
                    == "failed to open the meow Windows service; run PowerShell as Administrator"@
            },
        },
{
    match opened {
        Ok(_) => InstallStep::Update,
        Err(code) => {
            if is_winapi_error(code, ERROR_SERVICE_DOES_NOT_EXIST) {
                InstallStep::Create
            } else if is_winapi_error(code, ERROR_SERVICE_MARKED_FOR_DELETE) {
                InstallStep::Refuse(
                    "the meow service is pending deletion; wait for it to disappear or restart Windows before installing again",
                )
            } else {
                InstallStep::Fail(
                    "failed to open the meow Windows service; run PowerShell as Administrator",
                )
            }
        },
    }
}

/// What an installation says at its end.
pub fn installed_message(updated: bool) -> (out: &'static str)
    ensures
        out@ == (if updated {
            "meow service updated and started."@
        } else {
            "meow service installed and started."@
        }),
{
    if updated {
        "meow service updated and started."
    } else {
        "meow service installed and started."
    }
}

/// What a removal does next, once the service was looked for.
#[derive(Debug)]
pub enum UninstallStep {
    /// Mark the service for removal, then stop it.
    Delete,
    /// There is nothing to do; say so.
    Done(&'static str),
    /// Give up with the system's error, after these words.
    Fail(&'static str),
}

/// What a removal does next.
pub fn uninstall_step(opened: Result<(), Option<i32>>) -> (step: UninstallStep)
    ensures
        match opened {
            Ok(_) => step is Delete,
            Err(code) => if code == Some(ERROR_SERVICE_DOES_NOT_EXIST) {
                step matches UninstallStep::Done(w) && w@ == "meow service is not installed."@
            } else if code == Some(ERROR_SERVICE_MARKED_FOR_DELETE) {
                step matches UninstallStep::Done(w) && w@
                    == "meow service is already pending deletion."@
            } else {
                step matches UninstallStep::Fail(w) && w@
                    == "failed to open the meow Windows service; run PowerShell as Administrator"@
            },
        },
{
    match opened {
        Ok(_) => UninstallStep::Delete,
        Err(code) => {
            if is_winapi_error(code, ERROR_SERVICE_DOES_NOT_EXIST) {
                UninstallStep::Done("meow service is not installed.")
            } else if is_winapi_error(code, ERROR_SERVICE_MARKED_FOR_DELETE) {
                UninstallStep::Done("meow service is already pending deletion.")
            } else {
                UninstallStep::Fail(
                    "failed to open the meow Windows service; run PowerShell as Administrator",
                )
            }
        },
    }
}

/// What a removal does while it waits for the service to go.
#[derive(Debug)]
pub enum RemovalStep {
    /// The service is gone.
    Gone,
    /// Look again after a while.
    Wait,
    /// It takes too long; the system will remove the service later.
    Later,
    /// Give up with the system's error, after these words.
    Fail(&'static str),
}

/// Whether a removal looks for the service once more.
pub fn keep_waiting(now: Instant, deadline: Instant) -> (b: bool)
    ensures
        b == (now.nanos < deadline.nanos),
{
    now.nanos < deadline.nanos
}

/// What a removal does, once it has looked for the service again. It looks only
/// before the deadline.
pub fn removal_step(now: Instant, deadline: Instant, opened: Result<(), Option<i32>>) -> (step:
    RemovalStep)
    ensures
        if now.nanos >= deadline.nanos {
            step is Later
        } else {
            match opened {
                Ok(_) => step is Wait,
                Err(code) => if code == Some(ERROR_SERVICE_DOES_NOT_EXIST) {
                    step is Gone
                } else if code == Some(ERROR_SERVICE_MARKED_FOR_DELETE) {
                    step is Wait
                } else {
                    step matches RemovalStep::Fail(w) && w@
                        == "failed while waiting for service deletion"@
                },
            }
        },
{
    if !keep_waiting(now, deadline) {
        return RemovalStep::Later;
    }
    match opened {
        Ok(_) => RemovalStep::Wait,
        Err(code) => {
            if is_winapi_error(code, ERROR_SERVICE_DOES_NOT_EXIST) {
                RemovalStep::Gone
            } else if is_winapi_error(code, ERROR_SERVICE_MARKED_FOR_DELETE) {
                RemovalStep::Wait
            } else {
                RemovalStep::Fail("failed while waiting for service deletion")
            }
        },
    }
}

/// What asking for the status does next, once the service was looked for.
#[derive(Debug)]
pub enum StatusStep {
    /// Ask the service.
    Query,
    /// Say this.
    Say(&'static str),
    /// Give up with the system's error, after these words.
    Fail(&'static str),
}

/// What asking for the status does next.
pub fn status_step(opened: Result<(), Option<i32>>) -> (step: StatusStep)
    ensures
        match opened {
            Ok(_) => step is Query,
            Err(code) => if code == Some(ERROR_SERVICE_DOES_NOT_EXIST) {
                step matches StatusStep::Say(w) && w@ == "meow service is not installed."@
            } else if code == Some(ERROR_SERVICE_MARKED_FOR_DELETE) {
                step matches StatusStep::Say(w) && w@ == "meow service is pending deletion."@
            } else {
                step matches StatusStep::Fail(w) && w@ == "failed to open the meow Windows service"@
            },
        },
{
    match opened {
        Ok(_) => StatusStep::Query,
        Err(code) => {
            if is_winapi_error(code, ERROR_SERVICE_DOES_NOT_EXIST) {
                StatusStep::Say("meow service is not installed.")
            } else if is_winapi_error(code, ERROR_SERVICE_MARKED_FOR_DELETE) {
                StatusStep::Say("meow service is pending deletion.")
            } else {
                StatusStep::Fail("failed to open the meow Windows service")
            }
        },
    }
}

/// What to do while a service starts or stops.
#[derive(Debug)]
pub enum WaitStep {
    /// It is done.
    Done,
    /// Look again after a while.
    Wait,
    /// Give up, for this reason.
    Fail(String),
}

/// Waits until a service runs.
#[derive(Clone, Copy, Debug, PartialEq, Eq, Structural)]
pub struct StartWait {
    pub overall_deadline: Instant,
    /// When the start counts as stuck.
    pub progress_deadline: Instant,
    pub last_checkpoint: Option<u32>,
}

/// How long a report of a start lets the next one take: what it says, but not
/// less than 5 nor more than 30 seconds.
pub open spec fn granted(hint: Duration) -> nat {
    if hint.nanos < 5_000_000_000 {
        5_000_000_000
    } else if hint.nanos > 30_000_000_000 {
        30_000_000_000
    } else {
        hint.nanos as nat
    }
}

/// Whether a report shows that a start goes on.
pub open spec fn shows_progress(last: Option<u32>, status: ServiceStatus) -> bool {
    status.current_state is StartPending && last != Some(status.checkpoint)
}

/// The wait after a report.
pub open spec fn waited(before: StartWait, status: ServiceStatus, now: Instant) -> StartWait {
    if shows_progress(before.last_checkpoint, status) {
        StartWait {
            overall_deadline: before.overall_deadline,
            progress_deadline: Instant {
                nanos: (now.nanos + granted(status.wait_hint)) as u128,
            },
            last_checkpoint: Some(status.checkpoint),
        }
    } else {
        before
    }
}

impl StartWait {
    /// A wait that begins now.
    pub fn new(now: Instant) -> (w: Self)
        requires
            now.nanos + 120_000_000_000 <= u128::MAX,
        ensures
            w.overall_deadline.nanos == now.nanos + 120_000_000_000,
            w.progress_deadline.nanos == now.nanos + 15_000_000_000,
            w.last_checkpoint is None,
    {
        StartWait {
            overall_deadline: now.plus(Duration::from_secs(SERVICE_START_TIMEOUT_SECS)),
            progress_deadline: now.plus(Duration::from_secs(START_PENDING_WAIT_HINT_SECS)),
            last_checkpoint: None,
        }
    }

    /// Goes on with a report. A start ends when the service runs or has
    /// stopped, when it takes too long, or when nothing moves.
    pub fn on_status(&mut self, status: &ServiceStatus, now: Instant) -> (step: WaitStep)
        requires
            shows_progress(old(self).last_checkpoint, *status) ==> now.nanos + granted(
                status.wait_hint,
            ) <= u128::MAX,
        ensures
            match status.current_state {
                ServiceState::Running => step is Done && *final(self) == *old(self),
                ServiceState::Stopped => (step matches WaitStep::Fail(e) && e@
                    == "meow service stopped during startup with exit code "@
                    + status.exit_code.words() + "; check the service log"@) && *final(self)
                    == *old(self),
                _ => {
                    let after = waited(*old(self), *status, now);
                    &&& *final(self) == after
                    &&& if now.nanos >= after.overall_deadline.nanos {
                        step matches WaitStep::Fail(e) && e@
                            == "timed out waiting for the meow service to start"@
                    } else if now.nanos >= after.progress_deadline.nanos {
                        step matches WaitStep::Fail(e) && e@
                            == "meow service stopped making startup progress at checkpoint "@
                            + text::decimal(
                            match after.last_checkpoint {
                                Some(n) => n as nat,
                                None => 0,
                            },
                        )
                    } else {
                        step is Wait
                    }
                },
            },
    {
        match status.current_state {
            ServiceState::Running => {
                return WaitStep::Done;
            },
            ServiceState::Stopped => {
                let code = status.exit_code.text();
                return WaitStep::Fail(
                    text::join3(
                        "meow service stopped during startup with exit code ",
                        code.as_str(),
                        "; check the service log",
                    ),
                );
            },
            ServiceState::StartPending => {
                let seen = match self.last_checkpoint {
                    Some(n) => n == status.checkpoint,
                    None => false,
                };
                if !seen {
                    self.last_checkpoint = Some(status.checkpoint);
                    let hint = status.wait_hint.max(
                        Duration::from_secs(STARTUP_CHECKPOINT_INTERVAL_SECS),
                    ).min(Duration::from_secs(MAX_WAIT_HINT_SECS));
                    self.progress_deadline = now.plus(hint);
                }
            },
            _ => {},
        }
        if now.nanos >= self.overall_deadline.nanos {
            return WaitStep::Fail("timed out waiting for the meow service to start".to_owned());
        }
        if now.nanos >= self.progress_deadline.nanos {
            let mut what = "meow service stopped making startup progress at checkpoint ".to_owned();
            let at: u32 = match self.last_checkpoint {
                Some(n) => n,
                None => 0,
            };
            text::push_decimal(&mut what, at as u64);
            return WaitStep::Fail(what);
        }
        WaitStep::Wait
    }
}

/// A start is not waited for beyond its overall deadline, whatever is reported.
pub proof fn law_start_wait_ends(w: StartWait, status: ServiceStatus, now: Instant)
    requires
        now.nanos >= w.overall_deadline.nanos,
    ensures
        waited(w, status, now).overall_deadline == w.overall_deadline,
        now.nanos >= waited(w, status, now).overall_deadline.nanos,
{
}

/// What to do about a service that is to stop.
#[derive(Clone, Copy, Debug, PartialEq, Eq, Structural)]
pub enum StopStep {
    /// It has stopped.
    Done,
    /// Ask it to stop.
    Request,
    /// It is stopping.
    Pending,
}

/// What to do about a service that is to stop, by its state.
pub fn stop_step(state: ServiceState) -> (step: StopStep)
    ensures
        step == (match state {
            ServiceState::Stopped => StopStep::Done,
            ServiceState::StopPending => StopStep::Pending,
            _ => StopStep::Request,
        }),
{
    match state {
        ServiceState::Stopped => StopStep::Done,
        ServiceState::StopPending => StopStep::Pending,
        _ => StopStep::Request,
    }
}

/// What to do once a service was asked to stop, or need not be asked. One that
/// does not run has stopped; one that takes no control now is asked again.
pub fn after_stop_request(
    requested: Option<Result<(), SystemFault>>,
    now: Instant,
    deadline: Instant,
) -> (step: WaitStep)
    ensures
        match requested {
            Some(Err(f)) if f.code == Some(ERROR_SERVICE_NOT_ACTIVE) => step is Done,
            Some(Err(f)) if f.code != Some(ERROR_SERVICE_CANNOT_ACCEPT_CTRL) => step matches WaitStep::Fail(
            e) && e@ == while_doing("failed to request service stop"@, f.what@),
            _ => if now.nanos >= deadline.nanos {
                step matches WaitStep::Fail(e) && e@
                    == "timed out waiting for the meow service to stop"@
            } else {
                step is Wait
            },
        },
{
    if let Some(Err(f)) = requested {
        if is_winapi_error(f.code, ERROR_SERVICE_NOT_ACTIVE) {
            return WaitStep::Done;
        }
        if !is_winapi_error(f.code, ERROR_SERVICE_CANNOT_ACCEPT_CTRL) {
            return WaitStep::Fail(
                text::join3("failed to request service stop", ": ", f.what.as_str()),
            );
        }
    }
    if now.nanos >= deadline.nanos {
        WaitStep::Fail("timed out waiting for the meow service to stop".to_owned())
    } else {
        WaitStep::Wait
    }
}

} // verus!
