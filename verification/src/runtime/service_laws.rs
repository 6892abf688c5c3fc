//! What holds of every run, installation and removal of the Windows service.
use crate::clock::Instant;
use crate::runtime::service_setup::{
    uninstall_after, Install, InstallPaths, InstallPhase, Notice, SystemFault, UninstallPhase,
};
use crate::runtime::windows_path;
use crate::runtime::windows_path::{is_absolute, join};
use crate::runtime::windows_service::{
    absolute_path, after_stop_request, build_service_info, format_service_status, install_step,
    log_dir_from_program_data, removal_step, resolve_service_home, running_status, service_result,
    start_pending_status, status_step, stop_pending_status, stopped_status, uninstall_step,
    ControlReply, InstallStep, RemovalStep, ReporterStep, ServiceControl, ServiceExitCode,
    ServiceInfo, ServiceLifecycle, ServiceStatus, StartWait, StatusStep, UninstallStep, WaitStep,
};
use crate::text;
use vstd::prelude::*;

verus! {

/// Whether a character separates the names of a path.
pub open spec fn slash(c: char) -> bool {
    c == '\\' || c == '/'
}

/// Whether a text has no separator.
pub open spec fn one_name(s: Seq<char>) -> bool {
    s.len() > 0 && forall|i: int| 0 <= i < s.len() ==> !slash(#[trigger] s[i])
}

/// Whether a character is an ASCII letter.
pub open spec fn letter(c: char) -> bool {
    ('a' <= c && c <= 'z') || ('A' <= c && c <= 'Z')
}

/// With a drive in front a path is absolute when a separator follows it.
pub proof fn law_drives(p: &str, b: bool)
    requires
        call_ensures(is_absolute, (p,), b),
        p@.len() >= 2,
        letter(p@[0]),
        p@[1] == ':',
    ensures
        b <==> p@.len() > 2 && slash(p@[2]),
{
}

/// A path that begins with neither a drive nor a separator is not absolute, and
/// neither is one with a single separator in front.
pub proof fn law_not_absolute(p: &str, b: bool)
    requires
        call_ensures(is_absolute, (p,), b),
        p@.len() < 2 || (!slash(p@[0]) && p@[1] != ':') || (slash(p@[0]) && !slash(p@[1])),
    ensures
        !b,
{
    if p@.len() >= 2 && slash(p@[0]) {
        assert(!letter(p@[0]));
    }
}

/// A share on a server is absolute, and a server without a share is not.
pub proof fn law_shares(
    p: &str,
    server: Seq<char>,
    share: Seq<char>,
    rest: Seq<char>,
    b: bool,
)
    requires
        call_ensures(is_absolute, (p,), b),
        one_name(server),
        one_name(share),
        server != "?"@,
        server != "."@,
        p@ == seq!['\\', '\\'] + server + seq!['\\'] + share || p@ == seq!['\\', '\\'] + server
            + seq!['\\'] + share + seq!['\\'] + rest || p@ == seq!['\\', '\\'] + server,
    ensures
        b <==> p@ != seq!['\\', '\\'] + server,
{
    reveal_strlit("?");
    reveal_strlit(".");
    let s = p@;
    assert(s[0] == '\\' && s[1] == '\\');
    let n = 2 + server.len() as int;
    assert forall|i: int| 2 <= i < n implies !windows_path::is_separator(#[trigger] s[i]) by {
        assert(s[i] == server[i - 2]);
        assert(!slash(server[i - 2]));
    }
    lemma_separator_at(s, 2, n);
    assert(s.len() >= 4 && s[3] == '\\' ==> server.len() == 1) by {
        if s.len() >= 4 && server.len() > 1 {
            assert(s[3] == server[1]);
            assert(!slash(server[1]));
        }
    }
    if server.len() == 1 {
        assert(s[2] == server[0]);
        assert(server[0] != '?') by {
            if server[0] == '?' {
                assert(server =~= "?"@);
            }
        }
        assert(server[0] != '.') by {
            if server[0] == '.' {
                assert(server =~= "."@);
            }
        }
    }
    assert(s.len() >= 4 && windows_path::is_separator(s[3]) ==> server.len() == 1) by {
        if s.len() >= 4 && server.len() > 1 {
            assert(s[3] == server[1]);
            assert(!slash(server[1]));
        }
    }
    assert(!windows_path::is_verbatim(s));
    assert(windows_path::device_end(s) is None);
    if s != seq!['\\', '\\'] + server {
        assert(s[n] == '\\');
        let m = n + 1 + share.len();
        assert forall|i: int| n + 1 <= i < m implies !windows_path::is_separator(
            #[trigger] s[i],
        ) by {
            assert(s[i] == share[i - n - 1]);
            assert(!slash(share[i - n - 1]));
        }
        if s.len() > m {
            assert(s[m] == '\\');
        }
        lemma_separator_at(s, n + 1, m);
    } else {
        assert(s.len() == n);
    }
}

proof fn lemma_separator_at(p: Seq<char>, from: int, n: int)
    requires
        0 <= from <= n <= p.len(),
        forall|i: int| from <= i < n ==> !windows_path::is_separator(#[trigger] p[i]),
        n < p.len() ==> windows_path::is_separator(p[n]),
    ensures
        windows_path::separator_at(p, from) == n,
    decreases n - from,
{
    if from < n {
        assert(!windows_path::is_separator(p[from]));
        lemma_separator_at(p, from + 1, n);
    }
}

/// A relative path joined to a directory on a drive stands behind it, with a
/// backslash between them unless there is a separator already; an absolute path
/// stays as it is, and one with a separator in front keeps the drive alone.
pub proof fn law_joined_paths(base: &str, p: &str, out: String)
    requires
        call_ensures(join, (base, p), out),
        base@.len() > 3,
        letter(base@[0]),
        base@[1] == ':',
        slash(base@[2]),
        p@.len() >= 2,
    ensures
        !slash(p@[0]) && p@[1] != ':' && !slash(base@.last()) ==> out@ == base@ + seq!['\\'] + p@,
        !slash(p@[0]) && p@[1] != ':' && slash(base@.last()) ==> out@ == base@ + p@,
        letter(p@[0]) && p@[1] == ':' ==> out@ == p@,
        slash(p@[0]) && !slash(p@[1]) ==> out@ == base@.take(2) + p@,
{
    assert(!windows_path::is_verbatim(base@)) by {
        assert(base@[1] != '\\');
    }
}

/// A path is made absolute by joining it to the working directory, unless it is
/// absolute; the service's home is the one that is set, or the usual one, made
/// absolute.
pub proof fn law_home(
    home: &str,
    usual: &str,
    cwd: &str,
    already: bool,
    joined: String,
    made: String,
    set: String,
    unset: String,
    usual_made: String,
)
    requires
        call_ensures(is_absolute, (home,), already),
        call_ensures(join, (cwd, home), joined),
        call_ensures(absolute_path, (home, cwd), made),
        call_ensures(absolute_path, (usual, cwd), usual_made),
        call_ensures(resolve_service_home, (Some(home), usual, cwd), set),
        call_ensures(resolve_service_home, (None::<&str>, usual, cwd), unset),
    ensures
        already ==> made@ == home@,
        !already ==> made@ == joined@,
        set@ == made@,
        unset@ == usual_made@,
{
}

/// Logs are kept in `meow\logs` below the program data.
pub proof fn law_log_directory(data: &str, own: &str, meow: String, logs: String, out: String)
    requires
        call_ensures(log_dir_from_program_data, (data,), out),
        call_ensures(join, (data, "meow"), meow),
        own@ == meow@,
        call_ensures(join, (own, "logs"), logs),
    ensures
        out@ == logs@,
{
}

/// What the service is registered with.
pub proof fn law_service_info(exe: &str, config: &str, home: &str, info: ServiceInfo)
    requires
        call_ensures(build_service_info, (exe, config, home), info),
    ensures
        info.name@ == "meow"@,
        info.display_name@ == "meow-rs Proxy Service"@,
        info.executable_path@ == exe@,
        info.launch_arguments@.len() == 5,
        info.launch_arguments@[0]@ == "-f"@ && info.launch_arguments@[1]@ == config@,
        info.launch_arguments@[2]@ == "-d"@ && info.launch_arguments@[3]@ == home@,
        info.launch_arguments@[4]@ == "run-service"@,
        info.service_type is OwnProcess && info.start_type is AutoStart,
        info.account_name is None && info.account_password is None,
{
    let t = text::texts(info.launch_arguments@);
    assert(t.len() == 5);
    assert(t[0] == info.launch_arguments@[0]@ && t[1] == info.launch_arguments@[1]@ && t[2]
        == info.launch_arguments@[2]@ && t[3] == info.launch_arguments@[3]@ && t[4]
        == info.launch_arguments@[4]@);
}

/// A running service can be stopped; one that starts, stops or has stopped
/// takes no control. A start has fifteen seconds for each checkpoint, a stop
/// thirty seconds, and the other two wait for nothing.
pub proof fn law_reports(
    n: u32,
    code: ServiceExitCode,
    run: ServiceStatus,
    start: ServiceStatus,
    stop: ServiceStatus,
    end: ServiceStatus,
)
    requires
        call_ensures(running_status, (), run),
        call_ensures(start_pending_status, (n,), start),
        call_ensures(stop_pending_status, (), stop),
        call_ensures(stopped_status, (code,), end),
    ensures
        run.current_state is Running && start.current_state is StartPending && stop.current_state
            is StopPending && end.current_state is Stopped,
        run.controls_accepted is STOP_AND_SHUTDOWN && start.controls_accepted is NONE
            && stop.controls_accepted is NONE && end.controls_accepted is NONE,
        start.checkpoint == n && stop.checkpoint == 1 && run.checkpoint == 0 && end.checkpoint
            == 0,
        start.wait_hint.nanos == 15_000_000_000 && stop.wait_hint.nanos == 30_000_000_000
            && run.wait_hint.nanos == 0 && end.wait_hint.nanos == 0,
        run.exit_code == ServiceExitCode::Win32(0) && start.exit_code == ServiceExitCode::Win32(0)
            && stop.exit_code == ServiceExitCode::Win32(0) && end.exit_code == code,
        run.service_type is OwnProcess && start.service_type is OwnProcess && stop.service_type
            is OwnProcess && end.service_type is OwnProcess,
{
}

/// A request to stop is answered with a report that the service stops, once it
/// is registered; the program is told to end by the first one only. Other
/// controls change nothing.
pub proof fn law_controls(
    l: &mut ServiceLifecycle,
    control: ServiceControl,
    stop: ServiceStatus,
    reply: ControlReply,
)
    requires
        call_ensures(ServiceLifecycle::on_control, (l, control), reply),
        call_ensures(stop_pending_status, (), stop),
    ensures
        control is Stop || control is Shutdown ==> reply.known && final(l).phase is Stopping
            && !final(l).can_shut_down && reply.shut_down == old(l).can_shut_down && (old(l).registered ==> reply.report == Some(stop)) && (!old(l).registered
            ==> reply.report is None),
        control is Interrogate ==> reply.known && reply.report is None && !reply.shut_down
            && *final(l) == *old(l),
        control is Other ==> !reply.known && reply.report is None && !reply.shut_down && *final(l)
            == *old(l),
        final(l).registered == old(l).registered && final(l).checkpoint == old(l).checkpoint,
{
}

/// While a service starts, each report counts one checkpoint on, and the
/// counting ends with the start.
pub proof fn law_checkpoints(
    l: &mut ServiceLifecycle,
    n: u32,
    start: ServiceStatus,
    step: ReporterStep,
)
    requires
        call_ensures(ServiceLifecycle::on_checkpoint_timer, (l,), step),
        old(l).checkpoint < u32::MAX,
        n == old(l).checkpoint + 1,
        call_ensures(start_pending_status, (n,), start),
    ensures
        old(l).phase is Starting ==> final(l).checkpoint == n && step == ReporterStep::Wait(
            if old(l).registered {
                Some(start)
            } else {
                None
            },
        ),
        !(old(l).phase is Starting) ==> step is End && *final(l) == *old(l),
{
}

/// A program that is ready is reported as running, unless it was told to stop
/// before; one that has ended is reported as stopped, with the code of its end.
pub proof fn law_ready_and_finished(
    l: &mut ServiceLifecycle,
    at: ServiceLifecycle,
    ok: bool,
    run: ServiceStatus,
    good: ServiceStatus,
    bad: ServiceStatus,
    ready: Result<ServiceStatus, String>,
    end: ServiceStatus,
)
    requires
        at == *old(l),
        call_ensures(ServiceLifecycle::on_ready, (&at,), ready),
        call_ensures(ServiceLifecycle::on_finished, (l, ok), end),
        call_ensures(running_status, (), run),
        call_ensures(stopped_status, (ServiceExitCode::Win32(0),), good),
        call_ensures(stopped_status, (ServiceExitCode::ServiceSpecific(1),), bad),
    ensures
        at.phase is Starting ==> ready == Ok::<ServiceStatus, String>(run),
        !(at.phase is Starting) ==> ready is Err,
        ok ==> end == good,
        !ok ==> end == bad,
        final(l).phase is Stopped,
{
}

/// What is shown of a service: its state, its process and its exit code.
pub proof fn law_status_is_shown(s: ServiceStatus, out: String)
    requires
        call_ensures(format_service_status, (&s,), out),
    ensures
        s.current_state is Running && s.exit_code == ServiceExitCode::Win32(0) ==> (
        s.process_id matches Some(pid) ==> out@ == "Service: "@ + "meow"@ + "\nState: "@
            + "Running"@ + "\nPID: "@ + text::decimal(pid as nat) + "\nExit code: "@ + (
        "Win32("@ + text::decimal(0) + ")"@) + "\n"@),
        s.current_state is Stopped && s.process_id is None ==> (
        s.exit_code matches ServiceExitCode::ServiceSpecific(n) ==> out@ == "Service: "@ + "meow"@
            + "\nState: "@ + "Stopped"@ + "\nPID: "@ + "-"@ + "\nExit code: "@ + (
        "ServiceSpecific("@ + text::decimal(n as nat) + ")"@) + "\n"@),
{
}

/// A wait for a start goes on as long as the checkpoint moves: each time it
/// does, the service has as long as it asks for, between five and thirty
/// seconds, and two minutes in all.
pub proof fn law_start_is_awaited(
    w: &mut StartWait,
    s: ServiceStatus,
    now: Instant,
    step: WaitStep,
)
    requires
        call_ensures(StartWait::on_status, (w, &s, now), step),
        s.current_state is StartPending,
        old(w).last_checkpoint != Some(s.checkpoint),
        now.nanos + 30_000_000_000 <= u128::MAX,
    ensures
        final(w).last_checkpoint == Some(s.checkpoint),
        final(w).overall_deadline == old(w).overall_deadline,
        s.wait_hint.nanos < 5_000_000_000 ==> final(w).progress_deadline.nanos == now.nanos
            + 5_000_000_000,
        5_000_000_000 <= s.wait_hint.nanos <= 30_000_000_000 ==> final(w).progress_deadline.nanos
            == now.nanos + s.wait_hint.nanos,
        s.wait_hint.nanos > 30_000_000_000 ==> final(w).progress_deadline.nanos == now.nanos
            + 30_000_000_000,
        step is Wait <==> now.nanos < old(w).overall_deadline.nanos,
{
}

/// A service whose checkpoint stands still is given up when its time is over.
pub proof fn law_standstill(w: &mut StartWait, s: ServiceStatus, now: Instant, step: WaitStep)
    requires
        call_ensures(StartWait::on_status, (w, &s, now), step),
        s.current_state is StartPending,
        old(w).last_checkpoint == Some(s.checkpoint),
    ensures
        *final(w) == *old(w),
        step is Wait <==> now.nanos < old(w).overall_deadline.nanos && now.nanos < old(w).progress_deadline.nanos,
        !(step is Wait) ==> step is Fail,
{
}

/// What the system's error codes mean: 1060 that there is no such service, 1061
/// that it cannot take a control now, 1062 that it does not run, and 1072 that
/// it is about to be removed.
pub proof fn law_error_codes(
    code: Option<i32>,
    what: String,
    now: Instant,
    deadline: Instant,
    install: InstallStep,
    uninstall: UninstallStep,
    removal: RemovalStep,
    status: StatusStep,
    stop: WaitStep,
)
    requires
        call_ensures(install_step, (Err::<(), Option<i32>>(code),), install),
        call_ensures(uninstall_step, (Err::<(), Option<i32>>(code),), uninstall),
        call_ensures(removal_step, (now, deadline, Err::<(), Option<i32>>(code)), removal),
        call_ensures(status_step, (Err::<(), Option<i32>>(code),), status),
        call_ensures(
            after_stop_request,
            (Some(Err::<(), SystemFault>(SystemFault { code, what })), now, deadline),
            stop,
        ),
        now.nanos < deadline.nanos,
    ensures
        install is Create <==> code == Some(1060i32),
        install is Refuse <==> code == Some(1072i32),
        !(install is Update),
        uninstall is Done <==> code == Some(1060i32) || code == Some(1072i32),
        !(uninstall is Delete),
        removal is Gone <==> code == Some(1060i32),
        removal is Wait <==> code == Some(1072i32),
        !(removal is Later),
        status is Say <==> code == Some(1060i32) || code == Some(1072i32),
        !(status is Query),
        stop is Done <==> code == Some(1062i32),
        stop is Wait <==> code == Some(1061i32),
{
}

/// An installation takes its phases in this order, as long as each succeeds.
pub proof fn law_install_order(
    i: &mut Install,
    paths: &InstallPaths,
    fault: Option<String>,
    order: Seq<InstallPhase>,
    k: int,
)
    requires
        order == seq![
            InstallPhase::FindExecutable,
            InstallPhase::ResolveExecutable,
            InstallPhase::FindConfig,
            InstallPhase::ResolveConfig,
            InstallPhase::MakeHome,
            InstallPhase::ResolveHome,
            InstallPhase::MakeLogs,
            InstallPhase::OpenManager,
            InstallPhase::OpenService,
            InstallPhase::StopExisting,
            InstallPhase::ChangeConfig,
            InstallPhase::Describe,
            InstallPhase::SetRecovery,
            InstallPhase::RecoverFailures,
            InstallPhase::Start,
            InstallPhase::AwaitRunning,
            InstallPhase::Installed,
        ],
        0 <= k < order.len() - 1,
        old(i).phase == order[k],
        call_ensures(Install::on_outcome, (i, paths, Ok::<(), SystemFault>(())), fault),
    ensures
        final(i).phase == order[k + 1],
        fault is None,
        final(i).updated <==> old(i).updated || old(i).phase is OpenService,
{
}

/// A service that is not there yet is created, and described as one that is
/// changed is; any other failure ends the installation.
pub proof fn law_install_failures(
    i: &mut Install,
    made: &mut Install,
    paths: &InstallPaths,
    f: SystemFault,
    fault: Option<String>,
    none: Option<String>,
)
    requires
        !(old(i).phase is Installed) && !(old(i).phase is Failed),
        call_ensures(Install::on_outcome, (i, paths, Err::<(), SystemFault>(f)), fault),
        old(made).phase is Create,
        call_ensures(Install::on_outcome, (made, paths, Ok::<(), SystemFault>(())), none),
    ensures
        old(i).phase is OpenService && f.code == Some(1060i32) ==> final(i).phase is Create && fault
            is None && final(i).updated == old(i).updated,
        !(old(i).phase is OpenService && f.code == Some(1060i32)) ==> final(i).phase is Failed
            && fault is Some,
        final(made).phase is Describe && none is None,
{
}

/// A removal opens the manager, then the service, marks it, stops it and waits
/// until it is gone. A service that is not there, or is marked already, is
/// nothing to fail on, and neither is one that does not stop.
pub proof fn law_uninstall(
    phase: UninstallPhase,
    f: SystemFault,
    good: (UninstallPhase, Notice),
    bad: (UninstallPhase, Notice),
)
    requires
        phase is OpenManager || phase is OpenService || phase is Delete || phase is Stop,
        call_ensures(uninstall_after, (phase, Ok::<(), SystemFault>(())), good),
        call_ensures(uninstall_after, (phase, Err::<(), SystemFault>(f)), bad),
    ensures
        phase is OpenManager ==> good.0 is OpenService && bad.0 is Failed,
        phase is OpenService ==> good.0 is Delete,
        phase is OpenService && (f.code == Some(1060i32) || f.code == Some(1072i32)) ==> bad.0
            is Done && bad.1 is Say,
        phase is OpenService && f.code != Some(1060i32) && f.code != Some(1072i32) ==> bad.0
            is Failed && bad.1 is Fail,
        phase is Delete ==> good.0 is Stop && bad.0 is Failed && bad.1 is Fail,
        phase is Stop ==> good.0 is AwaitRemoval && bad.0 is AwaitRemoval && (
        bad.1 matches Notice::Warn(w) && w@ == "warning: "@ + f.what@),
        good.1 is Nothing,
{
}

/// What is told of an installation names its files and says whether there was
/// a service before.
pub proof fn law_install_report(i: &Install, paths: &InstallPaths, out: String)
    requires
        call_ensures(Install::report, (i, paths), out),
    ensures
        out@ == (if i.updated {
            "meow service updated and started."@
        } else {
            "meow service installed and started."@
        }) + "\n\n  Config:  "@ + paths.config@ + "\n  Home:    "@ + paths.home@ + "\n  Binary:  "@
            + paths.executable@ + "\n  Logs:    "@ + paths.logs@
            + "\n\nPowerShell commands:\n  Get-Service meow\n  Restart-Service meow\n  Stop-Service meow\n"@,
{
}

/// A service begins at its first checkpoint, and reports it once it is
/// registered.
pub proof fn law_service_begins(
    fresh: ServiceLifecycle,
    l: &mut ServiceLifecycle,
    start: ServiceStatus,
    s: ServiceStatus,
)
    requires
        call_ensures(ServiceLifecycle::new, (), fresh),
        *old(l) == fresh,
        call_ensures(ServiceLifecycle::register, (l,), s),
        call_ensures(start_pending_status, (1u32,), start),
    ensures
        fresh.phase is Starting && fresh.can_shut_down && !fresh.registered,
        s == start,
        final(l).registered && final(l).phase is Starting,
{
}

/// The first thing that went wrong is the outcome of a service: the program
/// itself, then the reports while it started, then the last report.
pub proof fn law_service_outcome(
    program: Result<(), String>,
    reporter: Result<(), String>,
    last: Result<(), String>,
    r: Result<(), String>,
)
    requires
        call_ensures(service_result, (program, reporter, last), r),
    ensures
        r is Ok <==> program is Ok && reporter is Ok && last is Ok,
        program is Err ==> r == program,
        program is Ok ==> (reporter matches Err(e) ==> r->Err_0@
            == "failed to update the pending service status"@ + ": "@ + e@),
        program is Ok && reporter is Ok ==> (last matches Err(e) ==> r->Err_0@
            == "failed to report the stopped service status"@ + ": "@ + e@),
{
}

} // verus!
