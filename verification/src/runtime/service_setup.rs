//! The courses of installing and removing the Windows service: what is done in
//! which order, what a failure is answered with, and what is said at the end.
use crate::runtime::windows_service::{
    install_step, installed_message, not_found, uninstall_step, while_doing, InstallStep, RemovalStep, UninstallStep,
    ERROR_SERVICE_DOES_NOT_EXIST, ERROR_SERVICE_MARKED_FOR_DELETE,
};
use crate::text;
use vstd::prelude::*;

verus! {

/// An error of the system: its code, if it has one, and its words.
#[derive(Debug)]
pub struct SystemFault {
    pub code: Option<i32>,
    pub what: String,
}

/// The code of an outcome's error.
pub open spec fn code_of(outcome: Result<(), SystemFault>) -> Result<(), Option<i32>> {
    match outcome {
        Ok(_) => Ok(()),
        Err(f) => Err(f.code),
    }
}

fn take_code(outcome: &Result<(), SystemFault>) -> (r: Result<(), Option<i32>>)
    ensures
        r == code_of(*outcome),
{
    match outcome {
        Ok(_) => Ok(()),
        Err(f) => Err(f.code),
    }
}

// ---------------------------------------------------------------------------
// Installing
// ---------------------------------------------------------------------------

/// The places that an installation speaks of.
#[derive(Debug)]
pub struct InstallPaths {
    pub executable: String,
    pub config: String,
    pub home: String,
    pub logs: String,
}

/// How far an installation has come.
#[derive(Clone, Copy, Debug, PartialEq, Eq, Structural)]
pub enum InstallPhase {
    FindExecutable,
    ResolveExecutable,
    FindConfig,
    ResolveConfig,
    MakeHome,
    ResolveHome,
    MakeLogs,
    OpenManager,
    OpenService,
    /// Stop the service that is there.
    StopExisting,
    ChangeConfig,
    Create,
    Describe,
    SetRecovery,
    /// Let recovery also follow a failure that is no crash.
    RecoverFailures,
    Start,
    AwaitRunning,
    Installed,
    Failed,
}

impl InstallPhase {
    /// The phase behind this one, in the order of an installation.
    pub open spec fn onward(self) -> InstallPhase {
        match self {
            InstallPhase::FindExecutable => InstallPhase::ResolveExecutable,
            InstallPhase::ResolveExecutable => InstallPhase::FindConfig,
            InstallPhase::FindConfig => InstallPhase::ResolveConfig,
            InstallPhase::ResolveConfig => InstallPhase::MakeHome,
            InstallPhase::MakeHome => InstallPhase::ResolveHome,
            InstallPhase::ResolveHome => InstallPhase::MakeLogs,
            InstallPhase::MakeLogs => InstallPhase::OpenManager,
            InstallPhase::OpenManager => InstallPhase::OpenService,
            InstallPhase::OpenService => InstallPhase::StopExisting,
            InstallPhase::StopExisting => InstallPhase::ChangeConfig,
            InstallPhase::ChangeConfig => InstallPhase::Describe,
            InstallPhase::Create => InstallPhase::Describe,
            InstallPhase::Describe => InstallPhase::SetRecovery,
            InstallPhase::SetRecovery => InstallPhase::RecoverFailures,
            InstallPhase::RecoverFailures => InstallPhase::Start,
            InstallPhase::Start => InstallPhase::AwaitRunning,
            InstallPhase::AwaitRunning => InstallPhase::Installed,
            InstallPhase::Installed => InstallPhase::Installed,
            InstallPhase::Failed => InstallPhase::Failed,
        }
    }

    /// The phase that an outcome leads to. A service that is not there is
    /// created; every other failure ends the installation.
    pub open spec fn after(self, outcome: Result<(), Option<i32>>) -> InstallPhase {
        match outcome {
            Ok(_) => self.onward(),
            Err(code) => if self is OpenService && code == Some(ERROR_SERVICE_DOES_NOT_EXIST) {
                InstallPhase::Create
            } else if self is Installed {
                self
            } else {
                InstallPhase::Failed
            },
        }
    }

    /// How many phases may still come.
    pub open spec fn left(self) -> int {
        match self {
            InstallPhase::FindExecutable => 17,
            InstallPhase::ResolveExecutable => 16,
            InstallPhase::FindConfig => 15,
            InstallPhase::ResolveConfig => 14,
            InstallPhase::MakeHome => 13,
            InstallPhase::ResolveHome => 12,
            InstallPhase::MakeLogs => 11,
            InstallPhase::OpenManager => 10,
            InstallPhase::OpenService => 9,
            InstallPhase::StopExisting => 8,
            InstallPhase::ChangeConfig => 7,
            InstallPhase::Create => 6,
            InstallPhase::Describe => 5,
            InstallPhase::SetRecovery => 4,
            InstallPhase::RecoverFailures => 3,
            InstallPhase::Start => 2,
            InstallPhase::AwaitRunning => 1,
            InstallPhase::Installed => 0,
            InstallPhase::Failed => 0,
        }
    }

    fn step_onward(self) -> (next: InstallPhase)
        ensures
            next == self.onward(),
    {
        match self {
            InstallPhase::FindExecutable => InstallPhase::ResolveExecutable,
            InstallPhase::ResolveExecutable => InstallPhase::FindConfig,
            InstallPhase::FindConfig => InstallPhase::ResolveConfig,
            InstallPhase::ResolveConfig => InstallPhase::MakeHome,
            InstallPhase::MakeHome => InstallPhase::ResolveHome,
            InstallPhase::ResolveHome => InstallPhase::MakeLogs,
            InstallPhase::MakeLogs => InstallPhase::OpenManager,
            InstallPhase::OpenManager => InstallPhase::OpenService,
            InstallPhase::OpenService => InstallPhase::StopExisting,
            InstallPhase::StopExisting => InstallPhase::ChangeConfig,
            InstallPhase::ChangeConfig => InstallPhase::Describe,
            InstallPhase::Create => InstallPhase::Describe,
            InstallPhase::Describe => InstallPhase::SetRecovery,
            InstallPhase::SetRecovery => InstallPhase::RecoverFailures,
            InstallPhase::RecoverFailures => InstallPhase::Start,
            InstallPhase::Start => InstallPhase::AwaitRunning,
            InstallPhase::AwaitRunning => InstallPhase::Installed,
            InstallPhase::Installed => InstallPhase::Installed,
            InstallPhase::Failed => InstallPhase::Failed,
        }
    }
}

/// What an installation that fails in a phase says. A file that is missing and
/// a service that does not come up speak for themselves; elsewhere the system's
/// words stand behind what was being done.
pub open spec fn install_fault(phase: InstallPhase, paths: InstallPaths, fault: SystemFault) -> Seq<
    char,
> {
    let e = fault.what@;
    match phase {
        InstallPhase::FindExecutable => "meow executable"@ + " not found: "@ + paths.executable@,
        InstallPhase::ResolveExecutable => while_doing(
            "failed to resolve meow executable: "@ + paths.executable@,
            e,
        ),
        InstallPhase::FindConfig => "configuration file"@ + " not found: "@ + paths.config@,
        InstallPhase::ResolveConfig => while_doing(
            "failed to resolve configuration file: "@ + paths.config@,
            e,
        ),
        InstallPhase::MakeHome => while_doing(
            "failed to create meow home directory "@ + paths.home@,
            e,
        ),
        InstallPhase::ResolveHome => while_doing(
            "failed to resolve meow home directory "@ + paths.home@,
            e,
        ),
        InstallPhase::MakeLogs => while_doing(
            "failed to create Windows service log directory "@ + paths.logs@,
            e,
        ),
        InstallPhase::OpenManager => while_doing(
            "failed to open the Windows Service Control Manager; run PowerShell as Administrator"@,
            e,
        ),
        InstallPhase::OpenService => if fault.code == Some(ERROR_SERVICE_MARKED_FOR_DELETE) {
            "the meow service is pending deletion; wait for it to disappear or restart Windows before installing again"@
        } else {
            while_doing(
                "failed to open the meow Windows service; run PowerShell as Administrator"@,
                e,
            )
        },
        InstallPhase::StopExisting => while_doing(
            "failed to stop the existing meow service before updating it"@,
            e,
        ),
        InstallPhase::ChangeConfig => while_doing(
            "failed to update the existing meow service"@,
            e,
        ),
        InstallPhase::Create => while_doing(
            "failed to create the meow Windows service; run PowerShell as Administrator"@,
            e,
        ),
        InstallPhase::Describe => while_doing("failed to set the meow service description"@, e),
        InstallPhase::SetRecovery => while_doing("failed to configure meow service recovery"@, e),
        InstallPhase::RecoverFailures => while_doing(
            "failed to enable meow service recovery for non-crash failures"@,
            e,
        ),
        InstallPhase::Start => while_doing("failed to start the meow Windows service"@, e),
        _ => e,
    }
}

fn doing(what: &str, e: &str) -> (out: String)
    ensures
        out@ == while_doing(what@, e@),
{
    text::join3(what, ": ", e)
}

fn doing_at(what: &str, place: &str, e: &str) -> (out: String)
    ensures
        out@ == while_doing(what@ + place@, e@),
{
    let whole = text::join2(what, place);
    text::join3(whole.as_str(), ": ", e)
}

fn say_install_fault(phase: InstallPhase, paths: &InstallPaths, fault: SystemFault) -> (out: String)
    requires
        !(phase is OpenService) || fault.code != Some(ERROR_SERVICE_DOES_NOT_EXIST),
    ensures
        out@ == install_fault(phase, *paths, fault),
{
    let e = fault.what.as_str();
    match phase {
        InstallPhase::FindExecutable => not_found("meow executable", paths.executable.as_str()),
        InstallPhase::ResolveExecutable => doing_at(
            "failed to resolve meow executable: ",
            paths.executable.as_str(),
            e,
        ),
        InstallPhase::FindConfig => not_found("configuration file", paths.config.as_str()),
        InstallPhase::ResolveConfig => doing_at(
            "failed to resolve configuration file: ",
            paths.config.as_str(),
            e,
        ),
        InstallPhase::MakeHome => doing_at(
            "failed to create meow home directory ",
            paths.home.as_str(),
            e,
        ),
        InstallPhase::ResolveHome => doing_at(
            "failed to resolve meow home directory ",
            paths.home.as_str(),
            e,
        ),
        InstallPhase::MakeLogs => doing_at(
            "failed to create Windows service log directory ",
            paths.logs.as_str(),
            e,
        ),
        InstallPhase::OpenManager => doing(
            "failed to open the Windows Service Control Manager; run PowerShell as Administrator",
            e,
        ),
        InstallPhase::OpenService => match install_step(Err(fault.code)) {
            InstallStep::Refuse(w) => w.to_owned(),
            InstallStep::Fail(w) => doing(w, e),
            _ => fault.what,
        },
        InstallPhase::StopExisting => doing(
            "failed to stop the existing meow service before updating it",
            e,
        ),
        InstallPhase::ChangeConfig => doing("failed to update the existing meow service", e),
        InstallPhase::Create => doing(
            "failed to create the meow Windows service; run PowerShell as Administrator",
            e,
        ),
        InstallPhase::Describe => doing("failed to set the meow service description", e),
        InstallPhase::SetRecovery => doing("failed to configure meow service recovery", e),
        InstallPhase::RecoverFailures => doing(
            "failed to enable meow service recovery for non-crash failures",
            e,
        ),
        InstallPhase::Start => doing("failed to start the meow Windows service", e),
        _ => fault.what,
    }
}

/// An installation.
#[derive(Debug)]
pub struct Install {
    pub phase: InstallPhase,
    /// Whether a service was there already.
    pub updated: bool,
}

/// What an installation says once the service runs.
pub open spec fn install_report(updated: bool, paths: InstallPaths) -> Seq<char> {
    (if updated {
        "meow service updated and started."@
    } else {
        "meow service installed and started."@
    }) + "\n\n  Config:  "@ + paths.config@ + "\n  Home:    "@ + paths.home@ + "\n  Binary:  "@
        + paths.executable@ + "\n  Logs:    "@ + paths.logs@
        + "\n\nPowerShell commands:\n  Get-Service meow\n  Restart-Service meow\n  Stop-Service meow\n"@
}

impl Install {
    /// An installation that has not begun.
    pub fn new() -> (i: Self)
        ensures
            i.phase is FindExecutable,
            !i.updated,
    {
        Install { phase: InstallPhase::FindExecutable, updated: false }
    }

    /// What the current phase had to do was done, or failed. A failure that
    /// ends the installation is put into words.
    pub fn on_outcome(&mut self, paths: &InstallPaths, outcome: Result<(), SystemFault>) -> (fault:
        Option<String>)
        requires
            old(self).phase.left() > 0,
        ensures
            final(self).phase == old(self).phase.after(code_of(outcome)),
            final(self).updated == (old(self).updated || (old(self).phase is OpenService
                && outcome is Ok)),
            match outcome {
                Err(e) if final(self).phase is Failed => fault matches Some(w) && w@
                    == install_fault(old(self).phase, *paths, e),
                _ => fault is None,
            },
    {
        match outcome {
            Ok(_) => {
                if self.phase == InstallPhase::OpenService {
                    self.updated = true;
                }
                self.phase = self.phase.step_onward();
                None
            },
            Err(fault) => {
                let phase = self.phase;
                if phase == InstallPhase::OpenService {
                    if let InstallStep::Create = install_step(Err(fault.code)) {
                        self.phase = InstallPhase::Create;
                        return None;
                    }
                }
                self.phase = InstallPhase::Failed;
                Some(say_install_fault(phase, paths, fault))
            },
        }
    }

    /// What to say once the service runs.
    pub fn report(&self, paths: &InstallPaths) -> (out: String)
        ensures
            out@ == install_report(self.updated, *paths),
    {
        let mut out = text::join3(
            installed_message(self.updated),
            "\n\n  Config:  ",
            paths.config.as_str(),
        );
        text::push_text(&mut out, "\n  Home:    ");
        text::push_text(&mut out, paths.home.as_str());
        text::push_text(&mut out, "\n  Binary:  ");
        text::push_text(&mut out, paths.executable.as_str());
        text::push_text(&mut out, "\n  Logs:    ");
        text::push_text(&mut out, paths.logs.as_str());
        text::push_text(
            &mut out,
            "\n\nPowerShell commands:\n  Get-Service meow\n  Restart-Service meow\n  Stop-Service meow\n",
        );
        out
    }
}

/// How the system brings the service back.
#[derive(Clone, Copy, Debug, PartialEq, Eq, Structural)]
pub struct RecoveryPlan {
    /// After this time without a failure the count of failures starts anew.
    pub reset_after_secs: u64,
    /// The time between a failure and the restart.
    pub restart_delay_secs: u64,
    /// Whether a failure that is no crash counts too.
    pub on_failures: bool,
}

/// The recovery that is set: a restart after five seconds, for failures that
/// are no crashes too, counted over a day.
pub fn recovery_plan() -> (p: RecoveryPlan)
    ensures
        p == (RecoveryPlan { reset_after_secs: 86_400, restart_delay_secs: 5, on_failures: true }),
{
    RecoveryPlan { reset_after_secs: 86_400, restart_delay_secs: 5, on_failures: true }
}

/// Every outcome brings an installation nearer to its end.
pub proof fn law_install_ends(phase: InstallPhase, outcome: Result<(), Option<i32>>)
    ensures
        phase.left() > 0 ==> phase.after(outcome).left() < phase.left(),
        phase.left() == 0 ==> phase.after(outcome) == phase,
{
}

/// Whether some phases, each with its outcome, are the course of an
/// installation from its start.
pub open spec fn is_install(steps: Seq<(InstallPhase, Result<(), Option<i32>>)>) -> bool {
    &&& steps.len() > 0 ==> steps[0].0 is FindExecutable
    &&& forall|i: int|
        0 <= i < steps.len() - 1 ==> #[trigger] steps[i + 1].0 == steps[i].0.after(steps[i].1)
}

/// A service counts as installed only after it was described, given its
/// recovery, started and seen running, in this order and without a failure.
pub proof fn law_installed_means_running(
    steps: Seq<(InstallPhase, Result<(), Option<i32>>)>,
    k: int,
)
    requires
        is_install(steps),
        0 < k < steps.len(),
        steps[k].0 is Installed,
        !(steps[k - 1].0 is Installed),
    ensures
        k >= 5,
        steps[k - 5].0 is Describe && steps[k - 5].1 is Ok,
        steps[k - 4].0 is SetRecovery && steps[k - 4].1 is Ok,
        steps[k - 3].0 is RecoverFailures && steps[k - 3].1 is Ok,
        steps[k - 2].0 is Start && steps[k - 2].1 is Ok,
        steps[k - 1].0 is AwaitRunning && steps[k - 1].1 is Ok,
{
    assert(steps[k - 1 + 1].0 == steps[k - 1].0.after(steps[k - 1].1));
    assert(steps[k - 2 + 1].0 == steps[k - 2].0.after(steps[k - 2].1));
    assert(steps[k - 3 + 1].0 == steps[k - 3].0.after(steps[k - 3].1));
    assert(steps[k - 4 + 1].0 == steps[k - 4].0.after(steps[k - 4].1));
    assert(steps[k - 5 + 1].0 == steps[k - 5].0.after(steps[k - 5].1));
}

// ---------------------------------------------------------------------------
// Removing
// ---------------------------------------------------------------------------

/// How far a removal has come.
#[derive(Clone, Copy, Debug, PartialEq, Eq, Structural)]
pub enum UninstallPhase {
    OpenManager,
    OpenService,
    /// Mark the service first, so that recovery cannot start it again.
    Delete,
    Stop,
    AwaitRemoval,
    Done,
    Failed,
}

impl UninstallPhase {
    /// The phase that an outcome leads to. A service that does not stop is
    /// waited for all the same.
    pub open spec fn after(self, outcome: Result<(), Option<i32>>) -> UninstallPhase {
        match (self, outcome) {
            (UninstallPhase::OpenManager, Ok(_)) => UninstallPhase::OpenService,
            (UninstallPhase::OpenService, Ok(_)) => UninstallPhase::Delete,
            (UninstallPhase::OpenService, Err(code)) => if code == Some(
                ERROR_SERVICE_DOES_NOT_EXIST,
            ) || code == Some(ERROR_SERVICE_MARKED_FOR_DELETE) {
                UninstallPhase::Done
            } else {
                UninstallPhase::Failed
            },
            (UninstallPhase::Delete, Ok(_)) => UninstallPhase::Stop,
            (UninstallPhase::Stop, _) => UninstallPhase::AwaitRemoval,
            (UninstallPhase::AwaitRemoval, Ok(_)) => UninstallPhase::Done,
            (UninstallPhase::Done, _) => UninstallPhase::Done,
            _ => UninstallPhase::Failed,
        }
    }
}

/// What a removal says after a phase: to the user, as a warning, or as the
/// error that ends it.
#[derive(Debug)]
pub enum Notice {
    Nothing,
    Say(String),
    Warn(String),
    Fail(String),
}

/// Whether a notice is the one for a phase's outcome.
pub open spec fn is_notice(
    n: Notice,
    phase: UninstallPhase,
    outcome: Result<(), SystemFault>,
) -> bool {
    match (phase, outcome) {
        (_, Ok(_)) => n is Nothing,
        (UninstallPhase::OpenManager, Err(f)) => n matches Notice::Fail(w) && w@ == while_doing(
            "failed to open the Windows Service Control Manager; run PowerShell as Administrator"@,
            f.what@,
        ),
        (UninstallPhase::OpenService, Err(f)) => if f.code == Some(ERROR_SERVICE_DOES_NOT_EXIST) {
            n matches Notice::Say(w) && w@ == "meow service is not installed."@
        } else if f.code == Some(ERROR_SERVICE_MARKED_FOR_DELETE) {
            n matches Notice::Say(w) && w@ == "meow service is already pending deletion."@
        } else {
            n matches Notice::Fail(w) && w@ == while_doing(
                "failed to open the meow Windows service; run PowerShell as Administrator"@,
                f.what@,
            )
        },
        (UninstallPhase::Delete, Err(f)) => n matches Notice::Fail(w) && w@ == while_doing(
            "failed to mark the meow Windows service for deletion"@,
            f.what@,
        ),
        (UninstallPhase::Stop, Err(f)) => n matches Notice::Warn(w) && w@ == "warning: "@ + f.what@,
        (_, Err(f)) => n matches Notice::Fail(w) && w@ == f.what@,
    }
}

/// The phase that a removal comes to, and what it says.
pub fn uninstall_after(phase: UninstallPhase, outcome: Result<(), SystemFault>) -> (r: (
    UninstallPhase,
    Notice,
))
    requires
        !(phase is AwaitRemoval || phase is Done || phase is Failed),
    ensures
        r.0 == phase.after(code_of(outcome)),
        is_notice(r.1, phase, outcome),
{
    let code = take_code(&outcome);
    match (phase, outcome) {
        (UninstallPhase::OpenManager, Ok(_)) => (UninstallPhase::OpenService, Notice::Nothing),
        (UninstallPhase::OpenManager, Err(f)) => (
            UninstallPhase::Failed,
            Notice::Fail(
                doing(
                    "failed to open the Windows Service Control Manager; run PowerShell as Administrator",
                    f.what.as_str(),
                ),
            ),
        ),
        (UninstallPhase::OpenService, Ok(_)) => (UninstallPhase::Delete, Notice::Nothing),
        (UninstallPhase::OpenService, Err(f)) => match uninstall_step(code) {
            UninstallStep::Done(w) => (UninstallPhase::Done, Notice::Say(w.to_owned())),
            UninstallStep::Fail(w) => (
                UninstallPhase::Failed,
                Notice::Fail(doing(w, f.what.as_str())),
            ),
            UninstallStep::Delete => (UninstallPhase::Delete, Notice::Nothing),
        },
        (UninstallPhase::Delete, Ok(_)) => (UninstallPhase::Stop, Notice::Nothing),
        (UninstallPhase::Delete, Err(f)) => (
            UninstallPhase::Failed,
            Notice::Fail(
                doing("failed to mark the meow Windows service for deletion", f.what.as_str()),
            ),
        ),
        (_, Ok(_)) => (UninstallPhase::AwaitRemoval, Notice::Nothing),
        (_, Err(f)) => (
            UninstallPhase::AwaitRemoval,
            Notice::Warn(text::join2("warning: ", f.what.as_str())),
        ),
    }
}

/// What a removal says at its end; nothing while it waits. `e` are the system's
/// words where looking for the service failed.
pub fn removal_notice(step: &RemovalStep, e: &str) -> (n: Notice)
    ensures
        match step {
            RemovalStep::Gone => n matches Notice::Say(w) && w@
                == "meow service uninstalled.\nConfiguration and logs were preserved."@,
            RemovalStep::Wait => n is Nothing,
            RemovalStep::Later => n matches Notice::Say(w) && w@
                == "meow service is marked for deletion and will be removed after all handles close or Windows restarts.\nConfiguration and logs were preserved."@,
            RemovalStep::Fail(what) => n matches Notice::Fail(w) && w@ == while_doing(what@, e@),
        },
{
    match step {
        RemovalStep::Gone => Notice::Say(
            "meow service uninstalled.\nConfiguration and logs were preserved.".to_owned(),
        ),
        RemovalStep::Wait => Notice::Nothing,
        RemovalStep::Later => Notice::Say(
            "meow service is marked for deletion and will be removed after all handles close or Windows restarts.\nConfiguration and logs were preserved.".to_owned(),
        ),
        RemovalStep::Fail(what) => Notice::Fail(doing(what, e)),
    }
}

/// Whether some phases, each with its outcome, are the course of a removal
/// from its start.
pub open spec fn is_removal(steps: Seq<(UninstallPhase, Result<(), Option<i32>>)>) -> bool {
    &&& steps.len() > 0 ==> steps[0].0 is OpenManager
    &&& forall|i: int|
        0 <= i < steps.len() - 1 ==> #[trigger] steps[i + 1].0 == steps[i].0.after(steps[i].1)
}

/// A service is stopped only after it was marked for removal.
pub proof fn law_marked_before_stopped(
    steps: Seq<(UninstallPhase, Result<(), Option<i32>>)>,
    k: int,
)
    requires
        is_removal(steps),
        0 <= k < steps.len(),
        steps[k].0 is Stop,
    ensures
        k > 0,
        steps[k - 1].0 is Delete && steps[k - 1].1 is Ok,
{
    assert(steps[k - 1 + 1].0 == steps[k - 1].0.after(steps[k - 1].1));
}

} // verus!
