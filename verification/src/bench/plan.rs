//! The course of a benchmark run against one proxy.
use crate::clock::Instant;
use crate::dns::message;
use crate::text;
use vstd::prelude::*;

verus! {

/// Which workloads are run.
#[derive(Clone, Copy, Debug, PartialEq, Eq, Structural)]
pub struct Workloads {
    pub throughput: bool,
    pub latency: bool,
    pub connrate: bool,
    pub dns: bool,
}

/// Whether a workload is asked for: all are, unless one is named.
pub open spec fn is_asked(only: Option<Seq<char>>, name: Seq<char>) -> bool {
    match only {
        None => true,
        Some(o) => o == name,
    }
}

/// Which workloads are run. That on DNS needs a configuration of its own.
pub open spec fn workloads_of(only: Option<Seq<char>>, has_dns_config: bool) -> Workloads {
    Workloads {
        throughput: is_asked(only, "throughput"@),
        latency: is_asked(only, "latency"@),
        connrate: is_asked(only, "connrate"@),
        dns: is_asked(only, "dns"@) && has_dns_config,
    }
}

fn asked(only: Option<&str>, name: &str) -> (b: bool)
    ensures
        b == is_asked(
            match only {
                Some(o) => Some(o@),
                None => None,
            },
            name@,
        ),
{
    match only {
        None => true,
        Some(o) => text::same(o, name),
    }
}

impl Workloads {
    /// Which workloads are run.
    pub fn select(only: Option<&str>, has_dns_config: bool) -> (w: Self)
        ensures
            w == workloads_of(
                match only {
                    Some(o) => Some(o@),
                    None => None,
                },
                has_dns_config,
            ),
    {
        Workloads {
            throughput: asked(only, "throughput"),
            latency: asked(only, "latency"),
            connrate: asked(only, "connrate"),
            dns: asked(only, "dns") && has_dns_config,
        }
    }
}

/// Whether the run looks for leaks, which is a flow of its own.
pub fn is_memleak_run(only: Option<&str>) -> (b: bool)
    ensures
        b == (match only {
            Some(o) => o@ == "memleak"@,
            None => false,
        }),
{
    match only {
        Some(o) => text::same(o, "memleak"),
        None => false,
    }
}

/// A step of a run.
#[derive(Clone, Copy, Debug, PartialEq, Eq, Structural)]
pub enum BenchStep {
    StartEcho,
    StartProxy,
    WaitForProxy,
    Settle,
    BinarySize,
    IdleRss,
    Warmup,
    Throughput,
    Latency,
    ConnRate,
    StopProxy,
    StartDnsProxy,
    WaitForDnsProxy,
    SettleDns,
    Dns,
    StopDnsProxy,
    Finished,
    /// The run failed.
    Failed,
}

/// A process that a run has started.
#[derive(Clone, Copy, Debug, PartialEq, Eq, Structural)]
pub enum Child {
    Proxy,
    DnsProxy,
}

impl BenchStep {
    /// Whether the run goes on though the step failed: a slow warmup does no
    /// harm, and without results on DNS the others still count.
    pub open spec fn may_fail(self) -> bool {
        self is Settle || self is Warmup || self is StopProxy || self is WaitForDnsProxy
            || self is SettleDns || self is Dns || self is StopDnsProxy
    }

    /// The step behind this one.
    pub open spec fn after(self, w: Workloads, succeeded: bool) -> BenchStep {
        if !succeeded && !self.may_fail() {
            BenchStep::Failed
        } else {
            match self {
                BenchStep::StartEcho => BenchStep::StartProxy,
                BenchStep::StartProxy => BenchStep::WaitForProxy,
                BenchStep::WaitForProxy => BenchStep::Settle,
                BenchStep::Settle => BenchStep::BinarySize,
                BenchStep::BinarySize => BenchStep::IdleRss,
                BenchStep::IdleRss => BenchStep::Warmup,
                BenchStep::Warmup => if w.throughput {
                    BenchStep::Throughput
                } else {
                    BenchStep::Throughput.after_throughput(w)
                },
                BenchStep::Throughput => self.after_throughput(w),
                BenchStep::Latency => self.after_latency(w),
                BenchStep::ConnRate => BenchStep::StopProxy,
                BenchStep::StopProxy => if w.dns {
                    BenchStep::StartDnsProxy
                } else {
                    BenchStep::Finished
                },
                BenchStep::StartDnsProxy => BenchStep::WaitForDnsProxy,
                BenchStep::WaitForDnsProxy => if succeeded {
                    BenchStep::SettleDns
                } else {
                    BenchStep::StopDnsProxy
                },
                BenchStep::SettleDns => BenchStep::Dns,
                BenchStep::Dns => BenchStep::StopDnsProxy,
                BenchStep::StopDnsProxy => BenchStep::Finished,
                BenchStep::Finished => BenchStep::Finished,
                BenchStep::Failed => BenchStep::Failed,
            }
        }
    }

    /// The step behind the throughput.
    pub open spec fn after_throughput(self, w: Workloads) -> BenchStep {
        if w.latency {
            BenchStep::Latency
        } else {
            self.after_latency(w)
        }
    }

    /// The step behind the latency.
    pub open spec fn after_latency(self, w: Workloads) -> BenchStep {
        if w.connrate {
            BenchStep::ConnRate
        } else {
            BenchStep::StopProxy
        }
    }

    /// How many steps may still come.
    pub open spec fn left(self) -> int {
        match self {
            BenchStep::StartEcho => 16,
            BenchStep::StartProxy => 15,
            BenchStep::WaitForProxy => 14,
            BenchStep::Settle => 13,
            BenchStep::BinarySize => 12,
            BenchStep::IdleRss => 11,
            BenchStep::Warmup => 10,
            BenchStep::Throughput => 9,
            BenchStep::Latency => 8,
            BenchStep::ConnRate => 7,
            BenchStep::StopProxy => 6,
            BenchStep::StartDnsProxy => 5,
            BenchStep::WaitForDnsProxy => 4,
            BenchStep::SettleDns => 3,
            BenchStep::Dns => 2,
            BenchStep::StopDnsProxy => 1,
            BenchStep::Finished => 0,
            BenchStep::Failed => 0,
        }
    }

    /// The process that runs during a step.
    pub open spec fn child(self) -> Option<Child> {
        match self {
            BenchStep::WaitForProxy
            | BenchStep::Settle
            | BenchStep::BinarySize
            | BenchStep::IdleRss
            | BenchStep::Warmup
            | BenchStep::Throughput
            | BenchStep::Latency
            | BenchStep::ConnRate
            | BenchStep::StopProxy => Some(Child::Proxy),
            BenchStep::WaitForDnsProxy
            | BenchStep::SettleDns
            | BenchStep::Dns
            | BenchStep::StopDnsProxy => Some(Child::DnsProxy),
            _ => None,
        }
    }

    /// The step behind this one.
    pub fn next(self, w: Workloads, succeeded: bool) -> (step: BenchStep)
        ensures
            step == self.after(w, succeeded),
    {
        let after_latency = if w.connrate {
            BenchStep::ConnRate
        } else {
            BenchStep::StopProxy
        };
        let after_throughput = if w.latency {
            BenchStep::Latency
        } else {
            after_latency
        };
        if !succeeded {
            match self {
                BenchStep::Settle
                | BenchStep::Warmup
                | BenchStep::StopProxy
                | BenchStep::WaitForDnsProxy
                | BenchStep::SettleDns
                | BenchStep::Dns
                | BenchStep::StopDnsProxy => {},
                _ => {
                    return BenchStep::Failed;
                },
            }
        }
        match self {
            BenchStep::StartEcho => BenchStep::StartProxy,
            BenchStep::StartProxy => BenchStep::WaitForProxy,
            BenchStep::WaitForProxy => BenchStep::Settle,
            BenchStep::Settle => BenchStep::BinarySize,
            BenchStep::BinarySize => BenchStep::IdleRss,
            BenchStep::IdleRss => BenchStep::Warmup,
            BenchStep::Warmup => if w.throughput {
                BenchStep::Throughput
            } else {
                after_throughput
            },
            BenchStep::Throughput => after_throughput,
            BenchStep::Latency => after_latency,
            BenchStep::ConnRate => BenchStep::StopProxy,
            BenchStep::StopProxy => if w.dns {
                BenchStep::StartDnsProxy
            } else {
                BenchStep::Finished
            },
            BenchStep::StartDnsProxy => BenchStep::WaitForDnsProxy,
            BenchStep::WaitForDnsProxy => if succeeded {
                BenchStep::SettleDns
            } else {
                BenchStep::StopDnsProxy
            },
            BenchStep::SettleDns => BenchStep::Dns,
            BenchStep::Dns => BenchStep::StopDnsProxy,
            BenchStep::StopDnsProxy => BenchStep::Finished,
            BenchStep::Finished => BenchStep::Finished,
            BenchStep::Failed => BenchStep::Failed,
        }
    }

    /// The process to reap when the run fails at this step. No process is left
    /// behind.
    pub fn to_reap(self) -> (c: Option<Child>)
        ensures
            c == self.child(),
    {
        match self {
            BenchStep::WaitForProxy
            | BenchStep::Settle
            | BenchStep::BinarySize
            | BenchStep::IdleRss
            | BenchStep::Warmup
            | BenchStep::Throughput
            | BenchStep::Latency
            | BenchStep::ConnRate
            | BenchStep::StopProxy => Some(Child::Proxy),
            BenchStep::WaitForDnsProxy
            | BenchStep::SettleDns
            | BenchStep::Dns
            | BenchStep::StopDnsProxy => Some(Child::DnsProxy),
            _ => None,
        }
    }
}

/// Every step brings a run nearer to its end, and a run that finishes has
/// stopped what it started: a process ends only by the step that stops it, or
/// by a failure.
pub proof fn law_run_ends(step: BenchStep, w: Workloads, succeeded: bool)
    ensures
        step.left() > 0 ==> step.after(w, succeeded).left() < step.left(),
        step.left() == 0 ==> step.after(w, succeeded).left() == 0,
        step.child() is Some && step.after(w, succeeded).child() != step.child() ==> step is StopProxy
            || step is StopDnsProxy || step.after(w, succeeded) is Failed,
{
}

/// The memory under load: the peak that was sampled, zero where the sampling
/// gave none; without a load, the memory at rest.
pub fn load_rss(w: Workloads, peak: Option<u64>, idle: u64) -> (n: u64)
    ensures
        n == (if w.connrate {
            match peak {
                Some(p) => p,
                None => 0,
            }
        } else {
            idle
        }),
{
    if w.connrate {
        match peak {
            Some(p) => p,
            None => 0,
        }
    } else {
        idle
    }
}

/// What to do while a port is waited for.
#[derive(Debug)]
pub enum PortWait {
    Ready,
    /// Try again after a while.
    Again,
    Fail(String),
}

/// What to do after a try to reach a port. A try that succeeds counts, though
/// the time is over.
pub fn wait_for_port(
    reached: bool,
    now: Instant,
    deadline: Instant,
    what: &str,
) -> (step: PortWait)
    ensures
        if reached {
            step is Ready
        } else if now.nanos >= deadline.nanos {
            step matches PortWait::Fail(e) && e@ == "timeout waiting for "@ + what@
                + " to become reachable"@
        } else {
            step is Again
        },
{
    if reached {
        PortWait::Ready
    } else if now.nanos >= deadline.nanos {
        PortWait::Fail(text::join3("timeout waiting for ", what, " to become reachable"))
    } else {
        PortWait::Again
    }
}

/// The query that a DNS port is probed with: for the address of a name that
/// does not exist. The record type is that of an IPv4 address.
pub fn dns_probe() -> (out: Result<Vec<u8>, String>)
    ensures
        match out {
            Ok(wire) => message::encoded_query(0, "ping.invalid."@, 1, true) == Ok::<
                Seq<u8>,
                Seq<char>,
            >(wire@),
            Err(e) => message::encoded_query(0, "ping.invalid."@, 1, true) == Err::<
                Seq<u8>,
                Seq<char>,
            >(e@),
        },
{
    message::encode_query(0, "ping.invalid.", 1, true)
}

/// The error for a leak run without its configuration.
pub fn memleak_config_missing(path: &str) -> (out: String)
    ensures
        out@ == "memleak config not found: "@ + path@
            + "  (create one with an ECH-TLS-tunnel proxy or pass --memleak-config)"@,
{
    text::join3(
        "memleak config not found: ",
        path,
        "  (create one with an ECH-TLS-tunnel proxy or pass --memleak-config)",
    )
}

} // verus!
