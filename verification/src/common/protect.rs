//! Opening sockets that a protector has to see first.
//!
//! Inside a VPN every outbound socket has to bypass the VPN itself. So the
//! installed protector is called before the socket connects or binds, and the
//! very first packet already goes around the tunnel.
use vstd::prelude::*;

verus! {

/// What a socket is opened for.
#[derive(Clone, Copy, Debug, PartialEq, Eq, Structural)]
pub enum SocketUse {
    /// Connecting to an address.
    Tcp,
    /// Binding to an address.
    Udp,
}

/// A step of opening a socket.
#[derive(Clone, Copy, Debug, PartialEq, Eq, Structural)]
pub enum SocketStep {
    Create,
    /// Hand the socket to the protector.
    Protect,
    SetNonblocking,
    /// Connect or bind.
    Open,
    /// Wait until the socket can be written to.
    AwaitWritable,
    /// Look for the error of the connection.
    TakeError,
    Ready,
    /// Give up with the error of the step before.
    Failed,
}

impl SocketStep {
    /// The step behind this one. A step that fails ends it all.
    pub open spec fn after(self, for_use: SocketUse, succeeded: bool) -> SocketStep {
        if !succeeded {
            SocketStep::Failed
        } else {
            match self {
                SocketStep::Create => SocketStep::Protect,
                SocketStep::Protect => SocketStep::SetNonblocking,
                SocketStep::SetNonblocking => SocketStep::Open,
                SocketStep::Open => if for_use is Tcp {
                    SocketStep::AwaitWritable
                } else {
                    SocketStep::Ready
                },
                SocketStep::AwaitWritable => SocketStep::TakeError,
                SocketStep::TakeError => SocketStep::Ready,
                SocketStep::Ready => SocketStep::Ready,
                SocketStep::Failed => SocketStep::Failed,
            }
        }
    }

    /// The step behind this one.
    pub fn next(self, for_use: SocketUse, succeeded: bool) -> (step: SocketStep)
        ensures
            step == self.after(for_use, succeeded),
    {
        if !succeeded {
            return SocketStep::Failed;
        }
        match self {
            SocketStep::Create => SocketStep::Protect,
            SocketStep::Protect => SocketStep::SetNonblocking,
            SocketStep::SetNonblocking => SocketStep::Open,
            SocketStep::Open => match for_use {
                SocketUse::Tcp => SocketStep::AwaitWritable,
                SocketUse::Udp => SocketStep::Ready,
            },
            SocketStep::AwaitWritable => SocketStep::TakeError,
            SocketStep::TakeError => SocketStep::Ready,
            SocketStep::Ready => SocketStep::Ready,
            SocketStep::Failed => SocketStep::Failed,
        }
    }
}

/// How a connect on a socket that does not block ended.
#[derive(Clone, Copy, Debug, PartialEq, Eq, Structural)]
pub enum ConnectStart {
    Connected,
    /// It goes on in the background.
    InProgress,
    /// It would have blocked.
    WouldBlock,
    Error,
}

/// Whether a connect has begun: one that goes on in the background has.
pub fn connect_begun(start: ConnectStart) -> (b: bool)
    ensures
        b == !(start is Error),
{
    match start {
        ConnectStart::Error => false,
        _ => true,
    }
}

/// Whether some steps, each with its outcome, are the course of opening a
/// socket from its start.
pub open spec fn is_course(steps: Seq<(SocketStep, bool)>, for_use: SocketUse) -> bool {
    &&& steps.len() > 0 ==> steps[0].0 is Create
    &&& forall|i: int|
        0 <= i < steps.len() - 1 ==> #[trigger] steps[i + 1].0 == steps[i].0.after(
            for_use,
            steps[i].1,
        )
}

/// A socket connects or binds, and is ready, only after the protector took it.
pub proof fn law_protected_first(steps: Seq<(SocketStep, bool)>, for_use: SocketUse, k: int)
    requires
        is_course(steps, for_use),
        0 <= k < steps.len(),
        steps[k].0 is Open || steps[k].0 is Ready,
    ensures
        exists|j: int| 0 <= j < k && #[trigger] steps[j] == (SocketStep::Protect, true),
    decreases k,
{
    assert(k > 0);
    assert(steps[k - 1 + 1].0 == steps[k - 1].0.after(for_use, steps[k - 1].1));
    if steps[k].0 is Open {
        assert(steps[k - 1].0 is SetNonblocking);
        assert(k - 1 > 0);
        assert(steps[k - 2 + 1].0 == steps[k - 2].0.after(for_use, steps[k - 2].1));
        assert(steps[k - 2] == (SocketStep::Protect, true));
    } else if steps[k - 1].0 is Ready || steps[k - 1].0 is Open {
        law_protected_first(steps, for_use, k - 1);
    } else {
        assert(steps[k - 1].0 is TakeError);
        assert(steps[k - 2 + 1].0 == steps[k - 2].0.after(for_use, steps[k - 2].1));
        assert(steps[k - 2].0 is AwaitWritable);
        assert(steps[k - 3 + 1].0 == steps[k - 3].0.after(for_use, steps[k - 3].1));
        assert(steps[k - 3].0 is Open);
        law_protected_first(steps, for_use, k - 3);
    }
}

} // verus!
