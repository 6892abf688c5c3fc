//! Admission to a session's single wire writer: a queue with a budget.
use crate::anytls::codec::Frame;
use crate::anytls::error::{protocol_error, AnyTlsError};
use vstd::prelude::*;

verus! {

/// Most bytes that the payload of a frame may have.
pub const MAX_FRAME_PAYLOAD: usize = 65535;

/// Most counted frames that may be queued at once.
pub const QUEUED_FRAMES: usize = 64;

/// What waits to be written.
#[derive(Debug)]
pub enum WriteRequest {
    /// A frame, and whether it counts against the budget.
    Frame { frame: Frame, counted: bool },
    /// Tell the requester once all before it is written.
    Flush,
}

/// The outcome of asking for a frame to be written.
#[derive(Debug)]
pub enum Admission {
    /// The frame is queued.
    Queued,
    /// The budget is used up: ask again with this frame.
    Wait(Frame),
    Refused(AnyTlsError),
}

/// How many queued requests count against the budget.
pub open spec fn counted_in(queue: Seq<WriteRequest>) -> nat
    decreases queue.len(),
{
    if queue.len() == 0 {
        0
    } else {
        counted_in(queue.drop_first()) + if queue[0] matches WriteRequest::Frame { counted, .. }
            && counted {
            1nat
        } else {
            0nat
        }
    }
}

proof fn lemma_counted_push(queue: Seq<WriteRequest>, r: WriteRequest)
    ensures
        counted_in(queue.push(r)) == counted_in(queue) + if r matches WriteRequest::Frame {
            counted,
            ..
        } && counted {
            1nat
        } else {
            0nat
        },
    decreases queue.len(),
{
    let all = queue.push(r);
    if queue.len() == 0 {
        assert(all.drop_first() =~= Seq::empty());
        assert(counted_in(all.drop_first()) == 0);
    } else {
        lemma_counted_push(queue.drop_first(), r);
        assert(all.drop_first() =~= queue.drop_first().push(r));
    }
}

/// The queue of a session's writer.
#[derive(Debug)]
pub struct StreamWriter {
    queue: Vec<WriteRequest>,
    permits: usize,
    closed: bool,
}

impl StreamWriter {
    /// What waits to be written, in order.
    pub closed spec fn waiting(&self) -> Seq<WriteRequest> {
        self.queue@
    }

    /// How many more counted frames are admitted.
    pub closed spec fn free(&self) -> nat {
        self.permits as nat
    }

    /// Whether the writer takes no more.
    pub closed spec fn is_shut(&self) -> bool {
        self.closed
    }

    /// Every counted frame in the queue holds a part of the budget.
    pub open spec fn wf(&self) -> bool {
        self.free() + counted_in(self.waiting()) == QUEUED_FRAMES
    }

    /// An open writer with an empty queue.
    pub fn new() -> (w: Self)
        ensures
            w.wf(),
            w.waiting().len() == 0,
            w.free() == QUEUED_FRAMES,
            !w.is_shut(),
    {
        StreamWriter { queue: Vec::new(), permits: QUEUED_FRAMES, closed: false }
    }

    /// Takes no more from now on.
    pub fn close(&mut self)
        requires
            old(self).wf(),
        ensures
            final(self).wf(),
            final(self).is_shut(),
            final(self).waiting() == old(self).waiting(),
            final(self).free() == old(self).free(),
    {
        self.closed = true;
    }

    /// Queues a frame outside the budget, such as the end of a stream.
    pub fn enqueue(&mut self, frame: Frame) -> (r: Result<(), AnyTlsError>)
        requires
            old(self).wf(),
        ensures
            final(self).wf(),
            final(self).free() == old(self).free(),
            final(self).is_shut() == old(self).is_shut(),
            if old(self).is_shut() {
                (r matches Err(e) && e is SessionClosed) && final(self).waiting() == old(
                    self,
                ).waiting()
            } else {
                r is Ok && final(self).waiting() == old(self).waiting().push(
                    WriteRequest::Frame { frame, counted: false },
                )
            },
    {
        if self.closed {
            return Err(AnyTlsError::SessionClosed);
        }
        proof {
            lemma_counted_push(self.queue@, WriteRequest::Frame { frame, counted: false });
        }
        self.queue.push(WriteRequest::Frame { frame, counted: false });
        Ok(())
    }

    /// Queues a frame within the budget. A payload that the length field cannot
    /// count is refused, and so is anything once the writer is closed; while
    /// the budget is used up the caller waits.
    pub fn write_frame(&mut self, frame: Frame) -> (a: Admission)
        requires
            old(self).wf(),
        ensures
            final(self).wf(),
            final(self).is_shut() == old(self).is_shut(),
            if frame.data@.len() > MAX_FRAME_PAYLOAD {
                &&& a matches Admission::Refused(e) && e.is_protocol(
                    "frame payload exceeds u16 length"@,
                )
                &&& final(self).waiting() == old(self).waiting()
                &&& final(self).free() == old(self).free()
            } else if old(self).is_shut() {
                &&& a matches Admission::Refused(e) && e is SessionClosed
                &&& final(self).waiting() == old(self).waiting()
                &&& final(self).free() == old(self).free()
            } else if old(self).free() == 0 {
                &&& a == Admission::Wait(frame)
                &&& final(self).waiting() == old(self).waiting()
                &&& final(self).free() == 0
            } else {
                &&& a is Queued
                &&& final(self).waiting() == old(self).waiting().push(
                    WriteRequest::Frame { frame, counted: true },
                )
                &&& final(self).free() == old(self).free() - 1
            },
    {
        if frame.data.len() > MAX_FRAME_PAYLOAD {
            return Admission::Refused(protocol_error("frame payload exceeds u16 length"));
        }
        if self.closed {
            return Admission::Refused(AnyTlsError::SessionClosed);
        }
        if self.permits == 0 {
            return Admission::Wait(frame);
        }
        proof {
            lemma_counted_push(self.queue@, WriteRequest::Frame { frame, counted: true });
        }
        self.permits = self.permits - 1;
        self.queue.push(WriteRequest::Frame { frame, counted: true });
        Admission::Queued
    }

    /// Queues a flush marker, outside the budget.
    pub fn flush(&mut self) -> (r: Result<(), AnyTlsError>)
        requires
            old(self).wf(),
        ensures
            final(self).wf(),
            final(self).free() == old(self).free(),
            final(self).is_shut() == old(self).is_shut(),
            if old(self).is_shut() {
                (r matches Err(e) && e is SessionClosed) && final(self).waiting() == old(
                    self,
                ).waiting()
            } else {
                r is Ok && final(self).waiting() == old(self).waiting().push(WriteRequest::Flush)
            },
    {
        if self.closed {
            return Err(AnyTlsError::SessionClosed);
        }
        proof {
            lemma_counted_push(self.queue@, WriteRequest::Flush);
        }
        self.queue.push(WriteRequest::Flush);
        Ok(())
    }

    /// Hands out what is to be written next and gives its part of the budget
    /// back.
    pub fn next(&mut self) -> (out: Option<WriteRequest>)
        requires
            old(self).wf(),
        ensures
            final(self).wf(),
            final(self).is_shut() == old(self).is_shut(),
            if old(self).waiting().len() == 0 {
                out is None && final(self).waiting().len() == 0
            } else {
                out == Some(old(self).waiting()[0]) && final(self).waiting() == old(
                    self,
                ).waiting().drop_first()
            },
    {
        if self.queue.len() == 0 {
            return None;
        }
        let ghost before = self.queue@;
        let request = self.queue.remove(0);
        assert(self.queue@ =~= before.drop_first());
        let counted = match &request {
            WriteRequest::Frame { counted, .. } => *counted,
            WriteRequest::Flush => false,
        };
        if counted {
            self.permits = self.permits + 1;
        }
        Some(request)
    }
}

/// How the write of a queued frame, or a flush, came out: as the writer reports
/// it. A writer that is gone without a report has closed its session.
pub fn written(completion: Option<Result<(), AnyTlsError>>) -> (r: Result<(), AnyTlsError>)
    ensures
        match completion {
            Some(outcome) => r == outcome,
            None => r matches Err(e) && e is SessionClosed,
        },
{
    match completion {
        Some(outcome) => outcome,
        None => Err(AnyTlsError::SessionClosed),
    }
}

} // verus!
