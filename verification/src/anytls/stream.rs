//! The writing side and the life of one stream of a session.
use crate::anytls::error::{error_text, io_error, AnyTlsError, ErrorKind};
use crate::octets;
use vstd::prelude::*;

verus! {

/// What a stream hands to its session: the stream's ID and some data. Empty
/// data asks the session to end the stream.
pub type Outgoing = (u32, Vec<u8>);

/// One stream of a session.
#[derive(Debug)]
pub struct Stream {
    id: u32,
    closed: bool,
    close_error: Option<AnyTlsError>,
    fin_sent: bool,
    /// Whoever opened the stream still waits for its acknowledgement.
    synack_waiting: bool,
}

impl Stream {
    /// The stream's ID.
    pub closed spec fn stream_id(&self) -> u32 {
        self.id
    }

    /// Whether the stream is closed.
    pub closed spec fn is_shut(&self) -> bool {
        self.closed
    }

    /// The error that closed the stream, if one did.
    pub closed spec fn shut_by(&self) -> Option<AnyTlsError> {
        self.close_error
    }

    /// Whether the session was asked to end the stream.
    pub closed spec fn ended(&self) -> bool {
        self.fin_sent
    }

    /// Whether the acknowledgement is still awaited.
    pub closed spec fn awaits_synack(&self) -> bool {
        self.synack_waiting
    }

    /// A stream that was ended is closed, and so is one that an error closed.
    pub open spec fn wf(&self) -> bool {
        (self.ended() ==> self.is_shut()) && (self.shut_by() is Some ==> self.is_shut())
    }

    /// An open stream whose acknowledgement is awaited.
    pub fn new(id: u32) -> (s: Self)
        ensures
            s.wf(),
            s.stream_id() == id,
            !s.is_shut(),
            s.shut_by() is None,
            !s.ended(),
            s.awaits_synack(),
    {
        Stream { id, closed: false, close_error: None, fin_sent: false, synack_waiting: true }
    }

    /// The acknowledgement arrived. The first one goes to whoever opened the
    /// stream, an error as the text it has; any later one is dropped.
    pub fn notify_synack(&mut self, result: Result<(), AnyTlsError>) -> (out: Option<
        Result<(), AnyTlsError>,
    >)
        requires
            old(self).wf(),
        ensures
            final(self).wf(),
            !final(self).awaits_synack(),
            final(self).stream_id() == old(self).stream_id(),
            final(self).is_shut() == old(self).is_shut(),
            final(self).shut_by() == old(self).shut_by(),
            final(self).ended() == old(self).ended(),
            if old(self).awaits_synack() {
                match result {
                    Ok(_) => out matches Some(Ok(_)),
                    Err(e) => out matches Some(Err(told)) && told.is_protocol(error_text(e)),
                }
            } else {
                out is None
            },
    {
        if !self.synack_waiting {
            return None;
        }
        self.synack_waiting = false;
        match result {
            Ok(_) => Some(Ok(())),
            Err(e) => Some(Err(AnyTlsError::Protocol(e.message()))),
        }
    }

    /// The stream's ID.
    pub fn id(&self) -> (id: u32)
        ensures
            id == self.stream_id(),
    {
        self.id
    }

    /// Closes the stream with an error. A stream that is already closed keeps
    /// what it has.
    pub fn close_with_error(&mut self, err: AnyTlsError)
        requires
            old(self).wf(),
        ensures
            final(self).wf(),
            final(self).is_shut(),
            final(self).stream_id() == old(self).stream_id(),
            final(self).ended() == old(self).ended(),
            final(self).awaits_synack() == old(self).awaits_synack(),
            final(self).shut_by() == if old(self).is_shut() {
                old(self).shut_by()
            } else {
                Some(err)
            },
    {
        if !self.closed {
            self.closed = true;
            self.close_error = Some(err);
        }
    }

    /// Whether the stream is closed.
    pub fn is_closed(&self) -> (b: bool)
        ensures
            b == self.is_shut(),
    {
        self.closed
    }

    /// Closes the stream. The session is asked to end it the first time only:
    /// what is handed out then goes to the session.
    pub fn close(&mut self) -> (out: Option<Outgoing>)
        requires
            old(self).wf(),
        ensures
            final(self).wf(),
            final(self).is_shut(),
            final(self).ended(),
            final(self).stream_id() == old(self).stream_id(),
            final(self).shut_by() == old(self).shut_by(),
            final(self).awaits_synack() == old(self).awaits_synack(),
            if old(self).ended() {
                out is None
            } else {
                out matches Some(o) && o.0 == old(self).stream_id() && o.1@.len() == 0
            },
    {
        self.closed = true;
        if self.fin_sent {
            None
        } else {
            self.fin_sent = true;
            Some((self.id, Vec::new()))
        }
    }

    /// The data for the session that a write of `buf` makes. A closed stream
    /// cannot be written to.
    pub fn start_write(&self, buf: &[u8]) -> (r: Result<Outgoing, AnyTlsError>)
        ensures
            if self.is_shut() {
                r matches Err(e) && e.is_io(ErrorKind::BrokenPipe, "stream closed"@)
            } else {
                r matches Ok(o) && o.0 == self.stream_id() && o.1@ == buf@
            },
    {
        if self.closed {
            return Err(io_error(ErrorKind::BrokenPipe, "stream closed"));
        }
        Ok((self.id, octets::copy(buf)))
    }

    /// The outcome of a write of `len` bytes, given whether the session took
    /// the data: all of it was written, or the session is gone.
    pub fn finish_write(taken: bool, len: usize) -> (r: Result<usize, AnyTlsError>)
        ensures
            if taken {
                r matches Ok(n) && n == len
            } else {
                r matches Err(e) && e.is_io(ErrorKind::BrokenPipe, "session channel closed"@)
            },
    {
        if taken {
            Ok(len)
        } else {
            Err(io_error(ErrorKind::BrokenPipe, "session channel closed"))
        }
    }

    /// Data for the session, whether or not the stream is closed.
    pub fn send_data(&self, data: Vec<u8>) -> (out: Outgoing)
        ensures
            out.0 == self.stream_id(),
            out.1@ == data@,
    {
        (self.id, data)
    }
}

} // verus!
