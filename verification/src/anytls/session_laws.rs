//! What holds of every connection, stream and writer of a session.
use crate::anytls::codec::Frame;
use crate::anytls::error::AnyTlsError;
use crate::anytls::padding::PaddingFactory;
use crate::anytls::server::{recv_end, ConnStep, Connection, RecvEnd, Server};
use crate::anytls::stream::{Outgoing, Stream};
use crate::anytls::stream_reader;
use crate::anytls::stream_reader::{ExactFate, ExactStep, ReadStep, StreamReader};
use crate::anytls::string_map::StringMap;
use crate::anytls::writer::{Admission, StreamWriter, WriteRequest};
use crate::io_error::IoError;
use crate::text;
use vstd::prelude::*;

verus! {

/// A client that sends the server's hash and the padding that it announces is
/// served, in however many pieces they arrive, and what follows them is the
/// session's.
pub proof fn law_client_is_served(
    conn: &mut Connection,
    server: &Server,
    data: &[u8],
    size: Seq<u8>,
    pad: Seq<u8>,
    rest: Seq<u8>,
    step: ConnStep,
)
    requires
        call_ensures(Connection::on_data, (conn, server, data), step),
        size.len() == 2,
        old(conn).pending@ + data@ == server.password_hash@ + size + pad + rest,
        size[0] * 256 + size[1] == pad.len(),
    ensures
        step matches ConnStep::Serve { handling, received } && received@ == rest && (handling
            is Custom <==> server.custom_handler),
        final(conn).phase is Serving,
        final(conn).pending@.len() == 0,
{
    let b = old(conn).pending@ + data@;
    assert(b.take(32) =~= server.password_hash@);
    assert(b[32] == size[0] && b[33] == size[1]);
    let (s0, s1): (u8, u8) = (size[0], size[1]);
    assert(s0 * 256 + s1 <= 65535);
    assert(b.skip(34 + pad.len() as int) =~= rest);
}

/// A client whose first bytes are not the server's hash is turned away.
pub proof fn law_client_is_turned_away(
    conn: &mut Connection,
    server: &Server,
    data: &[u8],
    i: int,
    step: ConnStep,
)
    requires
        call_ensures(Connection::on_data, (conn, server, data), step),
        (old(conn).pending@ + data@).len() >= 32,
        0 <= i < 32,
        (old(conn).pending@ + data@)[i] != server.password_hash@[i],
    ensures
        step matches ConnStep::Fail(e) && e is AuthenticationFailed,
        final(conn).phase is Closed,
{
    let b = old(conn).pending@ + data@;
    assert(b.take(32)[i] == b[i]);
}

/// Until a client has said enough, more is read and nothing is lost.
pub proof fn law_client_is_heard_out(
    conn: &mut Connection,
    server: &Server,
    data: &[u8],
    step: ConnStep,
)
    requires
        call_ensures(Connection::on_data, (conn, server, data), step),
        ({
            let b = old(conn).pending@ + data@;
            b.len() < 32 || ((forall|i: int|
                0 <= i < 32 ==> b[i] == #[trigger] server.password_hash@[i]) && (b.len() < 34
                || b.len() < 34 + b[32] * 256 + b[33]))
        }),
    ensures
        step is Read,
        final(conn).phase is Authenticating,
        final(conn).pending@ == old(conn).pending@ + data@,
{
    let b = old(conn).pending@ + data@;
    if b.len() >= 32 {
        assert(b.take(32) =~= server.password_hash@);
    }
    if b.len() >= 34 {
        let (s0, s1): (u8, u8) = (b[32], b[33]);
        assert(s0 * 256 + s1 <= 65535);
    }
}

/// Whether a text holds another.
pub open spec fn holds(s: Seq<char>, part: Seq<char>) -> bool {
    exists|a: Seq<char>, b: Seq<char>| s == #[trigger] (a + part + b)
}

proof fn lemma_holds(s: Seq<char>, part: Seq<char>)
    ensures
        holds(s, part) <==> text::has_part(s, part),
{
    if holds(s, part) {
        let (a, b) = choose|a: Seq<char>, b: Seq<char>| s == #[trigger] (a + part + b);
        assert(s.subrange(a.len() as int, a.len() as int + part.len()) =~= part);
        assert(text::text_at(s, part, a.len() as int));
    }
    if text::has_part(s, part) {
        let i = choose|i: int| #[trigger] text::text_at(s, part, i);
        assert(s =~= s.take(i) + part + s.skip(i + part.len()));
    }
}

/// A receive loop that an unexpected end stops, or an error that names a close
/// notice or an unexpected end, was ended by the peer; other errors are errors.
pub proof fn law_why_receiving_ended(e: IoError, end: RecvEnd)
    requires
        call_ensures(recv_end, (&Err::<(), AnyTlsError>(AnyTlsError::Io(e)),), end),
    ensures
        end is PeerClosed <==> e.kind is UnexpectedEof || holds(e.message@, "close_notify"@)
            || holds(e.message@, "unexpected EOF"@),
        end is PeerClosed || end is Error,
{
    lemma_holds(e.message@, "close_notify"@);
    lemma_holds(e.message@, "unexpected EOF"@);
}

/// A read gives what is left of the chunk being read, or the next chunk, as far
/// as it is wanted, and keeps what is not.
pub proof fn law_read_in_order(
    r: &mut StreamReader,
    want: usize,
    step: ReadStep,
    chunk: Seq<u8>,
)
    requires
        call_ensures(StreamReader::read, (r, want), step),
        if old(r).buffer().len() > 0 {
            chunk == old(r).buffer()
        } else {
            old(r).chunks().len() > 0 && chunk == old(r).chunks()[0]@
        },
    ensures
        chunk.len() <= want ==> (step matches ReadStep::Ready(d) && d@ == chunk) && final(r).buffer().len() == 0,
        chunk.len() > want ==> (step matches ReadStep::Ready(d) && d@.len() == want && d@ + final(r).buffer() == chunk),
        final(r).chunks().len() == old(r).chunks().len() - (if old(r).buffer().len() > 0 {
            0int
        } else {
            1
        }),
{
    assert(chunk.take(chunk.len() as int) =~= chunk);
    if chunk.len() > want {
        assert(chunk.take(want as int) + chunk.skip(want as int) =~= chunk);
    }
}

/// Without anything to read, a reader waits until the stream has ended, and
/// then gives nothing.
pub proof fn law_read_at_end(r: &mut StreamReader, want: usize, step: ReadStep)
    requires
        call_ensures(StreamReader::read, (r, want), step),
        old(r).buffer().len() == 0,
        old(r).chunks().len() == 0,
    ensures
        old(r).ended() ==> (step matches ReadStep::Ready(d) && d@.len() == 0),
        !old(r).ended() ==> step is Pending,
{
}

/// The bytes in some chunks, one chunk behind the other.
pub open spec fn bytes_of(chunks: Seq<Vec<u8>>) -> Seq<u8>
    decreases chunks.len(),
{
    if chunks.len() == 0 {
        Seq::empty()
    } else {
        bytes_of(chunks.drop_last()) + chunks.last()@
    }
}

proof fn lemma_joined(chunks: Seq<Vec<u8>>)
    ensures
        stream_reader::joined(chunks) == bytes_of(chunks),
    decreases chunks.len(),
{
    if chunks.len() == 1 {
        assert(chunks.drop_first() =~= Seq::empty());
        assert(chunks.drop_last() =~= Seq::empty());
        assert(stream_reader::joined(chunks.drop_first()) =~= Seq::empty());
        assert(bytes_of(chunks.drop_last()) =~= Seq::empty());
        assert(stream_reader::joined(chunks) =~= chunks[0]@);
        assert(bytes_of(chunks) =~= chunks[0]@);
    } else if chunks.len() > 1 {
        let mid = chunks.drop_first().drop_last();
        lemma_joined(chunks.drop_first());
        lemma_joined(chunks.drop_last());
        lemma_joined(mid);
        assert(mid =~= chunks.drop_last().drop_first());
        assert(chunks.drop_last()[0] == chunks[0]);
        assert(chunks.drop_first().last() == chunks.last());
        assert(stream_reader::joined(chunks) =~= chunks[0]@ + (bytes_of(mid) + chunks.last()@));
        assert(bytes_of(chunks) =~= (chunks[0]@ + stream_reader::joined(mid)) + chunks.last()@);
    }
}

proof fn lemma_exact(need: nat, buffer: Seq<u8>, chunks: Seq<Vec<u8>>, ended: bool)
    requires
        forall|i: int| 0 <= i < chunks.len() ==> (#[trigger] chunks[i])@.len() > 0,
    ensures
        ({
            let all = buffer.len() + stream_reader::joined(chunks).len();
            let (fate, taken) = stream_reader::exact_of(need, buffer, chunks, ended);
            if all >= need {
                fate is Done && taken == need
            } else {
                taken == all && (ended ==> fate is Fail) && (!ended ==> fate is Pending)
            }
        }),
    decreases chunks.len(),
{
    if buffer.len() < need && chunks.len() > 0 {
        let rest = chunks.drop_first();
        assert(chunks[0]@.len() > 0);
        assert forall|i: int| 0 <= i < rest.len() implies (#[trigger] rest[i])@.len() > 0 by {
            assert(rest[i] == chunks[i + 1]);
        }
        lemma_exact((need - buffer.len()) as nat, chunks[0]@, rest, ended);
    }
}

/// When no chunk is empty, reading a number of bytes gives them as soon as that
/// many have been delivered, in their order, and leaves the others. Before that
/// it takes what there is and waits, or fails at the end of the stream.
pub proof fn law_read_exact(
    r: &mut StreamReader,
    got: &mut Vec<u8>,
    total: usize,
    step: ExactStep,
    there: Seq<u8>,
)
    requires
        call_ensures(StreamReader::read_exact, (r, got, total), step),
        old(got)@.len() <= total,
        forall|i: int| 0 <= i < old(r).chunks().len() ==> (#[trigger] old(r).chunks()[i])@.len()
            > 0,
        there == old(r).buffer() + bytes_of(old(r).chunks()),
    ensures
        old(got)@.len() + there.len() >= total ==> step is Done && final(got)@ == (old(got)@
            + there).take(total as int) && final(r).buffer() + bytes_of(final(r).chunks()) == (old(got)@ + there).skip(total as int),
        old(got)@.len() + there.len() < total ==> final(got)@ == old(got)@ + there && (if old(r).ended() {
            step matches ExactStep::Fail(e) && (e matches AnyTlsError::Io(io) && io.kind
                is UnexpectedEof)
        } else {
            step is Pending
        }),
{
    lemma_joined(old(r).chunks());
    lemma_joined(final(r).chunks());
    lemma_exact(
        (total - old(got)@.len()) as nat,
        old(r).buffer(),
        old(r).chunks(),
        old(r).ended(),
    );
    let all = old(got)@ + there;
    assert(old(r).unread() =~= there);
    let f = final(got)@;
    assert(all =~= f + final(r).unread());
    assert(f =~= all.take(f.len() as int));
    assert(final(r).unread() =~= all.skip(f.len() as int));
    if f.len() == all.len() {
        assert(all.take(f.len() as int) =~= all);
    }
}

/// Up to sixty-four frames wait; a frame of more than 65535 bytes is refused,
/// and so is any frame once the session is closed.
pub proof fn law_frames_are_admitted(
    fresh: StreamWriter,
    w: &mut StreamWriter,
    frame: Frame,
    a: Admission,
)
    requires
        call_ensures(StreamWriter::new, (), fresh),
        old(w).wf(),
        call_ensures(StreamWriter::write_frame, (w, frame), a),
    ensures
        fresh.free() == 64 && fresh.waiting().len() == 0 && !fresh.is_shut(),
        frame.data@.len() > 65535 ==> a is Refused && final(w).waiting() == old(w).waiting(),
        old(w).is_shut() ==> a is Refused && final(w).waiting() == old(w).waiting(),
        frame.data@.len() <= 65535 && !old(w).is_shut() && old(w).free() > 0 ==> a is Queued
            && final(w).waiting() == old(w).waiting().push(
            WriteRequest::Frame { frame, counted: true },
        ) && final(w).free() + 1 == old(w).free(),
        frame.data@.len() <= 65535 && !old(w).is_shut() && old(w).free() == 0 ==> a
            == Admission::Wait(frame) && final(w).waiting() == old(w).waiting(),
{
}

/// Requests are taken out in the order in which they came, and a frame that
/// was counted makes room for another.
pub proof fn law_first_in_first_out(w: &mut StreamWriter, out: Option<WriteRequest>)
    requires
        old(w).wf(),
        call_ensures(StreamWriter::next, (w,), out),
    ensures
        old(w).waiting().len() == 0 ==> out is None && final(w).free() == old(w).free(),
        old(w).waiting().len() > 0 ==> out == Some(old(w).waiting()[0]) && seq![
            old(w).waiting()[0],
        ] + final(w).waiting() == old(w).waiting() && final(w).free() == old(w).free() + (
        if old(w).waiting()[0] matches WriteRequest::Frame { counted, .. } && counted {
            1int
        } else {
            0
        }),
{
    if old(w).waiting().len() > 0 {
        assert(seq![old(w).waiting()[0]] + final(w).waiting() =~= old(w).waiting());
    }
}

/// An open stream sends what is written under its number; closing it sends an
/// empty piece once, and after that nothing can be written.
pub proof fn law_stream_is_closed(
    id: u32,
    fresh: Stream,
    s: &mut Stream,
    again: &mut Stream,
    after: Stream,
    buf: &[u8],
    sent: Result<Outgoing, AnyTlsError>,
    refused: Result<Outgoing, AnyTlsError>,
    end: Option<Outgoing>,
    none: Option<Outgoing>,
    shut: bool,
)
    requires
        call_ensures(Stream::new, (id,), fresh),
        call_ensures(Stream::start_write, (&fresh, buf), sent),
        *old(s) == fresh,
        call_ensures(Stream::close, (s,), end),
        *old(again) == *final(s),
        call_ensures(Stream::close, (again,), none),
        after == *final(again),
        call_ensures(Stream::start_write, (&after, buf), refused),
        call_ensures(Stream::is_closed, (&after,), shut),
    ensures
        sent matches Ok(o) && o.0 == id && o.1@ == buf@,
        end matches Some(o) && o.0 == id && o.1@.len() == 0,
        none is None,
        refused is Err,
        shut,
{
}

/// The answer to an opening is told once.
pub proof fn law_answer_is_told_once(
    id: u32,
    fresh: Stream,
    s: &mut Stream,
    again: &mut Stream,
    first: Option<Result<(), AnyTlsError>>,
    second: Option<Result<(), AnyTlsError>>,
)
    requires
        call_ensures(Stream::new, (id,), fresh),
        *old(s) == fresh,
        call_ensures(Stream::notify_synack, (s, Ok::<(), AnyTlsError>(())), first),
        *old(again) == *final(s),
        call_ensures(Stream::notify_synack, (again, Ok::<(), AnyTlsError>(())), second),
    ensures
        first matches Some(Ok(_)),
        second is None,
{
}

/// Only the first error closes a stream.
pub proof fn law_first_error_closes(
    id: u32,
    fresh: Stream,
    s: &mut Stream,
    again: &mut Stream,
    one: AnyTlsError,
    two: AnyTlsError,
    done: (),
)
    requires
        call_ensures(Stream::new, (id,), fresh),
        *old(s) == fresh,
        call_ensures(Stream::close_with_error, (s, one), done),
        *old(again) == *final(s),
        call_ensures(Stream::close_with_error, (again, two), done),
    ensures
        final(again).shut_by() == Some(one),
        final(again).is_shut(),
{
}

/// A value that was set under a key is found there, whatever was there before,
/// and other keys keep theirs.
pub proof fn law_settings_are_found(
    m: &mut StringMap,
    after: StringMap,
    key: &str,
    value: &str,
    other: &str,
    done: (),
    got: Option<&String>,
    before_other: Option<&String>,
    after_other: Option<&String>,
    there: bool,
)
    requires
        old(m).wf(),
        call_ensures(StringMap::insert, (m, key, value), done),
        after == *final(m),
        call_ensures(StringMap::get, (&after, key), got),
        call_ensures(StringMap::contains_key, (&after, key), there),
        call_ensures(StringMap::get, (&*old(m), other), before_other),
        call_ensures(StringMap::get, (&after, other), after_other),
        other@ != key@,
    ensures
        got matches Some(v) && v@ == value@,
        there,
        before_other is Some <==> after_other is Some,
        before_other matches Some(v) ==> after_other->0@ == v@,
{
}

/// The scheme that all share can be set once, before it is first used; until it
/// is set, the built-in one is used.
pub proof fn law_shared_scheme(
    shared: &mut Option<PaddingFactory>,
    raw: &[u8],
    r: Result<(), String>,
    alone: Result<PaddingFactory, String>,
)
    requires
        call_ensures(PaddingFactory::update_default, (shared, raw), r),
        call_ensures(PaddingFactory::new, (raw,), alone),
    ensures
        r is Ok <==> alone is Ok && *old(shared) is None,
        r is Err ==> *final(shared) == *old(shared),
        r is Ok ==> (*final(shared) matches Some(f) && f.wf() && f.raw() == raw@),
{
}

} // verus!
