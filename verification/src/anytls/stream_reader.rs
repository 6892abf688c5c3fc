//! Reading from one stream of a session.
use crate::anytls::error::{io_error, AnyTlsError, ErrorKind};
use crate::octets;
use crate::text;
use vstd::prelude::*;

verus! {

/// The bytes of some chunks, one after the other.
pub open spec fn joined(chunks: Seq<Vec<u8>>) -> Seq<u8>
    decreases chunks.len(),
{
    if chunks.len() == 0 {
        Seq::empty()
    } else {
        chunks[0]@ + joined(chunks.drop_first())
    }
}

proof fn lemma_joined_push(chunks: Seq<Vec<u8>>, chunk: Vec<u8>)
    ensures
        joined(chunks.push(chunk)) == joined(chunks) + chunk@,
    decreases chunks.len(),
{
    let all = chunks.push(chunk);
    if chunks.len() == 0 {
        assert(all.drop_first() =~= Seq::empty());
        assert(all[0] == chunk);
        assert(joined(all.drop_first()) =~= Seq::empty());
        assert(joined(all) =~= chunk@);
        assert(joined(chunks) + chunk@ =~= chunk@);
    } else {
        lemma_joined_push(chunks.drop_first(), chunk);
        assert(all.drop_first() =~= chunks.drop_first().push(chunk));
        assert(joined(all) =~= joined(chunks) + chunk@);
    }
}

/// What is read from one stream. The session delivers chunks; the reader hands
/// them out in pieces of any size.
#[derive(Debug)]
pub struct StreamReader {
    id: u32,
    /// Chunks that the session delivered.
    inbox: Vec<Vec<u8>>,
    /// The session will deliver no more.
    finished: bool,
    /// The rest of a chunk that was handed out in part.
    reader_buffer: Vec<u8>,
    eof: bool,
}

/// The outcome of a read.
#[derive(Debug)]
pub enum ReadStep {
    /// These bytes; none at the end of the stream.
    Ready(Vec<u8>),
    /// Nothing has been delivered yet.
    Pending,
}

/// The outcome of reading a given number of bytes.
#[derive(Debug)]
pub enum ExactStep {
    Done,
    Pending,
    Fail(AnyTlsError),
}

/// The smaller of two numbers.
pub open spec fn least(a: nat, b: nat) -> int {
    if a <= b {
        a as int
    } else {
        b as int
    }
}

/// How reading an exact number of bytes ends.
pub enum ExactFate {
    Done,
    /// More has to arrive first.
    Pending,
    /// A read gave nothing.
    Fail,
}

/// How reading `need` bytes ends, and how many bytes it takes: from what is
/// left of a chunk first, then chunk by chunk.
pub open spec fn exact_of(
    need: nat,
    buffer: Seq<u8>,
    chunks: Seq<Vec<u8>>,
    ended: bool,
) -> (ExactFate, nat)
    decreases chunks.len(),
{
    if buffer.len() >= need {
        (ExactFate::Done, need)
    } else if chunks.len() == 0 {
        (
            if ended {
                ExactFate::Fail
            } else {
                ExactFate::Pending
            },
            buffer.len(),
        )
    } else if chunks[0]@.len() == 0 {
        (ExactFate::Fail, buffer.len())
    } else {
        let rest = exact_of(
            (need - buffer.len()) as nat,
            chunks[0]@,
            chunks.drop_first(),
            ended,
        );
        (rest.0, buffer.len() + rest.1)
    }
}

impl StreamReader {
    /// The stream's ID.
    pub closed spec fn stream_id(&self) -> u32 {
        self.id
    }

    /// The chunks that are still to be handed out.
    pub closed spec fn chunks(&self) -> Seq<Vec<u8>> {
        self.inbox@
    }

    /// The rest of a chunk that was handed out in part.
    pub closed spec fn buffer(&self) -> Seq<u8> {
        self.reader_buffer@
    }

    /// Whether the session will deliver no more.
    pub closed spec fn ended(&self) -> bool {
        self.finished
    }

    /// Whether the end of the stream was reached.
    pub closed spec fn at_eof(&self) -> bool {
        self.eof
    }

    /// Everything that was delivered and not yet handed out.
    pub open spec fn unread(&self) -> Seq<u8> {
        self.buffer() + joined(self.chunks())
    }

    /// The end is reached only when all was handed out.
    pub open spec fn wf(&self) -> bool {
        self.at_eof() ==> self.ended() && self.buffer().len() == 0 && self.chunks().len() == 0
    }

    /// A reader to which nothing was delivered.
    pub fn new(id: u32) -> (r: Self)
        ensures
            r.wf(),
            r.stream_id() == id,
            r.unread().len() == 0,
            r.buffer().len() == 0,
            r.chunks().len() == 0,
            !r.ended(),
            !r.at_eof(),
    {
        StreamReader {
            id,
            inbox: Vec::new(),
            finished: false,
            reader_buffer: Vec::new(),
            eof: false,
        }
    }

    /// The session delivers a chunk.
    pub fn deliver(&mut self, chunk: Vec<u8>)
        requires
            old(self).wf(),
            !old(self).ended(),
        ensures
            final(self).wf(),
            final(self).stream_id() == old(self).stream_id(),
            final(self).buffer() == old(self).buffer(),
            final(self).chunks() == old(self).chunks().push(chunk),
            final(self).unread() == old(self).unread() + chunk@,
            final(self).ended() == old(self).ended(),
            final(self).at_eof() == old(self).at_eof(),
    {
        proof {
            lemma_joined_push(self.inbox@, chunk);
        }
        let ghost before = self.unread();
        self.inbox.push(chunk);
        assert(self.unread() =~= before + chunk@);
    }

    /// The session will deliver no more.
    pub fn finish(&mut self)
        requires
            old(self).wf(),
        ensures
            final(self).wf(),
            final(self).stream_id() == old(self).stream_id(),
            final(self).buffer() == old(self).buffer(),
            final(self).chunks() == old(self).chunks(),
            final(self).ended(),
            final(self).at_eof() == old(self).at_eof(),
    {
        self.finished = true;
    }

    /// Reads at most `want` bytes: from what is left of the last chunk, else
    /// from the next chunk. Once all chunks are used up and there will be no
    /// more, the end is reached and every read gives nothing.
    pub fn read(&mut self, want: usize) -> (step: ReadStep)
        requires
            old(self).wf(),
        ensures
            final(self).wf(),
            final(self).stream_id() == old(self).stream_id(),
            final(self).ended() == old(self).ended(),
            if old(self).buffer().len() > 0 {
                let n = least(old(self).buffer().len(), want as nat);
                &&& step matches ReadStep::Ready(d) && d@ == old(self).buffer().take(n)
                &&& final(self).buffer() == old(self).buffer().skip(n)
                &&& final(self).chunks() == old(self).chunks()
                &&& final(self).at_eof() == old(self).at_eof()
            } else if old(self).chunks().len() > 0 {
                let chunk = old(self).chunks()[0]@;
                let n = least(chunk.len(), want as nat);
                &&& step matches ReadStep::Ready(d) && d@ == chunk.take(n)
                &&& final(self).buffer() == chunk.skip(n)
                &&& final(self).chunks() == old(self).chunks().drop_first()
                &&& final(self).at_eof() == old(self).at_eof()
            } else {
                &&& final(self).buffer().len() == 0
                &&& final(self).chunks().len() == 0
                &&& if old(self).ended() {
                    (step matches ReadStep::Ready(d) && d@.len() == 0) && final(self).at_eof()
                } else {
                    step is Pending && !final(self).at_eof()
                }
            },
            step matches ReadStep::Ready(d) ==> d@.len() <= want && old(self).unread() == d@
                + final(self).unread(),
            step is Pending ==> final(self).unread() == old(self).unread(),
    {
        let ghost before = self.unread();
        if self.eof && self.reader_buffer.len() == 0 {
            assert(before =~= Seq::empty());
            return ReadStep::Ready(Vec::new());
        }
        if self.reader_buffer.len() > 0 {
            let total: usize = self.reader_buffer.len();
            let n: usize = if total <= want {
                total
            } else {
                want
            };
            let ghost buf = self.reader_buffer@;
            let out = octets::copy_range(self.reader_buffer.as_slice(), 0, n);
            let rest = octets::copy_range(self.reader_buffer.as_slice(), n, total);
            self.reader_buffer = rest;
            assert(out@ =~= buf.take(n as int));
            assert(self.reader_buffer@ =~= buf.skip(n as int));
            assert(before =~= out@ + self.unread());
            return ReadStep::Ready(out);
        }
        if self.inbox.len() > 0 {
            let ghost chunks = self.inbox@;
            let data = self.inbox.remove(0);
            assert(self.inbox@ =~= chunks.drop_first());
            let total: usize = data.len();
            let n: usize = if total <= want {
                total
            } else {
                want
            };
            let out = octets::copy_range(data.as_slice(), 0, n);
            self.reader_buffer = octets::copy_range(data.as_slice(), n, total);
            assert(out@ =~= data@.take(n as int));
            assert(self.reader_buffer@ =~= data@.skip(n as int));
            assert(before =~= out@ + self.unread());
            return ReadStep::Ready(out);
        }
        if self.finished {
            self.eof = true;
            assert(before =~= Seq::empty());
            ReadStep::Ready(Vec::new())
        } else {
            ReadStep::Pending
        }
    }

    /// Adds to `got` until it holds `total` bytes. A read that gives nothing
    /// before that is an error, be it at the end of the stream or by an empty
    /// chunk; what was read stays in `got`.
    pub fn read_exact(&mut self, got: &mut Vec<u8>, total: usize) -> (step: ExactStep)
        requires
            old(self).wf(),
            old(got)@.len() <= total,
        ensures
            final(self).wf(),
            final(self).stream_id() == old(self).stream_id(),
            final(self).ended() == old(self).ended(),
            old(got)@ + old(self).unread() == final(got)@ + final(self).unread(),
            final(got)@.len() <= total,
            ({
                let (fate, taken) = exact_of(
                    (total - old(got)@.len()) as nat,
                    old(self).buffer(),
                    old(self).chunks(),
                    old(self).ended(),
                );
                &&& final(got)@.len() == old(got)@.len() + taken
                &&& match step {
                    ExactStep::Done => fate is Done && final(got)@.len() == total,
                    ExactStep::Pending => fate is Pending && final(self).unread().len() == 0,
                    ExactStep::Fail(e) => fate is Fail && e.is_io(
                        ErrorKind::UnexpectedEof,
                        "Failed to read exact "@ + text::decimal(total as nat)
                            + " bytes, only read "@ + text::decimal(final(got)@.len()),
                    ),
                }
            }),
    {
        let ghost whole = exact_of(
            (total - got@.len()) as nat,
            self.buffer(),
            self.chunks(),
            self.ended(),
        );
        while got.len() < total
            invariant
                self.wf(),
                self.stream_id() == old(self).stream_id(),
                self.ended() == old(self).ended(),
                got@.len() <= total,
                old(got)@.len() <= got@.len(),
                old(got)@ + old(self).unread() == got@ + self.unread(),
                ({
                    let rest = exact_of(
                        (total - got@.len()) as nat,
                        self.buffer(),
                        self.chunks(),
                        self.ended(),
                    );
                    rest.0 == whole.0 && got@.len() + rest.1 == old(got)@.len() + whole.1
                }),
                whole == exact_of(
                    (total - old(got)@.len()) as nat,
                    old(self).buffer(),
                    old(self).chunks(),
                    old(self).ended(),
                ),
            decreases total - got@.len(),
        {
            let have: usize = got.len();
            let ghost before = got@;
            proof {
                reveal_with_fuel(exact_of, 3);
            }
            match self.read(total - have) {
                ReadStep::Pending => {
                    assert(self.unread() =~= Seq::empty());
                    return ExactStep::Pending;
                },
                ReadStep::Ready(d) => {
                    if d.len() == 0 {
                        assert(d@ + self.unread() =~= self.unread());
                        let mut what = "Failed to read exact ".to_owned();
                        text::push_decimal(&mut what, total as u64);
                        text::push_text(&mut what, " bytes, only read ");
                        text::push_decimal(&mut what, have as u64);
                        return ExactStep::Fail(io_error(ErrorKind::UnexpectedEof, what.as_str()));
                    }
                    octets::append(got, d.as_slice());
                    assert(before + (d@ + self.unread()) =~= got@ + self.unread());
                },
            }
        }
        ExactStep::Done
    }

    /// The stream's ID.
    pub fn id(&self) -> (id: u32)
        ensures
            id == self.stream_id(),
    {
        self.id
    }

    /// Whether the end of the stream was reached.
    pub fn is_eof(&self) -> (b: bool)
        ensures
            b == self.at_eof(),
    {
        self.eof
    }

    /// How many bytes of a chunk are left over.
    pub fn buffer_len(&self) -> (n: usize)
        ensures
            n == self.buffer().len(),
    {
        self.reader_buffer.len()
    }
}

} // verus!
