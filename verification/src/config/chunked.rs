//! The chunked transfer coding of HTTP/1.1.
use crate::numbers;
use crate::numbers::parse_radix;
use crate::octets;
use crate::text;
use vstd::prelude::*;

verus! {

/// Most bytes that a response may have: 256 MiB.
pub const MAX_BODY_BYTES: usize = 268_435_456;

/// That a response is too large.
pub const BODY_TOO_LARGE: &'static str = "response exceeds max body size (268435456 bytes)";

/// The end of a line.
pub open spec fn crlf() -> Seq<u8> {
    seq![13u8, 10u8]
}

/// The end of a header block.
pub open spec fn blank_line() -> Seq<u8> {
    seq![13u8, 10u8, 13u8, 10u8]
}

/// The size in a line that begins a chunk. Extensions behind a semicolon are
/// ignored.
pub open spec fn chunk_size(line: Seq<u8>) -> Result<nat, Seq<char>> {
    if !vstd::utf8::valid_utf8(line) {
        Err("non-UTF-8 chunk size: "@ + text::utf8_fault(line))
    } else {
        let words = vstd::utf8::decode_utf8(line);
        match numbers::number_in(
            text::trim_of(text::split_of(words, ';')[0]),
            16,
            usize::MAX as nat,
        ) {
            Ok(n) => Ok(n),
            Err(e) => Err("invalid chunk size '"@ + words + "': "@ + e.words()),
        }
    }
}

/// The body that chunks carry, where `done` bytes of it came before them.
pub open spec fn chunked_body(input: Seq<u8>, done: nat) -> Result<Seq<u8>, Seq<char>>
    decreases input.len(),
{
    proof {
        octets::lemma_first_at(input, crlf(), 0);
    }
    match octets::first_at(input, crlf(), 0) {
        None => Err("incomplete chunk-size line"@),
        Some(at) => match chunk_size(input.take(at)) {
            Err(e) => Err(e),
            Ok(size) => {
                let rest = input.skip(at + 2);
                if size == 0 {
                    if rest == crlf() || octets::first_at(rest, blank_line(), 0) is Some {
                        Ok(Seq::empty())
                    } else {
                        Err("incomplete chunked response trailers"@)
                    }
                } else if size + done > MAX_BODY_BYTES {
                    Err(BODY_TOO_LARGE@)
                } else if rest.len() < size + 2 || !octets::occurs_at(rest, crlf(), size as int) {
                    Err("incomplete chunk data"@)
                } else {
                    match chunked_body(rest.skip(size as int + 2), done + size) {
                        Err(e) => Err(e),
                        Ok(body) => Ok(rest.take(size as int) + body),
                    }
                }
            },
        },
    }
}

fn read_chunk_size(line: &[u8]) -> (out: Result<usize, String>)
    ensures
        match out {
            Ok(n) => chunk_size(line@) == Ok::<nat, Seq<char>>(n as nat),
            Err(e) => chunk_size(line@) == Err::<nat, Seq<char>>(e@),
        },
{
    match text::from_utf8(line) {
        None => {
            let why = text::utf8_fault_text(line);
            Err(text::join2("non-UTF-8 chunk size: ", why.as_str()))
        },
        Some(words) => {
            let parts = text::split(words.as_str(), ';');
            proof {
                assert(text::split_of(words@, ';').len() > 0);
                assert(text::texts(parts@).len() == parts@.len());
                assert(text::texts(parts@)[0] == parts@[0]@);
            }
            let size = text::trim(parts[0].as_str());
            match parse_radix(size.as_str(), 16, usize::MAX as u64) {
                Ok(n) => Ok(n as usize),
                Err(e) => {
                    let mut what = text::join3("invalid chunk size '", words.as_str(), "': ");
                    text::push_text(&mut what, e.text());
                    Err(what)
                },
            }
        },
    }
}

/// The body that chunks carry.
pub fn decode_chunked(input: &[u8]) -> (out: Result<Vec<u8>, String>)
    ensures
        match out {
            Ok(body) => chunked_body(input@, 0) == Ok::<Seq<u8>, Seq<char>>(body@),
            Err(e) => chunked_body(input@, 0) == Err::<Seq<u8>, Seq<char>>(e@),
        },
{
    let line_end: [u8; 2] = [13u8, 10u8];
    let header_end: [u8; 4] = [13u8, 10u8, 13u8, 10u8];
    assert(line_end@ =~= crlf());
    assert(header_end@ =~= blank_line());
    let total: usize = input.len();
    let mut body: Vec<u8> = Vec::new();
    let mut at: usize = 0;
    assert(input@.skip(0) =~= input@);
    loop
        invariant
            line_end@ == crlf(),
            header_end@ == blank_line(),
            total == input.len(),
            at <= total,
            body@.len() <= MAX_BODY_BYTES,
            chunked_body(input@, 0) == (match chunked_body(input@.skip(at as int), body@.len()) {
                Ok(more) => Ok::<Seq<u8>, Seq<char>>(body@ + more),
                Err(e) => Err(e),
            }),
        decreases total - at,
    {
        let rest = vstd::slice::slice_subrange(input, at, total);
        let ghost here = input@.skip(at as int);
        assert(rest@ =~= here);
        proof {
            octets::lemma_first_at(here, crlf(), 0);
        }
        let found: usize = match octets::find_subseq(rest, line_end.as_slice()) {
            None => {
                return Err("incomplete chunk-size line".to_owned());
            },
            Some(i) => i,
        };
        proof {
            if octets::first_at(here, crlf(), 0) != Some(found as int) {
                let i = octets::first_at(here, crlf(), 0)->0;
                assert(i < found ==> !octets::occurs_at(here, crlf(), i));
                assert(found < i ==> !octets::occurs_at(here, crlf(), found as int));
            }
        }
        let line = vstd::slice::slice_subrange(rest, 0, found);
        assert(line@ =~= here.take(found as int));
        let size: usize = match read_chunk_size(line) {
            Err(e) => {
                return Err(e);
            },
            Ok(n) => n,
        };
        let data_at: usize = at + found + 2;
        let data = vstd::slice::slice_subrange(input, data_at, total);
        let ghost tail = here.skip(found + 2);
        assert(data@ =~= tail);
        if size == 0 {
            proof {
                octets::lemma_first_at(tail, blank_line(), 0);
                octets::lemma_first_at(tail, crlf(), 0);
            }
            let ends_here = data.len() == 2 && data[0] == 13 && data[1] == 10;
            assert(ends_here == (tail == crlf())) by {
                if ends_here {
                    assert(tail =~= crlf());
                } else if tail == crlf() {
                    assert(tail[0] == 13 && tail[1] == 10);
                }
            }
            if ends_here {
                assert(body@ + Seq::<u8>::empty() =~= body@);
                return Ok(body);
            }
            return match octets::find_subseq(data, header_end.as_slice()) {
                Some(_) => {
                    assert(body@ + Seq::<u8>::empty() =~= body@);
                    Ok(body)
                },
                None => Err("incomplete chunked response trailers".to_owned()),
            };
        }
        if size > MAX_BODY_BYTES - body.len() {
            return Err(BODY_TOO_LARGE.to_owned());
        }
        if data.len() < size + 2 {
            return Err("incomplete chunk data".to_owned());
        }
        if data[size] != 13 || data[size + 1] != 10 {
            assert(!octets::occurs_at(tail, crlf(), size as int)) by {
                if octets::occurs_at(tail, crlf(), size as int) {
                    assert(tail.subrange(size as int, size + 2)[0] == 13);
                    assert(tail.subrange(size as int, size + 2)[1] == 10);
                }
            }
            return Err("incomplete chunk data".to_owned());
        }
        assert(octets::occurs_at(tail, crlf(), size as int)) by {
            assert(tail.subrange(size as int, size + 2) =~= crlf());
        }
        let ghost before = body@;
        octets::append(&mut body, vstd::slice::slice_subrange(data, 0, size));
        proof {
            assert(data@.subrange(0, size as int) =~= tail.take(size as int));
            assert(tail.skip(size + 2) =~= input@.skip(data_at + size + 2));
            match chunked_body(tail.skip(size + 2), (before.len() + size) as nat) {
                Ok(more) => {
                    assert(before + (tail.take(size as int) + more) =~= body@ + more);
                },
                Err(_) => {},
            }
        }
        at = data_at + size + 2;
    }
}

/// One chunk as it is sent.
pub open spec fn chunk(line: Seq<u8>, data: Seq<u8>) -> Seq<u8> {
    line + crlf() + data + crlf()
}

/// Whether a line ends where its line end stands.
pub open spec fn is_line(line: Seq<u8>) -> bool {
    octets::first_at(line + crlf(), crlf(), 0) == Some(line.len() as int)
}

/// Whether a line and some data make a chunk: the line names the size of the
/// data, of which there is some.
pub open spec fn is_chunk(line: Seq<u8>, data: Seq<u8>) -> bool {
    is_line(line) && chunk_size(line) == Ok::<nat, Seq<char>>(data.len()) && data.len() > 0
}

/// The line of a message comes first in it.
proof fn lemma_line_first(line: Seq<u8>, rest: Seq<u8>)
    requires
        is_line(line),
    ensures
        octets::first_at(line + crlf() + rest, crlf(), 0) == Some(line.len() as int),
{
    let front = line + crlf();
    let input = front + rest;
    let n = line.len() as int;
    octets::lemma_first_at(front, crlf(), 0);
    octets::lemma_first_at(input, crlf(), 0);
    assert(octets::occurs_at(input, crlf(), n)) by {
        assert(input.subrange(n, n + 2) =~= front.subrange(n, n + 2));
    }
    assert(octets::first_at(input, crlf(), 0) is Some);
    let i = octets::first_at(input, crlf(), 0)->0;
    if i < n {
        assert(front.subrange(i, i + 2) =~= input.subrange(i, i + 2));
        assert(octets::occurs_at(front, crlf(), i));
        assert(false);
    }
    assert(!(n < i));
}

/// Before a line has ended there is no line end.
proof fn lemma_line_cut(line: Seq<u8>, rest: Seq<u8>, n: int)
    requires
        is_line(line),
        0 <= n < line.len() + 2,
    ensures
        octets::first_at((line + crlf() + rest).take(n), crlf(), 0) is None,
{
    let cut = (line + crlf() + rest).take(n);
    octets::lemma_first_at(line + crlf(), crlf(), 0);
    octets::lemma_first_at(cut, crlf(), 0);
    if octets::first_at(cut, crlf(), 0) is Some {
        let i = octets::first_at(cut, crlf(), 0)->0;
        assert((line + crlf()).subrange(i, i + 2) =~= cut.subrange(i, i + 2));
        assert(octets::occurs_at(line + crlf(), crlf(), i));
    }
}

/// A chunk that names its own size puts its data in front of what the chunks
/// behind it carry.
pub proof fn law_chunk_in_front(line: Seq<u8>, data: Seq<u8>, rest: Seq<u8>, done: nat)
    requires
        is_chunk(line, data),
        data.len() + done <= MAX_BODY_BYTES,
    ensures
        chunked_body(chunk(line, data) + rest, done) == (match chunked_body(
            rest,
            done + data.len(),
        ) {
            Ok(body) => Ok::<Seq<u8>, Seq<char>>(data + body),
            Err(e) => Err(e),
        }),
{
    let input = chunk(line, data) + rest;
    let n = line.len() as int;
    lemma_line_first(line, data + crlf() + rest);
    assert(line + crlf() + (data + crlf() + rest) =~= input);
    assert(input.take(n) =~= line);
    let tail = input.skip(n + 2);
    assert(tail =~= data + crlf() + rest);
    assert(tail.take(data.len() as int) =~= data);
    assert(tail.subrange(data.len() as int, data.len() as int + 2) =~= crlf());
    assert(tail.skip(data.len() as int + 2) =~= rest);
}

/// Whether some bytes end a message behind its last line: trailers up to a blank
/// line, or just a line end.
pub open spec fn is_end(end: Seq<u8>) -> bool {
    ||| end == crlf()
    ||| {
        &&& octets::first_at(end, blank_line(), 0) == Some(end.len() - 4)
        &&& !octets::occurs_at(end, crlf(), 0)
    }
}

/// A message as it is sent: chunks, a line that names the size zero, and the
/// end.
pub open spec fn sent(chunks: Seq<(Seq<u8>, Seq<u8>)>, last: Seq<u8>, end: Seq<u8>) -> Seq<u8>
    decreases chunks.len(),
{
    if chunks.len() == 0 {
        last + crlf() + end
    } else {
        chunk(chunks[0].0, chunks[0].1) + sent(chunks.drop_first(), last, end)
    }
}

/// The data of some chunks.
pub open spec fn carried(chunks: Seq<(Seq<u8>, Seq<u8>)>) -> Seq<u8>
    decreases chunks.len(),
{
    if chunks.len() == 0 {
        Seq::empty()
    } else {
        chunks[0].1 + carried(chunks.drop_first())
    }
}

/// Whether chunks, a last line and an end make a message.
pub open spec fn is_message(
    chunks: Seq<(Seq<u8>, Seq<u8>)>,
    last: Seq<u8>,
    end: Seq<u8>,
) -> bool {
    &&& forall|i: int| 0 <= i < chunks.len() ==> is_chunk((#[trigger] chunks[i]).0, chunks[i].1)
    &&& is_line(last) && chunk_size(last) == Ok::<nat, Seq<char>>(0)
    &&& is_end(end)
}

/// A message is read back as the data of its chunks, joined.
pub proof fn law_message_round_trip(
    chunks: Seq<(Seq<u8>, Seq<u8>)>,
    last: Seq<u8>,
    end: Seq<u8>,
    done: nat,
)
    requires
        is_message(chunks, last, end),
        carried(chunks).len() + done <= MAX_BODY_BYTES,
    ensures
        chunked_body(sent(chunks, last, end), done) == Ok::<Seq<u8>, Seq<char>>(carried(chunks)),
    decreases chunks.len(),
{
    if chunks.len() == 0 {
        let input = last + crlf() + end;
        lemma_line_first(last, end);
        assert(input.take(last.len() as int) =~= last);
        assert(input.skip(last.len() as int + 2) =~= end);
    } else {
        let rest = chunks.drop_first();
        assert(is_chunk(chunks[0].0, chunks[0].1));
        assert forall|i: int| 0 <= i < rest.len() implies is_chunk(
            (#[trigger] rest[i]).0,
            rest[i].1,
        ) by {
            assert(rest[i] == chunks[i + 1]);
        }
        law_message_round_trip(rest, last, end, done + chunks[0].1.len());
        law_chunk_in_front(chunks[0].0, chunks[0].1, sent(rest, last, end), done);
    }
}

/// A message that was cut short is never taken for a whole one.
pub proof fn law_cut_message_fails(
    chunks: Seq<(Seq<u8>, Seq<u8>)>,
    last: Seq<u8>,
    end: Seq<u8>,
    done: nat,
    n: int,
)
    requires
        is_message(chunks, last, end),
        carried(chunks).len() + done <= MAX_BODY_BYTES,
        0 <= n < sent(chunks, last, end).len(),
    ensures
        chunked_body(sent(chunks, last, end).take(n), done) is Err,
    decreases chunks.len(),
{
    let input = sent(chunks, last, end);
    let cut = input.take(n);
    if chunks.len() == 0 {
        let m = last.len() as int;
        if n < m + 2 {
            lemma_line_cut(last, end, n);
        } else {
            let tail = end.take(n - m - 2);
            assert(cut =~= last + crlf() + tail);
            lemma_line_first(last, tail);
            assert(cut.take(m) =~= last);
            assert(cut.skip(m + 2) =~= tail);
            octets::lemma_first_at(tail, blank_line(), 0);
            octets::lemma_first_at(end, blank_line(), 0);
            if octets::first_at(tail, blank_line(), 0) is Some {
                let i = octets::first_at(tail, blank_line(), 0)->0;
                assert(end.subrange(i, i + 4) =~= tail.subrange(i, i + 4));
                assert(octets::occurs_at(end, blank_line(), i));
            }
            if tail == crlf() {
                assert(end.subrange(0, 2) =~= tail);
            }
        }
    } else {
        let line = chunks[0].0;
        let data = chunks[0].1;
        let rest = chunks.drop_first();
        let behind = sent(rest, last, end);
        assert(is_chunk(line, data));
        let m = line.len() as int;
        let size = data.len() as int;
        assert(input =~= line + crlf() + (data + crlf() + behind));
        if n < m + 2 {
            lemma_line_cut(line, data + crlf() + behind, n);
        } else if n < m + 2 + size + 2 {
            let tail = (data + crlf() + behind).take(n - m - 2);
            assert(cut =~= line + crlf() + tail);
            lemma_line_first(line, tail);
            assert(cut.take(m) =~= line);
            assert(cut.skip(m + 2) =~= tail);
        } else {
            assert forall|i: int| 0 <= i < rest.len() implies is_chunk(
                (#[trigger] rest[i]).0,
                rest[i].1,
            ) by {
                assert(rest[i] == chunks[i + 1]);
            }
            let k = n - chunk(line, data).len();
            law_cut_message_fails(rest, last, end, done + data.len(), k);
            law_chunk_in_front(line, data, behind.take(k), done);
            assert(cut =~= chunk(line, data) + behind.take(k));
        }
    }
}

} // verus!
