//! What holds of every frame, greeting, settings text and padding scheme.
use crate::anytls::auth::{
    authenticate_client, authenticate_ended, authentication_with_sizes, send_authentication,
    AuthStep,
};
use crate::anytls::codec::{buffered, Command, Frame, FrameCodec};
use crate::anytls::padding;
use crate::anytls::padding::{PaddingFactory, SizeRule};
use crate::anytls::string_map;
use crate::anytls::string_map::StringMap;
use crate::split_laws::{hex_worth, lemma_hex};
use crate::text;
use crate::text_laws;
use crate::text_laws::{all_blank, visible};
use bytes::BytesMut;
use vstd::prelude::*;
use vstd::utf8::encode_utf8;

verus! {

/// On the wire a frame is its command, its stream's number in four bytes, the
/// length of its data in two, both most significant first, and its data.
pub proof fn law_frame_is_written(
    codec: &mut FrameCodec,
    item: Frame,
    dst: &mut BytesMut,
    before: Seq<u8>,
    added: Seq<u8>,
    done: (),
)
    requires
        call_ensures(FrameCodec::encode, (codec, item, dst), done),
        before == buffered(*old(dst)),
        buffered(*final(dst)) == before + added,
        item.data@.len() <= 65535,
    ensures
        added.len() == 7 + item.data@.len(),
        added[0] == item.cmd.0,
        added[1] * 16777216 + added[2] * 65536 + added[3] * 256 + added[4] == item.stream_id,
        added[5] * 256 + added[6] == item.data@.len(),
        added.skip(7) == item.data@,
{
    let all = buffered(*final(dst));
    assert(added =~= all.skip(before.len() as int));
    let n = item.stream_id;
    let wire = crate::anytls::codec::encoded(item@);
    assert(wire =~= all.skip(before.len() as int));
    assert(n / 0x100_0000 < 256);
    assert((n / 0x100_0000) * 16777216 + (n / 0x1_0000 % 0x100) * 65536 + (n / 0x100 % 0x100) * 256
        + n % 0x100 == n);
}

/// A frame that has arrived whole is handed out as it was sent, and only its
/// bytes are taken.
pub proof fn law_frame_is_read(
    codec: &mut FrameCodec,
    src: &mut BytesMut,
    cmd: u8,
    id: Seq<u8>,
    size: Seq<u8>,
    data: Seq<u8>,
    rest: Seq<u8>,
    out: Option<Frame>,
)
    requires
        call_ensures(FrameCodec::decode, (codec, src), out),
        id.len() == 4,
        size.len() == 2,
        buffered(*old(src)) == seq![cmd] + id + size + data + rest,
        size[0] * 256 + size[1] == data.len(),
    ensures
        out matches Some(f) && {
            &&& f.cmd.0 == cmd
            &&& f.stream_id == id[0] * 16777216 + id[1] * 65536 + id[2] * 256 + id[3]
            &&& f.data@ == data
        },
        buffered(*final(src)) == rest,
{
    let b = buffered(*old(src));
    assert(b[0] == cmd);
    assert(b[1] == id[0] && b[2] == id[1] && b[3] == id[2] && b[4] == id[3]);
    assert(b[5] == size[0] && b[6] == size[1]);
    let (s0, s1): (u8, u8) = (size[0], size[1]);
    assert(s0 * 256 + s1 <= 65535);
    let (a, c, d, e): (u8, u8, u8, u8) = (id[0], id[1], id[2], id[3]);
    assert(a * 16777216 + c * 65536 + d * 256 + e <= 0xffff_ffff);
    assert(b.subrange(7, 7int + data.len()) =~= data);
    assert(b.skip(7int + data.len()) =~= rest);
}

/// As long as a frame has not arrived whole, nothing is handed out and nothing
/// is taken.
pub proof fn law_frame_is_awaited(codec: &mut FrameCodec, src: &mut BytesMut, out: Option<Frame>)
    requires
        call_ensures(FrameCodec::decode, (codec, src), out),
        ({
            let b = buffered(*old(src));
            b.len() < 7 || b.len() < 7 + b[5] * 256 + b[6]
        }),
    ensures
        out is None,
        buffered(*final(src)) == buffered(*old(src)),
{
    let b = buffered(*old(src));
    if b.len() >= 7 {
        let (s0, s1): (u8, u8) = (b[5], b[6]);
        assert(s0 * 256 + s1 <= 65535);
    }
}

/// A client that sends the right hash is let in once the padding that it
/// announces has arrived, whatever the padding holds and whatever follows it.
pub proof fn law_client_is_let_in(
    received: &[u8],
    hash: &[u8; 32],
    size: Seq<u8>,
    pad: Seq<u8>,
    rest: Seq<u8>,
    step: AuthStep,
    ended: Result<usize, crate::anytls::error::AnyTlsError>,
)
    requires
        call_ensures(authenticate_client, (received, hash), step),
        call_ensures(authenticate_ended, (received, hash), ended),
        size.len() == 2,
        received@ == hash@ + size + pad + rest,
        size[0] * 256 + size[1] == pad.len(),
    ensures
        step matches AuthStep::Done(n) && n == 34 + pad.len(),
        ended matches Ok(n) && n == 34 + pad.len(),
{
    let b = received@;
    assert(b.take(32) =~= hash@);
    assert(b[32] == size[0] && b[33] == size[1]);
    let (s0, s1): (u8, u8) = (size[0], size[1]);
    assert(s0 * 256 + s1 <= 65535);
}

/// A client that sends another hash is turned away as soon as the hash has
/// arrived, and no client is turned away before.
pub proof fn law_other_hash_is_refused(
    received: &[u8],
    hash: &[u8; 32],
    step: AuthStep,
    ended: Result<usize, crate::anytls::error::AnyTlsError>,
)
    requires
        call_ensures(authenticate_client, (received, hash), step),
        call_ensures(authenticate_ended, (received, hash), ended),
    ensures
        step is Failed <==> received@.len() >= 32 && exists|i: int|
            0 <= i < 32 && #[trigger] received@[i] != hash@[i],
        step is Failed <==> (ended matches Err(e) && e is AuthenticationFailed),
        received@.len() < 34 && !(step is Failed) ==> step is Incomplete,
        received@.len() >= 34 && received@.len() < 34 + received@[32] * 256 + received@[33] && !(
        step is Failed) ==> step is Incomplete,
        step is Incomplete <==> (ended matches Err(e) && e is Io),
{
    let b = received@;
    if b.len() >= 32 {
        if b.take(32) == hash@ {
            assert forall|i: int| 0 <= i < 32 implies #[trigger] received@[i] == hash@[i] by {
                assert(b.take(32)[i] == b[i]);
            }
        } else {
            assert(exists|i: int| 0 <= i < 32 && #[trigger] received@[i] != hash@[i]) by {
                if forall|i: int| 0 <= i < 32 ==> #[trigger] received@[i] == hash@[i] {
                    assert(b.take(32) =~= hash@);
                }
            }
        }
    }
    if b.len() >= 34 {
        let (s0, s1): (u8, u8) = (b[32], b[33]);
        assert(s0 * 256 + s1 <= 65535);
    }
}

/// What a client says first: the hash, the length of its padding in two bytes,
/// most significant first, and that many zeros. The length is the first of the
/// sizes, and no size at all or a negative one means no padding.
pub proof fn law_greeting_is_written(hash: &[u8; 32], sizes: &[i32], out: Vec<u8>)
    requires
        call_ensures(authentication_with_sizes, (hash, sizes), out),
        sizes@.len() > 0 ==> sizes@[0] < 65536,
    ensures
        ({
            let n = if sizes@.len() > 0 && sizes@[0] > 0 {
                sizes@[0] as int
            } else {
                0
            };
            &&& out@.len() == 34 + n
            &&& out@.take(32) == hash@
            &&& out@[32] * 256 + out@[33] == n
            &&& forall|i: int| 34 <= i < out@.len() ==> #[trigger] out@[i] == 0
        }),
{
    let n = crate::anytls::auth::padding_len(sizes@);
    lemma_greeting(hash@, n, out@);
}

proof fn lemma_greeting(hash: Seq<u8>, n: u16, out: Seq<u8>)
    requires
        hash.len() == 32,
        out == crate::anytls::auth::auth_bytes(hash, n),
    ensures
        out.len() == 34 + n,
        out.take(32) == hash,
        out[32] * 256 + out[33] == n,
        forall|i: int| 34 <= i < out.len() ==> #[trigger] out[i] == 0,
{
    assert(out.take(32) =~= hash);
    assert(out[32] == (n / 256) as u8 && out[33] == (n % 256) as u8);
    assert(n / 256 < 256);
}

/// What a client says first has as much padding as the scheme's rule for packet
/// zero allows.
pub proof fn law_greeting_fits_the_scheme(
    hash: &[u8; 32],
    factory: &PaddingFactory,
    rules: Vec<SizeRule>,
    low: i64,
    high: i64,
    out: Vec<u8>,
)
    requires
        factory.wf(),
        call_ensures(PaddingFactory::plan, (factory, 0u32), rules),
        call_ensures(send_authentication, (hash, factory), out),
        rules@.len() > 0,
        rules@[0] == SizeRule::Range(low, high),
        0 < low <= high < 65536,
    ensures
        34 + low <= out@.len() <= 34 + high,
        out@.take(32) == hash@,
        out@[32] * 256 + out@[33] == out@.len() - 34,
        forall|i: int| 34 <= i < out@.len() ==> #[trigger] out@[i] == 0,
{
    let sizes = choose|sizes: Seq<i32>|
        padding::sizes_fit(sizes, factory.plan_of(0)) && out@
            == #[trigger] crate::anytls::auth::auth_bytes(hash@, crate::anytls::auth::padding_len(sizes));
    assert(padding::size_fits(sizes[0], rules@[0]));
    let n = choose|n: int| low <= n <= high && sizes[0] == #[trigger] padding::low32(n);
    assert(sizes[0] == n);
    lemma_greeting(hash@, crate::anytls::auth::padding_len(sizes), out@);
}

/// Each size that is drawn for a packet follows its rule: a mark of minus one
/// for a check, a number within the bounds for a range.
pub proof fn law_sizes_follow_the_rules(
    factory: &PaddingFactory,
    pkt: u32,
    rules: Vec<SizeRule>,
    sizes: Vec<i32>,
)
    requires
        factory.wf(),
        call_ensures(PaddingFactory::plan, (factory, pkt), rules),
        call_ensures(PaddingFactory::generate_record_payload_sizes, (factory, pkt), sizes),
    ensures
        sizes@.len() == rules@.len(),
        forall|i: int|
            0 <= i < rules@.len() ==> match #[trigger] rules@[i] {
                SizeRule::Check => sizes@[i] == -1,
                SizeRule::Range(low, high) => 0 <= low <= high <= 0x7fff_ffff ==> low <= sizes@[i]
                    <= high,
            },
{
    assert forall|i: int| 0 <= i < rules@.len() implies match #[trigger] rules@[i] {
        SizeRule::Check => sizes@[i] == -1,
        SizeRule::Range(low, high) => 0 <= low <= high <= 0x7fff_ffff ==> low <= sizes@[i] <= high,
    } by {
        assert(padding::size_fits(sizes@[i], rules@[i]));
    }
}

/// Lines one below the other, a line feed between each two.
pub open spec fn stacked(lines: Seq<Seq<char>>) -> Seq<char>
    decreases lines.len(),
{
    if lines.len() == 0 {
        Seq::empty()
    } else if lines.len() == 1 {
        lines[0]
    } else {
        lines[0] + seq!['\n'] + stacked(lines.drop_first())
    }
}

/// Whether lines can stand one below the other: none is empty, holds a line
/// feed or ends in a carriage return.
pub open spec fn whole_lines(lines: Seq<Seq<char>>) -> bool {
    forall|i: int|
        0 <= i < lines.len() ==> (#[trigger] lines[i]).len() > 0 && !lines[i].contains('\n')
            && lines[i].last() != '\r'
}

/// Whether a text has no white space at its ends.
pub open spec fn neat(s: Seq<char>) -> bool {
    s.len() > 0 ==> visible(s[0]) && visible(s.last())
}

/// Whether a line gives a key a value: the key stands in front of the line's
/// first equals sign and the value behind it, white space around them aside.
pub open spec fn sets(line: Seq<char>, key: Seq<char>, value: Seq<char>) -> bool {
    neat(key) && neat(value) && exists|a: Seq<char>, b: Seq<char>, c: Seq<char>, d: Seq<char>|
        all_blank(a) && all_blank(b) && all_blank(c) && all_blank(d) && !key.contains('=')
            && #[trigger] around(a, key, b) + seq!['='] + #[trigger] around(c, value, d) == line
}

/// A text between two others.
pub open spec fn around(a: Seq<char>, s: Seq<char>, b: Seq<char>) -> Seq<char> {
    a + s + b
}

proof fn lemma_stacked(lines: Seq<Seq<char>>)
    requires
        whole_lines(lines),
    ensures
        text::lines_of(stacked(lines)) == lines,
    decreases lines.len(),
{
    if lines.len() == 0 {
        assert(lines =~= Seq::empty());
    } else {
        let line = lines[0];
        let all = stacked(lines);
        let rest = lines.drop_first();
        assert forall|i: int| 0 <= i < rest.len() implies (#[trigger] rest[i]).len() > 0
            && !rest[i].contains('\n') && rest[i].last() != '\r' by {
            assert(rest[i] == lines[i + 1]);
        }
        lemma_stacked(rest);
        assert forall|i: int| 0 <= i < line.len() implies #[trigger] all[i] != '\n' by {
            assert(all[i] == line[i]);
            assert(line.contains(line[i]));
        }
        text::lemma_first_of_is(all, '\n', line.len() as int);
        if lines.len() == 1 {
            assert(lines =~= seq![line]);
        } else {
            assert(all.take(line.len() as int) =~= line);
            assert(all.skip(line.len() as int + 1) =~= stacked(rest));
            assert(lines =~= seq![line] + rest);
        }
    }
}

proof fn lemma_blank_trimmed(a: Seq<char>, b: Seq<char>)
    requires
        all_blank(a),
        all_blank(b),
    ensures
        text::trim_of(a + b) =~= Seq::<char>::empty(),
{
    let s = a + b;
    assert forall|i: int| 0 <= i < s.len() implies !visible(#[trigger] s[i]) by {
        if i < a.len() {
            assert(s[i] == a[i]);
        } else {
            assert(s[i] == b[i - a.len()]);
        }
    }
    text_laws::lemma_trimmed(s, Seq::empty(), Seq::empty());
    assert(s + Seq::<char>::empty() + Seq::<char>::empty() =~= s);
}

proof fn lemma_around_trimmed(a: Seq<char>, s: Seq<char>, b: Seq<char>)
    requires
        all_blank(a),
        all_blank(b),
        neat(s),
    ensures
        text::trim_of(around(a, s, b)) == s,
{
    if s.len() == 0 {
        lemma_blank_trimmed(a, b);
        assert(around(a, s, b) =~= a + b);
        assert(s =~= Seq::empty());
    } else {
        text_laws::lemma_trimmed(a, s, b);
    }
}

proof fn lemma_trim_end_parts(s: Seq<char>) -> (b: Seq<char>)
    ensures
        all_blank(b),
        s == text::trim_end_of(s) + b,
        text::trim_end_of(s).len() > 0 ==> visible(text::trim_end_of(s).last()),
    decreases s.len(),
{
    if s.len() > 0 {
        text_laws::lemma_space(s.last());
    }
    if s.len() > 0 && text::is_space(s.last()) {
        let b = lemma_trim_end_parts(s.drop_last());
        assert(s =~= s.drop_last().push(s.last()));
        assert(s =~= text::trim_end_of(s.drop_last()) + b.push(s.last()));
        b.push(s.last())
    } else {
        assert(s =~= s + Seq::empty());
        Seq::empty()
    }
}

proof fn lemma_trim_start_parts(s: Seq<char>) -> (a: Seq<char>)
    ensures
        all_blank(a),
        s == a + text::trim_start_of(s),
        text::trim_start_of(s).len() > 0 ==> visible(text::trim_start_of(s)[0]),
    decreases s.len(),
{
    if s.len() > 0 {
        text_laws::lemma_space(s[0]);
    }
    if s.len() > 0 && text::is_space(s[0]) {
        let a = lemma_trim_start_parts(s.drop_first());
        let out = seq![s[0]] + a;
        assert(s =~= seq![s[0]] + s.drop_first());
        assert(s =~= out + text::trim_start_of(s.drop_first()));
        assert forall|i: int| 0 <= i < out.len() implies !visible(#[trigger] out[i]) by {
            if i > 0 {
                assert(out[i] == a[i - 1]);
            }
        }
        out
    } else {
        assert(s =~= Seq::<char>::empty() + s);
        Seq::empty()
    }
}

proof fn lemma_trim_parts(s: Seq<char>) -> (r: (Seq<char>, Seq<char>))
    ensures
        all_blank(r.0),
        all_blank(r.1),
        neat(text::trim_of(s)),
        s == around(r.0, text::trim_of(s), r.1),
{
    let a = lemma_trim_start_parts(s);
    let m = text::trim_start_of(s);
    let b = lemma_trim_end_parts(m);
    let t = text::trim_of(s);
    assert(s =~= around(a, t, b));
    if t.len() > 0 {
        assert(t[0] == m[0]);
    }
    (a, b)
}

proof fn lemma_sets(line: Seq<char>, key: Seq<char>, value: Seq<char>)
    ensures
        sets(line, key, value) <==> match text::split_once_of(line, '=') {
            Some(p) => text::trim_of(p.0) == key && text::trim_of(p.1) == value,
            None => false,
        },
{
    text::lemma_first_of(line, '=');
    if sets(line, key, value) {
        let (a, b, c, d) = choose|a: Seq<char>, b: Seq<char>, c: Seq<char>, d: Seq<char>|
            all_blank(a) && all_blank(b) && all_blank(c) && all_blank(d) && !key.contains('=')
                && #[trigger] around(a, key, b) + seq!['='] + #[trigger] around(c, value, d)
                == line;
        let front = around(a, key, b);
        let back = around(c, value, d);
        assert forall|i: int| 0 <= i < front.len() implies #[trigger] line[i] != '=' by {
            assert(line[i] == front[i]);
            if i < a.len() {
                assert(front[i] == a[i]);
            } else if i < a.len() + key.len() {
                assert(front[i] == key[i - a.len()]);
                assert(key.contains(key[i - a.len()]));
            } else {
                assert(front[i] == b[i - a.len() - key.len()]);
            }
        }
        assert(line[front.len() as int] == '=');
        text::lemma_first_of_is(line, '=', front.len() as int);
        assert(line.take(front.len() as int) =~= front);
        assert(line.skip(front.len() as int + 1) =~= back);
        lemma_around_trimmed(a, key, b);
        lemma_around_trimmed(c, value, d);
    }
    if text::split_once_of(line, '=') is Some {
        let n = text::first_of(line, '=');
        let front = line.take(n);
        let back = line.skip(n + 1);
        let k = text::trim_of(front);
        let v = text::trim_of(back);
        let (a, b) = lemma_trim_parts(front);
        let (c, d) = lemma_trim_parts(back);
        assert(!k.contains('=')) by {
            if k.contains('=') {
                let i = choose|i: int| 0 <= i < k.len() && k[i] == '=';
                assert(front[a.len() + i] == '=');
                assert(line[a.len() + i] == '=');
            }
        }
        assert(around(a, k, b) + seq!['='] + around(c, v, d) =~= line);
        assert(sets(line, k, v));
    }
}

/// What the lines make of a key: the value in the last line that sets it.
proof fn lemma_last_wins(lines: Seq<Seq<char>>, key: Seq<char>)
    ensures
        ({
            let m = string_map::map_of(string_map::pairs_of(lines));
            &&& m.dom().contains(key) ==> exists|i: int|
                0 <= i < lines.len() && sets(#[trigger] lines[i], key, m[key])
            &&& forall|i: int, v: Seq<char>|
                0 <= i < lines.len() && #[trigger] sets(lines[i], key, v) && (forall|
                    j: int,
                    w: Seq<char>,
                | i < j < lines.len() ==> !#[trigger] sets(lines[j], key, w)) ==> m.dom().contains(
                    key,
                ) && m[key] == v
        }),
    decreases lines.len(),
{
    let pairs = string_map::pairs_of(lines);
    let m = string_map::map_of(pairs);
    if lines.len() > 0 {
        let before = lines.drop_last();
        let last = lines.last();
        lemma_last_wins(before, key);
        let old_pairs = string_map::pairs_of(before);
        let old_m = string_map::map_of(old_pairs);
        let p = text::split_once_of(last, '=');
        if p is Some {
            let pair = (text::trim_of((p->0).0), text::trim_of((p->0).1));
            assert(pairs == old_pairs.push(pair));
            assert(pairs.drop_last() =~= old_pairs);
            assert(m == old_m.insert(pair.0, pair.1));
            lemma_sets(last, pair.0, pair.1);
        } else {
            assert(m == old_m);
        }
        if m.dom().contains(key) {
            if p is Some && text::trim_of((p->0).0) == key {
                assert(sets(lines[lines.len() - 1], key, m[key]));
            } else {
                let i = choose|i: int|
                    0 <= i < before.len() && sets(#[trigger] before[i], key, old_m[key]);
                assert(sets(lines[i], key, m[key]));
            }
        }
        assert forall|i: int, v: Seq<char>|
            0 <= i < lines.len() && #[trigger] sets(lines[i], key, v) && (forall|
                j: int,
                w: Seq<char>,
            | i < j < lines.len() ==> !#[trigger] sets(lines[j], key, w)) implies m.dom().contains(
            key,
        ) && m[key] == v by {
            if i == lines.len() - 1 {
                lemma_sets(last, key, v);
            } else {
                assert(sets(before[i], key, v));
                assert forall|j: int, w: Seq<char>| i < j < before.len() implies !#[trigger] sets(
                    before[j],
                    key,
                    w,
                ) by {
                    assert(lines[j] == before[j]);
                    assert(!sets(lines[j], key, w));
                }
                if p is Some && text::trim_of((p->0).0) == key {
                    lemma_sets(last, key, text::trim_of((p->0).1));
                    assert(sets(lines[lines.len() - 1], key, text::trim_of((p->0).1)));
                }
            }
        }
    }
}

/// A settings text is read line by line: a key has the value that the last line
/// to set it gives it, and no other key is there.
pub proof fn law_settings_are_read(
    data: &[u8],
    lines: Seq<Seq<char>>,
    m: StringMap,
    key: Seq<char>,
)
    requires
        call_ensures(StringMap::from_bytes, (data,), m),
        whole_lines(lines),
        data@ == encode_utf8(stacked(lines)),
    ensures
        m@.dom().contains(key) ==> exists|i: int|
            0 <= i < lines.len() && sets(#[trigger] lines[i], key, m@[key]),
        forall|i: int, v: Seq<char>|
            0 <= i < lines.len() && #[trigger] sets(lines[i], key, v) && (forall|
                j: int,
                w: Seq<char>,
            | i < j < lines.len() ==> !#[trigger] sets(lines[j], key, w)) ==> m@.dom().contains(key)
                && m@[key] == v,
{
    lemma_read_back(stacked(lines));
    lemma_stacked(lines);
    lemma_last_wins(lines, key);
}

proof fn lemma_read_back(s: Seq<char>)
    ensures
        vstd::utf8::valid_utf8(encode_utf8(s)),
        vstd::utf8::decode_utf8(encode_utf8(s)) == s,
{
    vstd::utf8::encode_utf8_valid_utf8(s);
    vstd::utf8::encode_utf8_decode_utf8(s);
}

/// A scheme is taken when its lines set `stop` to a number, and that number is
/// where it stops. Its text is kept as it was given.
pub proof fn law_scheme_is_taken(
    raw: &[u8],
    lines: Seq<Seq<char>>,
    i: int,
    n: u32,
    r: Result<PaddingFactory, String>,
    got: PaddingFactory,
    stop: u32,
    kept: &[u8],
)
    requires
        call_ensures(PaddingFactory::new, (raw,), r),
        call_ensures(PaddingFactory::stop, (&got,), stop),
        call_ensures(PaddingFactory::raw_scheme, (&got,), kept),
        whole_lines(lines),
        raw@ == encode_utf8(stacked(lines)),
        0 <= i < lines.len(),
        sets(lines[i], "stop"@, text::decimal(n as nat)),
        forall|j: int, w: Seq<char>|
            i < j < lines.len() ==> !#[trigger] sets(lines[j], "stop"@, w),
    ensures
        r matches Ok(f) && f.wf() && (f == got ==> stop == n && kept@ == raw@),
{
    lemma_scheme(raw@, lines, "stop"@);
    text_laws::lemma_decimal_read(n as nat, u32::MAX as nat);
}

/// A scheme none of whose lines sets `stop` is refused.
pub proof fn law_scheme_without_stop(
    raw: &[u8],
    lines: Seq<Seq<char>>,
    r: Result<PaddingFactory, String>,
)
    requires
        call_ensures(PaddingFactory::new, (raw,), r),
        whole_lines(lines),
        raw@ == encode_utf8(stacked(lines)),
        forall|j: int, w: Seq<char>|
            0 <= j < lines.len() ==> !#[trigger] sets(lines[j], "stop"@, w),
    ensures
        r matches Err(e) && e@ == "missing 'stop' in padding scheme"@,
{
    lemma_scheme(raw@, lines, "stop"@);
    let m = padding::scheme_of(raw@);
    if m.dom().contains("stop"@) {
        let i = choose|i: int|
            0 <= i < lines.len() && sets(#[trigger] lines[i], "stop"@, m["stop"@]);
        assert(!sets(lines[i], "stop"@, m["stop"@]));
    }
}

proof fn lemma_scheme(raw: Seq<u8>, lines: Seq<Seq<char>>, key: Seq<char>)
    requires
        whole_lines(lines),
        raw == encode_utf8(stacked(lines)),
        vstd::utf8::valid_utf8(raw) ==> padding::scheme_of(raw) == string_map::map_of(
            string_map::pairs_of(text::lines_of(vstd::utf8::decode_utf8(raw))),
        ),
    ensures
        ({
            let m = padding::scheme_of(raw);
            &&& m.dom().contains(key) ==> exists|i: int|
                0 <= i < lines.len() && sets(#[trigger] lines[i], key, m[key])
            &&& forall|i: int, v: Seq<char>|
                0 <= i < lines.len() && #[trigger] sets(lines[i], key, v) && (forall|
                    j: int,
                    w: Seq<char>,
                | i < j < lines.len() ==> !#[trigger] sets(lines[j], key, w)) ==> m.dom().contains(
                    key,
                ) && m[key] == v
        }),
{
    lemma_read_back(stacked(lines));
    lemma_stacked(lines);
    lemma_last_wins(lines, key);
}

/// What a scheme asks of one record, as it is written: a check, or a size
/// between two numbers.
pub open spec fn asked_text(asked: Option<(u32, u32)>) -> Seq<char> {
    match asked {
        None => "c"@,
        Some((a, b)) => text::decimal(a as nat) + seq!['-'] + text::decimal(b as nat),
    }
}

/// Texts in a row, a comma between each two.
pub open spec fn listed(parts: Seq<Seq<char>>) -> Seq<char>
    decreases parts.len(),
{
    if parts.len() == 0 {
        Seq::empty()
    } else if parts.len() == 1 {
        parts[0]
    } else {
        parts[0] + seq![','] + listed(parts.drop_first())
    }
}

proof fn lemma_listed(parts: Seq<Seq<char>>)
    requires
        parts.len() > 0,
        forall|i: int| 0 <= i < parts.len() ==> !(#[trigger] parts[i]).contains(','),
    ensures
        text::split_of(listed(parts), ',') == parts,
    decreases parts.len(),
{
    let p = parts[0];
    let all = listed(parts);
    let rest = parts.drop_first();
    assert forall|i: int| 0 <= i < p.len() implies #[trigger] all[i] != ',' by {
        assert(all[i] == p[i]);
        assert(p.contains(p[i]));
    }
    text::lemma_first_of_is(all, ',', p.len() as int);
    if parts.len() == 1 {
        assert(parts =~= seq![p]);
    } else {
        assert forall|i: int| 0 <= i < rest.len() implies !(#[trigger] rest[i]).contains(',') by {
            assert(rest[i] == parts[i + 1]);
        }
        lemma_listed(rest);
        assert(all.take(p.len() as int) =~= p);
        assert(all.skip(p.len() as int + 1) =~= listed(rest));
        assert(parts =~= seq![p] + rest);
    }
}

proof fn lemma_digits_only(n: nat)
    ensures
        text::decimal(n).len() > 0,
        !text::decimal(n).contains(','),
        !text::decimal(n).contains('-'),
        neat(text::decimal(n)),
{
    text_laws::law_decimal(n);
    let s = text::decimal(n);
    assert forall|i: int| 0 <= i < s.len() implies #[trigger] s[i] != ',' && s[i] != '-' && visible(
        s[i],
    ) by {
        assert(0x30 <= s[i] as int <= 0x39);
    }
}

proof fn lemma_asked(asked: Option<(u32, u32)>)
    requires
        asked matches Some(p) ==> p.0 > 0 && p.1 > 0,
    ensures
        !asked_text(asked).contains(','),
        padding::rule_of(asked_text(asked)) == Some(
            match asked {
                None => SizeRule::Check,
                Some((a, b)) => if a <= b {
                    SizeRule::Range(a as i64, b as i64)
                } else {
                    SizeRule::Range(b as i64, a as i64)
                },
            },
        ),
{
    let s = asked_text(asked);
    reveal_strlit("c");
    match asked {
        None => {
            text_laws::lemma_trim_visible(s);
        },
        Some((a, b)) => {
            let (x, y) = (text::decimal(a as nat), text::decimal(b as nat));
            lemma_digits_only(a as nat);
            lemma_digits_only(b as nat);
            assert(s[0] == x[0] && s.last() == y.last());
            text_laws::lemma_trim_visible(s);
            text_laws::lemma_trim_visible(x);
            text_laws::lemma_trim_visible(y);
            assert forall|i: int| 0 <= i < x.len() implies #[trigger] s[i] != '-' by {
                assert(s[i] == x[i]);
                assert(x.contains(x[i]));
            }
            assert(s[x.len() as int] == '-');
            text::lemma_first_of_is(s, '-', x.len() as int);
            assert(s.take(x.len() as int) =~= x);
            assert(s.skip(x.len() as int + 1) =~= y);
            text_laws::lemma_decimal_read(a as nat, i64::MAX as nat);
            text_laws::lemma_decimal_read(b as nat, i64::MAX as nat);
            assert(s != "c"@) by {
                assert(s.len() > 1);
            }
            assert(!s.contains(',')) by {
                if s.contains(',') {
                    let i = choose|i: int| 0 <= i < s.len() && s[i] == ',';
                    if i < x.len() {
                        assert(x[i] == ',');
                    } else if i > x.len() {
                        assert(y[i - x.len() - 1] == ',');
                    }
                }
            }
        },
    }
}

proof fn lemma_rules(asked: Seq<Option<(u32, u32)>>)
    requires
        forall|i: int|
            0 <= i < asked.len() ==> ((#[trigger] asked[i]) matches Some(p) ==> p.0 > 0 && p.1 > 0),
    ensures
        ({
            let rules = padding::rules_of(asked.map_values(|a: Option<(u32, u32)>| asked_text(a)));
            &&& rules.len() == asked.len()
            &&& forall|i: int|
                0 <= i < asked.len() ==> padding::rule_of(asked_text(#[trigger] asked[i])) == Some(
                    rules[i],
                )
        }),
    decreases asked.len(),
{
    let f = |a: Option<(u32, u32)>| asked_text(a);
    let parts = asked.map_values(f);
    if asked.len() > 0 {
        let before = asked.drop_last();
        assert forall|i: int| 0 <= i < before.len() implies ((#[trigger] before[i]) matches Some(p)
            ==> p.0 > 0 && p.1 > 0) by {
            assert(before[i] == asked[i]);
        }
        lemma_rules(before);
        assert(parts.drop_last() =~= before.map_values(f));
        assert(asked[asked.len() - 1] == asked.last());
        lemma_asked(asked.last());
        let rules = padding::rules_of(parts);
        assert forall|i: int| 0 <= i < asked.len() implies padding::rule_of(
            asked_text(#[trigger] asked[i]),
        ) == Some(rules[i]) by {
            if i < before.len() {
                assert(before[i] == asked[i]);
            }
        }
    }
}

/// What a scheme's line for a packet says is what is planned for it, record by
/// record: a check for a `c`, and for two numbers a size between the smaller
/// and the larger.
pub proof fn law_plan_is_read(
    raw: &[u8],
    lines: Seq<Seq<char>>,
    i: int,
    pkt: u32,
    asked: Seq<Option<(u32, u32)>>,
    r: Result<PaddingFactory, String>,
    factory: PaddingFactory,
    rules: Vec<SizeRule>,
)
    requires
        call_ensures(PaddingFactory::new, (raw,), r),
        r == Ok::<PaddingFactory, String>(factory),
        call_ensures(PaddingFactory::plan, (&factory, pkt), rules),
        whole_lines(lines),
        raw@ == encode_utf8(stacked(lines)),
        0 <= i < lines.len(),
        asked.len() > 0,
        forall|k: int|
            0 <= k < asked.len() ==> ((#[trigger] asked[k]) matches Some(p) ==> p.0 > 0 && p.1 > 0),
        sets(
            lines[i],
            text::decimal(pkt as nat),
            listed(asked.map_values(|a: Option<(u32, u32)>| asked_text(a))),
        ),
        forall|j: int, w: Seq<char>|
            i < j < lines.len() ==> !#[trigger] sets(lines[j], text::decimal(pkt as nat), w),
    ensures
        rules@.len() == asked.len(),
        forall|k: int|
            0 <= k < asked.len() ==> match #[trigger] asked[k] {
                None => rules@[k] is Check,
                Some((a, b)) => rules@[k] matches SizeRule::Range(low, high) && ((low == a && high
                    == b) || (low == b && high == a)) && low <= high,
            },
{
    let key = text::decimal(pkt as nat);
    let f = |a: Option<(u32, u32)>| asked_text(a);
    let parts = asked.map_values(f);
    lemma_scheme(raw@, lines, key);
    assert forall|k: int| 0 <= k < parts.len() implies !(#[trigger] parts[k]).contains(',') by {
        assert(parts[k] == asked_text(asked[k]));
        lemma_asked(asked[k]);
    }
    lemma_listed(parts);
    lemma_rules(asked);
    assert forall|k: int| 0 <= k < asked.len() implies match #[trigger] asked[k] {
        None => rules@[k] is Check,
        Some((a, b)) => rules@[k] matches SizeRule::Range(low, high) && ((low == a && high == b)
            || (low == b && high == a)) && low <= high,
    } by {
        lemma_asked(asked[k]);
    }
}

/// A packet that no line of the scheme speaks of is sent as it is.
pub proof fn law_no_plan(
    raw: &[u8],
    lines: Seq<Seq<char>>,
    pkt: u32,
    r: Result<PaddingFactory, String>,
    factory: PaddingFactory,
    rules: Vec<SizeRule>,
)
    requires
        call_ensures(PaddingFactory::new, (raw,), r),
        r == Ok::<PaddingFactory, String>(factory),
        call_ensures(PaddingFactory::plan, (&factory, pkt), rules),
        whole_lines(lines),
        raw@ == encode_utf8(stacked(lines)),
        forall|j: int, w: Seq<char>|
            0 <= j < lines.len() ==> !#[trigger] sets(lines[j], text::decimal(pkt as nat), w),
    ensures
        rules@.len() == 0,
{
    let key = text::decimal(pkt as nat);
    lemma_scheme(raw@, lines, key);
    let m = padding::scheme_of(raw@);
    if m.dom().contains(key) {
        let i = choose|i: int| 0 <= i < lines.len() && sets(#[trigger] lines[i], key, m[key]);
        assert(!sets(lines[i], key, m[key]));
    }
}

/// The scheme that is used unless another is set.
pub proof fn law_built_in_scheme(f: PaddingFactory, raw: &[u8], stop: u32)
    requires
        call_ensures(PaddingFactory::built_in, (), f),
        call_ensures(PaddingFactory::raw_scheme, (&f,), raw),
        call_ensures(PaddingFactory::stop, (&f,), stop),
    ensures
        stop == 8,
        raw@ == encode_utf8(
            "stop=8\n0=30-30\n1=100-400\n2=400-500,c,500-1000,c,500-1000,c,500-1000,c,500-1000\n3=9-9,500-1000\n4=500-1000\n5=500-1000\n6=500-1000\n7=500-1000"@,
        ),
{
}

/// A pair is written as its key, an equals sign and its value, and pairs are
/// written one below the other.
pub proof fn law_settings_are_written(m: &StringMap, bytes: Vec<u8>, pairs: Vec<(String, String)>)
    requires
        call_ensures(StringMap::to_bytes, (m,), bytes),
        call_ensures(StringMap::into_vec, (*m,), pairs),
    ensures
        bytes@ == encode_utf8(
            stacked(
                pairs@.map_values(|p: (String, String)| p.0@ + seq!['='] + p.1@),
            ),
        ),
{
    lemma_written(string_map::stored(pairs@));
    assert(string_map::stored(pairs@).map_values(
        |p: string_map::Pair| p.0 + seq!['='] + p.1,
    ) =~= pairs@.map_values(|p: (String, String)| p.0@ + seq!['='] + p.1@));
}

proof fn lemma_written(pairs: Seq<string_map::Pair>)
    ensures
        string_map::lines_text(pairs) == stacked(
            pairs.map_values(|p: string_map::Pair| p.0 + seq!['='] + p.1),
        ),
    decreases pairs.len(),
{
    let f = |p: string_map::Pair| p.0 + seq!['='] + p.1;
    let lines = pairs.map_values(f);
    if pairs.len() > 1 {
        lemma_written(pairs.drop_first());
        assert(lines.drop_first() =~= pairs.drop_first().map_values(f));
    }
}

/// A control frame has no data.
pub proof fn law_control_frame(cmd: Command, id: u32, f: Frame)
    requires
        call_ensures(Frame::control, (cmd, id), f),
    ensures
        f.cmd.0 == cmd.0 && f.stream_id == id && f.data@.len() == 0,
{
}

proof fn lemma_hex_text(b: Seq<u8>)
    ensures
        padding::hex_text(b).len() == 2 * b.len(),
        forall|i: int|
            0 <= i < b.len() ==> padding::hex_text(b)[2 * i] == text::hex_byte(#[trigger] b[i])[0]
                && padding::hex_text(b)[2 * i + 1] == text::hex_byte(b[i])[1],
    decreases b.len(),
{
    if b.len() > 0 {
        let head = b.drop_last();
        lemma_hex_text(head);
        let all = padding::hex_text(b);
        assert forall|i: int| 0 <= i < b.len() implies all[2 * i] == text::hex_byte(
            #[trigger] b[i],
        )[0] && all[2 * i + 1] == text::hex_byte(b[i])[1] by {
            if i < head.len() {
                assert(head[i] == b[i]);
            }
        }
    }
}

/// A scheme's hash is the MD5 hash of its text, spelt out in hexadecimal digits
/// in lower case.
pub proof fn law_scheme_hash(f: &PaddingFactory, raw: &[u8], out: &str, i: int)
    requires
        f.wf(),
        call_ensures(PaddingFactory::md5, (f,), out),
        call_ensures(PaddingFactory::raw_scheme, (f,), raw),
        0 <= i < padding::md5_of(raw@).len(),
    ensures
        out@.len() == 32,
        out@.len() == 2 * padding::md5_of(raw@).len(),
        hex_worth(out@[2 * i]) >= 0 && hex_worth(out@[2 * i + 1]) >= 0,
        hex_worth(out@[2 * i]) * 16 + hex_worth(out@[2 * i + 1]) == padding::md5_of(raw@)[i],
{
    let b = padding::md5_of(raw@);
    lemma_hex_text(b);
    let x = b[i];
    assert(out@[2 * i] == text::hex_byte(b[i])[0] && out@[2 * i + 1] == text::hex_byte(b[i])[1]);
    lemma_hex((x / 16) as nat);
    lemma_hex((x % 16) as nat);
}

/// Until a scheme is set the built-in one is shared, and what is shared stays.
pub proof fn law_default_scheme(shared: &mut Option<PaddingFactory>, f: &PaddingFactory)
    requires
        call_ensures(PaddingFactory::default, (shared,), f),
    ensures
        *final(shared) == Some(*f),
        *old(shared) matches Some(set) ==> *f == set,
        *old(shared) is None ==> f.stop_at() == 8,
{
}

} // verus!
