//! What holds of every measurement.
use crate::bench::memory;
use crate::bench::memory::{rss_from_ps, rss_from_tasklist, split_fields, PeakRss};
use crate::bench::plan::{is_memleak_run, BenchStep, Workloads};
use crate::numbers;
use crate::text;
use crate::text_laws;
use crate::text_laws::{all_blank, all_numerals, worth};
use vstd::prelude::*;

verus! {

/// Without a choice every workload runs; with one, only the workload of that
/// name. The one for DNS needs its configuration.
pub proof fn law_chosen_workloads(only: &str, dns: bool, all: Workloads, one: Workloads, leak: bool)
    requires
        call_ensures(Workloads::select, (None::<&str>, dns), all),
        call_ensures(Workloads::select, (Some(only), dns), one),
        call_ensures(is_memleak_run, (Some(only),), leak),
    ensures
        all.throughput && all.latency && all.connrate && all.dns == dns,
        one.throughput <==> only@ == "throughput"@,
        one.latency <==> only@ == "latency"@,
        one.connrate <==> only@ == "connrate"@,
        one.dns <==> only@ == "dns"@ && dns,
        leak <==> only@ == "memleak"@,
{
}

/// A run with every workload takes its steps in this order.
pub proof fn law_run_in_order(i: int, w: Workloads, order: Seq<BenchStep>, step: BenchStep)
    requires
        w == (Workloads { throughput: true, latency: true, connrate: true, dns: true }),
        order == seq![
            BenchStep::StartEcho,
            BenchStep::StartProxy,
            BenchStep::WaitForProxy,
            BenchStep::Settle,
            BenchStep::BinarySize,
            BenchStep::IdleRss,
            BenchStep::Warmup,
            BenchStep::Throughput,
            BenchStep::Latency,
            BenchStep::ConnRate,
            BenchStep::StopProxy,
            BenchStep::StartDnsProxy,
            BenchStep::WaitForDnsProxy,
            BenchStep::SettleDns,
            BenchStep::Dns,
            BenchStep::StopDnsProxy,
            BenchStep::Finished,
        ],
        0 <= i < 16,
        call_ensures(BenchStep::next, (order[i], w, true), step),
    ensures
        step == order[i + 1],
{
}

/// A workload that was not chosen is passed over.
pub proof fn law_unchosen_is_skipped(
    w: Workloads,
    warm: BenchStep,
    tput: BenchStep,
    lat: BenchStep,
    stop: BenchStep,
)
    requires
        call_ensures(BenchStep::next, (BenchStep::Warmup, w, true), warm),
        call_ensures(BenchStep::next, (BenchStep::Throughput, w, true), tput),
        call_ensures(BenchStep::next, (BenchStep::Latency, w, true), lat),
        call_ensures(BenchStep::next, (BenchStep::StopProxy, w, true), stop),
    ensures
        warm is Throughput <==> w.throughput,
        !w.throughput ==> warm == tput,
        tput is Latency <==> w.latency,
        !w.latency ==> tput == lat,
        lat is ConnRate <==> w.connrate,
        !w.connrate ==> lat is StopProxy,
        stop is StartDnsProxy <==> w.dns,
        !w.dns ==> stop is Finished,
{
}

/// A run fails with a step that it cannot do without, and goes on after the
/// others.
pub proof fn law_failed_step(from: BenchStep, w: Workloads, good: BenchStep, bad: BenchStep)
    requires
        !(from is Finished) && !(from is Failed),
        call_ensures(BenchStep::next, (from, w, true), good),
        call_ensures(BenchStep::next, (from, w, false), bad),
    ensures
        from is Settle || from is Warmup || from is StopProxy || from is SettleDns || from is Dns
            || from is StopDnsProxy ==> bad == good,
        from is WaitForDnsProxy ==> bad is StopDnsProxy,
        from is StartEcho || from is StartProxy || from is WaitForProxy || from is BinarySize
            || from is IdleRss || from is Throughput || from is Latency || from is ConnRate
            || from is StartDnsProxy ==> bad is Failed,
{
}

/// A peak is the largest of the samples; one that could not be taken does not
/// count.
pub proof fn law_largest_sample(fresh: PeakRss, p: &mut PeakRss, sample: Option<u64>, done: ())
    requires
        call_ensures(PeakRss::new, (), fresh),
        call_ensures(PeakRss::sample, (p, sample), done),
    ensures
        fresh.peak == 0,
        sample is None ==> final(p).peak == old(p).peak,
        sample matches Some(n) ==> final(p).peak >= n && final(p).peak >= old(p).peak && (final(p).peak == n || final(p).peak == old(p).peak),
{
}

/// Whether a text is one field: in quotes, or without quotes and commas.
pub open spec fn is_field(f: Seq<char>) -> bool {
    ||| !f.contains(',') && !f.contains('"')
    ||| f.len() >= 2 && f[0] == '"' && f.last() == '"' && forall|i: int|
        0 < i < f.len() - 1 ==> #[trigger] f[i] != '"'
}

/// Texts in a row, a comma between each two.
pub open spec fn listed(parts: Seq<Seq<char>>) -> Seq<char>
    decreases parts.len(),
{
    if parts.len() == 0 {
        Seq::empty()
    } else if parts.len() == 1 {
        parts[0]
    } else {
        parts[0] + seq![','] + listed(parts.drop_first())
    }
}

proof fn lemma_walk(s: Seq<char>, at: int, n: int, quoted: bool)
    requires
        0 <= at <= n <= s.len(),
        forall|i: int| at <= i < n ==> #[trigger] s[i] != '"' && (quoted || s[i] != ','),
    ensures
        memory::field_end(s, at, quoted) == memory::field_end(s, n, quoted),
    decreases n - at,
{
    if at < n {
        assert(s[at] != '"');
        lemma_walk(s, at + 1, n, quoted);
    }
}

proof fn lemma_field(f: Seq<char>, s: Seq<char>)
    requires
        is_field(f),
        f.len() <= s.len(),
        s.take(f.len() as int) == f,
        f.len() < s.len() ==> s[f.len() as int] == ',',
    ensures
        memory::field_end(s, 0, false) == f.len(),
{
    let n = f.len() as int;
    assert forall|i: int| 0 <= i < n implies #[trigger] s[i] == f[i] by {
        assert(s.take(n)[i] == s[i]);
    }
    if !f.contains(',') && !f.contains('"') {
        assert forall|i: int| 0 <= i < n implies #[trigger] s[i] != '"' && s[i] != ',' by {
            assert(s[i] == f[i]);
            assert(f.contains(f[i]));
        }
        lemma_walk(s, 0, n, false);
    } else {
        assert(s[0] == f[0] && s[n - 1] == f[n - 1]);
        assert(f[n - 1] == f.last());
        assert(memory::field_end(s, 0, false) == memory::field_end(s, 1, true));
        assert forall|i: int| 1 <= i < n - 1 implies #[trigger] s[i] != '"' by {
            assert(s[i] == f[i]);
        }
        lemma_walk(s, 1, n - 1, true);
        assert(memory::field_end(s, n - 1, true) == memory::field_end(s, n, false));
    }
}

proof fn lemma_fields(parts: Seq<Seq<char>>)
    requires
        parts.len() > 0,
        forall|i: int| 0 <= i < parts.len() ==> is_field(#[trigger] parts[i]),
    ensures
        memory::fields_of(listed(parts)) == parts,
    decreases parts.len(),
{
    let f = parts[0];
    let all = listed(parts);
    let rest = parts.drop_first();
    assert(is_field(parts[0]));
    assert(all.take(f.len() as int) =~= f);
    lemma_field(f, all);
    if parts.len() == 1 {
        assert(parts =~= seq![f]);
    } else {
        assert forall|i: int| 0 <= i < rest.len() implies is_field(#[trigger] rest[i]) by {
            assert(rest[i] == parts[i + 1]);
        }
        lemma_fields(rest);
        assert(all.skip(f.len() as int + 1) =~= listed(rest));
        assert(parts =~= seq![f] + rest);
    }
}

/// A line is split at its commas, but not within quotes.
pub proof fn law_fields(line: &str, parts: Seq<Seq<char>>, out: Vec<String>)
    requires
        call_ensures(split_fields, (line,), out),
        parts.len() > 0,
        forall|i: int| 0 <= i < parts.len() ==> is_field(#[trigger] parts[i]),
        line@ == listed(parts),
    ensures
        text::texts(out@) == parts,
{
    lemma_fields(parts);
}

proof fn lemma_digits(s: Seq<char>, before: nat, max: nat)
    requires
        all_numerals(s),
        before * pow10(s.len()) + worth(s) <= max,
    ensures
        numbers::digits_in(s, 10, before, max) == Ok::<nat, numbers::NumberFault>(
            (before * pow10(s.len()) + worth(s)) as nat,
        ),
        worth(s) >= 0,
    decreases s.len(),
{
    lemma_worth_bound(s);
    if s.len() > 0 {
        let rest = s.drop_first();
        let c = s[0];
        assert(0x30 <= s[0] as int <= 0x39);
        let d = (c as int - 0x30) as nat;
        assert(numbers::digit_of(c) == Some(d));
        assert forall|i: int| 0 <= i < rest.len() implies 0x30 <= (#[trigger] rest[i]) as int
            <= 0x39 by {
            assert(rest[i] == s[i + 1]);
        }
        lemma_worth_front(s);
        lemma_worth_bound(rest);
        let p = pow10(rest.len());
        assert(pow10(s.len()) == 10 * p);
        assert((before * 10 + d) * p == before * (10 * p) + d * p) by (nonlinear_arith);
        assert((before * 10 + d) <= (before * 10 + d) * p) by (nonlinear_arith)
            requires
                p >= 1,
        ;
        assert(before * pow10(s.len()) == before * (10 * p));
        assert(worth(s) == d * p + worth(rest));
        assert((before * 10 + d) * p + worth(rest) == before * pow10(s.len()) + worth(s));
        lemma_digits(rest, before * 10 + d, max);
    } else {
        assert(before * pow10(0) == before) by {
            assert(pow10(0) == 1);
            assert(before * 1 == before);
        }
    }
}

/// Ten to a power.
spec fn pow10(n: nat) -> nat
    decreases n,
{
    if n == 0 {
        1
    } else {
        10 * pow10((n - 1) as nat)
    }
}

proof fn lemma_worth_bound(s: Seq<char>)
    requires
        all_numerals(s),
    ensures
        worth(s) >= 0,
        pow10(s.len()) >= 1,
    decreases s.len(),
{
    if s.len() > 0 {
        let t = s.drop_last();
        assert forall|i: int| 0 <= i < t.len() implies 0x30 <= (#[trigger] t[i]) as int <= 0x39 by {
            assert(t[i] == s[i]);
        }
        assert(0x30 <= s[s.len() - 1] as int <= 0x39);
        lemma_worth_bound(t);
    }
}

proof fn lemma_worth_front(s: Seq<char>)
    requires
        s.len() > 0,
    ensures
        worth(s) == (s[0] as int - 0x30) * pow10((s.len() - 1) as nat) + worth(s.drop_first()),
    decreases s.len(),
{
    let d = s[0] as int - 0x30;
    if s.len() == 1 {
        assert(s.drop_last().len() == 0);
        assert(worth(s.drop_last()) == 0);
        assert(worth(s.drop_first()) == 0);
        assert(pow10(0) == 1);
        assert(s.last() == s[0]);
        assert(d * 1 == d);
        assert(pow10((s.len() - 1) as nat) == 1);
        assert(worth(s) == d);
        assert(d * pow10((s.len() - 1) as nat) == d);
    } else {
        let t = s.drop_last();
        lemma_worth_front(t);
        assert(t[0] == s[0]);
        assert(t.drop_first() =~= s.drop_first().drop_last());
        assert(s.drop_first().last() == s.last());
        let p = pow10((t.len() - 1) as nat);
        assert(pow10((s.len() - 1) as nat) == 10 * p);
        assert(10 * (d * p) == d * (10 * p)) by (nonlinear_arith);
        assert(d * pow10((s.len() - 1) as nat) == 10 * (d * p));
        assert(worth(t) == d * p + worth(t.drop_first()));
        assert(worth(s) == 10 * worth(t) + (s.last() as int - 0x30));
        assert(worth(s.drop_first()) == 10 * worth(t.drop_first()) + (s.last() as int - 0x30));
    }
}

proof fn lemma_decimal_number(n: nat, max: nat)
    requires
        n <= max,
    ensures
        numbers::number_in(text::decimal(n), 10, max) == Ok::<nat, numbers::NumberFault>(n),
{
    text_laws::law_decimal(n);
    let s = text::decimal(n);
    assert(0x30 <= s[0] as int <= 0x39);
    assert(0 * pow10(s.len()) == 0) by (nonlinear_arith);
    lemma_digits(s, 0, max);
}

/// What `ps` prints is a number of kibibytes, white space around it aside.
pub proof fn law_kibibytes(
    out: &str,
    front: Seq<char>,
    n: nat,
    back: Seq<char>,
    r: Result<u64, String>,
)
    requires
        call_ensures(rss_from_ps, (out,), r),
        all_blank(front),
        all_blank(back),
        n <= 18_014_398_509_481_983,
        out@ == front + text::decimal(n) + back,
    ensures
        r matches Ok(bytes) && bytes == n * 1024,
{
    text_laws::law_decimal(n);
    let s = text::decimal(n);
    assert(0x30 <= s[0] as int <= 0x39);
    assert(0x30 <= s[s.len() - 1] as int <= 0x39);
    text_laws::lemma_trimmed(front, s, back);
    lemma_decimal_number(n, 18_014_398_509_481_983);
}

/// Whether a text holds another.
pub open spec fn mentions(s: Seq<char>, part: Seq<char>) -> bool {
    exists|a: Seq<char>, b: Seq<char>| s == #[trigger] (a + part + b)
}

proof fn lemma_mentions(s: Seq<char>, part: Seq<char>)
    ensures
        mentions(s, part) <==> text::has_part(s, part),
{
    if mentions(s, part) {
        let (a, b) = choose|a: Seq<char>, b: Seq<char>| s == #[trigger] (a + part + b);
        assert(s.subrange(a.len() as int, a.len() as int + part.len()) =~= part);
        assert(text::text_at(s, part, a.len() as int));
    }
    if text::has_part(s, part) {
        let i = choose|i: int| #[trigger] text::text_at(s, part, i);
        assert(s =~= s.take(i) + part + s.skip(i + part.len()));
    }
}

proof fn lemma_one_line(s: Seq<char>)
    requires
        s.len() > 0,
        !s.contains('\n'),
    ensures
        text::lines_of(s) == seq![s],
{
    assert forall|i: int| 0 <= i < s.len() implies #[trigger] s[i] != '\n' by {
        assert(s.contains(s[i]));
    }
    text::lemma_first_of_is(s, '\n', s.len() as int);
}

/// A process that the line does not mention is not found.
pub proof fn law_process_not_found(line: &str, pid: u32, r: Result<u64, String>)
    requires
        call_ensures(rss_from_tasklist, (line, pid), r),
        line@.len() > 0,
        !line@.contains('\n'),
        !mentions(line@, text::decimal(pid as nat)),
    ensures
        r matches Err(e) && e@ == "pid "@ + text::decimal(pid as nat)
            + " not found in tasklist output"@,
{
    lemma_one_line(line@);
    lemma_mentions(line@, text::decimal(pid as nat));
    let lines = seq![line@];
    assert(lines.drop_first() =~= Seq::empty());
    reveal_with_fuel(memory::tasklist_bytes, 2);
}

/// A text without its commas.
pub open spec fn no_commas(s: Seq<char>) -> Seq<char>
    decreases s.len(),
{
    if s.len() == 0 {
        s
    } else if s.last() == ',' {
        no_commas(s.drop_last())
    } else {
        no_commas(s.drop_last()).push(s.last())
    }
}

proof fn lemma_no_commas_front(s: Seq<char>)
    requires
        s.len() > 0,
    ensures
        no_commas(s) == (if s[0] == ',' {
            no_commas(s.drop_first())
        } else {
            seq![s[0]] + no_commas(s.drop_first())
        }),
    decreases s.len(),
{
    if s.len() == 1 {
        assert(no_commas(s.drop_last()) =~= Seq::empty());
        assert(no_commas(s.drop_first()) =~= Seq::empty());
        assert(no_commas(s) =~= if s[0] == ',' {
            Seq::empty()
        } else {
            seq![s[0]]
        });
    } else {
        let t = s.drop_last();
        lemma_no_commas_front(t);
        assert(t.drop_first() =~= s.drop_first().drop_last());
        assert(s.drop_first().last() == s.last());
        assert(no_commas(s) =~= if s[0] == ',' {
            no_commas(s.drop_first())
        } else {
            seq![s[0]] + no_commas(s.drop_first())
        });
    }
}

proof fn lemma_without_commas(s: Seq<char>)
    ensures
        memory::without(s, ","@) == no_commas(s),
    decreases s.len(),
{
    reveal_strlit(",");
    if s.len() > 0 {
        lemma_no_commas_front(s);
        lemma_without_commas(s.drop_first());
        assert(s.skip(1) =~= s.drop_first());
        if text::has_prefix(s, ","@) {
            assert(s.take(1)[0] == s[0]);
        } else {
            if s[0] == ',' {
                assert(s.take(1) =~= ","@);
            }
        }
    }
}

proof fn lemma_without_end(d: Seq<char>)
    requires
        !d.contains(' '),
    ensures
        memory::without(d + " K"@, " K"@) == d,
    decreases d.len(),
{
    reveal_strlit(" K");
    let k = " K"@;
    let s = d + k;
    if d.len() == 0 {
        assert(s =~= k);
        assert(s.take(2) =~= k);
        assert(s.skip(2) =~= Seq::empty());
        assert(memory::without(s.skip(2), k) =~= d);
    } else {
        let t = d.drop_first();
        assert(d.contains(d[0]));
        assert(!t.contains(' ')) by {
            if t.contains(' ') {
                let i = choose|i: int| 0 <= i < t.len() && t[i] == ' ';
                assert(d[i + 1] == ' ');
            }
        }
        lemma_without_end(t);
        assert(s.drop_first() =~= t + k);
        if text::has_prefix(s, k) {
            assert(s.take(2)[0] == s[0]);
        }
        assert(seq![d[0]] + t =~= d);
    }
}

/// The memory of a process stands in the fifth field of the line that mentions
/// it: in quotes, in kibibytes, with or without commas between the digits.
pub proof fn law_process_memory(
    line: &str,
    pid: u32,
    parts: Seq<Seq<char>>,
    digits: Seq<char>,
    n: nat,
    r: Result<u64, String>,
)
    requires
        call_ensures(rss_from_tasklist, (line, pid), r),
        line@ == listed(parts),
        !line@.contains('\n'),
        mentions(line@, text::decimal(pid as nat)),
        parts.len() >= 5,
        forall|i: int| 0 <= i < parts.len() ==> is_field(#[trigger] parts[i]),
        parts[4] == seq!['"'] + (digits + " K"@) + seq!['"'],
        digits.len() > 0,
        digits[0] != '"',
        !digits.contains(' '),
        no_commas(digits) == text::decimal(n),
        n <= 18_014_398_509_481_983,
    ensures
        r matches Ok(bytes) && bytes == n * 1024,
{
    reveal_strlit(" K");
    lemma_fields(parts);
    assert(line@.len() > 0);
    lemma_one_line(line@);
    lemma_mentions(line@, text::decimal(pid as nat));
    let inner = digits + " K"@;
    let field = parts[4];
    assert(field[0] == '"' && field.last() == '"');
    text_laws::lemma_trim_visible(field);
    let head = inner + seq!['"'];
    assert(field.drop_first() =~= head);
    assert(head[0] == digits[0]);
    assert(text::trim_char_start_of(head, '"') == head);
    assert(text::trim_char_start_of(field, '"') == head);
    assert(head.drop_last() =~= inner);
    assert(inner.last() == 'K');
    assert(text::trim_char_end_of(inner, '"') == inner);
    assert(text::trim_char_end_of(head, '"') == inner);
    lemma_without_end(digits);
    lemma_without_commas(digits);
    lemma_decimal_number(n, 18_014_398_509_481_983);
}

} // verus!
