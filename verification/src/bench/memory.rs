//! Reading how much memory a process uses.
use crate::numbers;
use crate::numbers::parse_radix;
use crate::text;
use vstd::prelude::*;

verus! {

/// Most kibibytes that can be told in bytes.
pub const MAX_KIB: u64 = 18_014_398_509_481_983;

/// Where the field ends that begins a line: at the next comma outside quotes,
/// or at the end.
pub open spec fn field_end(s: Seq<char>, at: int, quoted: bool) -> int
    decreases s.len() - at,
{
    if at < 0 || at >= s.len() {
        s.len() as int
    } else if s[at] == '"' {
        field_end(s, at + 1, !quoted)
    } else if s[at] == ',' && !quoted {
        at
    } else {
        field_end(s, at + 1, quoted)
    }
}

/// The end of a field lies in its line.
pub proof fn lemma_field_end(s: Seq<char>, at: int, quoted: bool)
    requires
        0 <= at <= s.len(),
    ensures
        at <= field_end(s, at, quoted) <= s.len(),
    decreases s.len() - at,
{
    if at < s.len() {
        lemma_field_end(s, at + 1, !quoted);
        lemma_field_end(s, at + 1, quoted);
    }
}

/// The fields of a line, separated by commas; a comma in quotes separates
/// nothing.
pub open spec fn fields_of(s: Seq<char>) -> Seq<Seq<char>>
    decreases s.len(),
{
    proof {
        lemma_field_end(s, 0, false);
    }
    let n = field_end(s, 0, false);
    if n < s.len() {
        seq![s.take(n)] + fields_of(s.skip(n + 1))
    } else {
        seq![s]
    }
}

fn find_field_end(chars: &Vec<char>, from: usize) -> (at: usize)
    requires
        from <= chars@.len(),
    ensures
        at == from + field_end(chars@.skip(from as int), 0, false),
        from <= at <= chars@.len(),
{
    let ghost rest = chars@.skip(from as int);
    let mut i: usize = from;
    let mut quoted = false;
    while i < chars.len()
        invariant
            from <= i <= chars@.len(),
            rest == chars@.skip(from as int),
            field_end(rest, 0, false) == field_end(rest, i - from, quoted),
        decreases chars@.len() - i,
    {
        let c = chars[i];
        assert(rest[i - from] == c);
        if c == '"' {
            quoted = !quoted;
        } else if c == ',' && !quoted {
            return i;
        }
        i += 1;
    }
    i
}

/// The fields of a line.
pub fn split_fields(line: &str) -> (out: Vec<String>)
    ensures
        text::texts(out@) == fields_of(line@),
{
    let chars = text::chars_of(line);
    let n: usize = chars.len();
    let mut out: Vec<String> = Vec::new();
    let mut from: usize = 0;
    assert(chars@.skip(0) =~= line@);
    assert(text::texts(out@) + fields_of(chars@.skip(0)) =~= fields_of(line@));
    loop
        invariant
            from <= n,
            n == chars.len(),
            text::texts(out@) + fields_of(chars@.skip(from as int)) == fields_of(line@),
        decreases n - from,
    {
        let ghost rest = chars@.skip(from as int);
        let ghost before = text::texts(out@);
        let at: usize = find_field_end(&chars, from);
        let field = text::sub_text(&chars, from, at);
        assert(field@ =~= rest.take(at - from));
        out.push(field);
        assert(text::texts(out@) =~= before.push(rest.take(at - from)));
        if at == n {
            assert(rest.take(at - from) =~= rest);
            assert(text::texts(out@) =~= before + seq![rest]);
            return out;
        }
        assert(rest.skip(at - from + 1) =~= chars@.skip(at + 1));
        assert(before + (seq![rest.take(at - from)] + fields_of(chars@.skip(at + 1)))
            =~= text::texts(out@) + fields_of(chars@.skip(at + 1)));
        from = at + 1;
    }
}

/// A text without the occurrences of a part, looked for from its start.
pub open spec fn without(s: Seq<char>, part: Seq<char>) -> Seq<char>
    decreases s.len(),
{
    if s.len() == 0 || part.len() == 0 {
        s
    } else if text::has_prefix(s, part) {
        without(s.skip(part.len() as int), part)
    } else {
        seq![s[0]] + without(s.drop_first(), part)
    }
}

/// A text without the occurrences of a part.
pub fn remove_part(s: &str, part: &str) -> (out: String)
    requires
        part@.len() > 0,
    ensures
        out@ == without(s@, part@),
{
    let chars = text::chars_of(s);
    let gone = text::chars_of(part);
    let n: usize = chars.len();
    let m: usize = gone.len();
    let mut out = String::new();
    let mut i: usize = 0;
    assert(s@.skip(0) =~= s@);
    assert(out@ + without(s@, part@) =~= without(s@, part@));
    while i < n
        invariant
            i <= n,
            n == chars.len(),
            m == gone.len(),
            m > 0,
            chars@ == s@,
            gone@ == part@,
            out@ + without(s@.skip(i as int), part@) == without(s@, part@),
        decreases n - i,
    {
        let ghost rest = s@.skip(i as int);
        let mut j: usize = 0;
        while j < m && j < n - i && chars[i + j] == gone[j]
            invariant
                i <= n,
                n == chars.len(),
                m == gone.len(),
                j <= m,
                j <= n - i,
                chars@ == s@,
                gone@ == part@,
                rest == s@.skip(i as int),
                forall|k: int| 0 <= k < j ==> rest[k] == #[trigger] part@[k],
            decreases m - j,
        {
            assert(rest[j as int] == s@[i + j]);
            j += 1;
        }
        if j == m {
            assert(rest.take(m as int) =~= part@);
            assert(rest.skip(m as int) =~= s@.skip(i + m));
            i += m;
        } else {
            let ghost before = out@;
            assert(!text::has_prefix(rest, part@)) by {
                if text::has_prefix(rest, part@) {
                    assert(rest.take(m as int)[j as int] == part@[j as int]);
                    assert(rest[j as int] == s@[i + j]);
                }
            }
            out.push(chars[i]);
            assert(rest.drop_first() =~= s@.skip(i + 1));
            assert(rest[0] == s@[i as int]);
            assert(before + (seq![rest[0]] + without(s@.skip(i + 1), part@)) =~= out@ + without(
                s@.skip(i + 1),
                part@,
            ));
            i += 1;
        }
    }
    assert(s@.skip(n as int) =~= Seq::<char>::empty());
    assert(out@ + Seq::<char>::empty() =~= out@);
    out
}

/// How many bytes a number of kibibytes is, or why a text is no such number.
pub open spec fn bytes_in(kib: Seq<char>) -> Result<nat, Seq<char>> {
    match numbers::number_in(kib, 10, MAX_KIB as nat) {
        Ok(n) => Ok(n * 1024),
        Err(e) => Err("parse RSS: "@ + e.words()),
    }
}

/// Whether a result is what a model says.
pub open spec fn same_bytes(r: Result<u64, String>, m: Result<nat, Seq<char>>) -> bool {
    match r {
        Ok(n) => m == Ok::<nat, Seq<char>>(n as nat),
        Err(e) => m == Err::<nat, Seq<char>>(e@),
    }
}

fn parse_kib(kib: &str) -> (r: Result<u64, String>)
    ensures
        same_bytes(r, bytes_in(kib@)),
{
    match parse_radix(kib, 10, MAX_KIB) {
        Ok(n) => Ok(n * 1024),
        Err(e) => Err(text::join2("parse RSS: ", e.text())),
    }
}

/// The memory that `ps -o rss=` tells: a number of kibibytes.
pub fn rss_from_ps(stdout: &str) -> (r: Result<u64, String>)
    ensures
        same_bytes(r, bytes_in(text::trim_of(stdout@))),
{
    let kib = text::trim(stdout);
    parse_kib(kib.as_str())
}

/// The number in the fifth field of a line of `tasklist`: without its quotes,
/// its unit and the commas between its digits.
pub open spec fn tasklist_number(field: Seq<char>) -> Seq<char> {
    without(without(text::trim_char_of(text::trim_of(field), '"'), " K"@), ","@)
}

/// Whether a line of `tasklist` is about a process.
pub open spec fn is_about(line: Seq<char>, pid: u32) -> bool {
    text::has_part(line, text::decimal(pid as nat)) && fields_of(line).len() >= 5
}

/// The memory that lines of `tasklist` tell of a process: that of the first
/// line about it.
pub open spec fn tasklist_bytes(lines: Seq<Seq<char>>, pid: u32) -> Result<nat, Seq<char>>
    decreases lines.len(),
{
    if lines.len() == 0 {
        Err("pid "@ + text::decimal(pid as nat) + " not found in tasklist output"@)
    } else if is_about(lines[0], pid) {
        bytes_in(tasklist_number(fields_of(lines[0])[4]))
    } else {
        tasklist_bytes(lines.drop_first(), pid)
    }
}

/// The memory that `tasklist /FO CSV /NH` tells of a process. A line is like
/// `"meow.exe","1234","Console","1","12,345 K","Running"`; the fifth field is
/// the working set in kibibytes, with commas between its digits.
pub fn rss_from_tasklist(stdout: &str, pid: u32) -> (r: Result<u64, String>)
    ensures
        same_bytes(r, tasklist_bytes(text::lines_of(stdout@), pid)),
{
    let mut shown = String::new();
    text::push_decimal(&mut shown, pid as u64);
    assert(shown@ =~= text::decimal(pid as nat));
    let lines = text::lines(stdout);
    let ghost all = text::texts(lines@);
    let mut i: usize = 0;
    assert(all.skip(0) =~= all);
    while i < lines.len()
        invariant
            i <= lines@.len(),
            all == text::texts(lines@),
            shown@ == text::decimal(pid as nat),
            tasklist_bytes(text::lines_of(stdout@), pid) == tasklist_bytes(
                all.skip(i as int),
                pid,
            ),
        decreases lines@.len() - i,
    {
        assert(all.skip(i as int)[0] == lines@[i as int]@);
        assert(all.skip(i as int).drop_first() =~= all.skip(i + 1));
        if text::contains(lines[i].as_str(), shown.as_str()) {
            let fields = split_fields(lines[i].as_str());
            assert(text::texts(fields@).len() == fields@.len());
            if fields.len() >= 5 {
                assert(text::texts(fields@)[4] == fields@[4]@);
                proof {
                    reveal_strlit(" K");
                    reveal_strlit(",");
                }
                let field = text::trim(fields[4].as_str());
                let field = text::trim_matches(field.as_str(), '"');
                let field = remove_part(field.as_str(), " K");
                let kib = remove_part(field.as_str(), ",");
                return parse_kib(kib.as_str());
            }
        }
        i += 1;
    }
    assert(all.skip(i as int).len() == 0);
    Err(text::join3("pid ", shown.as_str(), " not found in tasklist output"))
}

/// The error for a tool that failed.
pub fn tool_failed(tool: &str, pid: u32) -> (out: String)
    ensures
        out@ == tool@ + " failed for pid "@ + text::decimal(pid as nat),
{
    let mut out = text::join2(tool, " failed for pid ");
    text::push_decimal(&mut out, pid as u64);
    out
}

/// The larger of a peak and a sample; one that failed does not count.
pub open spec fn peak_with(peak: u64, sample: Option<u64>) -> u64 {
    match sample {
        Some(n) if n > peak => n,
        _ => peak,
    }
}

/// The largest of some samples; zero without any.
pub open spec fn peak_of(samples: Seq<Option<u64>>) -> u64
    decreases samples.len(),
{
    if samples.len() == 0 {
        0
    } else {
        peak_with(peak_of(samples.drop_last()), samples.last())
    }
}

/// The largest sample so far.
#[derive(Clone, Copy, Debug, PartialEq, Eq, Structural)]
pub struct PeakRss {
    pub peak: u64,
}

impl PeakRss {
    /// No sample yet.
    pub fn new() -> (p: Self)
        ensures
            p.peak == peak_of(Seq::empty()),
    {
        PeakRss { peak: 0 }
    }

    /// Takes a sample; one that failed changes nothing.
    pub fn sample(&mut self, rss: Option<u64>)
        ensures
            final(self).peak == peak_with(old(self).peak, rss),
    {
        if let Some(n) = rss {
            if n > self.peak {
                self.peak = n;
            }
        }
    }
}

/// The peak is one of the samples, or zero, and no sample lies above it.
pub proof fn law_peak(samples: Seq<Option<u64>>)
    ensures
        forall|i: int|
            0 <= i < samples.len() ==> (#[trigger] samples[i] matches Some(n) ==> n <= peak_of(
                samples,
            )),
        peak_of(samples) == 0 || samples.contains(Some(peak_of(samples))),
    decreases samples.len(),
{
    if samples.len() > 0 {
        let head = samples.drop_last();
        law_peak(head);
        assert forall|i: int| 0 <= i < samples.len() implies (
        #[trigger] samples[i] matches Some(n) ==> n <= peak_of(samples)) by {
            if i < head.len() {
                assert(head[i] == samples[i]);
            }
        }
        if peak_of(samples) != 0 {
            if peak_of(samples) == peak_of(head) {
                let k = choose|k: int| 0 <= k < head.len() && head[k] == Some(peak_of(head));
                assert(samples[k] == Some(peak_of(samples)));
            } else {
                assert(samples[samples.len() - 1] == Some(peak_of(samples)));
            }
        }
    }
}

} // verus!
