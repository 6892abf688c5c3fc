//! Padding schemes: how large the records of each packet are made.
use crate::anytls::string_map::StringMap;
use crate::anytls::string_map;
use crate::octets;
use crate::text;
use vstd::prelude::*;

verus! {

/// In place of a size: stop here if no data is left.
pub const CHECK_MARK: i32 = -1;

/// The scheme that is used unless another is set.
pub const DEFAULT_PADDING_SCHEME: &'static str =
    "stop=8\n0=30-30\n1=100-400\n2=400-500,c,500-1000,c,500-1000,c,500-1000,c,500-1000\n3=9-9,500-1000\n4=500-1000\n5=500-1000\n6=500-1000\n7=500-1000";

/// What a scheme says of one record.
#[derive(Clone, Copy, Debug, PartialEq, Eq, Structural)]
pub enum SizeRule {
    /// Stop here if no data is left.
    Check,
    /// A size between these two, both positive.
    Range(i64, i64),
}

/// The positive number that a text writes, the white space around it left out.
pub open spec fn positive_of(s: Seq<char>) -> Option<i64> {
    match text::number_of(text::trim_of(s), i64::MAX as nat) {
        Some(n) => if n > 0 {
            Some(n as i64)
        } else {
            None
        },
        None => None,
    }
}

/// What one part of a packet's line says; nothing where it makes no sense.
pub open spec fn rule_of(part: Seq<char>) -> Option<SizeRule> {
    let p = text::trim_of(part);
    if p == "c"@ {
        Some(SizeRule::Check)
    } else {
        match text::split_once_of(p, '-') {
            None => None,
            Some((a, b)) => match (positive_of(a), positive_of(b)) {
                (Some(x), Some(y)) => if x <= y {
                    Some(SizeRule::Range(x, y))
                } else {
                    Some(SizeRule::Range(y, x))
                },
                _ => None,
            },
        }
    }
}

/// What the parts of a packet's line say.
pub open spec fn rules_of(parts: Seq<Seq<char>>) -> Seq<SizeRule>
    decreases parts.len(),
{
    if parts.len() == 0 {
        Seq::empty()
    } else {
        let before = rules_of(parts.drop_last());
        match rule_of(parts.last()) {
            Some(r) => before.push(r),
            None => before,
        }
    }
}

/// A number cut down to its low 32 bits.
pub open spec fn low32(n: int) -> int {
    if n % 0x1_0000_0000 >= 0x8000_0000 {
        n % 0x1_0000_0000 - 0x1_0000_0000
    } else {
        n % 0x1_0000_0000
    }
}

/// Whether a size is one that a rule allows.
pub open spec fn size_fits(size: i32, rule: SizeRule) -> bool {
    match rule {
        SizeRule::Check => size == CHECK_MARK,
        SizeRule::Range(min, max) => exists|n: int| min <= n <= max && size == #[trigger] low32(n),
    }
}

/// Whether some sizes are ones that the rules allow, one each.
pub open spec fn sizes_fit(sizes: Seq<i32>, rules: Seq<SizeRule>) -> bool {
    &&& sizes.len() == rules.len()
    &&& forall|i: int| 0 <= i < sizes.len() ==> size_fits(#[trigger] sizes[i], rules[i])
}

/// The MD5 hash of some bytes.
pub uninterp spec fn md5_of(data: Seq<u8>) -> Seq<u8>;

/// `md5::compute`. The hash function itself is not stated here.
#[verifier::external_body]
fn md5_digest(data: &[u8]) -> (out: [u8; 16])
    ensures
        out@ == md5_of(data@),
{
    md5::compute(data).0
}

/// `rand::random_range` picks a number in the range, its ends included.
#[verifier::external_body]
fn random_between(min: i64, max: i64) -> (n: i64)
    requires
        min <= max,
    ensures
        min <= n <= max,
{
    rand::random_range(min..=max)
}

/// Bytes as hexadecimal digits.
pub open spec fn hex_text(b: Seq<u8>) -> Seq<char>
    decreases b.len(),
{
    if b.len() == 0 {
        Seq::empty()
    } else {
        hex_text(b.drop_last()) + text::hex_byte(b.last())
    }
}

/// Each byte takes two digits.
proof fn lemma_hex_len(b: Seq<u8>)
    ensures
        hex_text(b).len() == 2 * b.len(),
    decreases b.len(),
{
    if b.len() > 0 {
        lemma_hex_len(b.drop_last());
    }
}

fn to_hex(b: &[u8]) -> (out: String)
    ensures
        out@ == hex_text(b@),
        out@.len() == 2 * b@.len(),
{
    proof {
        lemma_hex_len(b@);
    }
    let mut out = String::new();
    let mut i: usize = 0;
    assert(b@.take(0) =~= Seq::empty());
    while i < b.len()
        invariant
            i <= b@.len(),
            out@ == hex_text(b@.take(i as int)),
        decreases b@.len() - i,
    {
        assert(b@.take(i + 1).drop_last() =~= b@.take(i as int));
        text::push_hex_byte(&mut out, b[i]);
        i += 1;
    }
    assert(b@.take(i as int) =~= b@);
    out
}

fn read_positive(s: &str) -> (out: Option<i64>)
    ensures
        out == positive_of(s@),
{
    let t = text::trim(s);
    match text::parse_number(t.as_str(), i64::MAX as u64) {
        Some(n) => {
            if n > 0 {
                Some(n as i64)
            } else {
                None
            }
        },
        None => None,
    }
}

fn read_rule(part: &str) -> (out: Option<SizeRule>)
    ensures
        out == rule_of(part@),
{
    let p = text::trim(part);
    if text::same(p.as_str(), "c") {
        return Some(SizeRule::Check);
    }
    match text::split_once(p.as_str(), '-') {
        None => None,
        Some((a, b)) => match (read_positive(a.as_str()), read_positive(b.as_str())) {
            (Some(x), Some(y)) => {
                if x <= y {
                    Some(SizeRule::Range(x, y))
                } else {
                    Some(SizeRule::Range(y, x))
                }
            },
            _ => None,
        },
    }
}

/// The map of settings that a raw scheme writes.
pub open spec fn scheme_of(raw: Seq<u8>) -> Map<Seq<char>, Seq<char>> {
    string_map::map_of(string_map::pairs_of(text::lines_of(text::lossy_text(raw))))
}

/// Makes sizes by a scheme.
#[derive(Debug)]
pub struct PaddingFactory {
    scheme: StringMap,
    raw_scheme: Vec<u8>,
    stop: u32,
    md5: String,
}

impl PaddingFactory {
    /// The settings of the scheme.
    pub closed spec fn settings(&self) -> Map<Seq<char>, Seq<char>> {
        self.scheme@
    }

    /// The scheme as it was given.
    pub closed spec fn raw(&self) -> Seq<u8> {
        self.raw_scheme@
    }

    /// The number of packets that are padded.
    pub closed spec fn stop_at(&self) -> u32 {
        self.stop
    }

    /// The hash of the scheme, in hexadecimal digits.
    pub closed spec fn hash(&self) -> Seq<char> {
        self.md5@
    }

    /// The settings are held as they should be.
    pub closed spec fn settings_ok(&self) -> bool {
        self.scheme.wf()
    }

    /// The settings, the number of padded packets and the hash are those of the
    /// raw scheme.
    pub open spec fn wf(&self) -> bool {
        &&& self.settings_ok()
        &&& self.settings() == scheme_of(self.raw())
        &&& self.settings().dom().contains("stop"@)
        &&& text::number_of(self.settings()["stop"@], u32::MAX as nat) == Some(
            self.stop_at() as nat,
        )
        &&& self.hash() == hex_text(md5_of(self.raw()))
        &&& self.hash().len() == 32
    }

    /// What the scheme says of the records of a packet; nothing for a packet
    /// that it does not mention.
    pub open spec fn plan_of(&self, pkt: u32) -> Seq<SizeRule> {
        let key = text::decimal(pkt as nat);
        if self.settings().dom().contains(key) {
            rules_of(text::split_of(self.settings()[key], ','))
        } else {
            Seq::empty()
        }
    }

    /// A factory for a raw scheme. The scheme has to say after how many packets
    /// padding stops.
    pub fn new(raw_scheme: &[u8]) -> (r: Result<Self, String>)
        ensures
            ({
                let settings = scheme_of(raw_scheme@);
                if !settings.dom().contains("stop"@) {
                    r matches Err(e) && e@ == "missing 'stop' in padding scheme"@
                } else if text::number_of(settings["stop"@], u32::MAX as nat) is None {
                    r matches Err(e) && e@ == "invalid 'stop' value"@
                } else {
                    r matches Ok(f) && f.wf() && f.raw() == raw_scheme@
                }
            }),
            vstd::utf8::valid_utf8(raw_scheme@) ==> scheme_of(raw_scheme@) == string_map::map_of(
                string_map::pairs_of(text::lines_of(vstd::utf8::decode_utf8(raw_scheme@))),
            ),
    {
        let scheme = StringMap::from_bytes(raw_scheme);
        let stop: u32 = match scheme.get("stop") {
            None => {
                return Err("missing 'stop' in padding scheme".to_owned());
            },
            Some(v) => match text::parse_number(v.as_str(), u32::MAX as u64) {
                None => {
                    return Err("invalid 'stop' value".to_owned());
                },
                Some(n) => n as u32,
            },
        };
        let digest = md5_digest(raw_scheme);
        let md5 = to_hex(digest.as_slice());
        Ok(PaddingFactory { scheme, raw_scheme: octets::copy(raw_scheme), stop, md5 })
    }

    /// The factory of the built-in scheme.
    pub fn built_in() -> (f: Self)
        ensures
            f.wf(),
            f.raw() == vstd::utf8::encode_utf8(DEFAULT_PADDING_SCHEME@),
            f.stop_at() == 8,
            f.settings() == string_map::map_of(default_pairs()),
    {
        let raw = octets::of_text(DEFAULT_PADDING_SCHEME);
        let scheme = StringMap::from_bytes(raw.as_slice());
        proof {
            lemma_default_scheme();
            vstd::utf8::encode_utf8_valid_utf8(DEFAULT_PADDING_SCHEME@);
        }
        let digest = md5_digest(raw.as_slice());
        let md5 = to_hex(digest.as_slice());
        PaddingFactory { scheme, raw_scheme: raw, stop: 8, md5 }
    }

    /// Sets the factory that is shared as the default, unless one is set
    /// already.
    pub fn update_default(shared: &mut Option<PaddingFactory>, raw_scheme: &[u8]) -> (r: Result<
        (),
        String,
    >)
        ensures
            ({
                let settings = scheme_of(raw_scheme@);
                if !settings.dom().contains("stop"@) {
                    (r matches Err(e) && e@ == "missing 'stop' in padding scheme"@)
                        && *final(shared) == *old(shared)
                } else if text::number_of(settings["stop"@], u32::MAX as nat) is None {
                    (r matches Err(e) && e@ == "invalid 'stop' value"@) && *final(shared) == *old(
                        shared,
                    )
                } else if *old(shared) is Some {
                    (r matches Err(e) && e@ == "failed to update default factory"@)
                        && *final(shared) == *old(shared)
                } else {
                    r is Ok && (*final(shared) matches Some(f) && f.wf() && f.raw() == raw_scheme@)
                }
            }),
    {
        let factory = match PaddingFactory::new(raw_scheme) {
            Ok(f) => f,
            Err(e) => {
                return Err(e);
            },
        };
        if shared.is_some() {
            return Err("failed to update default factory".to_owned());
        }
        *shared = Some(factory);
        Ok(())
    }

    /// The factory that is shared as the default: the one that was set, or else
    /// that of the built-in scheme, which is shared from then on.
    pub fn default(shared: &mut Option<PaddingFactory>) -> (f: &PaddingFactory)
        ensures
            *final(shared) == Some(*f),
            match *old(shared) {
                Some(set) => *f == set,
                None => f.wf() && f.raw() == vstd::utf8::encode_utf8(DEFAULT_PADDING_SCHEME@)
                    && f.stop_at() == 8 && f.settings() == string_map::map_of(default_pairs()),
            },
    {
        if shared.is_none() {
            *shared = Some(PaddingFactory::built_in());
        }
        shared.as_ref().unwrap()
    }

    /// The number of packets that are padded.
    pub fn stop(&self) -> (n: u32)
        ensures
            n == self.stop_at(),
    {
        self.stop
    }

    /// The hash of the scheme, in hexadecimal digits.
    pub fn md5(&self) -> (out: &str)
        ensures
            out@ == self.hash(),
    {
        self.md5.as_str()
    }

    /// The scheme as it was given.
    pub fn raw_scheme(&self) -> (out: &[u8])
        ensures
            out@ == self.raw(),
    {
        self.raw_scheme.as_slice()
    }

    /// What the scheme says of the records of a packet.
    pub fn plan(&self, pkt: u32) -> (out: Vec<SizeRule>)
        requires
            self.wf(),
        ensures
            out@ == self.plan_of(pkt),
    {
        let mut key = String::new();
        text::push_decimal(&mut key, pkt as u64);
        assert(key@ =~= text::decimal(pkt as nat));
        let mut out: Vec<SizeRule> = Vec::new();
        let spec_text = match self.scheme.get(key.as_str()) {
            Some(s) => s,
            None => {
                assert(out@ =~= Seq::empty());
                return out;
            },
        };
        let parts = text::split(spec_text.as_str(), ',');
        let ghost all = text::texts(parts@);
        let mut i: usize = 0;
        assert(all.take(0) =~= Seq::empty());
        while i < parts.len()
            invariant
                i <= parts@.len(),
                all == text::texts(parts@),
                out@ == rules_of(all.take(i as int)),
            decreases parts@.len() - i,
        {
            assert(all.take(i + 1).drop_last() =~= all.take(i as int));
            assert(all.take(i + 1).last() == parts@[i as int]@);
            if let Some(r) = read_rule(parts[i].as_str()) {
                out.push(r);
            }
            i += 1;
        }
        assert(all.take(i as int) =~= all);
        out
    }

    /// Sizes for the records of a packet: one for each rule of the scheme, with
    /// a [`CHECK_MARK`] for each check.
    pub fn generate_record_payload_sizes(&self, pkt: u32) -> (sizes: Vec<i32>)
        requires
            self.wf(),
        ensures
            sizes_fit(sizes@, self.plan_of(pkt)),
    {
        let rules = self.plan(pkt);
        proof {
            lemma_rules_ordered(rules@, self, pkt);
        }
        let mut sizes: Vec<i32> = Vec::new();
        let mut i: usize = 0;
        while i < rules.len()
            invariant
                i <= rules@.len(),
                sizes@.len() == i,
                forall|j: int|
                    0 <= j < rules@.len() ==> rule_ordered(#[trigger] rules@[j]),
                forall|j: int| 0 <= j < i ==> size_fits(#[trigger] sizes@[j], rules@[j]),
            decreases rules@.len() - i,
        {
            let ghost before = sizes@;
            assert(rule_ordered(rules@[i as int]));
            let size: i32 = match rules[i] {
                SizeRule::Check => CHECK_MARK,
                SizeRule::Range(min, max) => {
                    let n: i64 = if min == max {
                        min
                    } else {
                        random_between(min, max)
                    };
                    let low: i64 = n % 0x1_0000_0000;
                    let cut: i64 = if low >= 0x8000_0000 {
                        low - 0x1_0000_0000
                    } else {
                        low
                    };
                    assert(cut == low32(n as int));
                    cut as i32
                },
            };
            sizes.push(size);
            assert forall|j: int| 0 <= j < i + 1 implies size_fits(
                #[trigger] sizes@[j],
                rules@[j],
            ) by {
                if j < i {
                    assert(sizes@[j] == before[j]);
                }
            }
            i += 1;
        }
        sizes
    }
}

/// The ends of a range are positive and in order.
spec fn rule_ordered(rule: SizeRule) -> bool {
    rule matches SizeRule::Range(a, b) ==> 0 < a <= b
}

proof fn lemma_rules_ordered(rules: Seq<SizeRule>, f: &PaddingFactory, pkt: u32)
    requires
        rules == f.plan_of(pkt),
    ensures
        forall|j: int| 0 <= j < rules.len() ==> rule_ordered(#[trigger] rules[j]),
{
    let key = text::decimal(pkt as nat);
    if f.settings().dom().contains(key) {
        lemma_rules_of_ordered(text::split_of(f.settings()[key], ','));
    }
}

proof fn lemma_rules_of_ordered(parts: Seq<Seq<char>>)
    ensures
        forall|j: int|
            0 <= j < rules_of(parts).len() ==> rule_ordered(#[trigger] rules_of(parts)[j]),
    decreases parts.len(),
{
    if parts.len() > 0 {
        let before = rules_of(parts.drop_last());
        lemma_rules_of_ordered(parts.drop_last());
        if rule_of(parts.last()) is Some {
            let r = rule_of(parts.last())->0;
            assert(rule_ordered(r));
            assert forall|j: int| 0 <= j < rules_of(parts).len() implies rule_ordered(
                #[trigger] rules_of(parts)[j],
            ) by {
                if j < before.len() {
                    assert(rules_of(parts)[j] == before[j]);
                }
            }
        }
    }
}

/// The settings of the default scheme.
pub open spec fn default_pairs() -> Seq<string_map::Pair> {
    seq![
        ("stop"@, "8"@),
        ("0"@, "30-30"@),
        ("1"@, "100-400"@),
        ("2"@, "400-500,c,500-1000,c,500-1000,c,500-1000,c,500-1000"@),
        ("3"@, "9-9,500-1000"@),
        ("4"@, "500-1000"@),
        ("5"@, "500-1000"@),
        ("6"@, "500-1000"@),
        ("7"@, "500-1000"@),
    ]
}

/// A text of digits, minus signs, commas and letters `c` has nothing that a
/// line could not carry.
spec fn simple(s: Seq<char>) -> bool {
    &&& s.len() > 0
    &&& forall|i: int|
        0 <= i < s.len() ==> {
            let c = #[trigger] s[i];
            c != '=' && c != '\n' && !text::is_space(c)
        }
}

proof fn lemma_simple(s: Seq<char>)
    requires
        simple(s),
    ensures
        !s.contains('='),
        !s.contains('\n'),
        text::trim_of(s) == s,
{
    assert(!text::is_space(s[0]));
    assert(!text::is_space(s[s.len() - 1]));
}

proof fn lemma_default_scheme()
    ensures
        string_map::pairs_of(
            text::lines_of(
                vstd::utf8::decode_utf8(vstd::utf8::encode_utf8(DEFAULT_PADDING_SCHEME@)),
            ),
        ) == default_pairs(),
        string_map::map_of(default_pairs()).dom().contains("stop"@),
        text::number_of(string_map::map_of(default_pairs())["stop"@], u32::MAX as nat) == Some(
            8nat,
        ),
{
    lemma_default_plain();
    lemma_default_text();
    string_map::law_pairs_round_trip(default_pairs());
    lemma_default_stop();
}

proof fn lemma_default_plain()
    ensures
        forall|i: int|
            0 <= i < default_pairs().len() ==> string_map::plain(#[trigger] default_pairs()[i]),
{
    reveal_strlit("stop");
    reveal_strlit("0");
    reveal_strlit("1");
    reveal_strlit("2");
    reveal_strlit("3");
    reveal_strlit("4");
    reveal_strlit("5");
    reveal_strlit("6");
    reveal_strlit("7");
    reveal_strlit("8");
    reveal_strlit("30-30");
    reveal_strlit("100-400");
    reveal_strlit("400-500,c,500-1000,c,500-1000,c,500-1000,c,500-1000");
    reveal_strlit("9-9,500-1000");
    reveal_strlit("500-1000");
    assert forall|i: int| 0 <= i < default_pairs().len() implies string_map::plain(
        #[trigger] default_pairs()[i],
    ) by {
        lemma_simple(default_pairs()[i].0);
        lemma_simple(default_pairs()[i].1);
    }
}

proof fn lemma_default_text()
    ensures
        DEFAULT_PADDING_SCHEME@ == string_map::lines_text(default_pairs()),
{
    reveal_with_fuel(string_map::lines_text, 10);
    reveal_strlit(
        "stop=8\n0=30-30\n1=100-400\n2=400-500,c,500-1000,c,500-1000,c,500-1000,c,500-1000\n3=9-9,500-1000\n4=500-1000\n5=500-1000\n6=500-1000\n7=500-1000",
    );
    reveal_strlit("stop");
    reveal_strlit("0");
    reveal_strlit("1");
    reveal_strlit("2");
    reveal_strlit("3");
    reveal_strlit("4");
    reveal_strlit("5");
    reveal_strlit("6");
    reveal_strlit("7");
    reveal_strlit("8");
    reveal_strlit("30-30");
    reveal_strlit("100-400");
    reveal_strlit("400-500,c,500-1000,c,500-1000,c,500-1000,c,500-1000");
    reveal_strlit("9-9,500-1000");
    reveal_strlit("500-1000");
    assert(DEFAULT_PADDING_SCHEME@ =~= string_map::lines_text(default_pairs()));
}

proof fn lemma_default_stop()
    ensures
        string_map::map_of(default_pairs()).dom().contains("stop"@),
        text::number_of(string_map::map_of(default_pairs())["stop"@], u32::MAX as nat) == Some(
            8nat,
        ),
{
    reveal_with_fuel(string_map::map_of, 10);
    reveal_strlit("stop");
    reveal_strlit("8");
    let pairs = default_pairs();
    let d1 = pairs.drop_last();
    let d2 = d1.drop_last();
    let d3 = d2.drop_last();
    let d4 = d3.drop_last();
    let d5 = d4.drop_last();
    let d6 = d5.drop_last();
    let d7 = d6.drop_last();
    let d8 = d7.drop_last();
    assert(d8.len() == 1 && d8.last() == ("stop"@, "8"@));
    assert(string_map::map_of(d8)["stop"@] == "8"@);
    reveal_strlit("0");
    reveal_strlit("1");
    reveal_strlit("2");
    reveal_strlit("3");
    reveal_strlit("4");
    reveal_strlit("5");
    reveal_strlit("6");
    reveal_strlit("7");
    assert("stop"@.len() == 4 && "0"@.len() == 1 && "1"@.len() == 1 && "2"@.len() == 1
        && "3"@.len() == 1 && "4"@.len() == 1 && "5"@.len() == 1 && "6"@.len() == 1 && "7"@.len()
        == 1);
    reveal_with_fuel(text::digits_value, 2);
    assert("8"@.drop_last() =~= Seq::empty());
}

} // verus!
