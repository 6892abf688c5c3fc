//! Providers of proxies: where their lists come from, which of their proxies
//! stay, and the views that proxy groups have of them.
use crate::anytls::string_map::StringMap;
use crate::config::internal_http::body_text;
use crate::config::raw::{RawHealthCheck, RawProxyGroup, RawProxyProvider};
use crate::config::safe_path;
use crate::text;
use vstd::prelude::*;

verus! {

/// The health check of a provider.
#[derive(Debug)]
pub struct HealthCheckConfig {
    pub url: String,
    pub interval: u64,
    pub timeout: u64,
    pub expected_status: String,
    pub lazy: bool,
}

/// Whether a health check is the one that a configuration asks for: one that
/// is not switched off, with the defaults for what is not set.
pub open spec fn is_health_check(raw: Option<RawHealthCheck>, out: Option<HealthCheckConfig>) -> bool {
    match raw {
        None => out is None,
        Some(hc) => if hc.enable == Some(false) {
            out is None
        } else {
            out matches Some(c) && c.url@ == (match hc.url {
                Some(u) => u@,
                None => "https://www.gstatic.com/generate_204"@,
            }) && c.interval == (match hc.interval {
                Some(n) => n,
                None => 300,
            }) && c.timeout == (match hc.timeout {
                Some(n) => n,
                None => 5000,
            }) && c.expected_status@ == (match hc.expected_status {
                Some(s) => s@,
                None => Seq::empty(),
            }) && c.lazy == (hc.lazy == Some(true))
        },
    }
}

fn text_or(s: &Option<String>, default: &str) -> (out: String)
    ensures
        out@ == (match *s {
            Some(t) => t@,
            None => default@,
        }),
{
    match s {
        Some(t) => t.as_str().to_owned(),
        None => default.to_owned(),
    }
}

/// The health check that a configuration asks for.
pub fn build_health_check_config(raw: &Option<RawHealthCheck>) -> (out: Option<HealthCheckConfig>)
    ensures
        is_health_check(*raw, out),
{
    match raw {
        None => None,
        Some(hc) => {
            if let Some(enable) = hc.enable {
                if !enable {
                    return None;
                }
            }
            proof {
                reveal_strlit("");
                assert(""@ =~= Seq::<char>::empty());
            }
            Some(
                HealthCheckConfig {
                    url: text_or(&hc.url, "https://www.gstatic.com/generate_204"),
                    interval: match hc.interval {
                        Some(n) => n,
                        None => 300,
                    },
                    timeout: match hc.timeout {
                        Some(n) => n,
                        None => 5000,
                    },
                    expected_status: text_or(&hc.expected_status, ""),
                    lazy: match hc.lazy {
                        Some(b) => b,
                        None => false,
                    },
                },
            )
        },
    }
}

/// The words in the pieces of one `exclude-type` entry.
pub open spec fn words_in(pieces: Seq<Seq<char>>) -> Seq<Seq<char>>
    decreases pieces.len(),
{
    if pieces.len() == 0 {
        Seq::empty()
    } else {
        let word = text::lower_text(text::trim_of(pieces.last()));
        if word.len() == 0 {
            words_in(pieces.drop_last())
        } else {
            words_in(pieces.drop_last()).push(word)
        }
    }
}

/// The words of an `exclude-type` list, whose entries may hold several words
/// with bars between them: in lower case, without blanks, none of them empty.
pub open spec fn exclude_words(raw: Seq<Seq<char>>) -> Seq<Seq<char>>
    decreases raw.len(),
{
    if raw.len() == 0 {
        Seq::empty()
    } else {
        exclude_words(raw.drop_last()) + words_in(text::split_of(raw.last(), '|'))
    }
}

/// The entries of a list that may be there.
pub open spec fn list_of(raw: Option<Vec<String>>) -> Seq<Seq<char>> {
    match raw {
        Some(v) => text::texts(v@),
        None => Seq::empty(),
    }
}

fn push_words(out: &mut Vec<String>, entry: &str)
    ensures
        text::texts(final(out)@) == text::texts(old(out)@) + words_in(text::split_of(entry@, '|')),
{
    let ghost start = text::texts(out@);
    let pieces = text::split(entry, '|');
    let ghost all = text::texts(pieces@);
    let mut i: usize = 0;
    assert(start + words_in(all.take(0)) =~= start);
    while i < pieces.len()
        invariant
            i <= pieces@.len(),
            all == text::texts(pieces@),
            text::texts(out@) == start + words_in(all.take(i as int)),
        decreases pieces@.len() - i,
    {
        let ghost before = text::texts(out@);
        assert(all.take(i + 1).drop_last() =~= all.take(i as int));
        assert(all.take(i + 1).last() == pieces@[i as int]@);
        let trimmed = text::trim(pieces[i].as_str());
        let word = text::to_lowercase(trimmed.as_str());
        if !word.as_str().is_empty() {
            let ghost w = word@;
            out.push(word);
            assert(text::texts(out@) =~= before.push(w));
            assert(text::texts(out@) =~= start + words_in(all.take(i as int)).push(w));
        }
        i += 1;
    }
    assert(all.take(i as int) =~= all);
}

/// The words of an `exclude-type` list.
pub fn split_exclude_types(raw: &Option<Vec<String>>) -> (out: Vec<String>)
    ensures
        text::texts(out@) == exclude_words(list_of(*raw)),
{
    let mut out: Vec<String> = Vec::new();
    assert(text::texts(out@) =~= Seq::<Seq<char>>::empty());
    match raw {
        None => {},
        Some(entries) => {
            let ghost all = text::texts(entries@);
            let mut i: usize = 0;
            assert(all.take(0) =~= Seq::<Seq<char>>::empty());
            while i < entries.len()
                invariant
                    i <= entries@.len(),
                    all == text::texts(entries@),
                    text::texts(out@) == exclude_words(all.take(i as int)),
                decreases entries@.len() - i,
            {
                assert(all.take(i + 1).drop_last() =~= all.take(i as int));
                assert(all.take(i + 1).last() == entries@[i as int]@);
                push_words(&mut out, entries[i].as_str());
                i += 1;
            }
            assert(all.take(i as int) =~= all);
        },
    }
    out
}

/// Why a text is no pattern, where it is none.
pub uninterp spec fn pattern_fault(pattern: Seq<char>) -> Option<Seq<char>>;

/// Whether a pattern matches somewhere in a text; one that is no pattern does
/// not.
pub uninterp spec fn pattern_found(pattern: Seq<char>, s: Seq<char>) -> bool;

/// `regex`'s `Regex::new`: the error that it gives, in words. Which texts are
/// patterns is not stated here.
#[verifier::external_body]
fn check_pattern(pattern: &str) -> (fault: Option<String>)
    ensures
        text::opt_text(fault) == pattern_fault(pattern@),
{
    regex::Regex::new(pattern).err().map(|e| e.to_string())
}

/// `regex`'s `Regex::is_match`, on a pattern that is made anew. What a pattern
/// matches is not stated here.
#[verifier::external_body]
fn find_pattern(pattern: &str, s: &str) -> (found: bool)
    ensures
        found == pattern_found(pattern@, s@),
{
    regex::Regex::new(pattern).is_ok_and(|re| re.is_match(s))
}

/// Whether a pattern tries to look around.
pub open spec fn looks_around(pattern: Seq<char>) -> bool {
    text::has_part(pattern, "(?!"@) || text::has_part(pattern, "(?="@) || text::has_part(
        pattern,
        "(?<"@,
    )
}

/// What to do about a pattern that looks around.
pub const LOOK_AROUND_HINT: &'static str =
    "; look-around assertions are not supported — split the pattern into `filter` + `exclude-filter` instead";

/// The error for a pattern that is none.
pub open spec fn pattern_error(pattern: Seq<char>, field: Seq<char>, why: Seq<char>) -> Seq<char> {
    field + " regex error: "@ + why + if looks_around(pattern) {
        LOOK_AROUND_HINT@
    } else {
        Seq::empty()
    }
}

/// What a field with a pattern comes to, once the pattern was looked at.
pub open spec fn checked(
    pattern: Option<Seq<char>>,
    field: Seq<char>,
    fault: Option<Seq<char>>,
) -> Result<Option<Seq<char>>, Seq<char>> {
    match pattern {
        None => Ok(None),
        Some(p) => match fault {
            None => Ok(Some(p)),
            Some(why) => Err(pattern_error(p, field, why)),
        },
    }
}

/// What a field with a pattern comes to.
pub open spec fn checked_pattern(pattern: Option<Seq<char>>, field: Seq<char>) -> Result<
    Option<Seq<char>>,
    Seq<char>,
> {
    checked(
        pattern,
        field,
        match pattern {
            Some(p) => pattern_fault(p),
            None => None,
        },
    )
}

/// Whether a result is what a model says.
pub open spec fn same_pattern(
    r: Result<Option<String>, String>,
    m: Result<Option<Seq<char>>, Seq<char>>,
) -> bool {
    match r {
        Ok(p) => m == Ok::<Option<Seq<char>>, Seq<char>>(text::opt_text(p)),
        Err(e) => m == Err::<Option<Seq<char>>, Seq<char>>(e@),
    }
}

/// The error for a pattern that is none. One that looks around gets a hint.
pub fn pattern_error_text(pattern: &str, field: &str, why: &str) -> (out: String)
    ensures
        out@ == pattern_error(pattern@, field@, why@),
{
    let mut out = text::join3(field, " regex error: ", why);
    if text::contains(pattern, "(?!") || text::contains(pattern, "(?=") || text::contains(
        pattern,
        "(?<",
    ) {
        text::push_text(&mut out, LOOK_AROUND_HINT);
    } else {
        assert(out@ + Seq::<char>::empty() =~= out@);
    }
    out
}

/// Checks a field with a pattern.
pub fn compile_opt_regex(pattern: &Option<String>, field: &str) -> (r: Result<
    Option<String>,
    String,
>)
    ensures
        same_pattern(r, checked_pattern(text::opt_text(*pattern), field@)),
{
    match pattern {
        None => Ok(None),
        Some(p) => match check_pattern(p.as_str()) {
            None => Ok(Some(p.as_str().to_owned())),
            Some(why) => Err(pattern_error_text(p.as_str(), field, why.as_str())),
        },
    }
}

/// A proxy, as far as filters look at it.
#[derive(Debug)]
pub struct ProxyInfo {
    pub name: String,
    /// What kind of adapter it is, as it is shown.
    pub adapter_type: String,
}

/// Whether a word names a kind of adapter: by its name, or, for Shadowsocks,
/// by its short name. Case does not count.
pub open spec fn names_type(word: Seq<char>, adapter: Seq<char>) -> bool {
    text::ascii_lower(word) == text::ascii_lower(adapter) || (adapter == "Shadowsocks"@
        && text::ascii_lower(word) == text::ascii_lower("ss"@))
}

/// Whether a word names a kind of adapter.
pub fn adapter_type_matches(word: &str, adapter: &str) -> (b: bool)
    ensures
        b == names_type(word@, adapter@),
{
    text::same_ignoring_case(word, adapter) || (text::same(adapter, "Shadowsocks")
        && text::same_ignoring_case(word, "ss"))
}

/// The member filter of a proxy group.
#[derive(Debug)]
pub struct GroupFilter {
    pub filter: Option<String>,
    pub exclude_filter: Option<String>,
    pub exclude_type: Vec<String>,
}

/// Whether the patterns of a filter let a name through.
pub open spec fn passes_patterns(
    filter: Option<Seq<char>>,
    exclude: Option<Seq<char>>,
    name: Seq<char>,
) -> bool {
    &&& filter matches Some(p) ==> pattern_found(p, name)
    &&& exclude matches Some(p) ==> !pattern_found(p, name)
}

fn name_passes(filter: &Option<String>, exclude: &Option<String>, name: &str) -> (b: bool)
    ensures
        b == passes_patterns(text::opt_text(*filter), text::opt_text(*exclude), name@),
{
    if let Some(p) = filter {
        if !find_pattern(p.as_str(), name) {
            return false;
        }
    }
    if let Some(p) = exclude {
        if find_pattern(p.as_str(), name) {
            return false;
        }
    }
    true
}

impl GroupFilter {
    /// Whether a proxy stays: its name passes the patterns, and no word names
    /// its kind.
    pub open spec fn keeps(self, proxy: ProxyInfo) -> bool {
        &&& passes_patterns(
            text::opt_text(self.filter),
            text::opt_text(self.exclude_filter),
            proxy.name@,
        )
        &&& forall|i: int|
            0 <= i < self.exclude_type@.len() ==> !names_type(
                (#[trigger] self.exclude_type@[i])@,
                proxy.adapter_type@,
            )
    }

    /// The filter that a proxy group asks for; none where it asks for nothing.
    pub fn from_raw_group(raw: &RawProxyGroup) -> (r: Result<Option<Self>, String>)
        ensures
            match (
                checked_pattern(text::opt_text(raw.filter), "filter"@),
                checked_pattern(text::opt_text(raw.exclude_filter), "exclude-filter"@),
            ) {
                (Err(e), _) => r matches Err(what) && what@ == e,
                (Ok(_), Err(e)) => r matches Err(what) && what@ == e,
                (Ok(f), Ok(x)) => {
                    let words = exclude_words(list_of(raw.exclude_type));
                    if f is None && x is None && words.len() == 0 {
                        r matches Ok(None)
                    } else {
                        r matches Ok(Some(g)) && text::opt_text(g.filter) == f && text::opt_text(
                            g.exclude_filter,
                        ) == x && text::texts(g.exclude_type@) == words
                    }
                },
            },
    {
        let filter = match compile_opt_regex(&raw.filter, "filter") {
            Err(e) => {
                return Err(e);
            },
            Ok(f) => f,
        };
        let exclude_filter = match compile_opt_regex(&raw.exclude_filter, "exclude-filter") {
            Err(e) => {
                return Err(e);
            },
            Ok(f) => f,
        };
        let exclude_type = split_exclude_types(&raw.exclude_type);
        proof {
            assert(text::texts(exclude_type@).len() == exclude_type@.len());
        }
        if filter.is_none() && exclude_filter.is_none() && exclude_type.len() == 0 {
            return Ok(None);
        }
        Ok(Some(GroupFilter { filter, exclude_filter, exclude_type }))
    }

    /// Whether a proxy stays.
    pub fn keep(&self, proxy: &ProxyInfo) -> (b: bool)
        ensures
            b == self.keeps(*proxy),
    {
        if !name_passes(&self.filter, &self.exclude_filter, proxy.name.as_str()) {
            return false;
        }
        let mut i: usize = 0;
        while i < self.exclude_type.len()
            invariant
                i <= self.exclude_type@.len(),
                forall|j: int|
                    0 <= j < i ==> !names_type(
                        (#[trigger] self.exclude_type@[j])@,
                        proxy.adapter_type@,
                    ),
            decreases self.exclude_type@.len() - i,
        {
            if adapter_type_matches(self.exclude_type[i].as_str(), proxy.adapter_type.as_str()) {
                return false;
            }
            i += 1;
        }
        true
    }
}

/// Where the list of a provider comes from.
#[derive(Debug)]
pub enum Vehicle {
    File(String),
    Http {
        url: String,
        /// Where the list is kept for the time when it cannot be fetched.
        cache_path: Option<String>,
    },
}

/// The model of a [`Vehicle`].
pub enum VehicleModel {
    File(Seq<char>),
    Http(Seq<char>, Option<Seq<char>>),
}

impl View for Vehicle {
    type V = VehicleModel;

    open spec fn view(&self) -> VehicleModel {
        match self {
            Vehicle::File(p) => VehicleModel::File(p@),
            Vehicle::Http { url, cache_path } => VehicleModel::Http(
                url@,
                text::opt_text(*cache_path),
            ),
        }
    }
}

/// An error of a provider.
pub open spec fn provider_error(name: Seq<char>, why: Seq<char>) -> Seq<char> {
    "proxy-provider '"@ + name + "': "@ + why
}

/// Why a path was refused.
pub open spec fn escape_error(dir: Seq<char>, path: Seq<char>) -> Seq<char> {
    "path '"@ + path + "' escapes '"@ + dir + "'"@
}

/// The file in which the list of a provider is kept, where none is named.
pub open spec fn implicit_cache(name: Seq<char>) -> Seq<char> {
    "provider_"@ + name + ".yaml"@
}

/// The path of a provider, held inside the cache directory.
pub open spec fn provider_path(name: Seq<char>, dir: Seq<char>, path: Seq<char>) -> Result<
    Seq<char>,
    Seq<char>,
> {
    match safe_path::contained(dir, path) {
        Some(p) => Ok(p),
        None => Err(provider_error(name, escape_error(dir, path))),
    }
}

/// Where the list of a provider comes from, or why that cannot be told. No
/// path is used that lies outside the cache directory, and none at all where
/// there is no such directory.
pub open spec fn vehicle_of(
    name: Seq<char>,
    kind: Seq<char>,
    url: Option<Seq<char>>,
    path: Option<Seq<char>>,
    cache_dir: Option<Seq<char>>,
) -> Result<VehicleModel, Seq<char>> {
    if kind == "file"@ {
        match (path, cache_dir) {
            (None, _) => Err("file proxy-provider requires 'path'"@),
            (Some(_), None) => Err(
                provider_error(
                    name,
                    "'path' cannot be used without a provider cache directory"@,
                ),
            ),
            (Some(p), Some(dir)) => match provider_path(name, dir, p) {
                Ok(q) => Ok(VehicleModel::File(q)),
                Err(e) => Err(e),
            },
        }
    } else if kind == "http"@ {
        match url {
            None => Err("http proxy-provider requires 'url'"@),
            Some(u) => match cache_dir {
                None => Ok(VehicleModel::Http(u, None)),
                Some(dir) => match provider_path(
                    name,
                    dir,
                    match path {
                        Some(p) => p,
                        None => implicit_cache(name),
                    },
                ) {
                    Ok(q) => Ok(VehicleModel::Http(u, Some(q))),
                    Err(e) => Err(e),
                },
            },
        }
    } else {
        Err("unknown proxy-provider type '"@ + kind + "'"@)
    }
}

/// Every path that a provider uses lies inside the cache directory.
pub proof fn law_provider_paths(
    name: Seq<char>,
    kind: Seq<char>,
    url: Option<Seq<char>>,
    path: Option<Seq<char>>,
    cache_dir: Option<Seq<char>>,
)
    ensures
        match vehicle_of(name, kind, url, path, cache_dir) {
            Ok(VehicleModel::File(p)) => cache_dir matches Some(dir) && inside(dir, p),
            Ok(VehicleModel::Http(_, Some(p))) => cache_dir matches Some(dir) && inside(dir, p),
            _ => true,
        },
{
    if let Some(dir) = cache_dir {
        if let Some(p) = path {
            safe_path::law_stays_inside(dir, p);
        }
        safe_path::law_stays_inside(dir, implicit_cache(name));
    }
}

/// Whether a path lies inside a directory.
pub open spec fn inside(dir: Seq<char>, path: Seq<char>) -> bool {
    match (safe_path::components(dir), safe_path::components(path)) {
        (Some(outer), Some(inner)) => safe_path::begins_with(inner, outer),
        _ => false,
    }
}

fn provider_message(name: &str, why: &str) -> (out: String)
    ensures
        out@ == provider_error(name@, why@),
{
    let mut out = text::join3("proxy-provider '", name, "': ");
    text::push_text(&mut out, why);
    out
}

fn hold_inside(name: &str, dir: &str, path: &str) -> (r: Result<String, String>)
    ensures
        match r {
            Ok(p) => provider_path(name@, dir@, path@) == Ok::<Seq<char>, Seq<char>>(p@),
            Err(e) => provider_path(name@, dir@, path@) == Err::<Seq<char>, Seq<char>>(e@),
        },
{
    match safe_path::resolve_contained(dir, path) {
        Ok(p) => Ok(p),
        Err(e) => Err(provider_message(name, e.as_str())),
    }
}

fn choose_vehicle(name: &str, raw: &RawProxyProvider, cache_dir: Option<&str>) -> (r: Result<
    Vehicle,
    String,
>)
    ensures
        ({
            let m = vehicle_of(
                name@,
                raw.provider_type@,
                text::opt_text(raw.url),
                text::opt_text(raw.path),
                match cache_dir {
                    Some(d) => Some(d@),
                    None => None,
                },
            );
            match r {
                Ok(v) => m == Ok::<VehicleModel, Seq<char>>(v@),
                Err(e) => m == Err::<VehicleModel, Seq<char>>(e@),
            }
        }),
{
    if text::same(raw.provider_type.as_str(), "file") {
        let path: &String = match &raw.path {
            None => {
                return Err("file proxy-provider requires 'path'".to_owned());
            },
            Some(p) => p,
        };
        return match cache_dir {
            None => Err(
                provider_message(
                    name,
                    "'path' cannot be used without a provider cache directory",
                ),
            ),
            Some(dir) => match hold_inside(name, dir, path.as_str()) {
                Ok(p) => Ok(Vehicle::File(p)),
                Err(e) => Err(e),
            },
        };
    }
    if text::same(raw.provider_type.as_str(), "http") {
        let url: &String = match &raw.url {
            None => {
                return Err("http proxy-provider requires 'url'".to_owned());
            },
            Some(u) => u,
        };
        let url = url.as_str().to_owned();
        return match cache_dir {
            None => Ok(Vehicle::Http { url, cache_path: None }),
            Some(dir) => {
                let path = match &raw.path {
                    Some(p) => p.as_str().to_owned(),
                    None => text::join3("provider_", name, ".yaml"),
                };
                match hold_inside(name, dir, path.as_str()) {
                    Ok(p) => Ok(Vehicle::Http { url, cache_path: Some(p) }),
                    Err(e) => Err(e),
                }
            },
        };
    }
    Err(text::join3("unknown proxy-provider type '", raw.provider_type.as_str(), "'"))
}

/// The view that one proxy group has of a provider.
#[derive(Debug)]
pub struct DerivedView {
    pub id: u64,
    pub filter: GroupFilter,
    /// Where the proxies that stay stand in the provider's list.
    pub members: Vec<usize>,
}

/// Where the proxies that a filter keeps stand in the first `n` of a list.
pub open spec fn kept_until(filter: GroupFilter, proxies: Seq<ProxyInfo>, n: nat) -> Seq<int>
    decreases n,
{
    if n == 0 {
        Seq::empty()
    } else if n <= proxies.len() && filter.keeps(proxies[n - 1]) {
        kept_until(filter, proxies, (n - 1) as nat).push(n - 1)
    } else {
        kept_until(filter, proxies, (n - 1) as nat)
    }
}

/// Where the proxies that a filter keeps stand in a list, in its order.
pub open spec fn kept(filter: GroupFilter, proxies: Seq<ProxyInfo>) -> Seq<int> {
    kept_until(filter, proxies, proxies.len())
}

/// Places as plain numbers.
pub open spec fn places(v: Seq<usize>) -> Seq<int> {
    v.map_values(|i: usize| i as int)
}

/// A filter keeps the proxies that pass it and no others, each once, in the
/// order of the list.
pub proof fn law_kept(filter: GroupFilter, proxies: Seq<ProxyInfo>)
    ensures
        forall|i: int|
            #[trigger] kept(filter, proxies).contains(i) <==> 0 <= i < proxies.len()
                && filter.keeps(proxies[i]),
        forall|a: int, b: int|
            0 <= a < b < kept(filter, proxies).len() ==> kept(filter, proxies)[a] < kept(
                filter,
                proxies,
            )[b],
{
    lemma_kept_until(filter, proxies, proxies.len());
}

proof fn lemma_kept_until(filter: GroupFilter, proxies: Seq<ProxyInfo>, n: nat)
    requires
        n <= proxies.len(),
    ensures
        forall|i: int|
            #[trigger] kept_until(filter, proxies, n).contains(i) <==> 0 <= i < n && filter.keeps(
                proxies[i],
            ),
        forall|a: int, b: int|
            0 <= a < b < kept_until(filter, proxies, n).len() ==> kept_until(filter, proxies, n)[a]
                < kept_until(filter, proxies, n)[b],
    decreases n,
{
    if n > 0 {
        let head = kept_until(filter, proxies, (n - 1) as nat);
        let all = kept_until(filter, proxies, n);
        lemma_kept_until(filter, proxies, (n - 1) as nat);
        if filter.keeps(proxies[n - 1]) {
            assert forall|i: int| #[trigger] all.contains(i) <==> 0 <= i < n && filter.keeps(
                proxies[i],
            ) by {
                if i == n - 1 {
                    assert(all[head.len() as int] == i);
                } else if head.contains(i) {
                    let k = choose|k: int| 0 <= k < head.len() && head[k] == i;
                    assert(all[k] == i);
                } else if all.contains(i) {
                    let k = choose|k: int| 0 <= k < all.len() && all[k] == i;
                    assert(k < head.len() ==> head[k] == i);
                }
            }
            assert forall|a: int, b: int| 0 <= a < b < all.len() implies all[a] < all[b] by {
                if b == head.len() {
                    assert(head.contains(head[a]));
                }
            }
        }
    }
}

fn kept_places(filter: &GroupFilter, proxies: &Vec<ProxyInfo>) -> (out: Vec<usize>)
    ensures
        places(out@) == kept(*filter, proxies@),
{
    let mut out: Vec<usize> = Vec::new();
    let mut i: usize = 0;
    assert(places(out@) =~= Seq::<int>::empty());
    while i < proxies.len()
        invariant
            i <= proxies@.len(),
            places(out@) == kept_until(*filter, proxies@, i as nat),
        decreases proxies@.len() - i,
    {
        let ghost before = places(out@);
        if filter.keep(&proxies[i]) {
            out.push(i);
            assert(places(out@) =~= before.push(i as int));
        }
        i += 1;
    }
    out
}

/// A provider of proxies.
#[derive(Debug)]
pub struct ProxyProvider {
    pub name: String,
    pub vehicle_type: &'static str,
    pub vehicle: Vehicle,
    pub filter: Option<String>,
    pub exclude_filter: Option<String>,
    pub exclude_type: Vec<String>,
    pub health_check: Option<HealthCheckConfig>,
    pub header: StringMap,
    pub ipv6: bool,
    /// The proxies of the last refresh.
    pub slot: Vec<ProxyInfo>,
    /// The views that proxy groups have.
    pub derived: Vec<DerivedView>,
    pub next_view: u64,
    pub updated_at: u64,
}

/// Every view shows what its filter keeps of the provider's proxies.
pub open spec fn views_fit(derived: Seq<DerivedView>, slot: Seq<ProxyInfo>) -> bool {
    forall|i: int|
        0 <= i < derived.len() ==> places((#[trigger] derived[i]).members@) == kept(
            derived[i].filter,
            slot,
        )
}

/// The views whose groups are still there.
pub open spec fn live_views(derived: Seq<DerivedView>, live: Seq<u64>) -> Seq<(u64, GroupFilter)>
    decreases derived.len(),
{
    if derived.len() == 0 {
        Seq::empty()
    } else if live.contains(derived.last().id) {
        live_views(derived.drop_last(), live).push((derived.last().id, derived.last().filter))
    } else {
        live_views(derived.drop_last(), live)
    }
}

/// Views without what they show.
pub open spec fn view_ids(derived: Seq<DerivedView>) -> Seq<(u64, GroupFilter)> {
    derived.map_values(|v: DerivedView| (v.id, v.filter))
}

/// Why a provider cannot be made, where it cannot.
pub open spec fn provider_fault(
    name: Seq<char>,
    raw: RawProxyProvider,
    dir: Option<Seq<char>>,
) -> Option<Seq<char>> {
    match vehicle_of(
        name,
        raw.provider_type@,
        text::opt_text(raw.url),
        text::opt_text(raw.path),
        dir,
    ) {
        Err(e) => Some(e),
        Ok(_) => match checked_pattern(text::opt_text(raw.filter), "filter"@) {
            Err(e) => Some(e),
            Ok(_) => match checked_pattern(text::opt_text(raw.exclude_filter), "exclude-filter"@) {
                Err(e) => Some(e),
                Ok(_) => None,
            },
        },
    }
}

/// Whether a provider is the one that a configuration asks for, before its
/// first refresh.
pub open spec fn is_asked_for(
    p: ProxyProvider,
    name: Seq<char>,
    raw: RawProxyProvider,
    dir: Option<Seq<char>>,
    ipv6: bool,
) -> bool {
    &&& p.wf()
    &&& p.name@ == name
    &&& vehicle_of(
        name,
        raw.provider_type@,
        text::opt_text(raw.url),
        text::opt_text(raw.path),
        dir,
    ) == Ok::<VehicleModel, Seq<char>>(p.vehicle@)
    &&& p.vehicle_type@ == (if p.vehicle is File {
        "File"@
    } else {
        "HTTP"@
    })
    &&& text::opt_text(p.filter) == text::opt_text(raw.filter)
    &&& text::opt_text(p.exclude_filter) == text::opt_text(raw.exclude_filter)
    &&& text::texts(p.exclude_type@) == exclude_words(list_of(raw.exclude_type))
    &&& is_health_check(raw.health_check, p.health_check)
    &&& p.header@ == (match raw.header {
        Some(h) => h@,
        None => Map::empty(),
    })
    &&& p.ipv6 == ipv6
    &&& p.slot@.len() == 0
    &&& p.derived@.len() == 0
    &&& p.updated_at == 0
    &&& p.next_view == 0
}

/// Whether a result is the provider that a configuration asks for, or why
/// there is none.
pub open spec fn is_new_provider(
    r: Result<ProxyProvider, String>,
    name: Seq<char>,
    raw: RawProxyProvider,
    dir: Option<Seq<char>>,
    ipv6: bool,
) -> bool {
    match provider_fault(name, raw, dir) {
        Some(e) => r matches Err(what) && what@ == e,
        None => r matches Ok(p) && is_asked_for(p, name, raw, dir, ipv6),
    }
}

/// The entries of a configuration from which a provider can be made, among the
/// first `n`.
pub open spec fn makeable(
    raw: Seq<(String, RawProxyProvider)>,
    dir: Option<Seq<char>>,
    n: nat,
) -> Seq<int>
    decreases n,
{
    if n == 0 {
        Seq::empty()
    } else if n <= raw.len() && provider_fault(raw[n - 1].0@, raw[n - 1].1, dir) is None {
        makeable(raw, dir, (n - 1) as nat).push(n - 1)
    } else {
        makeable(raw, dir, (n - 1) as nat)
    }
}

/// Whether providers are those that the entries at some places ask for.
pub open spec fn are_asked_for(
    out: Seq<ProxyProvider>,
    raw: Seq<(String, RawProxyProvider)>,
    at: Seq<int>,
    dir: Option<Seq<char>>,
    ipv6: bool,
) -> bool {
    &&& out.len() == at.len()
    &&& forall|k: int|
        0 <= k < out.len() ==> is_asked_for(
            #[trigger] out[k],
            raw[at[k]].0@,
            raw[at[k]].1,
            dir,
            ipv6,
        )
}

/// The providers of a configuration, before their first refresh. One that
/// cannot be made is left out; the others are made all the same.
pub fn load_proxy_providers(
    raw: &Vec<(String, RawProxyProvider)>,
    cache_dir: Option<&str>,
    ipv6: bool,
) -> (out: Vec<ProxyProvider>)
    requires
        forall|i: int| 0 <= i < raw@.len() ==> ((#[trigger] raw@[i]).1.header matches Some(h) ==> h.wf()),
    ensures
        ({
            let dir = match cache_dir {
                Some(d) => Some(d@),
                None => None,
            };
            are_asked_for(out@, raw@, makeable(raw@, dir, raw@.len()), dir, ipv6)
        }),
{
    let ghost dir = match cache_dir {
        Some(d) => Some(d@),
        None => None,
    };
    let mut out: Vec<ProxyProvider> = Vec::new();
    let mut i: usize = 0;
    while i < raw.len()
        invariant
            i <= raw@.len(),
            dir == (match cache_dir {
                Some(d) => Some(d@),
                None => None,
            }),
            forall|i: int|
                0 <= i < raw@.len() ==> ((#[trigger] raw@[i]).1.header matches Some(h) ==> h.wf()),
            are_asked_for(out@, raw@, makeable(raw@, dir, i as nat), dir, ipv6),
        decreases raw@.len() - i,
    {
        let ghost before = out@;
        let ghost places = makeable(raw@, dir, i as nat);
        assert(raw@[i as int].1.header matches Some(h) ==> h.wf());
        if let Ok(p) = ProxyProvider::new(raw[i].0.as_str(), &raw[i].1, cache_dir, ipv6) {
            out.push(p);
            proof {
                let more = places.push(i as int);
                assert forall|k: int| 0 <= k < out@.len() implies is_asked_for(
                    #[trigger] out@[k],
                    raw@[more[k]].0@,
                    raw@[more[k]].1,
                    dir,
                    ipv6,
                ) by {
                    if k < before.len() {
                        assert(out@[k] == before[k]);
                        assert(more[k] == places[k]);
                    }
                }
            }
        }
        i += 1;
    }
    out
}

impl ProxyProvider {
    /// Views show what their filters keep, and no view was numbered that is
    /// yet to come.
    pub open spec fn wf(self) -> bool {
        &&& views_fit(self.derived@, self.slot@)
        &&& self.header.wf()
        &&& forall|i: int| 0 <= i < self.derived@.len() ==> (#[trigger] self.derived@[i]).id
            < self.next_view
    }

    /// A provider that has fetched nothing yet.
    pub fn new(name: &str, raw: &RawProxyProvider, cache_dir: Option<&str>, ipv6: bool) -> (r:
        Result<Self, String>)
        requires
            raw.header matches Some(h) ==> h.wf(),
        ensures
            is_new_provider(
                r,
                name@,
                *raw,
                match cache_dir {
                    Some(d) => Some(d@),
                    None => None,
                },
                ipv6,
            ),
    {
        let vehicle = match choose_vehicle(name, raw, cache_dir) {
            Err(e) => {
                return Err(e);
            },
            Ok(v) => v,
        };
        let vehicle_type: &'static str = match &vehicle {
            Vehicle::File(_) => "File",
            Vehicle::Http { .. } => "HTTP",
        };
        let filter = match compile_opt_regex(&raw.filter, "filter") {
            Err(e) => {
                return Err(e);
            },
            Ok(f) => f,
        };
        let exclude_filter = match compile_opt_regex(&raw.exclude_filter, "exclude-filter") {
            Err(e) => {
                return Err(e);
            },
            Ok(f) => f,
        };
        let header = match &raw.header {
            Some(h) => h.copy(),
            None => StringMap::new(),
        };
        Ok(
            ProxyProvider {
                name: name.to_owned(),
                vehicle_type,
                vehicle,
                filter,
                exclude_filter,
                exclude_type: split_exclude_types(&raw.exclude_type),
                health_check: build_health_check_config(&raw.health_check),
                header,
                ipv6,
                slot: Vec::new(),
                derived: Vec::new(),
                next_view: 0,
                updated_at: 0,
            },
        )
    }

    /// Whether two providers are configured alike.
    pub open spec fn same_settings(self, other: ProxyProvider) -> bool {
        &&& self.name == other.name
        &&& self.vehicle_type == other.vehicle_type
        &&& self.vehicle == other.vehicle
        &&& self.filter == other.filter
        &&& self.exclude_filter == other.exclude_filter
        &&& self.exclude_type == other.exclude_type
        &&& self.health_check == other.health_check
        &&& self.header == other.header
        &&& self.ipv6 == other.ipv6
    }

    /// Opens a view for a proxy group: what its filter keeps now, and after
    /// every refresh.
    pub fn derived_slot(&mut self, filter: GroupFilter) -> (id: u64)
        requires
            old(self).wf(),
            old(self).next_view < u64::MAX,
        ensures
            final(self).wf(),
            final(self).same_settings(*old(self)),
            final(self).slot == old(self).slot,
            final(self).updated_at == old(self).updated_at,
            id == old(self).next_view,
            final(self).next_view == id + 1,
            final(self).derived@.len() == old(self).derived@.len() + 1,
            final(self).derived@.drop_last() == old(self).derived@,
            final(self).derived@.last().id == id,
            final(self).derived@.last().filter == filter,
    {
        let id: u64 = self.next_view;
        let members = kept_places(&filter, &self.slot);
        let ghost before = self.derived@;
        self.derived.push(DerivedView { id, filter, members });
        self.next_view = id + 1;
        proof {
            assert(self.derived@.drop_last() =~= before);
            assert forall|i: int| 0 <= i < self.derived@.len() implies places(
                (#[trigger] self.derived@[i]).members@,
            ) == kept(self.derived@[i].filter, self.slot@) by {
                if i < before.len() {
                    assert(self.derived@[i] == before[i]);
                }
            }
            assert forall|i: int| 0 <= i < self.derived@.len() implies (
            #[trigger] self.derived@[i]).id < self.next_view by {
                if i < before.len() {
                    assert(self.derived@[i] == before[i]);
                }
            }
        }
        id
    }

    /// Takes the proxies of a refresh. Views whose groups are gone go too, and
    /// the others show the new proxies.
    pub fn apply_refresh(&mut self, proxies: Vec<ProxyInfo>, live: &Vec<u64>, now_secs: u64)
        requires
            old(self).wf(),
        ensures
            final(self).wf(),
            final(self).same_settings(*old(self)),
            final(self).slot@ == proxies@,
            final(self).updated_at == now_secs,
            final(self).next_view == old(self).next_view,
            view_ids(final(self).derived@) == live_views(old(self).derived@, live@),
    {
        let ghost before = self.derived@;
        let mut old_views: Vec<DerivedView> = Vec::new();
        std::mem::swap(&mut old_views, &mut self.derived);
        let mut views: Vec<DerivedView> = Vec::new();
        assert(view_ids(views@) =~= Seq::<(u64, GroupFilter)>::empty());
        let ghost mut at: int = 0;
        assert(before.take(0) =~= Seq::<DerivedView>::empty());
        assert(old_views@ =~= before.skip(0));
        while old_views.len() > 0
            invariant
                0 <= at <= before.len(),
                old_views@ == before.skip(at),
                view_ids(views@) == live_views(before.take(at), live@),
                views_fit(views@, proxies@),
                forall|i: int|
                    0 <= i < before.len() ==> (#[trigger] before[i]).id < self.next_view,
                forall|i: int| 0 <= i < views@.len() ==> (#[trigger] views@[i]).id < self.next_view,
                self.header.wf(),
                self.same_settings(*old(self)),
                self.next_view == old(self).next_view,
            decreases old_views@.len(),
        {
            let ghost done = views@;
            let view = old_views.remove(0);
            proof {
                assert(view == before[at]);
                assert(old_views@ =~= before.skip(at + 1));
                assert(before.take(at + 1).drop_last() =~= before.take(at));
                assert(before.take(at + 1).last() == view);
                at = at + 1;
            }
            let mut alive = false;
            let mut i: usize = 0;
            while i < live.len()
                invariant
                    i <= live@.len(),
                    alive == live@.take(i as int).contains(view.id),
                decreases live@.len() - i,
            {
                proof {
                    let head = live@.take(i as int);
                    let more = live@.take(i + 1);
                    assert(more =~= head.push(live@[i as int]));
                    if head.contains(view.id) {
                        let k = choose|k: int| 0 <= k < head.len() && head[k] == view.id;
                        assert(more[k] == view.id);
                    }
                    if live@[i as int] == view.id {
                        assert(more[i as int] == view.id);
                    } else if more.contains(view.id) {
                        let k = choose|k: int| 0 <= k < more.len() && more[k] == view.id;
                        assert(head[k] == view.id);
                    }
                }
                if live[i] == view.id {
                    alive = true;
                }
                i += 1;
            }
            assert(live@.take(i as int) =~= live@);
            if alive {
                let members = kept_places(&view.filter, &proxies);
                let ghost next = (view.id, view.filter);
                views.push(DerivedView { id: view.id, filter: view.filter, members });
                proof {
                    assert(view_ids(views@) =~= view_ids(done).push(next));
                    assert forall|i: int| 0 <= i < views@.len() implies places(
                        (#[trigger] views@[i]).members@,
                    ) == kept(views@[i].filter, proxies@) by {
                        if i < done.len() {
                            assert(views@[i] == done[i]);
                        }
                    }
                    assert forall|i: int| 0 <= i < views@.len() implies (#[trigger] views@[i]).id
                        < self.next_view by {
                        if i < done.len() {
                            assert(views@[i] == done[i]);
                        }
                    }
                }
            }
        }
        assert(before.take(at) =~= before);
        self.derived = views;
        self.slot = proxies;
        self.updated_at = now_secs;
    }

    /// The proxies of the last refresh.
    pub fn proxies(&self) -> (out: &Vec<ProxyInfo>)
        ensures
            out@ == self.slot@,
    {
        &self.slot
    }

    /// When the last refresh was; zero before the first.
    pub fn updated_at_secs(&self) -> (n: u64)
        ensures
            n == self.updated_at,
    {
        self.updated_at
    }

    /// What a list that was fetched is used for: it is the content, and it is
    /// kept for the time when it cannot be fetched. One that could not be
    /// fetched is read where it was kept.
    pub fn on_fetched(&self, fetched: Result<Vec<u8>, String>) -> (step: ContentStep)
        requires
            self.vehicle is Http,
        ensures
            ({
                let cache = text::opt_text(self.vehicle->cache_path);
                match fetched {
                    Ok(bytes) if vstd::utf8::valid_utf8(bytes@) => step matches ContentStep::Use {
                        content,
                        keep_at,
                    } && content@ == vstd::utf8::decode_utf8(bytes@) && text::opt_text(keep_at)
                        == cache,
                    _ => match cache {
                        Some(p) => step matches ContentStep::ReadCache(q) && q@ == p,
                        None => step matches ContentStep::Fail(e) && e@ == provider_error(
                            self.name@,
                            "fetch failed and no on-disk cache is configured"@,
                        ),
                    },
                }
            }),
    {
        let cache: &Option<String> = match &self.vehicle {
            Vehicle::Http { cache_path, .. } => cache_path,
            Vehicle::File(_) => &None,
        };
        if let Ok(bytes) = fetched {
            if let Ok(content) = body_text(bytes.as_slice()) {
                return ContentStep::Use { content, keep_at: text::copy_opt(cache) };
            }
        }
        match cache {
            Some(p) => ContentStep::ReadCache(p.as_str().to_owned()),
            None => ContentStep::Fail(
                provider_message(
                    self.name.as_str(),
                    "fetch failed and no on-disk cache is configured",
                ),
            ),
        }
    }

    /// Whether an entry of the list stays.
    pub open spec fn takes(self, entry: EntryModel) -> bool {
        &&& passes_patterns(
            text::opt_text(self.filter),
            text::opt_text(self.exclude_filter),
            or_empty(entry.0),
        )
        &&& !text::texts(self.exclude_type@).contains(text::lower_text(or_empty(entry.1)))
    }

    fn take(&self, entry: &ProxyEntry) -> (b: bool)
        ensures
            b == self.takes(entry@),
    {
        proof {
            reveal_strlit("");
            assert(""@ =~= Seq::<char>::empty());
        }
        let name = text_or(&entry.name, "");
        if !name_passes(&self.filter, &self.exclude_filter, name.as_str()) {
            return false;
        }
        let kind = text_or(&entry.kind, "");
        let kind = text::to_lowercase(kind.as_str());
        let ghost words = text::texts(self.exclude_type@);
        let mut i: usize = 0;
        while i < self.exclude_type.len()
            invariant
                i <= self.exclude_type@.len(),
                words == text::texts(self.exclude_type@),
                kind@ == text::lower_text(or_empty(entry@.1)),
                forall|j: int| 0 <= j < i ==> #[trigger] words[j] != kind@,
            decreases self.exclude_type@.len() - i,
        {
            assert(words[i as int] == self.exclude_type@[i as int]@);
            if text::same(self.exclude_type[i].as_str(), kind.as_str()) {
                assert(words.contains(kind@));
                return false;
            }
            i += 1;
        }
        true
    }

    /// Where the entries that stay stand in a list.
    pub fn select(&self, entries: &Vec<ProxyEntry>) -> (out: Vec<usize>)
        ensures
            places(out@) == taken(*self, entry_models(entries@), entries@.len()),
    {
        let ghost all = entry_models(entries@);
        let mut out: Vec<usize> = Vec::new();
        let mut i: usize = 0;
        assert(places(out@) =~= Seq::<int>::empty());
        while i < entries.len()
            invariant
                i <= entries@.len(),
                all == entry_models(entries@),
                places(out@) == taken(*self, all, i as nat),
            decreases entries@.len() - i,
        {
            let ghost before = places(out@);
            assert(all[i as int] == entries@[i as int]@);
            if self.take(&entries[i]) {
                out.push(i);
                assert(places(out@) =~= before.push(i as int));
            }
            i += 1;
        }
        out
    }

    /// Where the entries that stay stand in the list that a content holds.
    /// Content that holds no list gives none.
    pub fn parse_proxies(&self, content: &str) -> (out: Vec<usize>)
        ensures
            match entries_in(
                keyed_entries(content@, "proxies"@, "name"@, "type"@),
                bare_entries(content@, "name"@, "type"@),
            ) {
                Some(list) => places(out@) == taken(*self, list, list.len()),
                None => out@.len() == 0,
            },
    {
        let list = match read_keyed_entries(content, "proxies", "name", "type") {
            KeyedEntries::NoDocument => None,
            KeyedEntries::NoKey => read_bare_entries(content, "name", "type"),
            KeyedEntries::NoList => None,
            KeyedEntries::List(l) => Some(l),
        };
        match list {
            Some(l) => self.select(&l),
            None => Vec::new(),
        }
    }
}

/// What to do for the content of a provider.
#[derive(Debug)]
pub enum ContentStep {
    /// This is the content; keep it where that is said.
    Use { content: String, keep_at: Option<String> },
    /// Read what was kept.
    ReadCache(String),
    Fail(String),
}

/// The error for a file that could not be read; the path comes as it is shown.
pub fn read_error(name: &str, shown_path: &str, why: &str) -> (out: String)
    ensures
        out@ == provider_error(name@, "failed to read "@ + shown_path@ + ": "@ + why@),
{
    let mut what = text::join3("failed to read ", shown_path, ": ");
    text::push_text(&mut what, why);
    provider_message(name, what.as_str())
}

/// The error for a list that was not kept; the path comes as it is shown.
pub fn cache_error(name: &str, shown_path: &str, why: &str) -> (out: String)
    ensures
        out@ == provider_error(name@, "no cache at "@ + shown_path@ + ": "@ + why@),
{
    let mut what = text::join3("no cache at ", shown_path, ": ");
    text::push_text(&mut what, why);
    provider_message(name, what.as_str())
}

/// An entry of a list of proxies, as far as filters look at it.
#[derive(Debug)]
pub struct ProxyEntry {
    pub name: Option<String>,
    pub kind: Option<String>,
}

/// The model of a [`ProxyEntry`]: its name and its kind.
pub type EntryModel = (Option<Seq<char>>, Option<Seq<char>>);

impl View for ProxyEntry {
    type V = EntryModel;

    open spec fn view(&self) -> EntryModel {
        (text::opt_text(self.name), text::opt_text(self.kind))
    }
}

/// The models of some entries.
pub open spec fn entry_models(entries: Seq<ProxyEntry>) -> Seq<EntryModel> {
    entries.map_values(|e: ProxyEntry| e@)
}

/// A text, or an empty one.
pub open spec fn or_empty(s: Option<Seq<char>>) -> Seq<char> {
    match s {
        Some(t) => t,
        None => Seq::empty(),
    }
}

/// Where the entries that a provider takes stand in the first `n` of a list.
pub open spec fn taken(p: ProxyProvider, list: Seq<EntryModel>, n: nat) -> Seq<int>
    decreases n,
{
    if n == 0 {
        Seq::empty()
    } else if n <= list.len() && p.takes(list[n - 1]) {
        taken(p, list, (n - 1) as nat).push(n - 1)
    } else {
        taken(p, list, (n - 1) as nat)
    }
}

/// The entries under a key of a document.
#[derive(Debug)]
pub enum KeyedEntries {
    /// The content is no document.
    NoDocument,
    /// The document has no such key.
    NoKey,
    /// What stands there is no list of entries.
    NoList,
    List(Vec<ProxyEntry>),
}

/// The model of [`KeyedEntries`].
pub enum KeyedModel {
    NoDocument,
    NoKey,
    NoList,
    List(Seq<EntryModel>),
}

impl View for KeyedEntries {
    type V = KeyedModel;

    open spec fn view(&self) -> KeyedModel {
        match self {
            KeyedEntries::NoDocument => KeyedModel::NoDocument,
            KeyedEntries::NoKey => KeyedModel::NoKey,
            KeyedEntries::NoList => KeyedModel::NoList,
            KeyedEntries::List(l) => KeyedModel::List(entry_models(l@)),
        }
    }
}

/// The entries of a content: those under the key, or, where the document has
/// no such key, the document itself.
pub open spec fn entries_in(keyed: KeyedModel, bare: Option<Seq<EntryModel>>) -> Option<
    Seq<EntryModel>,
> {
    match keyed {
        KeyedModel::NoDocument => None,
        KeyedModel::NoKey => bare,
        KeyedModel::NoList => None,
        KeyedModel::List(l) => Some(l),
    }
}

/// The entries under a key of a YAML document.
pub uninterp spec fn keyed_entries(
    content: Seq<char>,
    key: Seq<char>,
    name_key: Seq<char>,
    kind_key: Seq<char>,
) -> KeyedModel;

/// The entries of a YAML document that is a list.
pub uninterp spec fn bare_entries(
    content: Seq<char>,
    name_key: Seq<char>,
    kind_key: Seq<char>,
) -> Option<Seq<EntryModel>>;

/// `serde_yaml`'s `from_str`, then `from_value` on what stands under a key. Of
/// each entry the texts under two keys are taken. What YAML is is not stated
/// here.
#[verifier::external_body]
fn read_keyed_entries(content: &str, key: &str, name_key: &str, kind_key: &str) -> (out:
    KeyedEntries)
    ensures
        out@ == keyed_entries(content@, key@, name_key@, kind_key@),
{
    let Ok(doc) = serde_yaml::from_str::<serde_yaml::Value>(content) else {
        return KeyedEntries::NoDocument;
    };
    let Some(list) = doc.get(key).cloned() else { return KeyedEntries::NoKey };
    let text = |v: Option<&serde_yaml::Value>| v.and_then(|v| v.as_str()).map(str::to_owned);
    let entry = |name, kind| ProxyEntry { name: text(name), kind: text(kind) };
    match serde_yaml::from_value::<Vec<std::collections::HashMap<String, serde_yaml::Value>>>(list) {
        Ok(l) => KeyedEntries::List(
            l.iter().map(|e| entry(e.get(name_key), e.get(kind_key))).collect(),
        ),
        Err(_) => KeyedEntries::NoList,
    }
}

/// `serde_yaml`'s `from_str`, then `from_value` on the whole document. Of each
/// entry the texts under two keys are taken. What YAML is is not stated here.
#[verifier::external_body]
fn read_bare_entries(content: &str, name_key: &str, kind_key: &str) -> (out: Option<
    Vec<ProxyEntry>,
>)
    ensures
        match out {
            Some(l) => bare_entries(content@, name_key@, kind_key@) == Some(entry_models(l@)),
            None => bare_entries(content@, name_key@, kind_key@) is None,
        },
{
    let doc = serde_yaml::from_str::<serde_yaml::Value>(content).ok()?;
    let list = serde_yaml::from_value::<Vec<std::collections::HashMap<String, serde_yaml::Value>>>(doc);
    let text = |v: Option<&serde_yaml::Value>| v.and_then(|v| v.as_str()).map(str::to_owned);
    let entry = |name, kind| ProxyEntry { name: text(name), kind: text(kind) };
    Some(list.ok()?.iter().map(|e| entry(e.get(name_key), e.get(kind_key))).collect())
}

/// The path that a provider asks for, where it asks for one.
pub open spec fn asked_path(name: Seq<char>, raw: RawProxyProvider) -> Option<Seq<char>> {
    if raw.provider_type@ == "file"@ {
        text::opt_text(raw.path)
    } else if raw.provider_type@ == "http"@ {
        match raw.path {
            Some(p) => Some(p@),
            None => Some(implicit_cache(name)),
        }
    } else {
        None
    }
}

/// Whether the path that a provider asks for lies inside a directory; one that
/// asks for none is fine.
pub open spec fn path_fits(entry: (String, RawProxyProvider), dir: Seq<char>) -> bool {
    asked_path(entry.0@, entry.1) matches Some(p) ==> safe_path::contained(dir, p) is Some
}

/// Checks the paths of all providers at once. Without a cache directory no
/// path is used, so there is nothing to check.
pub fn validate_paths(raw: &Vec<(String, RawProxyProvider)>, cache_dir: Option<&str>) -> (r: Result<
    (),
    String,
>)
    ensures
        match cache_dir {
            None => r is Ok,
            Some(dir) => {
                &&& r is Ok <==> forall|i: int|
                    0 <= i < raw@.len() ==> path_fits(#[trigger] raw@[i], dir@)
                &&& r matches Err(e) ==> exists|i: int|
                    #![trigger raw@[i]]
                    0 <= i < raw@.len() && !path_fits(raw@[i], dir@) && e@ == provider_error(
                        raw@[i].0@,
                        escape_error(dir@, asked_path(raw@[i].0@, raw@[i].1)->0),
                    )
            },
        },
{
    let dir: &str = match cache_dir {
        None => {
            return Ok(());
        },
        Some(d) => d,
    };
    let mut i: usize = 0;
    while i < raw.len()
        invariant
            i <= raw@.len(),
            cache_dir matches Some(d) && d == dir,
            forall|j: int| 0 <= j < i ==> path_fits(#[trigger] raw@[j], dir@),
        decreases raw@.len() - i,
    {
        let name = raw[i].0.as_str();
        let provider = &raw[i].1;
        let kind = provider.provider_type.as_str();
        let asked = if text::same(kind, "file") {
            text::copy_opt(&provider.path)
        } else if text::same(kind, "http") {
            match &provider.path {
                Some(p) => Some(p.as_str().to_owned()),
                None => Some(text::join3("provider_", name, ".yaml")),
            }
        } else {
            None
        };
        assert(text::opt_text(asked) == asked_path(raw@[i as int].0@, raw@[i as int].1));
        if let Some(path) = asked {
            if let Err(e) = hold_inside(name, dir, path.as_str()) {
                assert(!path_fits(raw@[i as int], dir@));
                return Err(e);
            }
        }
        i += 1;
    }
    Ok(())
}

} // verus!
