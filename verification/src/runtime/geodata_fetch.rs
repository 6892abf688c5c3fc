//! The geodata files that are fetched at startup.
use vstd::prelude::*;

verus! {

/// Where geodata comes from and goes to, as a configuration sets it.
#[derive(Debug)]
pub struct GeoDataConfig {
    pub mmdb_path: Option<String>,
    pub asn_path: Option<String>,
    pub geosite_path: Option<String>,
    pub mmdb_url: String,
    pub asn_url: String,
    pub geosite_url: String,
}

/// Where geodata goes where nothing is set.
#[derive(Debug)]
pub struct GeoDataDefaults {
    pub geoip_path: String,
    pub asn_path: String,
    pub geosite_path: String,
}

/// One file to look for at startup.
#[derive(Debug, PartialEq, Eq)]
pub struct GeoTarget {
    pub label: &'static str,
    pub path: String,
    pub url: String,
}

/// Whether a target has a label, a path and an address.
pub open spec fn is_target(
    t: GeoTarget,
    label: Seq<char>,
    path: Option<String>,
    default: String,
    url: String,
) -> bool {
    &&& t.label@ == label
    &&& t.path@ == (match path {
        Some(p) => p@,
        None => default@,
    })
    &&& t.url@ == url@
}

fn target(
    label: &'static str,
    path: &Option<String>,
    default: &String,
    url: &String,
) -> (t: GeoTarget)
    ensures
        is_target(t, label@, *path, *default, *url),
{
    let path = match path {
        Some(p) => p.as_str().to_owned(),
        None => default.as_str().to_owned(),
    };
    GeoTarget { label, path, url: url.as_str().to_owned() }
}

/// The three files, each where it is set to be or where it goes by default.
pub fn compute_targets(geo: &GeoDataConfig, defaults: &GeoDataDefaults) -> (out: [GeoTarget; 3])
    ensures
        is_target(out@[0], "GeoIP MMDB"@, geo.mmdb_path, defaults.geoip_path, geo.mmdb_url),
        is_target(out@[1], "ASN MMDB"@, geo.asn_path, defaults.asn_path, geo.asn_url),
        is_target(out@[2], "geosite"@, geo.geosite_path, defaults.geosite_path, geo.geosite_url),
{
    [
        target("GeoIP MMDB", &geo.mmdb_path, &defaults.geoip_path, &geo.mmdb_url),
        target("ASN MMDB", &geo.asn_path, &defaults.asn_path, &geo.asn_url),
        target("geosite", &geo.geosite_path, &defaults.geosite_path, &geo.geosite_url),
    ]
}

/// A round of first downloads.
#[derive(Debug)]
pub struct FetchMissing {
    at: usize,
    downloading: bool,
    downloaded: Vec<&'static str>,
}

/// The labels of the first `n` targets, as far as they were missing and could be
/// downloaded. A file that is there is left alone.
pub open spec fn fetched_labels(
    targets: Seq<GeoTarget>,
    present: Seq<bool>,
    downloads: Seq<bool>,
    n: nat,
) -> Seq<Seq<char>>
    decreases n,
{
    if n == 0 {
        Seq::empty()
    } else {
        let before = fetched_labels(targets, present, downloads, (n - 1) as nat);
        if !present[n - 1] && downloads[n - 1] {
            before.push(targets[n - 1].label@)
        } else {
            before
        }
    }
}

/// The models of some labels.
pub open spec fn labels(v: Seq<&'static str>) -> Seq<Seq<char>> {
    v.map_values(|s: &'static str| s@)
}

impl FetchMissing {
    /// Which target is next.
    pub closed spec fn next_at(&self) -> int {
        self.at as int
    }

    /// What was fetched so far.
    pub closed spec fn done(&self) -> Seq<Seq<char>> {
        labels(self.downloaded@)
    }

    /// Whether the next target is being downloaded.
    pub closed spec fn is_downloading(&self) -> bool {
        self.downloading
    }

    /// Nothing was looked at yet.
    pub fn new() -> (f: Self)
        ensures
            f.next_at() == 0,
            !f.is_downloading(),
            f.done().len() == 0,
    {
        let f = FetchMissing { at: 0, downloading: false, downloaded: Vec::new() };
        assert(f.done() =~= Seq::empty());
        f
    }

    /// The target to look at; none once all were looked at.
    pub fn next(&self, targets: &[GeoTarget]) -> (out: Option<usize>)
        ensures
            out == if self.next_at() < targets@.len() {
                Some(self.next_at() as usize)
            } else {
                None::<usize>
            },
    {
        if self.at < targets.len() {
            Some(self.at)
        } else {
            None
        }
    }

    /// The target's file was looked for. It is downloaded exactly where it is
    /// missing; one that is there is done with.
    pub fn on_looked(&mut self, targets: &[GeoTarget], exists: bool) -> (download: bool)
        requires
            old(self).next_at() < targets@.len(),
            !old(self).is_downloading(),
        ensures
            download == !exists,
            final(self).is_downloading() == download,
            final(self).next_at() == (if exists {
                old(self).next_at() + 1
            } else {
                old(self).next_at()
            }),
            final(self).done() == old(self).done(),
    {
        let count: usize = targets.len();
        assert(self.at < count);
        if exists {
            self.at = self.at + 1;
        } else {
            self.downloading = true;
        }
        !exists
    }

    /// The download of the target ended. One that failed does not keep the
    /// others from being looked at.
    pub fn on_downloaded(&mut self, targets: &[GeoTarget], ok: bool)
        requires
            old(self).next_at() < targets@.len(),
            old(self).is_downloading(),
        ensures
            !final(self).is_downloading(),
            final(self).next_at() == old(self).next_at() + 1,
            final(self).done() == (if ok {
                old(self).done().push(targets@[old(self).next_at()].label@)
            } else {
                old(self).done()
            }),
    {
        let count: usize = targets.len();
        assert(self.at < count);
        if ok {
            let ghost before = labels(self.downloaded@);
            self.downloaded.push(targets[self.at].label);
            assert(labels(self.downloaded@) =~= before.push(targets@[self.at as int].label@));
        }
        self.downloading = false;
        self.at = self.at + 1;
    }

    /// The labels of what was fetched.
    pub fn finish(self) -> (out: Vec<&'static str>)
        ensures
            labels(out@) == self.done(),
    {
        self.downloaded
    }
}

/// The labels of the targets that are fetched, by which of them are there and
/// which downloads succeed.
pub fn fetch_missing(targets: &[GeoTarget], present: &Vec<bool>, downloads: &Vec<bool>) -> (out:
    Vec<&'static str>)
    requires
        present@.len() == targets@.len(),
        downloads@.len() == targets@.len(),
    ensures
        labels(out@) == fetched_labels(targets@, present@, downloads@, targets@.len()),
{
    let mut run = FetchMissing::new();
    let mut i: usize = 0;
    assert(run.done() =~= fetched_labels(targets@, present@, downloads@, 0));
    while i < present.len()
        invariant
            i <= targets@.len(),
            present@.len() == targets@.len(),
            downloads@.len() == targets@.len(),
            run.next_at() == i,
            !run.is_downloading(),
            run.done() == fetched_labels(targets@, present@, downloads@, i as nat),
        decreases targets@.len() - i,
    {
        if run.on_looked(targets, present[i]) {
            run.on_downloaded(targets, downloads[i]);
        }
        i += 1;
    }
    run.finish()
}

/// The labels that a round ends with are those of exactly the targets that were
/// missing and could be downloaded.
pub proof fn law_fetched(
    targets: Seq<GeoTarget>,
    present: Seq<bool>,
    downloads: Seq<bool>,
    n: nat,
    label: Seq<char>,
)
    requires
        n <= targets.len(),
        present.len() == targets.len(),
        downloads.len() == targets.len(),
    ensures
        fetched_labels(targets, present, downloads, n).len() <= n,
        fetched_labels(targets, present, downloads, n).contains(label) <==> exists|i: int|
            0 <= i < n && (#[trigger] targets[i]).label@ == label && !present[i] && downloads[i],
    decreases n,
{
    let all = fetched_labels(targets, present, downloads, n);
    if n > 0 {
        let before = fetched_labels(targets, present, downloads, (n - 1) as nat);
        law_fetched(targets, present, downloads, (n - 1) as nat, label);
        let t = targets[n - 1];
        if !present[n - 1] && downloads[n - 1] {
            assert(all == before.push(t.label@));
            assert(all[before.len() as int] == t.label@);
            if before.contains(label) {
                let k = choose|k: int| 0 <= k < before.len() && before[k] == label;
                assert(all[k] == label);
            }
            if all.contains(label) && label != t.label@ {
                let k = choose|k: int| 0 <= k < all.len() && all[k] == label;
                assert(before[k] == label);
            }
        }
    }
}

} // verus!
