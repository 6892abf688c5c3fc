use meow::clock::{Duration, Instant};
use meow::dns::cache::{
    fnv1a32, normalize_domain, per_shard_cap, shard_ip, shard_str, DnsCache, FamilyCacheHit,
    ReverseSnapshotEntry, REVERSE_TTL_FLOOR,
};
use meow::dns::families::QueryFamilies;
use meow::dns::host_resolver_hook::{found_or_error, ResolverHostHook};
use meow::io_error::ErrorKind;
use meow::net::{ipv4, IpAddr};

const LOCALHOST: IpAddr = IpAddr::V6(1);

fn now() -> Instant {
    Instant { nanos: 1_000_000_000_000 }
}

fn later(millis: u128) -> Instant {
    Instant { nanos: now().nanos + millis * 1_000_000 }
}

fn secs(n: u64) -> Duration {
    Duration::from_secs(n)
}

#[test]
fn fnv1a32_matches_known_vectors() {
    assert_eq!(fnv1a32(b""), 0x811c_9dc5);
    assert_eq!(fnv1a32(b"\x00"), 0x050c_5d1f);
}

#[test]
fn shard_selection_is_deterministic_per_input() {
    assert_eq!(shard_str("example.com"), shard_str("example.com"));
    assert_eq!(shard_ip(ipv4(1, 1, 1, 1)), shard_ip(ipv4(1, 1, 1, 1)));
    assert_eq!(shard_ip(LOCALHOST), shard_ip(LOCALHOST));
}

#[test]
fn shards_share_the_capacity() {
    assert_eq!(per_shard_cap(1600, 8), 100);
    assert_eq!(per_shard_cap(16, 8), 8);
    assert_eq!(normalize_domain("GitHub.COM"), "github.com");
}

#[test]
fn put_then_get_round_trips() {
    let mut c = DnsCache::new(64);
    let ips = vec![ipv4(1, 2, 3, 4), ipv4(5, 6, 7, 8)];
    c.put("a.example", &ips, secs(30), now());
    assert_eq!(c.get("a.example", now()).as_ref().map(|l| l.as_slice()), Some(&ips[..]));
    assert!(c.get("nope.example", now()).is_none());
}

#[test]
fn cache_keys_are_ascii_case_insensitive() {
    let mut c = DnsCache::new(64);
    let ip = ipv4(1, 2, 3, 4);
    c.put("GitHub.COM", &[ip], secs(30), now());
    assert_eq!(c.get("github.com", now()).as_ref().map(|l| l.as_slice()), Some(&[ip][..]));
    assert_eq!(c.get("GITHUB.com", now()).as_ref().map(|l| l.as_slice()), Some(&[ip][..]));
    assert_eq!(c.reverse_lookup(ip, now()).as_deref(), Some("github.com"));
}

#[test]
fn get_on_expired_entry_returns_none_and_evicts() {
    let mut c = DnsCache::new(64);
    c.put("x.example", &[ipv4(1, 1, 1, 1)], Duration::from_millis(1), now());
    assert!(c.get("x.example", later(10)).is_none(), "expired entry must not be returned");
    assert_eq!(c.forward_len(), 0);
}

#[test]
fn reverse_lookup_returns_owning_domain() {
    let mut c = DnsCache::new(64);
    c.put("rev.example", &[ipv4(192, 0, 2, 1), ipv4(192, 0, 2, 2)], secs(30), now());
    assert_eq!(c.reverse_lookup(ipv4(192, 0, 2, 1), now()).as_deref(), Some("rev.example"));
    assert_eq!(c.reverse_lookup(ipv4(192, 0, 2, 2), now()).as_deref(), Some("rev.example"));
    assert!(c.reverse_lookup(ipv4(192, 0, 2, 99), now()).is_none());
}

#[test]
fn reverse_lookup_on_expired_entry_evicts() {
    let mut c = DnsCache::new(64);
    let ip = ipv4(10, 0, 0, 1);
    let past = Instant { nanos: now().nanos - 1_000_000_000 };
    c.put_reverse_with_expiry(ip, "x.example", past);
    assert_eq!(c.reverse_len(), 1, "entry should be present before read");
    assert!(c.reverse_lookup(ip, now()).is_none());
    assert_eq!(c.reverse_len(), 0);
}

#[test]
fn reverse_entry_outlives_short_forward_ttl() {
    let mut c = DnsCache::new(64);
    let ip = ipv4(203, 0, 113, 7);
    c.put("short.example", &[ip], Duration::from_millis(5), now());
    assert!(
        c.get("short.example", later(20)).is_none(),
        "forward entry must honor the real short TTL"
    );
    assert!(REVERSE_TTL_FLOOR >= secs(600).nanos, "floor regressed below documented 600s");
    assert_eq!(
        c.reverse_lookup(ip, later(20)).as_deref(),
        Some("short.example"),
        "reverse mapping must outlive the short forward TTL"
    );
}

#[test]
fn get_with_ttl_returns_decaying_remaining() {
    let mut c = DnsCache::new(64);
    c.put("ttl.example", &[ipv4(1, 2, 3, 4)], secs(300), now());
    let (ips, remaining) = c.get_with_ttl("ttl.example", later(2500)).expect("cache hit");
    assert_eq!(ips.as_slice(), &[ipv4(1, 2, 3, 4)]);
    assert!(remaining.nanos <= secs(300).nanos);
    assert!(remaining.nanos > secs(295).nanos);
    assert_eq!(remaining.nanos, 297_500_000_000);
    assert!(c.get_with_ttl("miss.example", now()).is_none());
}

#[test]
fn reverse_snapshot_restore_round_trips() {
    let mut c = DnsCache::new(64);
    c.put("snap.example", &[ipv4(192, 0, 2, 10), ipv4(192, 0, 2, 11)], secs(30), now());
    let snap = c.reverse_snapshot(now());
    assert_eq!(snap.len(), 2);
    assert!(snap.iter().all(|e| e.domain == "snap.example"));
    assert!(snap
        .iter()
        .all(|e| e.remaining.nanos > 0 && e.remaining.nanos <= REVERSE_TTL_FLOOR));
    assert!(snap.windows(2).all(|w| !w[1].ip.before(&w[0].ip)));

    let mut fresh = DnsCache::new(64);
    fresh.restore_reverse(snap, now());
    assert_eq!(fresh.reverse_lookup(ipv4(192, 0, 2, 10), now()).as_deref(), Some("snap.example"));
    assert_eq!(fresh.reverse_lookup(ipv4(192, 0, 2, 11), now()).as_deref(), Some("snap.example"));
    assert_eq!(fresh.reverse_len(), 2);
}

#[test]
fn reverse_snapshot_evicts_and_omits_expired() {
    let mut c = DnsCache::new(64);
    let past = Instant { nanos: now().nanos - 1_000_000_000 };
    c.put_reverse_with_expiry(ipv4(10, 0, 0, 9), "dead.example", past);
    c.put("live.example", &[ipv4(10, 0, 0, 10)], secs(30), now());
    let snap = c.reverse_snapshot(now());
    assert_eq!(snap.len(), 1);
    assert_eq!(snap[0].domain, "live.example");
    assert_eq!(c.reverse_len(), 1);
}

#[test]
fn restore_reverse_skips_zero_remaining_and_enforces_cap() {
    let mut c = DnsCache::new(16);
    let mut entries = vec![ReverseSnapshotEntry {
        ip: ipv4(10, 1, 0, 0),
        domain: "expired.example".to_string(),
        remaining: Duration::zero(),
    }];
    for i in 0..2000u32 {
        entries.push(ReverseSnapshotEntry {
            ip: ipv4(10, (i >> 8) as u8, (i & 0xff) as u8, 1),
            domain: format!("r{i}.example"),
            remaining: secs(60),
        });
    }
    c.restore_reverse(entries, now());
    assert!(c.reverse_lookup(ipv4(10, 1, 0, 0), now()).is_none());
    assert!(c.reverse_len() <= 256, "reverse_len {} exceeded global shard cap", c.reverse_len());
}

#[test]
fn put_overwrites_existing_entry() {
    let mut c = DnsCache::new(64);
    c.put("dup.example", &[ipv4(1, 1, 1, 1)], secs(30), now());
    c.put("dup.example", &[ipv4(2, 2, 2, 2)], secs(30), now());
    assert_eq!(c.get("dup.example", now()).as_ref().map(|l| l.as_slice()), Some(&[ipv4(2, 2, 2, 2)][..]));
}

#[test]
fn clear_drops_all_entries() {
    let mut c = DnsCache::new(64);
    c.put("a.example", &[ipv4(1, 1, 1, 1)], secs(30), now());
    c.put("b.example", &[ipv4(2, 2, 2, 2)], secs(30), now());
    assert!(c.forward_len() > 0);
    c.clear();
    assert_eq!(c.forward_len(), 0);
    assert_eq!(c.reverse_len(), 0);
    assert!(c.get("a.example", now()).is_none());
    assert!(c.reverse_lookup(ipv4(1, 1, 1, 1), now()).is_none());
}

#[test]
fn put_with_empty_ip_list_creates_forward_entry_but_no_reverse() {
    let mut c = DnsCache::new(64);
    c.put("nx.example", &[], secs(30), now());
    assert_eq!(c.get("nx.example", now()).as_ref().map(|l| l.as_slice()), Some(&[][..]));
    assert_eq!(c.reverse_len(), 0);
}

#[test]
fn merge_family_tracks_empty_families_without_dropping_other_answers() {
    let mut c = DnsCache::new(64);
    let v4 = ipv4(192, 0, 2, 1);
    let v6 = LOCALHOST;

    c.merge_family("dual.example", QueryFamilies::IPV4, &[v4], secs(60), None, now());
    c.merge_family("dual.example", QueryFamilies::IPV6, &[], secs(30), None, now());
    let no_v6 = c.get_lookup("dual.example", now()).unwrap();
    assert_eq!(no_v6.ips.as_slice(), &[v4]);
    assert!(matches!(no_v6.v4, FamilyCacheHit::Answer(..)));
    assert!(matches!(no_v6.v6, FamilyCacheHit::NoData));

    c.merge_family("dual.example", QueryFamilies::IPV6, &[v6], secs(30), None, now());
    let dual = c.get_lookup("dual.example", now()).unwrap();
    assert!(dual.ips.as_slice().contains(&v4));
    assert!(dual.ips.as_slice().contains(&v6));
}

#[test]
fn merge_family_short_ttl_nodata_does_not_expire_other_family() {
    let mut c = DnsCache::new(64);
    let v4 = ipv4(192, 0, 2, 1);
    c.merge_family("cdn.example", QueryFamilies::IPV4, &[v4], secs(3600), None, now());
    c.merge_family("cdn.example", QueryFamilies::IPV6, &[], secs(10), None, now());
    let entry = c.get_lookup("cdn.example", now()).expect("entry must still be live");
    let v4_ttl = match &entry.v4 {
        FamilyCacheHit::Answer(ips, ttl) => {
            assert_eq!(ips.as_slice(), &[v4]);
            *ttl
        }
        other => panic!("expected fresh A answer, got {other:?}"),
    };
    assert!(v4_ttl.nanos > secs(3500).nanos, "A TTL must not be collapsed to the AAAA's 10 s");
    assert!(matches!(entry.v6, FamilyCacheHit::NoData));
    assert!(c.get_lookup("cdn.example", later(11_000)).is_some());
}

#[test]
fn ipv6_round_trips() {
    let mut c = DnsCache::new(64);
    let v6 = IpAddr::V6(0x2001_0db8_0000_0000_0000_0000_0000_0001);
    c.put("v6.example", &[v6], secs(30), now());
    assert_eq!(c.get("v6.example", now()).as_ref().map(|l| l.as_slice()), Some(&[v6][..]));
    assert_eq!(c.reverse_lookup(v6, now()).as_deref(), Some("v6.example"));
}

#[test]
fn new_clamps_tiny_capacity_to_min_shard_size() {
    let mut c = DnsCache::new(1);
    c.put("tiny.example", &[ipv4(1, 1, 1, 1)], secs(30), now());
    assert!(c.get("tiny.example", now()).is_some());
}

#[test]
fn reverse_capacity_evicts_lru() {
    let mut c = DnsCache::new(16);
    for i in 0..2000u32 {
        let ip = ipv4(10, (i >> 8) as u8, (i & 0xff) as u8, 1);
        let key = format!("r{i}.example");
        c.put(&key, &[ip], secs(30), now());
    }
    assert!(c.reverse_len() <= 256, "reverse_len {} exceeded global shard cap", c.reverse_len());
}

#[test]
fn capacity_evicts_lru_across_shards() {
    let mut c = DnsCache::new(16);
    for i in 0..200u32 {
        let key = format!("k-{i}.example");
        c.put(&key, &[ipv4(127, 0, 0, 1)], secs(30), now());
    }
    assert!(c.forward_len() <= 128, "forward_len {} exceeded global shard cap", c.forward_len());
    assert!(c.get("k-199.example", now()).is_some());
}

#[test]
fn reading_keeps_an_answer_from_being_the_oldest() {
    let mut c = DnsCache::new(16);
    let first = "k-0.example".to_string();
    let mut same = Vec::new();
    let mut i = 1u32;
    while same.len() < 8 {
        let key = format!("k-{i}.example");
        if shard_str(&key) == shard_str(&first) {
            same.push(key);
        }
        i += 1;
    }
    c.put(&first, &[ipv4(1, 1, 1, 1)], secs(30), now());
    for key in &same[..7] {
        c.put(key, &[ipv4(1, 1, 1, 1)], secs(30), now());
    }
    assert!(c.get(&first, now()).is_some());
    c.put(&same[7], &[ipv4(1, 1, 1, 1)], secs(30), now());
    assert!(c.get(&first, now()).is_some());
    assert!(c.get(&same[0], now()).is_none());
}

#[test]
fn snapshots_are_sorted_and_tell_sources() {
    let mut c = DnsCache::new(64);
    c.put_with_source("b.example", &[ipv4(2, 2, 2, 2)], secs(30), Some("udp"), now());
    c.put("a.example", &[ipv4(1, 1, 1, 1)], secs(40), now());
    c.put("dead.example", &[ipv4(3, 3, 3, 3)], secs(1), now());
    let snap = c.snapshot(later(2000));
    let names: Vec<&str> = snap.iter().map(|e| e.name.as_str()).collect();
    assert_eq!(names, vec!["a.example", "b.example"]);
    assert_eq!(snap[1].source.as_deref(), Some("udp"));
    assert_eq!(snap[0].ttl.nanos, 38_000_000_000);
    assert_eq!(c.forward_len(), 2);
}

#[test]
fn families_join_and_part() {
    let both = QueryFamilies::IPV4.union(QueryFamilies::IPV6);
    assert_eq!(both, QueryFamilies::BOTH);
    assert_eq!(both.minus(QueryFamilies::IPV4), QueryFamilies::IPV6);
    assert!(both.contains(QueryFamilies::IPV6));
    assert!(QueryFamilies::IPV4.minus(both).is_empty());
    assert_eq!(QueryFamilies::from_record_type(28), QueryFamilies::IPV6);
    assert_eq!(QueryFamilies::from_record_type(16), QueryFamilies::NONE);
    assert_eq!(QueryFamilies::from_ips(&[LOCALHOST, ipv4(1, 1, 1, 1)]), QueryFamilies::BOTH);
    assert!(QueryFamilies::IPV6.contains_ip(LOCALHOST));
    assert_eq!(QueryFamilies::IPV6.other(), QueryFamilies::IPV4);
}

// The hook of the resolver.

#[test]
fn without_proxy_resolver_uses_main_resolver() {
    let hook = ResolverHostHook::new("main");
    assert_eq!(*hook.active(), "main");
    assert_eq!(found_or_error("node.example", Some(ipv4(192, 0, 2, 1))).unwrap(), ipv4(192, 0, 2, 1));
}

#[test]
fn proxy_resolver_takes_precedence_over_main() {
    let hook = ResolverHostHook::new_with_proxy_resolver("main", Some("proxy"));
    assert_eq!(*hook.active(), "proxy");
    let hook = ResolverHostHook::new_with_proxy_resolver("main", None);
    assert_eq!(*hook.active(), "main");
}

#[test]
fn proxy_resolver_miss_does_not_fall_back_to_main() {
    let hook = ResolverHostHook::new_with_proxy_resolver("main", Some("proxy"));
    assert_eq!(*hook.active(), "proxy");
    let e = found_or_error::<IpAddr>("node.example", None).unwrap_err();
    assert_eq!(e.kind, ErrorKind::NotFound);
    assert_eq!(e.message, "meow-dns resolver: no address for node.example");
}

#[test]
fn a_merged_family_has_exactly_what_was_merged() {
    let mut c = DnsCache::new(64);
    let (a, b, d) = (ipv4(1, 1, 1, 1), ipv4(2, 2, 2, 2), ipv4(3, 3, 3, 3));
    let v6 = IpAddr::V6(9);
    c.put_with_source("m.example", &[a, v6], secs(60), Some("up"), now());
    c.merge_family("m.example", QueryFamilies::IPV4, &[d, b, d], secs(5), None, now());
    let found = c.get_lookup("m.example", now()).unwrap();
    assert_eq!(found.ips.as_slice(), &[b, d, v6]);
    assert_eq!(c.snapshot(now())[0].source.as_deref(), Some("up"));
    assert_eq!(c.reverse_lookup(b, now()).as_deref(), Some("m.example"));
    assert_eq!(c.reverse_lookup(d, now()).as_deref(), Some("m.example"));
    let found = c.get_lookup("m.example", later(5_000)).unwrap();
    assert_eq!(found.ips.as_slice(), &[v6]);
    c.merge_family("m.example", QueryFamilies::IPV6, &[], secs(5), None, now());
    let found = c.get_lookup("m.example", now()).unwrap();
    assert!(matches!(found.v6, FamilyCacheHit::NoData));
}

#[test]
fn restored_tables_are_as_long_as_their_snapshot() {
    let mut c = DnsCache::new(64);
    for n in 0..20u8 {
        c.put(&format!("h{n}.example"), &[ipv4(10, 0, 0, n)], secs(30), now());
    }
    let snap = c.reverse_snapshot(now());
    assert_eq!(snap.len(), 20);
    let mut d = DnsCache::new(64);
    d.restore_reverse(snap, now());
    assert_eq!(d.reverse_len(), 20);
}

#[test]
fn restored_entries_name_their_addresses_until_they_run_out() {
    let entry = |n: u8, domain: &str, left: u64| ReverseSnapshotEntry {
        ip: ipv4(10, 0, 0, n),
        domain: domain.to_string(),
        remaining: secs(left),
    };
    let mut c = DnsCache::new(64);
    c.restore_reverse(vec![entry(1, "old.example", 50)], now());
    c.restore_reverse(
        vec![entry(1, "new.example", 60), entry(2, "two.example", 9), entry(3, "gone.example", 0)],
        now(),
    );
    let mut name_of = |n: u8, at| c.reverse_lookup(ipv4(10, 0, 0, n), at);
    assert_eq!(name_of(1, later(55_000)).as_deref(), Some("new.example"));
    assert_eq!(name_of(2, later(8_999)).as_deref(), Some("two.example"));
    assert_eq!(name_of(2, later(9_000)), None);
    assert_eq!(name_of(3, now()), None);
    assert_eq!(name_of(4, now()), None);
}

#[test]
fn addresses_spread_over_shards_all_map_back() {
    let mut shares = [0usize; 16];
    let mut ips = Vec::new();
    for n in 0..1000u32 {
        let share = &mut shares[shard_ip(IpAddr::V4(n))];
        if *share < 16 {
            *share += 1;
            ips.push(IpAddr::V4(n));
        }
    }
    assert!(ips.len() > 100);
    let mut c = DnsCache::new(0);
    c.put("many.example", &ips, secs(30), now());
    assert!(ips.iter().all(|ip| c.reverse_lookup(*ip, now()).as_deref() == Some("many.example")));
    let first = ips[0];
    let crowd = (1000..).map(IpAddr::V4).filter(|ip| shard_ip(*ip) == shard_ip(first));
    let mut ips: Vec<IpAddr> = crowd.take(16).collect();
    ips.insert(0, first);
    let mut c = DnsCache::new(0);
    c.put("crowd.example", &ips, secs(30), now());
    assert_eq!(c.reverse_lookup(first, now()), None);
    assert!(ips[1..].iter().all(|ip| c.reverse_lookup(*ip, now()).is_some()));
}

#[test]
fn tables_stay_bounded_and_keep_the_last_answer() {
    let mut c = DnsCache::new(0);
    for n in 0..1000u32 {
        let ip = IpAddr::V4(n);
        c.merge_family(&format!("m{n}"), QueryFamilies::IPV4, &[ip], secs(30), None, now());
        c.put(&format!("p{n}"), &[ip], secs(30), now());
        assert!(c.get(&format!("p{n}"), now()).is_some());
    }
    assert!(c.forward_len() <= 16 * 8);
    assert!(c.reverse_len() <= 16 * 16);
}
