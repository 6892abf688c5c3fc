use meow::anytls::string_map::StringMap;
use meow::common::sniff_http::Header;
use meow::config::chunked::{decode_chunked, BODY_TOO_LARGE, MAX_BODY_BYTES};
use meow::config::external_ui::{common_top_level, extract_zip, place_entry, Extraction};
use meow::config::internal_http::{
    body_text, check_content_length, first_named_proxy, host_header, judge_response,
    parse_response, request_for, take_response_bytes, Fetch, FetchFault, FetchStep, Outcome,
    ResponseHead, UrlParts,
};
use meow::config::proxy_provider::{
    adapter_type_matches, build_health_check_config, cache_error, compile_opt_regex,
    load_proxy_providers, read_error, split_exclude_types, validate_paths, ContentStep,
    GroupFilter, ProxyEntry, ProxyInfo, ProxyProvider, Vehicle,
};
use meow::config::raw::{RawHealthCheck, RawProxyGroup, RawProxyProvider};
use meow::config::safe_path::resolve_contained;
use std::io::{Cursor, Write};
use zip::write::{SimpleFileOptions, ZipWriter};

// The HTTP client.

fn body(r: Result<Outcome, String>) -> Vec<u8> {
    match r.unwrap() {
        Outcome::Body(b) => b,
        Outcome::Redirect(_) => panic!("unexpected redirect"),
    }
}

#[test]
fn parse_response_decodes_chunked_body_and_extensions() {
    let response = b"HTTP/1.1 200 OK\r\nTransfer-Encoding: chunked\r\n\r\n4;foo=bar\r\nWiki\r\n5\r\npedia\r\n0\r\nX-Trailer: yes\r\n\r\n";
    assert_eq!(body(parse_response(response)), b"Wikipedia");
}

#[test]
fn parse_response_rejects_truncated_chunk() {
    let response = b"HTTP/1.1 200 OK\r\nTransfer-Encoding: chunked\r\n\r\n5\r\nabc";
    assert!(parse_response(response).is_err());
}

#[test]
fn responses_are_judged_by_their_status() {
    assert_eq!(body(parse_response(b"HTTP/1.1 200 OK\r\nA: b\r\n\r\nhello")), b"hello");
    match parse_response(b"HTTP/1.1 302 Found\r\nLOCATION: /x\r\n\r\n").unwrap() {
        Outcome::Redirect(to) => assert_eq!(to, "/x"),
        Outcome::Body(_) => panic!("a redirect is expected"),
    }
    let why = |b: &[u8]| parse_response(b).unwrap_err();
    assert_eq!(why(b"HTTP/1.1 301 Moved\r\n\r\n"), "HTTP 301 redirect without Location header");
    assert_eq!(why(b"HTTP/1.1 404 Not Found\r\n\r\n"), "HTTP 404");
    assert_eq!(why(b"HTTP/1.1 200 OK\r\n"), "incomplete HTTP response (no header terminator)");
    assert!(why(b"\x00\x01").starts_with("response parse error: "));
    assert!(why(b"HTTP/1.1 302 F\r\nLocation: \xff\r\n\r\n").starts_with("non-UTF-8 Location header: "));
}

#[test]
fn heads_that_were_read_are_judged() {
    let head = |code, headers: Vec<Header>| ResponseHead::Complete(2, code, headers);
    let chunked = vec![("transfer-ENCODING".to_string(), b"gzip, Chunked ".to_vec())];
    assert_eq!(body(judge_response(&head(Some(200), chunked), b"..1\r\nx\r\n0\r\n\r\n")), b"x");
    assert_eq!(body(judge_response(&head(Some(299), vec![]), b"..rest")), b"rest");
    assert_eq!(
        judge_response(&head(None, vec![]), b"..").unwrap_err(),
        "response missing status code"
    );
    assert_eq!(judge_response(&head(Some(199), vec![]), b"..").unwrap_err(), "HTTP 199");
}

#[test]
fn chunks_fail_for_reasons() {
    let why = |b: &[u8]| decode_chunked(b).unwrap_err();
    assert_eq!(decode_chunked(b"+a\r\n0123456789\r\n0\r\n\r\n").unwrap(), b"0123456789");
    assert_eq!(why(b"5"), "incomplete chunk-size line");
    assert_eq!(why(b"\r\n"), "invalid chunk size '': cannot parse integer from empty string");
    assert_eq!(why(b"xyz\r\n"), "invalid chunk size 'xyz': invalid digit found in string");
    assert_eq!(
        why(b"fffffffffffffffff\r\n"),
        "invalid chunk size 'fffffffffffffffff': number too large to fit in target type"
    );
    assert!(why(b"\xff\r\n").starts_with("non-UTF-8 chunk size: "));
    assert_eq!(why(b"0\r\nX: y\r\n"), "incomplete chunked response trailers");
    assert_eq!(why(b"2\r\nabc\r\n"), "incomplete chunk data");
    assert_eq!(why(b"10000001\r\n"), BODY_TOO_LARGE);
}

#[test]
fn bodies_are_bounded_text() {
    let mut buf = b"ab".to_vec();
    take_response_bytes(&mut buf, b"cd").unwrap();
    assert_eq!(buf, b"abcd");
    check_content_length(None).unwrap();
    check_content_length(Some(MAX_BODY_BYTES as u64)).unwrap();
    assert_eq!(check_content_length(Some(MAX_BODY_BYTES as u64 + 1)).unwrap_err(), BODY_TOO_LARGE);
    assert_eq!(body_text("häh".as_bytes()).unwrap(), "häh");
    assert!(body_text(b"\xff").unwrap_err().starts_with("response body is not UTF-8: "));
}

#[test]
fn host_headers_leave_the_usual_port_out() {
    assert_eq!(host_header("h", 443, true), "h");
    assert_eq!(host_header("h", 443, false), "h:443");
    assert_eq!(host_header("h", 80, false), "h");
}

#[test]
fn fetches_follow_redirects() {
    let mut f = Fetch::start("https://Example.com/a/b?c=d").unwrap();
    let req = request_for(&f.current).unwrap();
    assert_eq!((req.is_https, req.host.as_str(), req.port), (true, "example.com", 443));
    assert_eq!(
        String::from_utf8(req.bytes).unwrap(),
        "GET /a/b?c=d HTTP/1.1\r\nHost: example.com\r\nUser-Agent: clash.meta/0.1.0\r\nAccept: */*\r\nAccept-Encoding: identity\r\nConnection: close\r\n\r\n"
    );
    let step = f.on_response(Ok(Outcome::Redirect("../x".to_string())));
    assert!(matches!(step, FetchStep::Again));
    assert_eq!(f.current.text, "https://example.com/x");
    for _ in 0..4 {
        let step = f.on_response(Ok(Outcome::Redirect("http://other:81/".to_string())));
        assert!(matches!(step, FetchStep::Again));
    }
    assert_eq!(f.current.port, Some(81));
    match f.on_response(Ok(Outcome::Redirect("/".to_string()))) {
        FetchStep::Fail(e) => assert_eq!(
            e,
            "too many redirects (> 5) starting from https://Example.com/a/b?c=d"
        ),
        _ => panic!("too many redirects were followed"),
    }
    assert!(matches!(f.on_response(Ok(Outcome::Body(vec![1]))), FetchStep::Done(b) if b == vec![1]));
    assert!(matches!(f.on_response(Err("no".to_string())), FetchStep::Fail(e) if e == "no"));
    assert!(Fetch::start("no url").unwrap_err().starts_with("invalid URL 'no url': "));
    let bad = f.redirect("http://[", Err("bad".to_string()));
    assert!(matches!(bad, FetchStep::Fail(e) if e == "bad redirect Location 'http://[': bad"));
}

#[test]
fn only_web_addresses_are_fetched() {
    let parts = |scheme: &str, host: Option<&str>, port| UrlParts {
        text: "u".to_string(),
        scheme: scheme.to_string(),
        host: host.map(str::to_string),
        port,
        path: "/".to_string(),
        query: None,
    };
    let why = |p: UrlParts| request_for(&p).unwrap_err();
    assert_eq!(why(parts("ftp", Some("h"), Some(21))), "unsupported URL scheme 'ftp': u");
    assert_eq!(why(parts("http", None, Some(80))), "URL has no host: u");
    assert_eq!(why(parts("http", Some("h"), None)), "URL has no port: u");
}

#[test]
fn connect_timeout_bounds_hung_dial() {
    let err = FetchFault::DialTimeout.message("hang", "192.0.2.1");
    assert!(err.contains("timed out"), "expected connect timeout, got: {err}");
    assert_eq!(err, "dial via proxy 'hang' timed out after 15s");
    let e = "x".to_string();
    assert_eq!(FetchFault::Dial(e.clone()).message("p", "h"), "dial via proxy 'p': x");
    assert_eq!(FetchFault::ServerName(e.clone()).message("p", "h"), "invalid TLS server name 'h': x");
    assert_eq!(FetchFault::TlsTimeout.message("p", "h"), "TLS handshake to h timed out after 15s");
    assert_eq!(FetchFault::Tls(e).message("p", "h"), "TLS handshake to h: x");
    assert_eq!(FetchFault::ReadTimeout.message("p", "h"), "response read timed out after 60s");
}

#[test]
fn the_first_named_proxy_is_used() {
    let some = |s: &str| Some(s.to_string());
    let registry = vec!["b".to_string(), "a".to_string()];
    assert_eq!(first_named_proxy(Some(&vec![some("a"), some("b")]), &registry), Some(1));
    assert_eq!(first_named_proxy(Some(&vec![None, some("b")]), &registry), None);
    assert_eq!(first_named_proxy(Some(&vec![some("c")]), &registry), None);
    assert_eq!(first_named_proxy(Some(&vec![]), &registry), None);
    assert_eq!(first_named_proxy(None, &registry), None);
}

// Paths.

#[test]
fn paths_stay_inside() {
    assert_eq!(resolve_contained("/c", "a/./b").unwrap(), "/c/a/b");
    assert_eq!(resolve_contained("/c/d", "x/../y").unwrap(), "/c/d/y");
    assert_eq!(resolve_contained("/c", "/c/a").unwrap(), "/c/a");
    assert_eq!(resolve_contained("c", "a").unwrap(), "c/a");
    assert!(resolve_contained("/c", "/cd").is_err());
    assert!(resolve_contained("c", "/c/a").is_err());
    assert_eq!(resolve_contained("/c", "../a").unwrap_err(), "path '../a' escapes '/c'");
}

// Providers.

fn raw_provider(kind: &str, url: Option<&str>, path: Option<&str>) -> RawProxyProvider {
    RawProxyProvider {
        provider_type: kind.to_string(),
        url: url.map(str::to_string),
        path: path.map(str::to_string),
        interval: None,
        filter: None,
        exclude_filter: None,
        exclude_type: None,
        health_check: None,
        header: None,
    }
}

fn raw_file_provider(path: &str) -> RawProxyProvider {
    raw_provider("file", None, Some(path))
}

#[test]
fn file_provider_new_succeeds() {
    let raw = raw_file_provider("proxies.yaml");
    let p = ProxyProvider::new("test", &raw, Some("/cache"), true).unwrap();
    assert_eq!(p.name, "test");
    assert_eq!(p.vehicle_type, "File");
    assert!(p.header.is_empty());
    assert!(matches!(p.vehicle, Vehicle::File(path) if path == "/cache/proxies.yaml"));
}

#[test]
fn file_provider_requires_cache_dir_for_path() {
    let raw = raw_file_provider("/tmp/proxies.yaml");
    let Err(err) = ProxyProvider::new("test", &raw, None, true) else {
        panic!("file path without a cache dir must fail");
    };
    assert!(err.contains("cache directory"), "unexpected: {err}");
}

#[test]
fn file_provider_path_escaping_cache_dir_is_rejected() {
    for path in ["../../etc/pwned", "/etc/pwned"] {
        let raw = raw_file_provider(path);
        let Err(err) = ProxyProvider::new("test", &raw, Some("/tmp/cache"), true) else {
            panic!("escaping path {path} must be rejected");
        };
        assert!(err.contains("escapes"), "path {path}: unexpected: {err}");
    }
}

#[test]
fn http_provider_path_escaping_cache_dir_is_rejected() {
    let raw =
        raw_provider("http", Some("http://127.0.0.1:1/proxies.yaml"), Some("/etc/cron.d/pwned"));
    let Err(err) = ProxyProvider::new("test", &raw, Some("/tmp/cache"), true) else {
        panic!("escaping http cache path must be rejected");
    };
    assert!(err.contains("escapes"), "unexpected: {err}");
}

#[test]
fn validate_paths_rejects_escaping_provider_paths() {
    for path in ["../../etc/pwned", "/etc/cron.d/pwned"] {
        let map = vec![("evil".to_string(), raw_file_provider(path))];
        let err = validate_paths(&map, Some("/tmp/cache"))
            .expect_err("escaping path must fail validation");
        assert!(err.contains("evil"), "must name the provider: {err}");
        assert!(err.contains("escapes"), "path {path}: unexpected: {err}");
    }
}

#[test]
fn validate_paths_accepts_contained_and_pathless_providers() {
    let map = vec![
        ("f".to_string(), raw_file_provider("sub/proxies.yaml")),
        ("h".to_string(), raw_provider("http", Some("http://127.0.0.1:1/proxies.yaml"), None)),
    ];
    validate_paths(&map, Some("/tmp/cache")).expect("contained paths must validate");
    validate_paths(&map, None).expect("no cache dir means nothing to validate");
    let evil = vec![("x/../../../y".to_string(), raw_provider("http", Some("u"), None))];
    assert!(validate_paths(&evil, Some("/tmp/cache")).is_err());
}

#[test]
fn http_provider_new_with_custom_headers() {
    let mut headers = StringMap::new();
    headers.insert("X-Token", "secret");
    let mut raw = raw_provider("http", Some("https://example.com/proxies.yaml"), None);
    raw.header = Some(headers);
    let p = ProxyProvider::new("airport", &raw, None, true).unwrap();
    assert_eq!(p.vehicle_type, "HTTP");
    assert_eq!(p.header.get("X-Token").map(String::as_str), Some("secret"));
}

#[test]
fn raw_proxy_provider_no_header_defaults_empty() {
    let raw = raw_file_provider("proxies.yaml");
    assert!(raw.header.is_none());
    let p = ProxyProvider::new("p", &raw, Some("/cache"), true).unwrap();
    assert!(p.header.is_empty());
}

#[test]
fn providers_need_what_their_kind_needs() {
    let why = |raw: RawProxyProvider| match ProxyProvider::new("p", &raw, Some("/c"), true) {
        Err(e) => e,
        Ok(_) => panic!("a provider was made"),
    };
    assert_eq!(why(raw_provider("file", None, None)), "file proxy-provider requires 'path'");
    assert_eq!(why(raw_provider("http", None, None)), "http proxy-provider requires 'url'");
    assert_eq!(why(raw_provider("ftp", None, None)), "unknown proxy-provider type 'ftp'");
    let mut raw = raw_file_provider("x");
    raw.filter = Some("(".to_string());
    assert!(why(raw).starts_with("filter regex error: "));
    let mut raw = raw_file_provider("x");
    raw.exclude_filter = Some("(".to_string());
    assert!(why(raw).starts_with("exclude-filter regex error: "));

    let list = vec![
        ("a".to_string(), raw_file_provider("x")),
        ("b".to_string(), raw_provider("ftp", None, None)),
        ("c".to_string(), raw_provider("http", Some("u"), None)),
    ];
    let made = load_proxy_providers(&list, Some("/c"), false);
    let names: Vec<&str> = made.iter().map(|p| p.name.as_str()).collect();
    assert_eq!(names, vec!["a", "c"]);
}

fn group_filter(
    filter: Option<&str>,
    exclude_filter: Option<&str>,
    exclude_type: Option<&[&str]>,
) -> GroupFilter {
    let raw = RawProxyGroup {
        name: "g".to_string(),
        group_type: "select".to_string(),
        filter: filter.map(str::to_string),
        exclude_filter: exclude_filter.map(str::to_string),
        exclude_type: exclude_type.map(|v| v.iter().map(|s| (*s).to_string()).collect()),
        ..Default::default()
    };
    GroupFilter::from_raw_group(&raw).unwrap().unwrap()
}

fn proxies(entries: &[(&str, &str)]) -> Vec<ProxyInfo> {
    entries
        .iter()
        .map(|(name, kind)| ProxyInfo { name: name.to_string(), adapter_type: kind.to_string() })
        .collect()
}

fn file_provider(entries: &[(&str, &str)]) -> ProxyProvider {
    let raw = raw_file_provider("proxies.yaml");
    let mut p = ProxyProvider::new("airport", &raw, Some("/cache"), true).unwrap();
    p.apply_refresh(proxies(entries), &vec![], 7);
    p
}

fn view_names(p: &ProxyProvider, id: u64) -> Vec<String> {
    let view = p.derived.iter().find(|v| v.id == id).unwrap();
    view.members.iter().map(|i| p.slot[*i].name.clone()).collect()
}

#[test]
fn derived_slot_applies_group_filter() {
    let mut provider = file_provider(&[
        ("US 1", "Shadowsocks"),
        ("US 2", "Shadowsocks"),
        ("HK 1", "Shadowsocks"),
    ]);
    let id = provider.derived_slot(group_filter(Some("(?i)us"), Some("2"), None));
    assert_eq!(view_names(&provider, id), ["US 1"]);
    assert_eq!(provider.proxies().len(), 3);
    assert_eq!(provider.updated_at_secs(), 7);
}

#[test]
fn derived_slot_updates_on_refresh_and_prunes_dropped_views() {
    let mut provider = file_provider(&[("US 1", "Shadowsocks"), ("HK 1", "Shadowsocks")]);
    let id = provider.derived_slot(group_filter(Some("US"), None, None));
    assert_eq!(view_names(&provider, id), ["US 1"]);

    let next = [("US 1", "Shadowsocks"), ("US 9", "Shadowsocks"), ("HK 2", "Shadowsocks")];
    provider.apply_refresh(proxies(&next), &vec![id], 8);
    assert_eq!(view_names(&provider, id), ["US 1", "US 9"]);

    provider.apply_refresh(proxies(&next), &vec![], 9);
    assert_eq!(provider.derived.len(), 0);
}

#[test]
fn derived_slot_exclude_type_accepts_alias_and_display_name() {
    let mut provider = file_provider(&[("US ss", "Shadowsocks"), ("DIRECT", "Direct")]);

    let by_alias = provider.derived_slot(group_filter(None, None, Some(&["ss"])));
    assert_eq!(view_names(&provider, by_alias), ["DIRECT"]);

    let by_display = provider.derived_slot(group_filter(None, None, Some(&["Shadowsocks"])));
    assert_eq!(view_names(&provider, by_display), ["DIRECT"]);

    let piped = provider.derived_slot(group_filter(None, None, Some(&["ss|direct"])));
    assert!(view_names(&provider, piped).is_empty());
}

#[test]
fn group_filter_absent_fields_yield_none() {
    let raw = RawProxyGroup {
        name: "g".to_string(),
        group_type: "select".to_string(),
        ..Default::default()
    };
    assert!(GroupFilter::from_raw_group(&raw).unwrap().is_none());
}

#[test]
fn group_filter_lookahead_error_carries_hint() {
    let raw = RawProxyGroup {
        name: "g".to_string(),
        group_type: "select".to_string(),
        filter: Some("^(?!.*expat).*US".to_string()),
        ..Default::default()
    };
    let err = GroupFilter::from_raw_group(&raw).unwrap_err();
    assert!(err.contains("look-around"), "unexpected error: {err}");
    let plain = compile_opt_regex(&Some("(".to_string()), "filter").unwrap_err();
    assert!(!plain.contains("look-around"));
}

#[test]
fn excluded_types_are_words() {
    let raw = Some(vec![" SS | http".to_string(), "||Trojan".to_string()]);
    assert_eq!(split_exclude_types(&raw), vec!["ss", "http", "trojan"]);
    assert!(split_exclude_types(&None).is_empty());
    assert!(adapter_type_matches("SS", "Shadowsocks"));
    assert!(!adapter_type_matches("ss", "Direct"));
}

#[test]
fn health_checks_have_defaults() {
    let raw = |enable| {
        Some(RawHealthCheck {
            enable,
            url: None,
            interval: None,
            timeout: Some(9),
            expected_status: None,
            lazy: None,
        })
    };
    let c = build_health_check_config(&raw(None)).unwrap();
    assert_eq!(c.url, "https://www.gstatic.com/generate_204");
    assert_eq!((c.interval, c.timeout, c.expected_status.as_str(), c.lazy), (300, 9, "", false));
    assert!(build_health_check_config(&raw(Some(false))).is_none());
    assert!(build_health_check_config(&None).is_none());
}

#[test]
fn contents_fall_back_to_what_was_kept() {
    let raw = raw_provider("http", Some("u"), None);
    let kept = ProxyProvider::new("p", &raw, Some("/c"), true).unwrap();
    match kept.on_fetched(Ok(b"list".to_vec())) {
        ContentStep::Use { content, keep_at } => {
            assert_eq!(content, "list");
            assert_eq!(keep_at.as_deref(), Some("/c/provider_p.yaml"));
        }
        _ => panic!("the list was not used"),
    }
    let step = kept.on_fetched(Err("no".to_string()));
    assert!(matches!(step, ContentStep::ReadCache(p) if p == "/c/provider_p.yaml"));
    let bare = ProxyProvider::new("p", &raw, None, true).unwrap();
    let step = bare.on_fetched(Ok(vec![0xff]));
    assert!(matches!(step, ContentStep::Fail(e)
        if e == "proxy-provider 'p': fetch failed and no on-disk cache is configured"));
    assert_eq!(read_error("p", "\"/x\"", "no"), "proxy-provider 'p': failed to read \"/x\": no");
    assert_eq!(cache_error("p", "\"/x\"", "no"), "proxy-provider 'p': no cache at \"/x\": no");
}

#[test]
fn lists_of_proxies_are_filtered() {
    let mut raw = raw_file_provider("x");
    raw.filter = Some("US".to_string());
    raw.exclude_filter = Some("9".to_string());
    raw.exclude_type = Some(vec!["trojan".to_string()]);
    let p = ProxyProvider::new("p", &raw, Some("/c"), true).unwrap();
    let list = "- {name: US 1, type: ss}\n- {name: US 9, type: ss}\n- {name: US 2, type: Trojan}\n- {name: HK, type: ss}\n- {name: US 3}\n";
    assert_eq!(p.parse_proxies(list), vec![0, 4]);
    let nested: String = list.lines().map(|l| format!("  {l}\n")).collect();
    assert_eq!(p.parse_proxies(&format!("proxies:\n{nested}")), vec![0, 4]);
    assert!(p.parse_proxies("proxies: 5").is_empty());
    assert!(p.parse_proxies("just text").is_empty());
    assert!(p.parse_proxies("a: [").is_empty());
    let entry = |name: Option<&str>| ProxyEntry { name: name.map(str::to_string), kind: None };
    assert_eq!(p.select(&vec![entry(None), entry(Some("US"))]), vec![1]);
}

// Dashboards.

fn make_zip(entries: &[(&str, &[u8])]) -> Vec<u8> {
    let mut buf = Vec::new();
    {
        let mut w = ZipWriter::new(Cursor::new(&mut buf));
        let opts = SimpleFileOptions::default().compression_method(zip::CompressionMethod::Stored);
        for (path, contents) in entries {
            w.start_file(*path, opts).unwrap();
            w.write_all(contents).unwrap();
        }
        w.finish().unwrap();
    }
    buf
}

fn written(x: &Extraction) -> Vec<(String, Vec<u8>)> {
    assert!(x.error.is_none());
    x.outputs.iter().map(|o| (o.place.join("/"), o.content.clone().unwrap())).collect()
}

#[test]
fn strips_common_github_top_level_dir() {
    let zip = make_zip(&[
        ("metacubexd-gh-pages/index.html", b"<html>dash</html>"),
        ("metacubexd-gh-pages/assets/app.js", b"console.log(1)"),
    ]);
    assert_eq!(
        written(&extract_zip(&zip)),
        vec![
            ("index.html".to_string(), b"<html>dash</html>".to_vec()),
            ("assets/app.js".to_string(), b"console.log(1)".to_vec()),
        ]
    );
}

#[test]
fn keeps_layout_when_no_common_prefix() {
    let zip = make_zip(&[("index.html", b"root"), ("vendor/lib.js", b"v")]);
    assert_eq!(
        written(&extract_zip(&zip)),
        vec![
            ("index.html".to_string(), b"root".to_vec()),
            ("vendor/lib.js".to_string(), b"v".to_vec()),
        ]
    );
}

#[test]
fn rejects_zip_slip_traversal() {
    let zip = make_zip(&[("../escape.txt", b"pwned"), ("safe.txt", b"ok")]);
    assert_eq!(written(&extract_zip(&zip)), vec![("safe.txt".to_string(), b"ok".to_vec())]);
}

#[test]
fn directories_of_an_archive_are_made() {
    let mut buf = Vec::new();
    {
        let mut w = ZipWriter::new(Cursor::new(&mut buf));
        let opts = SimpleFileOptions::default();
        w.add_directory("ui/", opts).unwrap();
        w.add_directory("ui/assets/", opts).unwrap();
        w.start_file("ui/assets/.keep", opts).unwrap();
        w.finish().unwrap();
    }
    let x = extract_zip(&buf);
    assert!(x.error.is_none());
    let places: Vec<_> = x.outputs.iter().map(|o| (o.entry, o.place.join("/"))).collect();
    assert_eq!(places, vec![(1, "assets".to_string()), (2, "assets/.keep".to_string())]);
    assert!(x.outputs[0].content.is_none());
    assert_eq!(x.outputs[1].content.as_deref(), Some(&b""[..]));
}

#[test]
fn a_lone_file_is_kept() {
    let zip = make_zip(&[("index.html", b"root")]);
    assert_eq!(written(&extract_zip(&zip)), vec![("index.html".to_string(), b"root".to_vec())]);
}

#[test]
fn names_with_other_characters_are_kept() {
    let zip = make_zip(&[
        ("ui/@scope/app (1).js", b"a"),
        ("ui/./x//caf\u{e9}+b.css", b"b"),
        ("ui/y/../z~#.js", b"c"),
        ("ui/combine.js", b"d"),
        ("ui/ca\u{f1}a.txt", b"e"),
        ("ui/ab\u{20ac}.txt", b"f"),
    ]);
    assert_eq!(
        written(&extract_zip(&zip)),
        vec![
            ("@scope/app (1).js".to_string(), b"a".to_vec()),
            ("x/caf\u{e9}+b.css".to_string(), b"b".to_vec()),
            ("z~#.js".to_string(), b"c".to_vec()),
            ("combine.js".to_string(), b"d".to_vec()),
            ("ca\u{f1}a.txt".to_string(), b"e".to_vec()),
            ("ab\u{20ac}.txt".to_string(), b"f".to_vec()),
        ]
    );
}

#[test]
fn names_that_only_some_systems_take_are_kept_there() {
    let entries: &[(&str, &[u8])] = &[
        ("ab\u{e9}?.txt", b"a"),
        ("ab\u{e9}/x?.txt", b"b"),
        ("x?/ab\u{e9}.txt", b"c"),
        ("dir\\ab\u{e9}.txt", b"d"),
        ("xy:ab\u{e9}.txt", b"e"),
        ("ab\u{e9}\0.txt", b"f"),
        ("..\\ab\u{e9}.txt", b"g"),
    ];
    let names: Vec<String> = written(&extract_zip(&make_zip(entries))).into_iter().map(|w| w.0).collect();
    if std::path::MAIN_SEPARATOR == '/' {
        let kept = ["ab\u{e9}?.txt", "ab\u{e9}/x?.txt", "x?/ab\u{e9}.txt", "dir/ab\u{e9}.txt", "xy:ab\u{e9}.txt"];
        assert_eq!(names, kept);
    }
}

#[test]
fn a_broken_entry_leaves_its_file() {
    let mut zip = make_zip(&[("a.txt", b"first"), ("b.txt", b"second"), ("c.txt", b"third")]);
    let at = zip.windows(6).position(|w| w == b"second").unwrap();
    zip[at] = b'S';
    let x = extract_zip(&zip);
    assert_eq!(x.outputs.len(), 1);
    assert_eq!(x.outputs[0].place, vec!["a.txt".to_string()]);
    let broken = x.broken.unwrap();
    assert_eq!(broken.entry, 1);
    assert_eq!(broken.place, vec!["b.txt".to_string()]);
    assert!(x.error.is_some());
}

#[test]
fn a_cut_chunked_message_is_an_error() {
    let plain: &[u8] = b"5;x=y\r\nhello\r\n3\r\n\r\n!\r\n0\r\n\r\n";
    let trailed: &[u8] = b"5\r\nhello\r\n0\r\nA: b\r\nC: d\r\n\r\n";
    assert_eq!(decode_chunked(plain).unwrap(), b"hello\r\n!");
    assert_eq!(decode_chunked(trailed).unwrap(), b"hello");
    for message in [plain, trailed] {
        for n in 0..message.len() {
            assert!(decode_chunked(&message[..n]).is_err());
        }
    }
}

#[test]
fn what_is_no_archive_is_an_error() {
    let x = extract_zip(b"text");
    assert!(x.outputs.is_empty());
    assert!(x.broken.is_none());
    assert_eq!(x.error.as_deref(), Some("not a valid zip archive"));
}

#[test]
fn shared_directories_are_found() {
    let names = |v: &[&str]| v.iter().map(|s| s.to_string()).collect::<Vec<_>>();
    assert_eq!(common_top_level(&names(&["a/", "a/b"])).as_deref(), Some("a"));
    assert_eq!(common_top_level(&names(&["a/", "a/b", "a"])).as_deref(), Some("a"));
    assert_eq!(common_top_level(&names(&["dist", "dist/a"])).as_deref(), Some("dist"));
    assert_eq!(common_top_level(&names(&["a", "a"])), None);
    assert_eq!(common_top_level(&names(&["index.html"])), None);
    assert_eq!(common_top_level(&names(&["a/b", "ab/c"])), None);
    assert_eq!(common_top_level(&names(&["/a"])), None);
    assert_eq!(common_top_level(&names(&[])), None);
    let top = Some("a".to_string());
    assert_eq!(place_entry(&top, Some(names(&["a", "b"]))), Some(names(&["b"])));
    assert_eq!(place_entry(&top, Some(names(&["a"]))), None);
    assert_eq!(place_entry(&top, Some(names(&["c", "b"]))), None);
    assert_eq!(place_entry(&None, Some(names(&["c", "b"]))), Some(names(&["c", "b"])));
    assert_eq!(place_entry(&None, None), None);
}
