use meow::anytls::socket_protect::Candidates;
use meow::api::log_stream::{parse_log_level, EventLevel, LogLevel, LogMessage};
use meow::api::resolve_external_ui;
use meow::bench::memory::{rss_from_ps, rss_from_tasklist, split_fields, tool_failed, PeakRss};
use meow::bench::plan::{
    dns_probe, is_memleak_run, load_rss, memleak_config_missing, wait_for_port, BenchStep, Child, PortWait,
    Workloads,
};
use meow::clock::{Duration, Instant};
use meow::common::dial::{with_dial_timeout, MeowError, DIAL_TIMEOUT};
use meow::common::host_lookup::{
    clear_host_resolver, connect_failed, hook_addrs, host_resolver, resolve_host, resolve_step, set_host_resolver,
    system_addrs, Registry, ResolveStep, SysDnsCache,
};
use meow::common::protect::{connect_begun, ConnectStart, SocketStep, SocketUse};
use meow::common::sniff_http::{host_in_headers, sniff_http};
use meow::config::raw::RawProxyGroup;
use meow::io_error::{ErrorKind, IoError};
use meow::net::{ipv4, parse_ip, IpAddr, SocketAddr};
use meow::runtime::geodata_fetch::{
    compute_targets, fetch_missing, FetchMissing, GeoDataConfig, GeoDataDefaults, GeoTarget,
};
use meow::runtime::health_check::{
    count_alive, extract_specs, should_probe, GroupState, HealthLoop, TickAction,
    DEFAULT_INTERVAL_SECS, DEFAULT_URL,
};
use meow::runtime::service_setup::{
    recovery_plan, removal_notice, uninstall_after, Install, InstallPaths, InstallPhase, Notice,
    SystemFault, UninstallPhase,
};
use meow::runtime::windows_path;
use meow::runtime::windows_service::{
    after_stop_request, build_service_info, format_service_status, install_step,
    installed_message, is_winapi_error, log_dir_from_program_data, program_data_dir, removal_step,
    resolve_service_home, running_status, service_result, start_pending_status, status_step,
    stop_step, uninstall_step, InstallStep, RemovalStep, ReporterStep, ServiceControl,
    ServiceControlAccept, ServiceExitCode, ServiceLifecycle, ServicePhase, ServiceStartType,
    ServiceErrorControl, ServiceState, ServiceStatus, ServiceType, StartWait, StatusStep, StopStep,
    UninstallStep, WaitStep,
    ERROR_SERVICE_CANNOT_ACCEPT_CTRL, ERROR_SERVICE_DOES_NOT_EXIST,
    ERROR_SERVICE_MARKED_FOR_DELETE, ERROR_SERVICE_NOT_ACTIVE, SERVICE_DISPLAY_NAME, SERVICE_NAME,
};

fn at(secs: u128) -> Instant {
    Instant { nanos: secs * 1_000_000_000 }
}

// Geodata.

fn cfg_with_paths(mmdb: Option<&str>, asn: Option<&str>, geosite: Option<&str>) -> GeoDataConfig {
    GeoDataConfig {
        mmdb_path: mmdb.map(str::to_string),
        asn_path: asn.map(str::to_string),
        geosite_path: geosite.map(str::to_string),
        mmdb_url: "https://example.test/country.mmdb".to_string(),
        asn_url: "https://example.test/asn.mmdb".to_string(),
        geosite_url: "https://example.test/geosite.mrs".to_string(),
    }
}

fn defaults() -> GeoDataDefaults {
    GeoDataDefaults {
        geoip_path: "/default/geoip".to_string(),
        asn_path: "/default/asn".to_string(),
        geosite_path: "/default/geosite".to_string(),
    }
}

#[test]
fn compute_targets_uses_explicit_paths_when_set() {
    let cfg = cfg_with_paths(
        Some("/tmp/explicit/country.mmdb"),
        Some("/tmp/explicit/asn.mmdb"),
        Some("/tmp/explicit/geosite.mrs"),
    );
    let t = compute_targets(&cfg, &defaults());
    assert_eq!(t[0].label, "GeoIP MMDB");
    assert_eq!(t[0].path, "/tmp/explicit/country.mmdb");
    assert_eq!(t[1].label, "ASN MMDB");
    assert_eq!(t[1].path, "/tmp/explicit/asn.mmdb");
    assert_eq!(t[2].label, "geosite");
    assert_eq!(t[2].path, "/tmp/explicit/geosite.mrs");
}

#[test]
fn compute_targets_falls_back_to_defaults_when_unset() {
    let cfg = cfg_with_paths(None, None, None);
    let t = compute_targets(&cfg, &defaults());
    assert_eq!(t[0].path, defaults().geoip_path);
    assert_eq!(t[1].path, defaults().asn_path);
    assert_eq!(t[2].path, defaults().geosite_path);
}

#[test]
fn compute_targets_carries_urls() {
    let cfg = cfg_with_paths(None, None, None);
    let t = compute_targets(&cfg, &defaults());
    assert_eq!(t[0].url, "https://example.test/country.mmdb");
    assert_eq!(t[1].url, "https://example.test/asn.mmdb");
    assert_eq!(t[2].url, "https://example.test/geosite.mrs");
}

fn targets() -> [GeoTarget; 3] {
    compute_targets(&cfg_with_paths(None, None, None), &defaults())
}

type Disk = std::collections::BTreeMap<String, Vec<u8>>;

/// Runs a round over some files; what the origin does not hold cannot be
/// downloaded.
fn run_round(targets: &[GeoTarget], disk: &mut Disk, origin: &[(&str, &[u8])]) -> Vec<&'static str> {
    let mut round = FetchMissing::new();
    while let Some(at) = round.next(targets) {
        let t = &targets[at];
        if round.on_looked(targets, disk.contains_key(&t.path)) {
            let body = origin.iter().find(|(url, _)| *url == t.url);
            if let Some((_, bytes)) = body {
                disk.insert(t.path.clone(), bytes.to_vec());
            }
            round.on_downloaded(targets, body.is_some());
        }
    }
    round.finish()
}

const ORIGIN: [(&str, &[u8]); 3] = [
    ("https://example.test/country.mmdb", b"mmdb"),
    ("https://example.test/asn.mmdb", b"asn"),
    ("https://example.test/geosite.mrs", b"geosite"),
];

#[test]
fn fetch_missing_skips_existing_files() {
    let t = targets();
    let mut disk: Disk = Disk::new();
    disk.insert(t[0].path.clone(), b"existing-mmdb".to_vec());
    disk.insert(t[1].path.clone(), b"existing-asn".to_vec());
    disk.insert(t[2].path.clone(), b"existing-geosite".to_vec());
    let before = disk.clone();
    let downloaded = run_round(&t, &mut disk, &ORIGIN);
    assert!(downloaded.is_empty(), "no file is missing → no download attempt");
    assert_eq!(disk, before);
    assert!(fetch_missing(&t, &vec![true; 3], &vec![true; 3]).is_empty());
}

#[test]
fn all_missing_targets_are_downloaded() {
    let t = targets();
    let mut disk: Disk = Disk::new();
    let downloaded = run_round(&t, &mut disk, &ORIGIN);
    assert_eq!(downloaded.len(), 3, "all three targets must be fetched");
    assert_eq!(disk[&t[0].path], b"mmdb");
    assert_eq!(disk[&t[1].path], b"asn");
    assert_eq!(disk[&t[2].path], b"geosite");
    assert_eq!(fetch_missing(&t, &vec![false; 3], &vec![true; 3]), downloaded);
}

#[test]
fn skips_targets_already_present() {
    let t = targets();
    let mut disk: Disk = Disk::new();
    disk.insert(t[2].path.clone(), b"SENTINEL-DO-NOT-OVERWRITE".to_vec());
    let downloaded = run_round(&t, &mut disk, &ORIGIN);
    assert_eq!(downloaded.len(), 2, "should fetch only the missing two");
    assert!(downloaded.contains(&"GeoIP MMDB"));
    assert!(downloaded.contains(&"ASN MMDB"));
    assert_eq!(
        disk[&t[2].path],
        b"SENTINEL-DO-NOT-OVERWRITE",
        "pre-existing file must not be touched"
    );
    assert_eq!(fetch_missing(&t, &vec![false, false, true], &vec![true; 3]), downloaded);
}

#[test]
fn one_failed_target_does_not_block_the_others() {
    let t = targets();
    let mut disk: Disk = Disk::new();
    let downloaded = run_round(&t, &mut disk, &[ORIGIN[0], ORIGIN[2]]);
    assert_eq!(downloaded.len(), 2);
    assert!(downloaded.contains(&"GeoIP MMDB"));
    assert!(downloaded.contains(&"geosite"));
    assert!(!downloaded.contains(&"ASN MMDB"));
    assert!(disk.contains_key(&t[0].path), "mmdb should be written");
    assert!(!disk.contains_key(&t[1].path), "asn (404) must not be written");
    assert!(disk.contains_key(&t[2].path), "geosite should be written");
    assert_eq!(fetch_missing(&t, &vec![false; 3], &vec![true, false, true]), downloaded);
}

#[test]
fn empty_target_list_returns_empty() {
    let downloaded = fetch_missing(&[] as &[GeoTarget], &vec![], &vec![]);
    assert!(downloaded.is_empty());
    assert_eq!(FetchMissing::new().next(&[]), None);
    assert_eq!(FetchMissing::new().next(&targets()), Some(0));
}

#[test]
fn geo_target_is_constructible_for_callers() {
    let t = GeoTarget {
        label: "GeoIP MMDB",
        path: "/tmp/x.mmdb".to_string(),
        url: "http://example.test/x.mmdb".to_string(),
    };
    assert_eq!(t.label, "GeoIP MMDB");
}

// Health checks.

#[test]
fn zero_interval_uses_safe_default() {
    let group = RawProxyGroup {
        name: "auto".to_string(),
        group_type: "url-test".to_string(),
        interval: Some(0),
        ..Default::default()
    };
    let specs = extract_specs(&[group]);
    assert_eq!(specs[0].interval_secs, DEFAULT_INTERVAL_SECS);
}

#[test]
fn lazy_probe_requires_new_group_use() {
    assert!(!should_probe(true, 0, 0));
    assert!(should_probe(true, 1, 0));
    assert!(!should_probe(true, 1, 1));
    assert!(should_probe(true, 2, 1));
    assert!(should_probe(false, 0, 0));
}

#[test]
fn only_groups_that_test_are_probed() {
    let group = |kind: &str, url: Option<&str>| RawProxyGroup {
        name: kind.to_string(),
        group_type: kind.to_string(),
        url: url.map(str::to_string),
        interval: Some(7),
        lazy: Some(true),
        ..Default::default()
    };
    let specs = extract_specs(&[
        group("select", None),
        group("fallback", None),
        group("url-test", Some("http://x/")),
    ]);
    assert_eq!(specs.len(), 2);
    assert_eq!((specs[0].group_name.as_str(), specs[0].url.as_str()), ("fallback", DEFAULT_URL));
    assert_eq!((specs[1].url.as_str(), specs[1].interval_secs, specs[1].lazy), ("http://x/", 7, true));
}

#[test]
fn ticks_probe_known_members() {
    let registry = vec!["a".to_string(), "b".to_string()];
    let group = |generation, members: Option<&[&str]>| {
        Some(GroupState {
            generation,
            members: members.map(|m| m.iter().map(|s| s.to_string()).collect()),
        })
    };
    let mut h = HealthLoop::new(true);
    assert_eq!(h.ticks_before_first(), 1);
    assert!(matches!(h.on_tick(None, &registry), TickAction::Skip));
    assert!(matches!(h.on_tick(group(0, Some(&["a"])), &registry), TickAction::Skip));
    let action = h.on_tick(group(3, Some(&["b", "gone", "a"])), &registry);
    assert!(matches!(action, TickAction::Probe(at) if at == vec![1, 0]));
    assert!(matches!(h.on_tick(group(3, Some(&["a"])), &registry), TickAction::Skip));
    assert!(matches!(h.on_tick(group(4, None), &registry), TickAction::Skip));
    assert_eq!(h.last_probed_generation, 4);
    assert_eq!(HealthLoop::new(false).ticks_before_first(), 0);
    assert_eq!(count_alive(&vec![0, 5, 9]), (2, 3));
}

// The Windows service.

#[test]
fn service_info_preserves_unicode_paths_and_expected_launch_order() {
    let executable = r"C:\Program Files\meow 猫\meow.exe";
    let config = r"C:\Users\测试 User\配置 files\config.yaml";
    let home = r"C:\Users\测试 User\配置 files";
    let info = build_service_info(executable, config, home);

    assert_eq!(info.name, SERVICE_NAME);
    assert_eq!(info.display_name, SERVICE_DISPLAY_NAME);
    assert_eq!(info.service_type, ServiceType::OwnProcess);
    assert_eq!(info.start_type, ServiceStartType::AutoStart);
    assert_eq!(info.error_control, ServiceErrorControl::Normal);
    assert_eq!(info.executable_path, executable);
    assert_eq!(info.launch_arguments, vec!["-f", config, "-d", home, "run-service"]);
    assert!(info.account_name.is_none());
    assert!(info.account_password.is_none());
}

#[test]
fn service_log_directory_is_under_program_data() {
    let program_data = r"D:\Shared Program Data";
    assert_eq!(log_dir_from_program_data(program_data), r"D:\Shared Program Data\meow\logs");
}

#[test]
fn default_service_home_matches_cli_default_under_install_cwd() {
    let cwd = r"E:\test";
    let home = resolve_service_home(None, "meow", cwd);
    assert_eq!(home, r"E:\test\meow");
}

#[test]
fn explicit_service_home_preserves_absolute_and_resolves_relative_paths() {
    let cwd = r"E:\test";
    let relative = resolve_service_home(Some("custom 猫 data"), "meow", cwd);
    assert_eq!(relative, r"E:\test\custom 猫 data");

    let absolute = resolve_service_home(Some(r"D:\Shared Program Data\meow"), "ignored", cwd);
    assert_eq!(absolute, r"D:\Shared Program Data\meow");
}

#[test]
fn windows_paths_are_joined() {
    assert_eq!(windows_path::join(r"C:\a\", "b"), r"C:\a\b");
    assert_eq!(windows_path::join("C:", "b"), "C:b");
    assert_eq!(windows_path::join(r"C:\a", r"\b"), r"C:\b");
    assert_eq!(windows_path::join(r"\\srv\share\a", r"/b"), r"\\srv\share/b");
    assert_eq!(windows_path::join(r"C:\a", "D:b"), "D:b");
    assert_eq!(windows_path::join("", "b"), "b");
    assert_eq!(windows_path::join(r"\\?\C:\a", r".\x/../b"), r"\\?\C:\a\b");
    assert_eq!(windows_path::join(r"\\?\C:\a\", r"..\..\b"), r"\\?\C:\b");
    assert_eq!(windows_path::join(r"\\?\C:\a", "/b"), r"\\?\C:\b");
    assert_eq!(windows_path::join(r"\\?\C:\a", ".."), r"\\?\C:\");
    assert_eq!(windows_path::join(r"\\?\UNC\srv\share\a", r"\b"), r"\\?\UNC\srv\share\b");
    assert_eq!(windows_path::join(r"\\.\COM42", "b"), r"\\.\COM42\b");
    assert_eq!(windows_path::join("x", r"\\?\C:\a"), r"\\?\C:\a");
    assert!(windows_path::is_absolute(r"\\?\C:"));
    assert!(windows_path::is_absolute(r"\\srv\share"));
    assert!(!windows_path::is_absolute(r"\a"));
    assert!(!windows_path::is_absolute("C:a"));
    assert!(windows_path::is_absolute("c:/a"));
    assert_eq!(program_data_dir(Some("x")).unwrap(), "x");
    assert!(program_data_dir(Some("")).is_err());
    assert!(program_data_dir(None).is_err());
}

#[test]
fn service_starts_pending_and_accepts_controls_only_when_running() {
    let pending = start_pending_status(7);
    assert_eq!(pending.current_state, ServiceState::StartPending);
    assert_eq!(pending.service_type, ServiceType::OwnProcess);
    assert_eq!(pending.checkpoint, 7);
    assert!(pending.controls_accepted.is_empty());

    let running = running_status();
    assert_eq!(running.current_state, ServiceState::Running);
    assert!(running.controls_accepted.contains(ServiceControlAccept::STOP));
    assert!(running.controls_accepted.contains(ServiceControlAccept::SHUTDOWN));
}

#[test]
fn status_output_contains_state_pid_and_exit_code() {
    let status = ServiceStatus { process_id: Some(4242), ..running_status() };
    let output = format_service_status(&status);
    assert!(output.contains("State: Running"));
    assert!(output.contains("PID: 4242"));
    assert!(output.contains("Exit code: Win32(0)"));
    assert_eq!(
        format_service_status(&running_status()),
        "Service: meow\nState: Running\nPID: -\nExit code: Win32(0)\n"
    );
}

#[test]
fn services_live_and_end() {
    let mut life = ServiceLifecycle::new();
    assert_eq!(life.on_checkpoint_timer(), ReporterStep::Wait(None));
    assert_eq!(life.register(), start_pending_status(2));
    assert_eq!(life.on_checkpoint_timer(), ReporterStep::Wait(Some(start_pending_status(3))));
    assert_eq!(life.on_ready().unwrap(), running_status());
    life.running();
    assert_eq!(life.on_checkpoint_timer(), ReporterStep::End);
    assert!(!life.on_control(ServiceControl::Other).known);
    assert!(life.on_control(ServiceControl::Interrogate).known);
    let reply = life.on_control(ServiceControl::Stop);
    assert!(reply.shut_down);
    assert_eq!(reply.report.unwrap().current_state, ServiceState::StopPending);
    assert!(!life.on_control(ServiceControl::Shutdown).shut_down);
    assert!(life.on_ready().is_err());
    let last = life.on_finished(false);
    assert_eq!(last.exit_code, ServiceExitCode::ServiceSpecific(1));
    assert_eq!(life.phase, ServicePhase::Stopped);
}

#[test]
fn service_results_are_told_in_order() {
    let e = |s: &str| Err(s.to_string());
    assert_eq!(service_result(e("a"), e("b"), e("c")), e("a"));
    assert_eq!(
        service_result(Ok(()), e("b"), e("c")),
        e("failed to update the pending service status: b")
    );
    assert_eq!(
        service_result(Ok(()), Ok(()), e("c")),
        e("failed to report the stopped service status: c")
    );
    assert_eq!(service_result(Ok(()), Ok(()), Ok(())), Ok(()));
}

#[test]
fn installs_and_removals_go_by_the_system() {
    assert!(is_winapi_error(Some(1060), ERROR_SERVICE_DOES_NOT_EXIST));
    assert!(!is_winapi_error(None, ERROR_SERVICE_DOES_NOT_EXIST));
    let missing = || Err(Some(ERROR_SERVICE_DOES_NOT_EXIST));
    let marked = || Err(Some(ERROR_SERVICE_MARKED_FOR_DELETE));
    let other = || Err(Some(5));
    assert!(matches!(install_step(Ok(())), InstallStep::Update));
    assert!(matches!(install_step(missing()), InstallStep::Create));
    assert!(matches!(install_step(marked()), InstallStep::Refuse(_)));
    assert!(matches!(install_step(other()), InstallStep::Fail(_)));
    assert_eq!(installed_message(true), "meow service updated and started.");
    assert!(matches!(uninstall_step(Ok(())), UninstallStep::Delete));
    assert!(matches!(uninstall_step(missing()), UninstallStep::Done("meow service is not installed.")));
    assert!(matches!(uninstall_step(marked()), UninstallStep::Done(_)));
    assert!(matches!(uninstall_step(other()), UninstallStep::Fail(_)));
    assert!(matches!(removal_step(at(1), at(2), Ok(())), RemovalStep::Wait));
    assert!(matches!(removal_step(at(1), at(2), missing()), RemovalStep::Gone));
    assert!(matches!(removal_step(at(1), at(2), marked()), RemovalStep::Wait));
    assert!(matches!(removal_step(at(1), at(2), other()), RemovalStep::Fail(_)));
    assert!(matches!(removal_step(at(2), at(2), Ok(())), RemovalStep::Later));
    assert!(matches!(status_step(Ok(())), StatusStep::Query));
    assert!(matches!(status_step(missing()), StatusStep::Say(_)));
    assert!(matches!(status_step(marked()), StatusStep::Say("meow service is pending deletion.")));
    assert!(matches!(status_step(other()), StatusStep::Fail(_)));
}

#[test]
fn starts_are_waited_for() {
    let mut w = StartWait::new(at(0));
    let pending = |checkpoint, secs| ServiceStatus {
        checkpoint,
        wait_hint: Duration::from_secs(secs),
        ..start_pending_status(0)
    };
    assert!(matches!(w.on_status(&pending(1, 1), at(10)), WaitStep::Wait));
    assert_eq!(w.progress_deadline, at(15));
    assert!(matches!(w.on_status(&pending(2, 100), at(14)), WaitStep::Wait));
    assert_eq!(w.progress_deadline, at(44));
    match w.on_status(&pending(2, 100), at(44)) {
        WaitStep::Fail(e) => {
            assert_eq!(e, "meow service stopped making startup progress at checkpoint 2");
        }
        _ => panic!("the start is stuck"),
    }
    match w.on_status(&pending(3, 1), at(120)) {
        WaitStep::Fail(e) => assert_eq!(e, "timed out waiting for the meow service to start"),
        _ => panic!("the start takes too long"),
    }
    assert!(matches!(w.on_status(&running_status(), at(999)), WaitStep::Done));
    let stopped = ServiceStatus {
        current_state: ServiceState::Stopped,
        exit_code: ServiceExitCode::ServiceSpecific(1),
        ..running_status()
    };
    match w.on_status(&stopped, at(1)) {
        WaitStep::Fail(e) => assert_eq!(
            e,
            "meow service stopped during startup with exit code ServiceSpecific(1); check the service log"
        ),
        _ => panic!("the service has stopped"),
    }
}

#[test]
fn stops_are_waited_for() {
    assert_eq!(stop_step(ServiceState::Stopped), StopStep::Done);
    assert_eq!(stop_step(ServiceState::StopPending), StopStep::Pending);
    assert_eq!(stop_step(ServiceState::Running), StopStep::Request);
    let code = |n| Some(Err(SystemFault { code: Some(n), what: "denied".to_string() }));
    assert!(matches!(after_stop_request(code(ERROR_SERVICE_NOT_ACTIVE), at(9), at(1)), WaitStep::Done));
    assert!(matches!(
        after_stop_request(code(ERROR_SERVICE_CANNOT_ACCEPT_CTRL), at(0), at(1)),
        WaitStep::Wait
    ));
    match after_stop_request(code(5), at(0), at(1)) {
        WaitStep::Fail(e) => assert_eq!(e, "failed to request service stop: denied"),
        _ => panic!("the stop was denied"),
    }
    assert!(matches!(after_stop_request(None, at(0), at(1)), WaitStep::Wait));
    assert!(matches!(after_stop_request(Some(Ok(())), at(1), at(1)), WaitStep::Fail(_)));
}

// The log stream.

#[test]
fn log_level_str_round_trip_via_parse() {
    for (s, lvl) in [
        ("debug", LogLevel::Debug),
        ("info", LogLevel::Info),
        ("warning", LogLevel::Warning),
        ("error", LogLevel::Error),
        ("silent", LogLevel::Silent),
    ] {
        assert_eq!(parse_log_level(s), lvl);
        assert_eq!(lvl.as_str(), s);
    }
}

#[test]
fn parse_log_level_accepts_warn_alias() {
    assert_eq!(parse_log_level("warn"), LogLevel::Warning);
    assert_eq!(parse_log_level("WARN"), LogLevel::Warning);
}

#[test]
fn parse_log_level_is_case_insensitive() {
    assert_eq!(parse_log_level("DEBUG"), LogLevel::Debug);
    assert_eq!(parse_log_level("Info"), LogLevel::Info);
    assert_eq!(parse_log_level("Error"), LogLevel::Error);
}

#[test]
fn parse_log_level_unknown_input_defaults_to_info() {
    assert_eq!(parse_log_level(""), LogLevel::Info);
    assert_eq!(parse_log_level("nonsense"), LogLevel::Info);
    assert_eq!(parse_log_level("trace"), LogLevel::Info);
}

#[test]
fn log_level_ord_matches_severity_increasing() {
    assert!(LogLevel::Debug < LogLevel::Info);
    assert!(LogLevel::Info < LogLevel::Warning);
    assert!(LogLevel::Warning < LogLevel::Error);
    assert!(LogLevel::Error < LogLevel::Silent);
    assert!(LogLevel::Warning.passes(LogLevel::Info));
    assert!(!LogLevel::Error.passes(LogLevel::Silent));
}

#[test]
fn log_message_serializes_three_fields() {
    let msg = LogMessage {
        level: LogLevel::Warning,
        payload: "alerts: thing happened".to_string(),
        unix_nanos: 1_767_322_945_000_000_000,
    };
    let fields = msg.fields();
    assert_eq!(fields.kind, "warning");
    assert_eq!(fields.payload, "alerts: thing happened");
    assert_eq!(fields.time, "2026-01-02T03:02:25Z");
    let never = LogMessage { unix_nanos: i128::MAX, ..msg };
    assert_eq!(never.fields().time, "");
}

#[test]
fn layer_maps_tracing_levels_to_log_levels() {
    assert_eq!(LogLevel::of_event(EventLevel::Error), LogLevel::Error);
    assert_eq!(LogLevel::of_event(EventLevel::Warn), LogLevel::Warning);
    assert_eq!(LogLevel::of_event(EventLevel::Info), LogLevel::Info);
    assert_eq!(LogLevel::of_event(EventLevel::Debug), LogLevel::Debug);
    assert_eq!(LogLevel::of_event(EventLevel::Trace), LogLevel::Debug);
    assert_eq!(resolve_external_ui(Some("/ui"), true).as_deref(), Some("/ui"));
    assert_eq!(resolve_external_ui(Some("/ui"), false), None);
    assert_eq!(resolve_external_ui(None, true), None);
}

// Benchmarks.

#[test]
fn memory_is_read_from_tools() {
    assert_eq!(rss_from_ps("  1234\n").unwrap(), 1234 * 1024);
    assert_eq!(rss_from_ps("").unwrap_err(), "parse RSS: cannot parse integer from empty string");
    assert_eq!(rss_from_ps("x").unwrap_err(), "parse RSS: invalid digit found in string");
    let line = "\"meow.exe\",\"1234\",\"Console\",\"1\",\"12,345 K\",\"Running\"";
    assert_eq!(split_fields(line)[4], "\"12,345 K\"");
    assert_eq!(rss_from_tasklist(&format!("other\r\n{line}\r\n"), 1234).unwrap(), 12345 * 1024);
    assert_eq!(
        rss_from_tasklist(line, 99).unwrap_err(),
        "pid 99 not found in tasklist output"
    );
    assert_eq!(tool_failed("ps", 7), "ps failed for pid 7");
    let mut peak = PeakRss::new();
    for sample in [Some(3), None, Some(9), Some(4)] {
        peak.sample(sample);
    }
    assert_eq!(peak.peak, 9);
}

#[test]
fn runs_go_through_their_steps() {
    let all = Workloads::select(None, true);
    assert_eq!(all, Workloads { throughput: true, latency: true, connrate: true, dns: true });
    let only = Workloads::select(Some("latency"), true);
    assert_eq!(only, Workloads { throughput: false, latency: true, connrate: false, dns: false });
    assert!(!Workloads::select(Some("dns"), false).dns);
    assert!(is_memleak_run(Some("memleak")) && !is_memleak_run(None));

    let mut step = BenchStep::StartEcho;
    let mut seen = Vec::new();
    while step != BenchStep::Finished {
        seen.push(step);
        step = step.next(all, true);
    }
    assert_eq!(seen.len(), 16);
    assert_eq!(BenchStep::Warmup.next(only, false), BenchStep::Latency);
    assert_eq!(BenchStep::Latency.next(only, true), BenchStep::StopProxy);
    assert_eq!(BenchStep::StopProxy.next(only, true), BenchStep::Finished);
    assert_eq!(BenchStep::WaitForProxy.next(all, false), BenchStep::Failed);
    assert_eq!(BenchStep::WaitForProxy.to_reap(), Some(Child::Proxy));
    assert_eq!(BenchStep::WaitForDnsProxy.next(all, false), BenchStep::StopDnsProxy);
    assert_eq!(load_rss(only, Some(9), 4), 4);
    assert_eq!(load_rss(all, None, 4), 0);
    assert!(matches!(wait_for_port(true, at(9), at(1), "x"), PortWait::Ready));
    assert!(matches!(wait_for_port(false, at(0), at(1), "x"), PortWait::Again));
    assert!(matches!(wait_for_port(false, at(1), at(1), "x"), PortWait::Fail(e)
        if e == "timeout waiting for x to become reachable"));
    assert!(memleak_config_missing("c").starts_with("memleak config not found: c  ("));
}

// Dialing.

#[test]
fn a_completed_dial_passes_through_untouched() {
    assert_eq!(with_dial_timeout("mock", Some(Ok(7u8))).unwrap(), 7);
}

#[test]
fn a_failed_dial_keeps_its_own_error() {
    let err = with_dial_timeout::<()>(
        "mock",
        Some(Err(MeowError::Proxy("connection refused".to_string()))),
    )
    .unwrap_err();
    assert!(matches!(err, MeowError::Proxy(_)), "got {err:?}");
}

#[test]
fn a_stalled_dial_expires_as_timed_out() {
    let err = with_dial_timeout::<()>("🇭🇰 HK-01", None).unwrap_err();
    let MeowError::Io(io_err) = err else {
        panic!("expected an io error, got {err:?}");
    };
    assert_eq!(io_err.kind, ErrorKind::TimedOut);
    assert!(io_err.message.contains("🇭🇰 HK-01"));
    assert_eq!(DIAL_TIMEOUT, 5_000_000_000);
}

// Host lookup.

fn addr(d: u8, port: u16) -> SocketAddr {
    SocketAddr::new(ipv4(192, 0, 2, d), port)
}

#[test]
fn host_resolver_set_get_clear_round_trip() {
    let mut registry: Registry<u8> = Registry { slot: None };
    assert!(host_resolver(&registry).is_none());
    set_host_resolver(&mut registry, 3);
    assert_eq!(host_resolver(&registry), Some(&3));
    clear_host_resolver(&mut registry);
    assert!(host_resolver(&registry).is_none());
}

#[test]
fn resolve_host_all_ip_literal_is_single_candidate() {
    let cache = SysDnsCache::new(true);
    match resolve_step(&cache, "192.0.2.1", 80, true, at(0)) {
        ResolveStep::Ready(a) => assert_eq!(a, vec![addr(1, 80)]),
        _ => panic!("a literal was looked up"),
    }
}

#[test]
fn resolve_host_all_uses_installed_resolver_when_protected() {
    let cache = SysDnsCache::new(true);
    assert!(matches!(resolve_step(&cache, "h", 80, true, at(0)), ResolveStep::AskHook));
    assert_eq!(hook_addrs(Ok(ipv4(192, 0, 2, 5)), 80).unwrap(), vec![addr(5, 80)]);
    let e = hook_addrs(Err(IoError::new(ErrorKind::NotFound, "no")), 80).unwrap_err();
    assert_eq!(e.message, "no");
}

#[test]
fn resolve_host_first_matches_resolve_host_all_head() {
    let all = vec![addr(1, 80), addr(2, 80)];
    assert_eq!(resolve_host(Ok(all)).unwrap(), addr(1, 80));
}

#[test]
fn system_results_are_used_again_for_a_minute() {
    let mut cache = SysDnsCache::new(true);
    assert!(matches!(resolve_step(&cache, "h", 80, false, at(0)), ResolveStep::AskSystem));
    let found = system_addrs(&mut cache, "h", 80, Ok(vec![addr(1, 80)]), at(0)).unwrap();
    assert_eq!(found, vec![addr(1, 80)]);
    assert_eq!(cache.sys_cache_get("h", 81, at(60)).unwrap(), vec![addr(1, 81)]);
    assert!(cache.sys_cache_get("h", 81, at(61)).is_none());
    cache.sys_cache_put("g", &vec![addr(2, 1)], at(0));
    cache.sys_cache_evict("h");
    assert!(cache.sys_cache_get("h", 80, at(1)).is_none());
    assert!(cache.sys_cache_get("g", 80, at(1)).is_some());
    let none = system_addrs(&mut cache, "x", 80, Ok(vec![]), at(0)).unwrap_err();
    assert_eq!(none.message, "resolve: no address for x:80");
    let mut off = SysDnsCache::new(false);
    off.sys_cache_put("g", &vec![addr(2, 1)], at(0));
    assert!(off.sys_cache_get("g", 80, at(1)).is_none());
}

#[test]
fn a_failed_dial_forgets_its_host() {
    let mut cache = SysDnsCache::new(true);
    cache.sys_cache_put("h", &vec![addr(1, 80)], at(0));
    cache.sys_cache_put("g", &vec![addr(2, 80)], at(0));
    let mut tried = Candidates::new(vec![addr(1, 80)]);
    tried.failed(IoError::new(ErrorKind::TimedOut, "slow"));
    let e = connect_failed(&mut cache, "h", tried);
    assert_eq!(e.message, "slow");
    assert!(cache.sys_cache_get("h", 80, at(1)).is_none());
    assert_eq!(cache.sys_cache_get("g", 80, at(1)).unwrap(), vec![addr(2, 80)]);
    let none = connect_failed(&mut cache, "g", Candidates::new(vec![]));
    assert_eq!(none.kind, ErrorKind::InvalidInput);
    assert_eq!(none.message, "connect_tcp_host: no addresses resolved");
}

fn course(for_use: SocketUse) -> Vec<SocketStep> {
    let mut steps = vec![SocketStep::Create];
    while *steps.last().unwrap() != SocketStep::Ready {
        steps.push(steps.last().unwrap().next(for_use, true));
    }
    steps
}

#[test]
fn sockets_are_protected_before_they_open() {
    assert_eq!(
        course(SocketUse::Tcp),
        vec![
            SocketStep::Create,
            SocketStep::Protect,
            SocketStep::SetNonblocking,
            SocketStep::Open,
            SocketStep::AwaitWritable,
            SocketStep::TakeError,
            SocketStep::Ready,
        ]
    );
    assert_eq!(course(SocketUse::Udp).len(), 5);
    assert_eq!(SocketStep::Protect.next(SocketUse::Udp, false), SocketStep::Failed);
    assert!(connect_begun(ConnectStart::InProgress));
    assert!(connect_begun(ConnectStart::WouldBlock));
    assert!(!connect_begun(ConnectStart::Error));
}

// Sniffing.

#[test]
fn sniff_http_basic_host_header() {
    let buf = b"GET / HTTP/1.1\r\nHost: example.com\r\n\r\n";
    assert_eq!(sniff_http(buf).as_deref(), Some("example.com"));
}

#[test]
fn sniff_http_host_with_port_stripped() {
    let buf = b"GET / HTTP/1.1\r\nHost: example.com:8080\r\n\r\n";
    assert_eq!(sniff_http(buf).as_deref(), Some("example.com"));
}

#[test]
fn sniff_http_case_insensitive_header_name() {
    let buf = b"GET / HTTP/1.1\r\nHOST: example.com\r\n\r\n";
    assert_eq!(sniff_http(buf).as_deref(), Some("example.com"));
}

#[test]
fn sniff_http_partial_request_ok() {
    let buf = b"GET / HTTP/1.1\r\nHost: example.com\r\n";
    assert_eq!(sniff_http(buf).as_deref(), Some("example.com"));
}

#[test]
fn sniff_http_binary_garbage_none() {
    let buf = b"\x00\x01\x02\x03\x04\x05";
    assert_eq!(sniff_http(buf), None);
}

#[test]
fn sniff_http_no_host_header_none() {
    let buf = b"GET / HTTP/1.0\r\nContent-Length: 0\r\n\r\n";
    assert_eq!(sniff_http(buf), None);
}

#[test]
fn sniff_http_ipv6_host_brackets_stripped() {
    let buf = b"GET / HTTP/1.1\r\nHost: [::1]:8080\r\n\r\n";
    assert_eq!(sniff_http(buf).as_deref(), Some("::1"));
}

#[test]
fn sniff_http_ipv6_host_no_port() {
    let buf = b"GET / HTTP/1.1\r\nHost: [2001:db8::1]\r\n\r\n";
    assert_eq!(sniff_http(buf).as_deref(), Some("2001:db8::1"));
}

#[test]
fn sniff_http_empty_host_value_returns_none() {
    let buf = b"GET / HTTP/1.1\r\nHost: \r\n\r\n";
    assert_eq!(sniff_http(buf), None);
}

#[test]
fn sniff_http_host_with_surrounding_whitespace() {
    let buf = b"GET / HTTP/1.1\r\nHost:    example.com   \r\n\r\n";
    assert_eq!(sniff_http(buf).as_deref(), Some("example.com"));
}

#[test]
fn hosts_are_found_in_headers() {
    let h = |n: &str, v: &[u8]| (n.to_string(), v.to_vec());
    assert_eq!(host_in_headers(&vec![h("a", b"b"), h("hOsT", b"EXAMPLE.com:1")]).as_deref(), Some("example.com"));
    assert_eq!(host_in_headers(&vec![h("host", b"[::1")]), None);
    assert_eq!(host_in_headers(&vec![h("host", b"\xff"), h("host", b"x")]), None);
}

// Addresses.

#[test]
fn addresses_are_written_and_read() {
    assert_eq!(parse_ip("192.0.2.1"), Some(ipv4(192, 0, 2, 1)));
    assert_eq!(parse_ip("::1"), Some(IpAddr::V6(1)));
    assert_eq!(parse_ip("example"), None);
    assert_eq!(ipv4(10, 0, 0, 7).to_text(), "10.0.0.7");
    assert_eq!(IpAddr::V6(1).to_text(), "::1");
    assert_eq!(addr(1, 53).to_text(), "192.0.2.1:53");
    assert_eq!(SocketAddr::new(IpAddr::V6(1), 53).to_text(), "[::1]:53");
    let scoped = SocketAddr { ip: IpAddr::V6(1), port: 53, scope_id: 7 };
    assert_eq!(scoped.to_text(), "[::1%7]:53");
    assert_eq!(ipv4(1, 2, 3, 4).octets(), vec![1, 2, 3, 4]);
    assert!(ipv4(127, 1, 1, 1).is_loopback() && !ipv4(128, 1, 1, 1).is_loopback());
}

// Setting the service up.

fn paths() -> InstallPaths {
    InstallPaths {
        executable: "C:\\meow.exe".to_string(),
        config: "C:\\c.yaml".to_string(),
        home: "C:\\home".to_string(),
        logs: "C:\\logs".to_string(),
    }
}

fn denied(code: Option<i32>) -> Result<(), SystemFault> {
    Err(SystemFault { code, what: "denied".to_string() })
}

fn installed_up_to(phase: InstallPhase) -> Install {
    let mut install = Install::new();
    while install.phase != phase {
        assert!(install.on_outcome(&paths(), Ok(())).is_none());
    }
    install
}

#[test]
fn installing_ends_with_a_running_service() {
    let mut steps = vec![];
    let mut install = Install::new();
    while install.phase != InstallPhase::Installed {
        steps.push(install.phase);
        assert!(install.on_outcome(&paths(), Ok(())).is_none());
    }
    assert_eq!(steps.len(), 16);
    assert_eq!(
        steps[steps.len() - 5..],
        [
            InstallPhase::Describe,
            InstallPhase::SetRecovery,
            InstallPhase::RecoverFailures,
            InstallPhase::Start,
            InstallPhase::AwaitRunning,
        ]
    );
    assert!(install.updated);
    assert_eq!(
        install.report(&paths()),
        "meow service updated and started.\n\n  Config:  C:\\c.yaml\n  Home:    C:\\home\n  \
         Binary:  C:\\meow.exe\n  Logs:    C:\\logs\n\nPowerShell commands:\n  Get-Service meow\n  \
         Restart-Service meow\n  Stop-Service meow\n"
    );
    let mut fresh = installed_up_to(InstallPhase::OpenService);
    assert!(fresh.on_outcome(&paths(), denied(Some(ERROR_SERVICE_DOES_NOT_EXIST))).is_none());
    assert_eq!(fresh.phase, InstallPhase::Create);
    assert!(fresh.on_outcome(&paths(), Ok(())).is_none());
    assert_eq!(fresh.phase, InstallPhase::Describe);
    assert!(fresh.report(&paths()).starts_with("meow service installed and started.\n"));
    let plan = recovery_plan();
    assert_eq!((plan.reset_after_secs, plan.restart_delay_secs), (24 * 60 * 60, 5));
}

#[test]
fn installing_fails_in_words() {
    let words = |phase: InstallPhase, code: Option<i32>| {
        let mut install = installed_up_to(phase);
        let fault = install.on_outcome(&paths(), denied(code)).unwrap();
        assert_eq!(install.phase, InstallPhase::Failed);
        fault
    };
    assert_eq!(words(InstallPhase::FindExecutable, None), "meow executable not found: C:\\meow.exe");
    assert_eq!(
        words(InstallPhase::ResolveConfig, None),
        "failed to resolve configuration file: C:\\c.yaml: denied"
    );
    assert_eq!(
        words(InstallPhase::MakeHome, None),
        "failed to create meow home directory C:\\home: denied"
    );
    assert_eq!(
        words(InstallPhase::OpenService, Some(5)),
        "failed to open the meow Windows service; run PowerShell as Administrator: denied"
    );
    assert!(words(InstallPhase::OpenService, Some(ERROR_SERVICE_MARKED_FOR_DELETE))
        .starts_with("the meow service is pending deletion; "));
    assert_eq!(
        words(InstallPhase::Start, None),
        "failed to start the meow Windows service: denied"
    );
    assert_eq!(words(InstallPhase::AwaitRunning, None), "denied");
}

#[test]
fn removing_marks_before_it_stops() {
    let (phase, notice) = uninstall_after(UninstallPhase::OpenManager, Ok(()));
    assert!(matches!(notice, Notice::Nothing));
    let (phase, _) = uninstall_after(phase, Ok(()));
    assert_eq!(phase, UninstallPhase::Delete);
    let (phase, _) = uninstall_after(phase, Ok(()));
    assert_eq!(phase, UninstallPhase::Stop);
    match uninstall_after(phase, denied(None)) {
        (UninstallPhase::AwaitRemoval, Notice::Warn(w)) => assert_eq!(w, "warning: denied"),
        other => panic!("{other:?}"),
    }
    match uninstall_after(UninstallPhase::OpenService, denied(Some(ERROR_SERVICE_DOES_NOT_EXIST))) {
        (UninstallPhase::Done, Notice::Say(w)) => assert_eq!(w, "meow service is not installed."),
        other => panic!("{other:?}"),
    }
    match uninstall_after(UninstallPhase::Delete, denied(None)) {
        (UninstallPhase::Failed, Notice::Fail(w)) => {
            assert_eq!(w, "failed to mark the meow Windows service for deletion: denied");
        }
        other => panic!("{other:?}"),
    }
    match removal_notice(&RemovalStep::Gone, "") {
        Notice::Say(w) => {
            assert_eq!(w, "meow service uninstalled.\nConfiguration and logs were preserved.");
        }
        other => panic!("{other:?}"),
    }
    match removal_notice(&RemovalStep::Fail("failed while waiting for service deletion"), "e") {
        Notice::Fail(w) => assert_eq!(w, "failed while waiting for service deletion: e"),
        other => panic!("{other:?}"),
    }
}

#[test]
fn dns_ports_are_probed_with_a_query() {
    let wire = dns_probe().unwrap();
    assert_eq!(&wire[..12], &[0, 0, 1, 0, 0, 1, 0, 0, 0, 0, 0, 0]);
    assert_eq!(&wire[12..], b"\x04ping\x07invalid\x00\x00\x01\x00\x01");
}
