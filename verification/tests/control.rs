use comma::clock::TimeBase;
use comma::config::{Config, Version};
use comma::control_rpc::{dispatch_line, resolve_sock_path, unknown_command, Request};
use comma::setting_text::{parse_duration, parse_flag};
use comma::paths::{expand_pid, ipc_shm_path, ring_file_name, sock_dir, sock_path_fits};
use comma::profiler::Profiler;
use comma::runtime_gates::{GateUpdate, RuntimeGates};
use std::path::PathBuf;

fn profiler() -> Profiler {
    let config = Config::default();
    Profiler {
        pid: 1234,
        config,
        gates: RuntimeGates::new(&config, Version::V1),
        time_base: TimeBase { init_instant: 0, init_timestamp: 0 },
    }
}

fn request(cmd: &str, update: GateUpdate) -> Result<Request, String> {
    Ok(Request { cmd: cmd.to_string(), update })
}

#[test]
fn resolve_from_latency_template() {
    let p = resolve_sock_path(None, None, Some("/tmp/comma/latency-%p.txt"), 42).unwrap();
    assert_eq!(PathBuf::from(p), PathBuf::from("/tmp/comma/control-42.sock"));
}

#[test]
fn settings_go_before_the_environment() {
    let both = resolve_sock_path(Some("/a/%p.sock"), Some("/b.sock"), Some("/c/l.txt"), 7);
    assert_eq!(both.unwrap(), "/a/7.sock");
    let env = resolve_sock_path(None, Some("/b-%p.sock"), Some("/c/l.txt"), 7);
    assert_eq!(env.unwrap(), "/b-7.sock");
    assert_eq!(resolve_sock_path(None, None, None, 7), None);
}

#[test]
fn socket_stands_beside_a_bare_file() {
    assert_eq!(resolve_sock_path(None, None, Some("l.txt"), 7).unwrap(), "control-7.sock");
    assert_eq!(resolve_sock_path(None, None, Some("/"), 7).unwrap(), "./control-7.sock");
    assert_eq!(resolve_sock_path(None, None, Some("%p/l.txt"), 7).unwrap(), "7/control-7.sock");
    assert_eq!(sock_dir(None), ".");
    assert_eq!(sock_dir(Some("/tmp".to_string())), "/tmp");
}

#[test]
fn process_ids_are_put_in() {
    assert_eq!(expand_pid("/x/%p/y-%p%", 10), "/x/10/y-10%");
    assert_eq!(expand_pid("%%pp", -3), "%-3p");
    assert_eq!(expand_pid("plain", 10), "plain");
    assert_eq!(ring_file_name(42), "ring-42.ring");
    assert_eq!(ring_file_name(u32::MAX), "ring-4294967295.ring");
    assert_eq!(ipc_shm_path(42), "nccl-profiler-42");
}

#[test]
fn long_socket_paths_do_not_fit() {
    assert!(sock_path_fits(&"a".repeat(107)));
    assert!(!sock_path_fits(&"a".repeat(108)));
    assert!(!sock_path_fits(&"\u{e9}".repeat(54)));
}

#[test]
fn empty_and_broken_lines_are_refused() {
    let mut p = profiler();
    let r = dispatch_line("", Err("x".to_string()), &mut p);
    assert_eq!((r.ok, r.error.as_deref()), (false, Some("empty request")));
    let r = dispatch_line("{", Err("EOF while parsing".to_string()), &mut p);
    assert_eq!(r.error.as_deref(), Some("invalid json: EOF while parsing"));
    assert!(r.pid.is_none() && r.gates.is_none() && r.changed.is_none());
}

#[test]
fn unknown_commands_are_quoted() {
    let mut p = profiler();
    let r = dispatch_line("{}", request("st\"op", GateUpdate::default()), &mut p);
    let want = "unknown cmd \"st\\\"op\" (want ping|get|set)";
    assert_eq!((r.ok, r.error.as_deref()), (false, Some(want)));
    assert_eq!(unknown_command("\"x\""), "unknown cmd \"x\" (want ping|get|set)");
}

#[test]
fn ping_and_get_show_the_gates() {
    let mut p = profiler();
    for cmd in ["ping", "get"] {
        let update = GateUpdate { track_group: Some(true), ..Default::default() };
        let r = dispatch_line("{}", request(cmd, update), &mut p);
        assert_eq!((r.ok, r.pid, r.changed), (true, Some(1234), None));
        assert!(!r.gates.unwrap().track_group);
        assert!(r.error.is_none());
    }
}

#[test]
fn set_turns_the_gates_it_names() {
    let mut p = profiler();
    let update =
        GateUpdate { track_steps: Some(true), track_kernel_step: Some(false), ..Default::default() };
    let r = dispatch_line("{}", request("set", update), &mut p);
    assert_eq!((r.ok, r.changed), (true, Some(true)));
    assert!(r.gates.unwrap().track_steps);
    let again = dispatch_line("{}", request("set", update), &mut p);
    assert_eq!(again.changed, Some(false));
    let shown = dispatch_line("{}", request("get", GateUpdate::default()), &mut p);
    assert_eq!(shown.gates, r.gates);
}

#[test]
fn durations_are_read() {
    let s = 1_000_000_000u128;
    assert_eq!(parse_duration("10s"), Some(10 * s));
    assert_eq!(parse_duration("1h30m"), Some(5400 * s));
    assert_eq!(parse_duration("2d"), Some(172_800 * s));
    assert_eq!(parse_duration("3ms4us5ns"), Some(3_004_005));
    assert_eq!(parse_duration("0s"), Some(0));
    for text in ["", "10", "s", "10x", "1h30", "-1s", "1 s"] {
        assert_eq!(parse_duration(text), None);
    }
    assert_eq!(parse_duration("340282366920938463463374607431768211455ns"), Some(u128::MAX));
    assert_eq!(parse_duration("340282366920938463463374607431768211456ns"), None);
    assert_eq!(parse_duration("340282366920938463463374607431768211455ns1ns"), None);
    assert_eq!(parse_duration("340282366920938463463374607431768211455us"), None);
}

#[test]
fn flags_are_read() {
    for text in ["true", "yes", "y", "1", "TRUE", "Yes", "yES", "Y"] {
        assert_eq!(parse_flag(text), Some(true));
    }
    for text in ["false", "no", "n", "0", "FALSE", "No", "N"] {
        assert_eq!(parse_flag(text), Some(false));
    }
    for text in ["", "on", "t", "truee", " true", "10", "\u{212a}"] {
        assert_eq!(parse_flag(text), None);
    }
}

#[test]
fn paths_are_joined_and_numbers_written() {
    let sock = |lf| resolve_sock_path(None, None, Some(lf), 7).unwrap();
    assert_eq!(sock("records.txt"), "control-7.sock");
    assert_eq!(sock("/records.txt"), "/control-7.sock");
    assert_eq!(sock("a/b/records.txt"), "a/b/control-7.sock");
    assert_eq!(sock("/"), "./control-7.sock");
    assert_eq!(expand_pid("%p%%p-%p", -120), "-120%-120--120");
    assert_eq!(expand_pid("\u{e9}%p%", i32::MIN), "\u{e9}-2147483648%");
    assert_eq!(ring_file_name(u32::MAX), "ring-4294967295.ring");
}
