use cloudcontrol::device::adb::{Adb, ForwardStep};
use cloudcontrol::device::atx_init::{AgentFiles, AtxInit, InitAction, InitState};

#[test]
fn test_device_type_usb() {
    assert_eq!(Adb::device_type("ABCD1234"), "usb");
    assert_eq!(Adb::device_type("R5CR20ABCDE"), "usb");
}

#[test]
fn test_device_type_wifi() {
    assert_eq!(Adb::device_type("192.168.1.100:5555"), "wifi");
    assert_eq!(Adb::device_type("10.0.0.1:5555"), "wifi");
}

#[test]
fn test_device_type_emulator() {
    assert_eq!(Adb::device_type("emulator-5554"), "emulator");
    assert_eq!(Adb::device_type("127.0.0.1:5555"), "emulator");
}

#[test]
fn test_is_usb_serial() {
    assert!(Adb::is_usb_serial("ABCD1234"));
    assert!(Adb::is_usb_serial("R5CR20ABCDE"));
    // emulator-5554 has no colon, so is_usb_serial returns true
    assert!(Adb::is_usb_serial("emulator-5554"));
    assert!(!Adb::is_usb_serial("192.168.1.100:5555"));
}

#[test]
fn usb_type_always_usb_serial() {
    for s in ["ABCD1234", "emulator-5554", "127.0.0.1:5555", "10.0.0.1:5555", ""] {
        if Adb::device_type(s) == "usb" {
            assert!(Adb::is_usb_serial(s));
        }
        if Adb::device_type(s) == "wifi" {
            assert!(!Adb::is_usb_serial(s));
        }
    }
}

#[test]
fn devices_listed_once_in_order() {
    let out = "List of devices attached\nABC123\tdevice\n192.168.1.5:5555\tdevice\nXYZ\toffline\nABC123\tdevice\n\n";
    let found = Adb::devices_from_output(out);
    assert_eq!(found, vec!["ABC123".to_string(), "192.168.1.5:5555".to_string()]);
}

#[test]
fn devices_header_only_or_empty() {
    assert!(Adb::devices_from_output("").is_empty());
    assert!(Adb::devices_from_output("List of devices attached\n").is_empty());
    // the header line is never read as a device, even if it looks like one
    assert!(Adb::devices_from_output("SERIAL device\n").is_empty());
    // carriage returns and surrounding blanks are trimmed
    assert_eq!(Adb::devices_from_output("hdr\r\n  S1   device  \r\n"), vec!["S1".to_string()]);
}

#[test]
fn screen_size_read_and_defaults() {
    assert_eq!(Adb::screen_size_from_output("Physical size: 1080x2400"), (1080, 2400));
    assert_eq!(Adb::screen_size_from_output("Physical size:  720 x 1280 "), (720, 1280));
    assert_eq!(Adb::screen_size_from_output("Physical size: abcx2400"), (1080, 2400));
    assert_eq!(Adb::screen_size_from_output("Physical size: 1080x"), (1080, 1920));
    assert_eq!(Adb::screen_size_from_output("no size here"), (1080, 1920));
    assert_eq!(Adb::screen_size_from_output("Physical size: 1x2x3"), (1080, 1920));
    assert_eq!(Adb::screen_size_from_output("a: +5x-7"), (5, -7));
}

#[test]
fn key_names_map_to_codes() {
    assert_eq!(Adb::key_code("home"), "KEYCODE_HOME");
    assert_eq!(Adb::key_code("dpad_right"), "KEYCODE_DPAD_RIGHT");
    assert_eq!(Adb::key_code("KEYCODE_VOLUME_UP"), "KEYCODE_VOLUME_UP");
    assert_eq!(Adb::keyevent_command("back"), "input keyevent KEYCODE_BACK");
}

#[test]
fn shell_commands() {
    assert_eq!(Adb::getprop_command("ro.product.model"), "getprop ro.product.model");
    assert_eq!(Adb::tap_command(100, -5), "input tap 100 -5");
    assert_eq!(Adb::swipe_command(1, 2, 3, 4, 500), "input swipe 1 2 3 4 500");
    assert_eq!(Adb::tap_command(i32::MIN, i32::MAX), "input tap -2147483648 2147483647");
    assert_eq!(Adb::text_command("a b\"c\\d"), "input text \"a%sb\\\"c\\\\d\"");
}

#[test]
fn forward_targets() {
    assert_eq!(Adb::tcp_target(27183), "tcp:27183");
    assert_eq!(Adb::tcp_target(0), "tcp:0");
    assert_eq!(Adb::abstract_target("scrcpy"), "localabstract:scrcpy");
}

#[test]
fn printed_port_prefers_stdout() {
    assert_eq!(Adb::printed_port("  41234\n", "9"), Some(41234));
    assert_eq!(Adb::printed_port("", "5555\n"), Some(5555));
    assert_eq!(Adb::printed_port("error", "70000"), None);
    assert_eq!(Adb::printed_port("+80", ""), Some(80));
    assert_eq!(Adb::printed_port("-80", ""), None);
}

#[test]
fn port_from_forward_list_takes_last_match() {
    let list = "S1 tcp:1000 tcp:27183\nS2 tcp:2000 tcp:27183\nS1 tcp:3000 tcp:27183\nS1 tcp:4000 tcp:9\n";
    assert_eq!(Adb::port_from_forward_list(list, "S1", 27183), Some(3000));
    assert_eq!(Adb::port_from_forward_list(list, "S2", 27183), Some(2000));
    assert_eq!(Adb::port_from_forward_list(list, "S3", 27183), None);
    assert_eq!(Adb::port_from_forward_list("S1 tcp:bad tcp:5\nS1 tcp:7 tcp:5", "S1", 5), Some(7));
    assert_eq!(Adb::port_from_forward_list("S1 tcp:7 tcp:5\nS1 tcp:bad tcp:5", "S1", 5), Some(7));
}

#[test]
fn adb_outcomes() {
    assert_eq!(
        Adb::forward_error(" out ", "err\n"),
        "Failed to determine forwarded port. stdout=out, stderr=err"
    );
    assert_eq!(
        Adb::forward_abstract_error("scrcpy", "", "x"),
        "Failed to determine forwarded port for abstract:scrcpy. stdout=, stderr=x"
    );
    assert_eq!(Adb::shell_output("  hello \n"), "hello");
    assert_eq!(Adb::connect_output("connected", " to x"), "connected to x");
    assert_eq!(Adb::push_outcome(true, "exit status: 0", "o", "1 file pushed"), Ok("1 file pushed".to_string()));
    assert_eq!(
        Adb::push_outcome(false, "exit status: 1", "o", "e"),
        Err("adb push failed (exit exit status: 1): e o".to_string())
    );
    assert_eq!(Adb::screencap_outcome(true, vec![137, 80], ""), Ok(vec![137, 80]));
    assert_eq!(
        Adb::screencap_outcome(true, vec![], ""),
        Err("adb screencap returned empty data".to_string())
    );
    assert_eq!(
        Adb::screencap_outcome(false, vec![1], "boom"),
        Err("adb screencap error: boom".to_string())
    );
}

fn shell_of(a: &InitAction) -> Option<String> {
    match a {
        InitAction::Shell(c) => Some(c.clone()),
        _ => None,
    }
}

fn files() -> AgentFiles {
    AgentFiles { agent: "res/atx-agent".to_string(), script: "res/atx.sh".to_string() }
}

fn push_of(a: &InitAction) -> Option<(String, String)> {
    match a {
        InitAction::Push(l, r) => Some((l.clone(), r.clone())),
        _ => None,
    }
}

fn error_of(a: &InitAction) -> Option<String> {
    match a {
        InitAction::Finish(Err(e)) => Some(e.clone()),
        _ => None,
    }
}

#[test]
fn atx_init_already_running() {
    let f = files();
    let (s, a) = AtxInit::start();
    assert_eq!(s, InitState::AwaitRunning);
    assert_eq!(shell_of(&a), Some("ps | grep atx-agent".to_string()));
    let (s, a) = AtxInit::step(s, true, "shell  1234 atx-agent server", &f);
    assert_eq!(s, InitState::Finished);
    assert!(matches!(a, InitAction::Finish(Ok(()))));
}

#[test]
fn atx_init_full_setup() {
    let f = files();
    let (s, _) = AtxInit::start();
    let (s, a) = AtxInit::step(s, true, "", &f);
    assert_eq!(s, InitState::AwaitPushAgent);
    assert_eq!(push_of(&a), Some(("res/atx-agent".to_string(), "/data/local/tmp/atx-agent".to_string())));
    let (s, a) = AtxInit::step(s, true, "1 file pushed", &f);
    assert_eq!(push_of(&a), Some(("res/atx.sh".to_string(), "/data/local/tmp/atx.sh".to_string())));
    let (s, a) = AtxInit::step(s, true, "1 file pushed", &f);
    assert_eq!(shell_of(&a), Some("ls /data/local/tmp/atx-agent".to_string()));
    let (s, a) = AtxInit::step(s, true, "/data/local/tmp/atx-agent", &f);
    assert_eq!(shell_of(&a), Some("chmod 755 /data/local/tmp/atx-agent /data/local/tmp/atx.sh".to_string()));
    let (s, a) = AtxInit::step(s, true, "", &f);
    assert_eq!(shell_of(&a), Some("/data/local/tmp/atx-agent server -d --addr :7912".to_string()));
    let (s, a) = AtxInit::step(s, true, "", &f);
    assert!(matches!(a, InitAction::Sleep(2)));
    let (s, a) = AtxInit::step(s, true, "", &f);
    assert_eq!(s, InitState::AwaitReady);
    assert_eq!(shell_of(&a), Some("ps | grep atx-agent".to_string()));
    let (s, a) = AtxInit::step(s, true, "shell 99 atx-agent", &f);
    assert_eq!(s, InitState::Finished);
    assert!(matches!(a, InitAction::Finish(Ok(()))));
}

#[test]
fn atx_init_unreadable_process_list_counts_as_not_running() {
    let (s, _) = AtxInit::start();
    let (s, a) = AtxInit::step(s, false, "atx-agent: device offline", &files());
    assert_eq!(s, InitState::AwaitPushAgent);
    assert!(push_of(&a).is_some());
}

#[test]
fn atx_init_push_failure() {
    let f = files();
    let (s, _) = AtxInit::start();
    let (s, _) = AtxInit::step(s, true, "", &f);
    let (s, a) = AtxInit::step(s, false, "adb push error: no such file", &f);
    assert_eq!(s, InitState::Finished);
    assert_eq!(error_of(&a), Some("adb push error: no such file".to_string()));
}

#[test]
fn atx_init_binary_missing() {
    let f = files();
    let (s, _) = AtxInit::start();
    let (s, _) = AtxInit::step(s, true, "", &f);
    let (s, _) = AtxInit::step(s, true, "", &f);
    let (s, _) = AtxInit::step(s, true, "", &f);
    let (s, a) = AtxInit::step(s, true, "ls: /data/local/tmp/atx-agent: No such file or directory", &f);
    assert_eq!(s, InitState::Finished);
    assert_eq!(error_of(&a), Some("atx-agent binary not found on device".to_string()));
}

#[test]
fn atx_init_not_started() {
    let f = files();
    let mut s = AtxInit::start().0;
    for out in ["", "", "", "/data/local/tmp/atx-agent", "", "", ""] {
        s = AtxInit::step(s, true, out, &f).0;
    }
    assert_eq!(s, InitState::AwaitReady);
    let (s, a) = AtxInit::step(s, true, "", &f);
    assert_eq!(s, InitState::Finished);
    assert_eq!(error_of(&a), Some("atx-agent did not start on device".to_string()));
}

#[test]
fn atx_init_chmod_and_start_failures_are_not_fatal() {
    let f = files();
    let mut s = AtxInit::start().0;
    for out in ["", "", "", "/data/local/tmp/atx-agent"] {
        s = AtxInit::step(s, true, out, &f).0;
    }
    assert_eq!(s, InitState::AwaitChmod);
    let (s, a) = AtxInit::step(s, false, "chmod: denied", &f);
    assert_eq!(s, InitState::AwaitStart);
    assert_eq!(shell_of(&a), Some("/data/local/tmp/atx-agent server -d --addr :7912".to_string()));
    let (s, a) = AtxInit::step(s, false, "start failed", &f);
    assert!(matches!(a, InitAction::Sleep(2)));
    let (s, _) = AtxInit::step(s, true, "", &f);
    let (s, a) = AtxInit::step(s, true, "shell 1 atx-agent", &f);
    assert_eq!(s, InitState::Finished);
    assert!(matches!(a, InitAction::Finish(Ok(()))));
}

#[test]
fn atx_init_unreadable_listing_means_missing_binary() {
    let f = files();
    let mut s = AtxInit::start().0;
    for out in ["", "", ""] {
        s = AtxInit::step(s, true, out, &f).0;
    }
    assert_eq!(s, InitState::AwaitBinary);
    let (_, a) = AtxInit::step(s, false, "/data/local/tmp/atx-agent", &f);
    assert_eq!(error_of(&a), Some("atx-agent binary not found on device".to_string()));
}

#[test]
fn atx_info_url() {
    assert_eq!(AtxInit::info_url("10.0.0.2", 7912), "http://10.0.0.2:7912/info");
    assert_eq!(AtxInit::info_url("h", -1), "http://h:-1/info");
}

#[test]
fn forward_line_read_back() {
    for p in [0u16, 7, 27183, 65535] {
        let line = format!("emulator-5554 {} {}", Adb::tcp_target(p), Adb::tcp_target(8080));
        assert_eq!(Adb::port_from_forward_list(&line, "emulator-5554", 8080), Some(p));
    }
}

#[test]
fn forward_next_order() {
    assert_eq!(Adb::forward_next("4321\n", "", None, "S1", 5), ForwardStep::Port(4321));
    assert_eq!(Adb::forward_next("", " 77 ", None, "S1", 5), ForwardStep::Port(77));
    assert_eq!(Adb::forward_next("", "", None, "S1", 5), ForwardStep::ListForwards);
    assert_eq!(Adb::forward_next("", "", Some("S1 tcp:9 tcp:5"), "S1", 5), ForwardStep::Port(9));
    assert_eq!(
        Adb::forward_next("x", "y", Some("S2 tcp:9 tcp:5"), "S1", 5),
        ForwardStep::Fail("Failed to determine forwarded port. stdout=x, stderr=y".to_string())
    );
}
