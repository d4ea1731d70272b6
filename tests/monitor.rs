use script_shell::monitor::{
    check_environment, detect_debugger, listing_is_suspicious, react, run_detection,
    traced_flag_set, DebugProbe, DetectionResult, MonitorAction,
};

fn info_with_flags(flags: u32) -> Vec<u8> {
    let mut v = vec![0u8; 0x200];
    v[0x68..0x6c].copy_from_slice(&flags.to_le_bytes());
    v
}

#[test]
fn unsupported_platform_always_detects() {
    assert!(detect_debugger(&DebugProbe::Unsupported));
}

#[test]
fn failed_second_denial_detects() {
    let p = DebugProbe::Native { deny_attach_status: -1, proc_info: Some(info_with_flags(0)) };
    assert!(detect_debugger(&p));
}

#[test]
fn traced_flag_detects() {
    let p = DebugProbe::Native { deny_attach_status: 0, proc_info: Some(info_with_flags(0x800)) };
    assert!(detect_debugger(&p));
    let p = DebugProbe::Native { deny_attach_status: 0, proc_info: Some(info_with_flags(0xffff_ffff)) };
    assert!(detect_debugger(&p));
}

#[test]
fn clean_native_probe_does_not_detect() {
    let p = DebugProbe::Native { deny_attach_status: 0, proc_info: Some(info_with_flags(0x7ff | 0x1000)) };
    assert!(!detect_debugger(&p));
}

#[test]
fn failed_query_does_not_detect() {
    let p = DebugProbe::Native { deny_attach_status: 0, proc_info: None };
    assert!(!detect_debugger(&p));
}

#[test]
fn short_record_carries_no_flag() {
    assert!(!traced_flag_set(&[0xffu8; 0x6b]));
    assert!(traced_flag_set(&info_with_flags(0x800)));
}

#[test]
fn detection_repeats_on_same_observations() {
    let p = DebugProbe::Native { deny_attach_status: 0, proc_info: Some(info_with_flags(0x800)) };
    assert_eq!(detect_debugger(&p), detect_debugger(&p));
    let listing = "root 1 0.0 /sbin/launchd";
    assert_eq!(listing_is_suspicious(listing), listing_is_suspicious(listing));
}

#[test]
fn listing_with_denylisted_tool() {
    assert!(listing_is_suspicious("user 42 0.1 /usr/bin/lldb ./app"));
    assert!(listing_is_suspicious("x /Applications/Binary Ninja.app/Contents/MacOS/binaryninja"));
    assert!(listing_is_suspicious("dtrace"));
    assert!(listing_is_suspicious("radare2 -d 4242"));
}

#[test]
fn listing_substring_match() {
    // "gdb" occurs inside "xgdbserver"
    assert!(listing_is_suspicious("xgdbserver"));
}

#[test]
fn clean_and_empty_listings() {
    assert!(!listing_is_suspicious(""));
    assert!(!listing_is_suspicious("root 1 launchd\nuser 2 Finder\nuser 3 ida\n"));
    assert!(!listing_is_suspicious("ghidra lowercase"));
}

#[test]
fn environment_without_listing_is_clean() {
    assert!(!check_environment(None));
    assert!(check_environment(Some("Hopper Disassembler")));
    assert!(!check_environment(Some("bash")));
}

#[test]
fn reaction_is_fail_closed() {
    let clean = DetectionResult { debugger_attached: false, suspicious_tool: false };
    assert_eq!(react(&clean), MonitorAction::Continue);
    let d = DetectionResult { debugger_attached: true, suspicious_tool: false };
    assert_eq!(react(&d), MonitorAction::Terminate);
    let t = DetectionResult { debugger_attached: false, suspicious_tool: true };
    assert_eq!(react(&t), MonitorAction::Terminate);
}

#[test]
fn detection_round_combines_both_probes() {
    let p = DebugProbe::Native { deny_attach_status: 0, proc_info: None };
    let r = run_detection(&p, Some("strace -p 1"));
    assert!(!r.debugger_attached);
    assert!(r.suspicious_tool);
    assert!(r.is_violation());
    let r = run_detection(&p, Some("bash"));
    assert!(!r.is_violation());
    let r = run_detection(&DebugProbe::Unsupported, None);
    assert!(r.is_violation());
}
