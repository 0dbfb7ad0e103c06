//! Process grouping, the probe-output parsers and the control-path
//! decisions.

use bridge::commands::{
    http_status, kill_feedback, kill_status, media_control, name_matches_query, power_action,
    select_kill_targets, status_body, ws_command_plan, ErrorKind, MediaPlan, PowerAction,
    TransportAction, WsCommandPlan,
};
use bridge::config::AppConfig;
use bridge::netutil::get_macos_window_map;
use bridge::probes::{
    clean_gpu_model, clean_gpu_vendor, normalize_cpu_vendor, parse_ioreg_value, parse_nvidia_line,
    parse_volume_output, parse_vram_mb, replace_sub, split_sub,
};
use bridge::procs::{
    get_processes_list, normalize_process_name, parse_cpu_time, parse_ps_line, RawProcSample,
};
use bridge::types::{KillRequest, MediaControlRequest, WebSocketMessage};

fn strings(v: &[&str]) -> Vec<String> {
    v.iter().map(|s| s.to_string()).collect()
}

#[test]
fn names_normalize_by_suffix_table() {
    assert_eq!(normalize_process_name("Google Chrome Helper (Renderer)"), "Google Chrome");
    assert_eq!(normalize_process_name("/usr/bin/top"), "top");
    assert_eq!(normalize_process_name("Safari Networking"), "Safari");
    assert_eq!(normalize_process_name("bash"), "bash");
    // stripping must not empty the name, at any step
    assert_eq!(normalize_process_name("Helper"), "Helper");
    assert_eq!(normalize_process_name(" (X)"), " (X)");
    assert_eq!(normalize_process_name("/usr/bin/"), "/usr/bin/");
}

#[test]
fn cpu_time_reads_both_layouts() {
    assert_eq!(parse_cpu_time("1:02.33"), 6233);
    assert_eq!(parse_cpu_time("0:00.05"), 5);
    assert_eq!(parse_cpu_time("1:02:03"), 372300);
    assert_eq!(parse_cpu_time("nonsense"), 0);
    assert_eq!(parse_cpu_time("x:30"), 3000);
}

#[test]
fn ps_lines_parse_fields() {
    let p = parse_ps_line("  501  2048 0:01.00 /Applications/It.app/Contents/MacOS/It Helper").unwrap();
    assert_eq!(p.memory_bytes, 2048 * 1024);
    assert_eq!(p.cpu_time_centis, 100);
    assert_eq!(p.name, "It");
    assert!(parse_ps_line("only three fields").is_none());
}

#[test]
fn grouping_aggregates_and_sorts_by_memory() {
    let samples = vec![
        RawProcSample { name: "chrome".to_string(), memory_bytes: 100, cpu_time_centis: 5 },
        RawProcSample { name: "top".to_string(), memory_bytes: 900, cpu_time_centis: 1 },
        RawProcSample { name: "chrome".to_string(), memory_bytes: 300, cpu_time_centis: 7 },
    ];
    let r = get_processes_list(samples);
    assert_eq!(r.len(), 2);
    assert_eq!(r[0].name, "top");
    assert_eq!(r[0].count, 1);
    assert_eq!(r[0].memory, 900);
    assert_eq!(r[1].name, "chrome");
    assert_eq!(r[1].count, 2);
    assert_eq!(r[1].memory, 400);
    assert_eq!(r[1].cpu_time_centis, 12);
}

#[test]
fn nvidia_line_parses_channels() {
    let g = parse_nvidia_line("45, 30, 61, RTX 3080, 10240, 2048").unwrap();
    assert_eq!(g.vendor, "NVIDIA");
    assert_eq!(g.model, "RTX 3080");
    assert_eq!(g.load_milli, 45000);
    assert_eq!(g.temp_milli, 61000);
    assert_eq!(g.vram_total_mb, 10240);
    assert_eq!(g.vram_used_mb, 2048);
    assert!(parse_nvidia_line("too, few, parts").is_none());
    let unknown = parse_nvidia_line("x, 30, y, Card, 1024, 100").unwrap();
    assert_eq!(unknown.load_milli, -1000);
    assert_eq!(unknown.temp_milli, -1000);
}

#[test]
fn gpu_strings_normalize() {
    assert_eq!(clean_gpu_model("kHW_AppleM1Item"), "Apple M1");
    assert_eq!(clean_gpu_model("GeForce RTX"), "GeForce RTX");
    assert_eq!(clean_gpu_vendor("sppci_vendor_Apple"), "Apple");
    assert_eq!(clean_gpu_vendor("GenuineIntel something"), "Intel");
    assert_eq!(clean_gpu_vendor("Advanced amd Devices"), "AMD");
    assert_eq!(clean_gpu_vendor("Matrox"), "Matrox");
    assert_eq!(normalize_cpu_vendor("GenuineIntel"), "Intel");
    assert_eq!(normalize_cpu_vendor("AuthenticAMD"), "AMD");
    assert_eq!(normalize_cpu_vendor("Arm"), "Arm");
}

#[test]
fn vram_strings_scale_to_megabytes() {
    assert_eq!(parse_vram_mb("8 GB"), Some(8192));
    assert_eq!(parse_vram_mb("1536 MB"), Some(1536));
    assert_eq!(parse_vram_mb("8 gb"), Some(8192));
    assert_eq!(parse_vram_mb("lots"), None);
}

#[test]
fn ioreg_values_read_until_delimiter() {
    let dump = "\"Device Utilization\"=5,\"In use system memory\"=1048576}";
    assert_eq!(parse_ioreg_value(dump, "\"Device Utilization\"="), Some(5));
    assert_eq!(parse_ioreg_value(dump, "\"In use system memory\"="), Some(1048576));
    assert_eq!(parse_ioreg_value(dump, "\"absent\"="), None);
}

#[test]
fn volume_report_reads_level_and_mute() {
    let (vol, muted) = parse_volume_output(
        "output volume:50, input volume:50, alert volume:50, output muted:false",
    );
    assert_eq!(vol, Some(50));
    assert_eq!(muted, Some(false));
    let (v2, m2) = parse_volume_output("output muted:true");
    assert_eq!(v2, None);
    assert_eq!(m2, Some(true));
}

#[test]
fn window_listing_yields_distinct_pids() {
    let pids = get_macos_window_map("\"App\" pid=12 x, \"Other\" PID = 34, pid=12 again");
    assert_eq!(pids, vec![12, 34]);
}

#[test]
fn text_split_and_replace_by_substring() {
    assert_eq!(split_sub("a, b, c", ", "), strings(&["a", "b", "c"]));
    assert_eq!(split_sub("abc", ", "), strings(&["abc"]));
    assert_eq!(replace_sub("AppleM1 and AppleM2", "AppleM", "Apple M"), "Apple M1 and Apple M2");
}

#[test]
fn error_kinds_map_to_status_codes() {
    assert_eq!(http_status(ErrorKind::Unauthorized), 401);
    assert_eq!(http_status(ErrorKind::Forbidden), 403);
    assert_eq!(http_status(ErrorKind::BadRequest), 400);
    assert_eq!(http_status(ErrorKind::NotFound), 404);
    assert_eq!(http_status(ErrorKind::InternalError), 500);
}

#[test]
fn power_actions_honor_flags() {
    let c = AppConfig::default();
    // shutdown starts disabled, sleep starts enabled
    assert_eq!(power_action(&c.features, "shutdown"), Err(ErrorKind::Forbidden));
    assert_eq!(power_action(&c.features, "sleep"), Ok(PowerAction::Sleep));
    assert_eq!(power_action(&c.features, "levitate"), Err(ErrorKind::BadRequest));
}

#[test]
fn media_requests_classify() {
    let set = MediaControlRequest { action: "set_volume".to_string(), value: Some(40) };
    assert!(matches!(media_control(true, &set), MediaPlan::SetVolume(40)));
    let missing = MediaControlRequest { action: "set_volume".to_string(), value: None };
    assert!(matches!(media_control(true, &missing), MediaPlan::NeedsValue));
    let pp = MediaControlRequest { action: "play_pause".to_string(), value: None };
    assert!(matches!(media_control(true, &pp), MediaPlan::Transport(TransportAction::PlayPause)));
    let odd = MediaControlRequest { action: "yodel".to_string(), value: None };
    assert!(matches!(media_control(true, &odd), MediaPlan::Unsupported));
    assert!(matches!(media_control(false, &pp), MediaPlan::Denied));
}

#[test]
fn kill_targets_select_by_pid_or_name() {
    let procs = vec![
        (10u32, "top".to_string()),
        (11u32, "chrome".to_string()),
        (12u32, "chrome".to_string()),
    ];
    let by_pid = select_kill_targets(&procs, &KillRequest { pid: Some(11), name: None });
    assert_eq!(by_pid, vec![11]);
    let by_name = select_kill_targets(&procs, &KillRequest { pid: None, name: Some("chrome".to_string()) });
    assert_eq!(by_name, vec![11, 12]);
    let missing = select_kill_targets(&procs, &KillRequest { pid: None, name: Some("does-not-exist".to_string()) });
    assert!(missing.is_empty());
    // a kill that found nothing reports a missing process
    assert_eq!(kill_status(missing.len()), 404);
    assert_eq!(kill_status(by_name.len()), 200);
}

#[test]
fn kill_feedback_reports_outcome() {
    // a pid kill reports the found process's name over the requested one
    let ok = kill_feedback(true, Some(11), None, Some("chrome".to_string()));
    assert!(ok.success);
    assert!(ok.message.is_none());
    assert_eq!(ok.name.unwrap(), "chrome");
    let bad = kill_feedback(false, None, Some("ghost".to_string()), None);
    assert!(!bad.success);
    assert_eq!(bad.name.unwrap(), "ghost");
    assert_eq!(bad.message.unwrap(), "Process not found or could not be killed");
}

#[test]
fn socket_commands_honor_capabilities() {
    let mut c = AppConfig::default();
    c.features.enable_media = false;
    let msg = WebSocketMessage::Media(MediaControlRequest { action: "play".to_string(), value: None });
    match ws_command_plan(&msg, &c.features) {
        WsCommandPlan::Deny(fb) => {
            assert!(!fb.success);
            assert_eq!(fb.message.unwrap(), "Media control disabled");
        },
        _ => panic!("a disabled capability must deny"),
    }
    c.features.enable_media = true;
    assert!(matches!(ws_command_plan(&msg, &c.features), WsCommandPlan::Media(_)));
}

#[test]
fn detail_queries_match_case_insensitively() {
    assert!(name_matches_query("Google Chrome", "chrome"));
    assert!(!name_matches_query("Google Chrome", "firefox"));
}

#[test]
fn status_body_carries_version() {
    assert_eq!(status_body("1.2.3"), "{\"status\":\"ok\",\"version\":\"1.2.3\"}");
}
