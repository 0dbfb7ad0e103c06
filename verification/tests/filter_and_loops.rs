//! Event projection, the stream field filter, per-tick loop plans and the
//! GPU cache.

use bridge::engine::Engine;
use bridge::filter::{filter_event, filter_stats_payload, parse_stream_fields, sse_filter_payload};
use bridge::loops::{
    assemble_stream_payload, demand_mask, media_should_publish, media_sig_of, processes_tick_plan,
    stats_tick_plan, tick_sleep_ms, DemandMask, GpuCache, GpuSample, MediaSig, StatsTickPlan,
    WorkerTickPlan,
};
use bridge::registry::TopicRegistry;
use bridge::session::Session;
use bridge::types::{BroadcastEvent, CpuUsage, MediaStatus, MemoryUsage, NetworkUsage, StreamPayload};

fn strings(v: &[&str]) -> Vec<String> {
    v.iter().map(|s| s.to_string()).collect()
}

fn sample_payload() -> StreamPayload {
    StreamPayload {
        timestamp: 1700000000,
        uptime: 3600,
        cpu: Some(CpuUsage { current_load_milli: 12500, current_temp_milli: 0, current_speed_mhz: 2400 }),
        memory: Some(MemoryUsage { used: 4096, free: 4096, used_permille: 500 }),
        gpu: None,
        disks: None,
        network: Some(NetworkUsage { bytes_sent: 10, bytes_recv: 20 }),
        media: None,
    }
}

#[test]
fn projection_keeps_covered_fields_only() {
    let p = sample_payload();
    let subs = strings(&["cpu", "stats.cpu"]);
    let r = filter_stats_payload(p, &subs).unwrap();
    assert!(r.cpu.is_some());
    assert!(r.memory.is_none());
    assert!(r.network.is_none());
    assert_eq!(r.timestamp, 1700000000);
    assert_eq!(r.uptime, 3600);
}

#[test]
fn projection_drops_uncovered_event() {
    let p = sample_payload();
    let subs = strings(&["media", "processes"]);
    assert!(filter_stats_payload(p, &subs).is_none());
}

#[test]
fn covered_but_empty_fields_drop_the_frame() {
    // a session holding only gpu gets no frame when the probe yielded nothing
    let mut p = sample_payload();
    p.gpu = None;
    let subs = strings(&["gpu", "stats.gpu"]);
    assert!(filter_stats_payload(p, &subs).is_none());
}

#[test]
fn system_umbrella_keeps_event() {
    let mut p = sample_payload();
    p.cpu = None;
    p.memory = None;
    p.network = None;
    let subs = strings(&["system"]);
    let r = filter_stats_payload(p, &subs);
    assert!(r.is_some());
}

#[test]
fn never_subscribed_session_receives_nothing() {
    let s = Session::new();
    let ev = BroadcastEvent::SystemStats(sample_payload());
    assert!(filter_event(ev, &s).is_none());
}

#[test]
fn media_events_need_media_subscription() {
    let mut engine = Engine::new();
    let mut s = Session::new();
    s.apply_subscribe(&mut engine, &strings(&["media"]));
    let status = MediaStatus {
        status: "playing".to_string(),
        volume: Some(40),
        muted: Some(false),
        playing: Some(true),
        title: Some("song".to_string()),
        artist: None,
        supports_ctrl: true,
    };
    let kept = filter_event(BroadcastEvent::MediaUpdate(status), &s);
    assert!(matches!(kept, Some(BroadcastEvent::MediaUpdate(_))));
    let mut t = Session::new();
    let mut engine2 = Engine::new();
    t.apply_subscribe(&mut engine2, &strings(&["cpu"]));
    let status2 = MediaStatus {
        status: "playing".to_string(),
        volume: None,
        muted: None,
        playing: None,
        title: None,
        artist: None,
        supports_ctrl: false,
    };
    assert!(filter_event(BroadcastEvent::MediaUpdate(status2), &t).is_none());
}

#[test]
fn stream_fields_parse_and_restrict() {
    let fields = parse_stream_fields(" cpu , memory,, ");
    assert_eq!(fields, strings(&["cpu", "memory"]));
    let r = sse_filter_payload(sample_payload(), &fields);
    assert!(r.cpu.is_some());
    assert!(r.memory.is_some());
    assert!(r.network.is_none());
    let all = parse_stream_fields("");
    assert!(all.is_empty());
    let r2 = sse_filter_payload(sample_payload(), &all);
    assert!(r2.network.is_some());
}

#[test]
fn first_tick_sleeps_not_at_all() {
    assert_eq!(tick_sleep_ms(true, 1000), 0);
    assert_eq!(tick_sleep_ms(false, 1000), 1000);
    // a runtime interval change takes hold on the very next tick
    assert_eq!(tick_sleep_ms(false, 200), 200);
}

#[test]
fn stats_tick_skips_without_receivers_or_demand() {
    let mut reg = TopicRegistry::new();
    assert!(matches!(stats_tick_plan(false, 3, &reg), StatsTickPlan::Exit));
    assert!(matches!(stats_tick_plan(true, 0, &reg), StatsTickPlan::Skip));
    assert!(matches!(stats_tick_plan(true, 3, &reg), StatsTickPlan::Skip));
    reg.subscribe_topics(&strings(&["stats.cpu"]));
    match stats_tick_plan(true, 3, &reg) {
        StatsTickPlan::Sample(m) => {
            assert!(m.cpu);
            assert!(!m.memory);
            assert!(!m.gpu);
            assert!(!m.disks);
            assert!(!m.network);
        },
        _ => panic!("a demanded tick must sample"),
    }
}

#[test]
fn demand_mask_honors_umbrella_and_aliases() {
    let mut reg = TopicRegistry::new();
    reg.subscribe_topics(&strings(&["stats"]));
    let m = demand_mask(&reg);
    assert!(m.cpu && m.memory && m.gpu && m.disks && m.network);
    let mut reg2 = TopicRegistry::new();
    reg2.subscribe_topics(&strings(&["net"]));
    let m2 = demand_mask(&reg2);
    assert!(m2.network);
    assert!(!m2.cpu);
}

#[test]
fn processes_tick_honors_capability_flag() {
    let mut reg = TopicRegistry::new();
    reg.subscribe_topics(&strings(&["processes"]));
    assert!(matches!(processes_tick_plan(true, 1, &reg, false), WorkerTickPlan::Skip));
    assert!(matches!(processes_tick_plan(true, 1, &reg, true), WorkerTickPlan::Work));
    assert!(matches!(processes_tick_plan(false, 1, &reg, true), WorkerTickPlan::Exit));
}

#[test]
fn assembled_payload_fields_follow_mask() {
    let mask = DemandMask { cpu: true, memory: false, gpu: true, disks: false, network: false };
    let p = assemble_stream_payload(
        5,
        7,
        &mask,
        Some(CpuUsage { current_load_milli: 1, current_temp_milli: 0, current_speed_mhz: 1 }),
        Some(MemoryUsage { used: 1, free: 1, used_permille: 500 }),
        None,
        None,
        None,
    );
    assert!(p.cpu.is_some());
    assert!(p.memory.is_none());
    assert!(p.gpu.is_none());
    assert!(p.media.is_none());
    assert_eq!(p.timestamp, 5);
    assert_eq!(p.uptime, 7);
}

#[test]
fn media_edge_trigger() {
    let status = MediaStatus {
        status: "playing".to_string(),
        volume: Some(30),
        muted: Some(false),
        playing: Some(true),
        title: Some("a".to_string()),
        artist: None,
        supports_ctrl: true,
    };
    let sig = media_sig_of(&status);
    assert!(media_should_publish(&None, &sig));
    let last = Some(media_sig_of(&status));
    assert!(!media_should_publish(&last, &sig));
    let louder = MediaSig { title: Some("a".to_string()), playing: Some(true), muted: Some(false), volume: Some(40) };
    assert!(media_should_publish(&last, &louder));
}

#[test]
fn gpu_cache_serves_fresh_and_keeps_stale_on_error() {
    let mut cache = GpuCache::new();
    assert!(cache.needs_refresh(100, 30));
    let sample = GpuSample {
        vendor: "NVIDIA".to_string(),
        model: "unit".to_string(),
        vram_total_mb: 8192,
        vram_used_mb: 1024,
        temp_milli: 55000,
        load_milli: 10000,
    };
    cache.admit_probe(100, Some(sample));
    assert!(!cache.needs_refresh(110, 30));
    assert!(cache.needs_refresh(130, 30));
    // a failed refresh keeps the last good sample
    cache.admit_probe(130, None);
    assert_eq!(cache.current().unwrap().vram_total_mb, 8192);
}
