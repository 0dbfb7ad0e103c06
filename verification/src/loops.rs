//! Per-tick decisions of the three worker loops. Each loop re-reads its
//! interval and enable flag every iteration, sleeps only after its first
//! iteration so a new subscriber gets data at once, skips the tick when the
//! bus has no receivers or no topic of the loop is demanded, and samples only
//! the sub-fields that demand asks for. The GPU cache at the end memoizes the
//! expensive probe with a stale-on-error fallback.

use vstd::prelude::*;

use crate::registry::TopicRegistry;
use crate::types::{
    CpuUsage, DiskUsage, GpuUsage, MediaStatus, MemoryUsage, NetworkUsage, StreamPayload,
};

verus! {

/// Which stats sub-fields demand asks for this tick.
pub struct DemandMask {
    pub cpu: bool,
    pub memory: bool,
    pub gpu: bool,
    pub disks: bool,
    pub network: bool,
}

/// Demand for the `cpu` sub-field.
pub open spec fn need_cpu(reg: TopicRegistry) -> bool {
    reg.spec_count("cpu"@) > 0 || reg.spec_count("stats.cpu"@) > 0 || reg.spec_count("stats"@) > 0
}

/// Demand for the `memory` sub-field.
pub open spec fn need_memory(reg: TopicRegistry) -> bool {
    reg.spec_count("memory"@) > 0 || reg.spec_count("stats.memory"@) > 0 || reg.spec_count(
        "stats"@,
    ) > 0
}

/// Demand for the `gpu` sub-field.
pub open spec fn need_gpu(reg: TopicRegistry) -> bool {
    reg.spec_count("gpu"@) > 0 || reg.spec_count("stats.gpu"@) > 0 || reg.spec_count("stats"@) > 0
}

/// Demand for the `disks` sub-field.
pub open spec fn need_disks(reg: TopicRegistry) -> bool {
    reg.spec_count("disks"@) > 0 || reg.spec_count("stats.disks"@) > 0 || reg.spec_count(
        "stats"@,
    ) > 0
}

/// Demand for the `network` sub-field, including the short `net` alias.
pub open spec fn need_network(reg: TopicRegistry) -> bool {
    reg.spec_count("network"@) > 0 || reg.spec_count("net"@) > 0 || reg.spec_count(
        "stats.network"@,
    ) > 0 || reg.spec_count("stats"@) > 0
}

/// Whether a mask asks for anything at all.
pub open spec fn mask_empty(m: DemandMask) -> bool {
    !m.cpu && !m.memory && !m.gpu && !m.disks && !m.network
}

/// Read the granular demand mask from the registry.
pub fn demand_mask(reg: &TopicRegistry) -> (m: DemandMask)
    requires
        reg.wf(),
    ensures
        m.cpu == need_cpu(*reg),
        m.memory == need_memory(*reg),
        m.gpu == need_gpu(*reg),
        m.disks == need_disks(*reg),
        m.network == need_network(*reg),
{
    let stats = reg.get_count("stats") > 0;
    DemandMask {
        cpu: reg.get_count("cpu") > 0 || reg.get_count("stats.cpu") > 0 || stats,
        memory: reg.get_count("memory") > 0 || reg.get_count("stats.memory") > 0 || stats,
        gpu: reg.get_count("gpu") > 0 || reg.get_count("stats.gpu") > 0 || stats,
        disks: reg.get_count("disks") > 0 || reg.get_count("stats.disks") > 0 || stats,
        network: reg.get_count("network") > 0 || reg.get_count("net") > 0 || reg.get_count(
            "stats.network",
        ) > 0 || stats,
    }
}

/// How long a loop sleeps before this tick: not at all on the first
/// iteration, so the first subscriber is served at once, the configured
/// interval afterwards.
pub fn tick_sleep_ms(first_run: bool, interval_ms: u64) -> (r: u64)
    ensures
        r == if first_run {
            0u64
        } else {
            interval_ms
        },
{
    if first_run {
        0
    } else {
        interval_ms
    }
}

/// What a stats tick does after the wake.
pub enum StatsTickPlan {
    /// The loop is disabled: exit cleanly.
    Exit,
    /// Nobody would receive, or nothing is demanded: touch no sampler.
    Skip,
    /// Refresh and publish exactly the masked sub-fields.
    Sample(DemandMask),
}

/// Decide a stats tick. No sampler is touched without a receiver and demand:
/// with zero receivers, or with an all-clear mask, the plan is `Skip`.
pub fn stats_tick_plan(enabled: bool, receivers: usize, reg: &TopicRegistry) -> (plan:
    StatsTickPlan)
    requires
        reg.wf(),
    ensures
        !enabled <==> plan is Exit,
        enabled && receivers == 0 ==> plan is Skip,
        enabled && receivers > 0 ==> if need_cpu(*reg) || need_memory(*reg) || need_gpu(*reg)
            || need_disks(*reg) || need_network(*reg) {
            plan matches StatsTickPlan::Sample(m) && m.cpu == need_cpu(*reg)
                && m.memory == need_memory(*reg) && m.gpu == need_gpu(*reg)
                && m.disks == need_disks(*reg) && m.network == need_network(*reg)
        } else {
            plan is Skip
        },
{
    if !enabled {
        return StatsTickPlan::Exit;
    }
    if receivers == 0 {
        return StatsTickPlan::Skip;
    }
    let m = demand_mask(reg);
    if !m.cpu && !m.memory && !m.gpu && !m.disks && !m.network {
        StatsTickPlan::Skip
    } else {
        StatsTickPlan::Sample(m)
    }
}

/// What a media or processes tick does after the wake.
pub enum WorkerTickPlan {
    /// The loop is disabled: exit cleanly.
    Exit,
    /// Nobody would receive, the topic has no demand, or the capability is
    /// switched off: do nothing, keep the loop alive.
    Skip,
    /// Probe and publish.
    Work,
}

/// Decide a media tick: demand is a positive count on `media` or
/// `stats.media`, and the media capability flag is honored without ending the
/// loop.
pub fn media_tick_plan(enabled: bool, receivers: usize, reg: &TopicRegistry, feature_media: bool)
    -> (plan: WorkerTickPlan)
    requires
        reg.wf(),
    ensures
        !enabled <==> plan is Exit,
        enabled ==> {
            if receivers > 0 && (reg.spec_count("media"@) > 0 || reg.spec_count("stats.media"@)
                > 0) && feature_media {
                plan is Work
            } else {
                plan is Skip
            }
        },
{
    if !enabled {
        return WorkerTickPlan::Exit;
    }
    if receivers == 0 {
        return WorkerTickPlan::Skip;
    }
    if !(reg.get_count("media") > 0 || reg.get_count("stats.media") > 0) {
        return WorkerTickPlan::Skip;
    }
    if !feature_media {
        return WorkerTickPlan::Skip;
    }
    WorkerTickPlan::Work
}

/// Decide a processes tick: demand is a positive count on `processes` or
/// `process`, and the processes capability flag is honored without ending the
/// loop.
pub fn processes_tick_plan(
    enabled: bool,
    receivers: usize,
    reg: &TopicRegistry,
    feature_processes: bool,
) -> (plan: WorkerTickPlan)
    requires
        reg.wf(),
    ensures
        !enabled <==> plan is Exit,
        enabled ==> {
            if receivers > 0 && (reg.spec_count("processes"@) > 0 || reg.spec_count("process"@)
                > 0) && feature_processes {
                plan is Work
            } else {
                plan is Skip
            }
        },
{
    if !enabled {
        return WorkerTickPlan::Exit;
    }
    if receivers == 0 {
        return WorkerTickPlan::Skip;
    }
    if !(reg.get_count("processes") > 0 || reg.get_count("process") > 0) {
        return WorkerTickPlan::Skip;
    }
    if !feature_processes {
        return WorkerTickPlan::Skip;
    }
    WorkerTickPlan::Work
}

/// Assemble one stats payload: a sub-field is present exactly when the mask
/// asked for it, with the GPU present only when it was demanded and the probe
/// succeeded. The `media` extra is never filled by the stats loop.
pub fn assemble_stream_payload(
    timestamp: i64,
    uptime: u64,
    mask: &DemandMask,
    cpu: Option<CpuUsage>,
    memory: Option<MemoryUsage>,
    gpu: Option<GpuUsage>,
    disks: Option<Vec<DiskUsage>>,
    network: Option<NetworkUsage>,
) -> (r: StreamPayload)
    requires
        mask.cpu ==> cpu is Some,
        mask.memory ==> memory is Some,
        mask.disks ==> disks is Some,
        mask.network ==> network is Some,
    ensures
        r.timestamp == timestamp,
        r.uptime == uptime,
        r.cpu == if mask.cpu {
            cpu
        } else {
            None
        },
        r.memory == if mask.memory {
            memory
        } else {
            None
        },
        r.gpu == if mask.gpu {
            gpu
        } else {
            None
        },
        r.disks == if mask.disks {
            disks
        } else {
            None
        },
        r.network == if mask.network {
            network
        } else {
            None
        },
        r.media is None,
        r.cpu is Some <==> mask.cpu,
        r.memory is Some <==> mask.memory,
        r.disks is Some <==> mask.disks,
        r.network is Some <==> mask.network,
{
    StreamPayload {
        timestamp,
        uptime,
        cpu: if mask.cpu {
            cpu
        } else {
            None
        },
        memory: if mask.memory {
            memory
        } else {
            None
        },
        gpu: if mask.gpu {
            gpu
        } else {
            None
        },
        disks: if mask.disks {
            disks
        } else {
            None
        },
        network: if mask.network {
            network
        } else {
            None
        },
        media: None,
    }
}

/// The change fingerprint of a media state: title, playing, muted and volume.
/// The media loop publishes only when it moves.
#[derive(Clone)]
pub struct MediaSig {
    pub title: Option<String>,
    pub playing: Option<bool>,
    pub muted: Option<bool>,
    pub volume: Option<i32>,
}

/// Whether two fingerprints read the same.
pub open spec fn sig_same(a: MediaSig, b: MediaSig) -> bool {
    &&& match (a.title, b.title) {
        (Some(x), Some(y)) => x@ == y@,
        (None, None) => true,
        _ => false,
    }
    &&& a.playing == b.playing
    &&& a.muted == b.muted
    &&& a.volume == b.volume
}

/// Take a media state's fingerprint.
pub fn media_sig_of(status: &MediaStatus) -> (r: MediaSig)
    ensures
        match (r.title, status.title) {
            (Some(x), Some(y)) => x@ == y@,
            (None, None) => true,
            _ => false,
        },
        r.playing == status.playing,
        r.muted == status.muted,
        r.volume == status.volume,
{
    MediaSig {
        title: match &status.title {
            Some(t) => Some(t.clone()),
            None => None,
        },
        playing: status.playing,
        muted: status.muted,
        volume: status.volume,
    }
}

/// Edge trigger of the media loop: the first sample always publishes, later
/// samples only on a fingerprint change.
pub fn media_should_publish(last: &Option<MediaSig>, cur: &MediaSig) -> (r: bool)
    ensures
        r == match last {
            None => true,
            Some(l) => !sig_same(*l, *cur),
        },
{
    match last {
        None => true,
        Some(l) => {
            let titles_same = match (&l.title, &cur.title) {
                (Some(x), Some(y)) => crate::text::str_eq(x.as_str(), y.as_str()),
                (None, None) => true,
                _ => false,
            };
            let playing_same = match (l.playing, cur.playing) {
                (Some(x), Some(y)) => x == y,
                (None, None) => true,
                _ => false,
            };
            let muted_same = match (l.muted, cur.muted) {
                (Some(x), Some(y)) => x == y,
                (None, None) => true,
                _ => false,
            };
            let volume_same = match (l.volume, cur.volume) {
                (Some(x), Some(y)) => x == y,
                (None, None) => true,
                _ => false,
            };
            !(titles_same && playing_same && muted_same && volume_same)
        },
    }
}

/// One GPU probe result, with the capture time the cache tracks.
#[derive(Clone)]
pub struct GpuSample {
    pub vendor: String,
    pub model: String,
    pub vram_total_mb: u64,
    pub vram_used_mb: i64,
    pub temp_milli: i64,
    pub load_milli: i64,
}

/// Time-bounded memoization of the GPU probe: the cached sample is served
/// while it is younger than the TTL; a failed refresh keeps the last good
/// sample (stale-on-error).
pub struct GpuCache {
    entry: Option<(GpuSample, u64)>,
}

impl GpuCache {
    /// The cached sample and its capture time.
    pub closed spec fn spec_entry(self) -> Option<(GpuSample, u64)> {
        self.entry
    }

    /// An empty cache.
    pub fn new() -> (r: GpuCache)
        ensures
            r.spec_entry() is None,
    {
        GpuCache { entry: None }
    }

    /// Whether a fresh probe is needed: nothing cached, or the cached sample
    /// is at least `ttl_seconds` old.
    pub fn needs_refresh(&self, now: u64, ttl_seconds: u64) -> (r: bool)
        ensures
            r == match self.spec_entry() {
                None => true,
                Some((_, at)) => !(at <= now && now - at < ttl_seconds),
            },
    {
        match &self.entry {
            None => true,
            Some((_, at)) => !(*at <= now && now - *at < ttl_seconds),
        }
    }

    /// Record a probe outcome: a successful probe replaces the cache entry
    /// with its capture time; a failed probe keeps the last good sample.
    pub fn admit_probe(&mut self, now: u64, probe: Option<GpuSample>)
        ensures
            match probe {
                Some(s) => final(self).spec_entry() == Some((s, now)),
                None => final(self).spec_entry() == old(self).spec_entry(),
            },
    {
        match probe {
            Some(s) => {
                self.entry = Some((s, now));
            },
            None => {},
        }
    }

    /// The sample currently held.
    pub fn current(&self) -> (r: Option<&GpuSample>)
        ensures
            match r {
                Some(s) => self.spec_entry() is Some && *s == self.spec_entry()->Some_0.0,
                None => self.spec_entry() is None,
            },
    {
        match &self.entry {
            Some((s, _)) => Some(s),
            None => None,
        }
    }
}

} // verus!
