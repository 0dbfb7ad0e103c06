//! Wire-facing data shapes: static system information, dynamic usage
//! snapshots, the stream payload with its independently nullable sub-fields,
//! process records, media state, the event union carried on the broadcast bus,
//! the inbound message union, and the server status machine.
//!
//! Fractional wire channels (loads, temperatures, percentages) are carried as
//! scaled integers: `*_milli` fields hold thousandths, `*_permille` fields
//! hold tenths of a percent. A negative value in a `*_milli` or `current_memory`
//! channel means the source could not measure it.

use vstd::prelude::*;

verus! {

/// Static description of the host operating system.
#[derive(Clone)]
pub struct OsInfo {
    pub name: String,
    pub version: String,
    pub build: String,
    pub arch: String,
}

/// Static description of the processor.
#[derive(Clone)]
pub struct CpuInfo {
    pub manufacturer: String,
    pub brand: String,
    pub cores: usize,
    pub physical_cores: usize,
    pub base_speed_mhz: u64,
}

/// Static description of a graphics adapter.
#[derive(Clone)]
pub struct GpuInfo {
    pub manufacturer: String,
    pub brand: String,
    pub memory_total: u64,
}

/// Static description of installed memory.
#[derive(Clone)]
pub struct MemoryInfo {
    pub total: u64,
    pub slots: usize,
}

/// Static description of one disk.
#[derive(Clone)]
pub struct DiskInfo {
    pub fs: String,
    pub disk_type: String,
    pub size: u64,
    pub mount: String,
}

/// Static description of the primary network interface.
#[derive(Clone)]
pub struct NetworkInfo {
    pub name: String,
    pub mac: String,
    pub ipv4: String,
    pub ipv6: String,
}

/// Full static system description.
#[derive(Clone)]
pub struct SystemInfo {
    pub hostname: String,
    pub platform: String,
    pub os: OsInfo,
    pub cpu: CpuInfo,
    pub gpu: Option<GpuInfo>,
    pub memory: MemoryInfo,
    pub disks: Vec<DiskInfo>,
    pub network: Option<NetworkInfo>,
}

/// Instantaneous processor usage.
#[derive(Clone)]
pub struct CpuUsage {
    pub current_load_milli: u64,
    pub current_temp_milli: i64,
    pub current_speed_mhz: u64,
}

/// Instantaneous memory usage.
#[derive(Clone)]
pub struct MemoryUsage {
    pub used: u64,
    pub free: u64,
    pub used_permille: u32,
}

/// Instantaneous graphics adapter usage; negative channels are unknown.
#[derive(Clone)]
pub struct GpuUsage {
    pub current_load_milli: i64,
    pub current_temp_milli: i64,
    pub current_memory: i64,
}

/// Instantaneous usage of one disk.
#[derive(Clone)]
pub struct DiskUsage {
    pub fs: String,
    pub used: u64,
    pub available: u64,
    pub used_permille: u32,
}

/// Instantaneous network counters.
#[derive(Clone)]
pub struct NetworkUsage {
    pub bytes_sent: u64,
    pub bytes_recv: u64,
}

/// Full dynamic usage snapshot.
#[derive(Clone)]
pub struct SystemUsage {
    pub uptime: u64,
    pub cpu: CpuUsage,
    pub memory: MemoryUsage,
    pub gpu: Option<GpuUsage>,
    pub disks: Vec<DiskUsage>,
}

/// Current media playback state.
#[derive(Clone)]
pub struct MediaStatus {
    pub status: String,
    pub volume: Option<i32>,
    pub muted: Option<bool>,
    pub playing: Option<bool>,
    pub title: Option<String>,
    pub artist: Option<String>,
    pub supports_ctrl: bool,
}

/// One stats tick as delivered to the wire: `timestamp` and `uptime` always,
/// every other field present exactly when its sub-topic was demanded.
#[derive(Clone)]
pub struct StreamPayload {
    pub timestamp: i64,
    pub uptime: u64,
    pub cpu: Option<CpuUsage>,
    pub memory: Option<MemoryUsage>,
    pub gpu: Option<GpuUsage>,
    pub disks: Option<Vec<DiskUsage>>,
    pub network: Option<NetworkUsage>,
    pub media: Option<MediaStatus>,
}

/// One grouped process entry: processes sharing a normalized executable name,
/// aggregated.
#[derive(Clone)]
pub struct ProcessInfo {
    pub name: String,
    pub count: usize,
    pub memory: u64,
    pub cpu_time_centis: u64,
}

/// One concrete process, for the detail lookup.
#[derive(Clone)]
pub struct ProcessDetail {
    pub pid: u32,
    pub name: String,
    pub memory: u64,
    pub cpu_milli: u64,
    pub title: Option<String>,
    pub has_window: bool,
}

/// A kill request addresses a process by id or by exact name.
#[derive(Clone)]
pub struct KillRequest {
    pub pid: Option<u32>,
    pub name: Option<String>,
}

/// A focus request addresses a process by id.
#[derive(Clone)]
pub struct FocusRequest {
    pub pid: u32,
}

/// A launch request carries a program path and optional arguments.
#[derive(Clone)]
pub struct LaunchRequest {
    pub path: String,
    pub args: Option<Vec<String>>,
}

/// A media control request: an action name and an optional value.
#[derive(Clone)]
pub struct MediaControlRequest {
    pub action: String,
    pub value: Option<i32>,
}

/// The process list as broadcast each processes tick.
#[derive(Clone)]
pub struct ProcessListPayload {
    pub timestamp: i64,
    pub processes: Vec<ProcessInfo>,
    pub total_count: usize,
}

/// Outcome of a control operation, broadcast to the family's subscribers.
#[derive(Clone)]
pub struct OperationFeedback {
    pub success: bool,
    pub action: String,
    pub message: Option<String>,
    pub pid: Option<u32>,
    pub name: Option<String>,
}

/// The event union carried on the broadcast bus.
#[derive(Clone)]
pub enum BroadcastEvent {
    SystemStats(StreamPayload),
    MediaUpdate(MediaStatus),
    ProcessList(ProcessListPayload),
    MediaFeedback(OperationFeedback),
    ProcessFeedback(OperationFeedback),
}

/// A subscribe request carries the whole requested topic set.
#[derive(Clone)]
pub struct SubscribeRequest {
    pub topics: Vec<String>,
}

/// The inbound message union of a wire client.
#[derive(Clone)]
pub enum WebSocketMessage {
    Media(MediaControlRequest),
    ProcessKill(KillRequest),
    ProcessFocus(FocusRequest),
    ProcessLaunch(LaunchRequest),
    Subscribe(SubscribeRequest),
}

/// The fields query of the server-sent event stream.
#[derive(Clone)]
pub struct StreamParams {
    pub fields: Option<String>,
}

/// The listener's lifecycle: `Stopped` and `Error` are terminal.
#[derive(Clone)]
pub enum ServerStatus {
    Starting,
    Running,
    Stopped,
    Error(String),
}

/// The listener's reported state.
#[derive(Clone)]
pub struct ServerState {
    pub status: ServerStatus,
    pub port: u16,
}

/// The transitions the listener may take: bind resolves `Starting`, shutdown
/// or a runtime error resolves `Running`, and the terminal states stay.
pub open spec fn status_step_allowed(from: ServerStatus, to: ServerStatus) -> bool {
    match from {
        ServerStatus::Starting => to is Running || to is Error,
        ServerStatus::Running => to is Stopped || to is Error,
        ServerStatus::Stopped => to is Stopped,
        ServerStatus::Error(_) => to is Error,
    }
}

/// The status a bind attempt resolves to.
pub fn status_after_bind(ok: bool, err: String) -> (r: ServerStatus)
    ensures
        r == if ok {
            ServerStatus::Running
        } else {
            ServerStatus::Error(err)
        },
        status_step_allowed(ServerStatus::Starting, r),
{
    if ok {
        ServerStatus::Running
    } else {
        ServerStatus::Error(err)
    }
}

/// The status a serving run resolves to when it ends.
pub fn status_after_serve(clean: bool, err: String) -> (r: ServerStatus)
    ensures
        r == if clean {
            ServerStatus::Stopped
        } else {
            ServerStatus::Error(err)
        },
        status_step_allowed(ServerStatus::Running, r),
{
    if clean {
        ServerStatus::Stopped
    } else {
        ServerStatus::Error(err)
    }
}

} // verus!
