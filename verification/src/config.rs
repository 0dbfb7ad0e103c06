//! The configuration document and the commands that mutate it. Every command
//! validates its input exactly as stated, changes one setting, and leaves the
//! rest of the document as it was; persistence and process control stay with
//! the caller.

use vstd::prelude::*;

use crate::ip::{parse_ip, spec_parse_ip};
use crate::text::{
    contains_str, contains_sub, hex_text, seq_views, str_eq, to_hex_string, vec_contains_str,
};

verus! {

/// Listener address.
#[derive(Clone)]
pub struct ServerConfig {
    pub port: u16,
    pub host: String,
}

/// Presentation settings.
#[derive(Clone)]
pub struct DisplayConfig {
    pub hostname: String,
}

/// Per-capability switches; a cleared flag denies the capability outright.
#[derive(Clone)]
pub struct FeaturesConfig {
    pub enable_shutdown: bool,
    pub enable_restart: bool,
    pub enable_hibernate: bool,
    pub enable_sleep: bool,
    pub enable_system: bool,
    pub enable_usage: bool,
    pub enable_stats: bool,
    pub enable_media: bool,
    pub enable_processes: bool,
    pub enable_stream: bool,
    pub enable_autostart: bool,
}

/// Sampling settings.
#[derive(Clone)]
pub struct StatsConfig {
    pub gpu_enabled: bool,
    pub disk_cache_seconds: u64,
    pub stream_interval_seconds: u64,
}

/// The access policy: an IP block list consulted always, and token
/// protection with an IP allow list when enabled.
#[derive(Clone)]
pub struct AuthConfig {
    pub enabled: bool,
    pub api_key: Option<String>,
    pub allowed_ips: Vec<String>,
    pub blocked_ips: Vec<String>,
}

/// One worker loop's cadence.
#[derive(Clone)]
pub struct TopicConfig {
    pub enabled: bool,
    pub interval_ms: u64,
}

/// The three worker loops' cadences.
#[derive(Clone)]
pub struct WebSocketConfig {
    pub stats: TopicConfig,
    pub media: TopicConfig,
    pub processes: TopicConfig,
}

/// The whole persisted document.
#[derive(Clone)]
pub struct AppConfig {
    pub server: ServerConfig,
    pub display: DisplayConfig,
    pub features: FeaturesConfig,
    pub stats: StatsConfig,
    pub auth: AuthConfig,
    pub websocket: WebSocketConfig,
}

impl Default for WebSocketConfig {
    /// Stats each second, media twice a second, processes every three
    /// seconds, all enabled.
    fn default() -> (r: WebSocketConfig)
        ensures
            r.stats.enabled && r.stats.interval_ms == 1000,
            r.media.enabled && r.media.interval_ms == 500,
            r.processes.enabled && r.processes.interval_ms == 3000,
    {
        WebSocketConfig {
            stats: TopicConfig { enabled: true, interval_ms: 1000 },
            media: TopicConfig { enabled: true, interval_ms: 500 },
            processes: TopicConfig { enabled: true, interval_ms: 3000 },
        }
    }
}

impl Default for AppConfig {
    /// Port 9990 on all interfaces; power actions off, everything else on;
    /// GPU probes cached half a minute; auth disabled with empty lists.
    fn default() -> (r: AppConfig)
        ensures
            r.server.port == 9990,
            r.server.host@ == "0.0.0.0"@,
            r.display.hostname@ == Seq::<char>::empty(),
            !r.features.enable_shutdown && !r.features.enable_restart,
            r.features.enable_hibernate && r.features.enable_sleep,
            r.features.enable_system && r.features.enable_usage && r.features.enable_stats,
            r.features.enable_media && r.features.enable_processes && r.features.enable_stream,
            r.features.enable_autostart,
            r.stats.gpu_enabled,
            r.stats.disk_cache_seconds == 30,
            r.stats.stream_interval_seconds == 2,
            !r.auth.enabled,
            r.auth.api_key is None,
            r.auth.allowed_ips@.len() == 0,
            r.auth.blocked_ips@.len() == 0,
            r.websocket.stats.enabled && r.websocket.stats.interval_ms == 1000,
            r.websocket.media.enabled && r.websocket.media.interval_ms == 500,
            r.websocket.processes.enabled && r.websocket.processes.interval_ms == 3000,
    {
        AppConfig {
            server: ServerConfig { port: 9990, host: String::from_str("0.0.0.0") },
            display: DisplayConfig { hostname: String::new() },
            features: FeaturesConfig {
                enable_shutdown: false,
                enable_restart: false,
                enable_hibernate: true,
                enable_sleep: true,
                enable_system: true,
                enable_usage: true,
                enable_stats: true,
                enable_media: true,
                enable_processes: true,
                enable_stream: true,
                enable_autostart: true,
            },
            stats: StatsConfig {
                gpu_enabled: true,
                disk_cache_seconds: 30,
                stream_interval_seconds: 2,
            },
            auth: AuthConfig {
                enabled: false,
                api_key: None,
                allowed_ips: Vec::new(),
                blocked_ips: Vec::new(),
            },
            websocket: WebSocketConfig::default(),
        }
    }
}

/// A partial update of the document: absent fields stay untouched. Applied
/// without validation, as the batch update endpoint does.
#[derive(Clone)]
pub struct ConfigUpdate {
    pub server_port: Option<u16>,
    pub server_host: Option<String>,
    pub display_hostname: Option<String>,
    pub stats_gpu_enabled: Option<bool>,
    pub stats_disk_cache_seconds: Option<u64>,
    pub stats_stream_interval_seconds: Option<u64>,
    pub ws_stats_enabled: Option<bool>,
    pub ws_stats_interval_ms: Option<u64>,
    pub ws_media_enabled: Option<bool>,
    pub ws_media_interval_ms: Option<u64>,
    pub ws_processes_enabled: Option<bool>,
    pub ws_processes_interval_ms: Option<u64>,
}


/// The loop-cadence table with one interval replaced, by topic name.
pub open spec fn ws_with_interval(ws: WebSocketConfig, name: Seq<char>, ms: u64) -> WebSocketConfig {
    if name == "stats"@ {
        WebSocketConfig {
            stats: TopicConfig { enabled: ws.stats.enabled, interval_ms: ms },
            media: ws.media,
            processes: ws.processes,
        }
    } else if name == "media"@ {
        WebSocketConfig {
            stats: ws.stats,
            media: TopicConfig { enabled: ws.media.enabled, interval_ms: ms },
            processes: ws.processes,
        }
    } else {
        WebSocketConfig {
            stats: ws.stats,
            media: ws.media,
            processes: TopicConfig { enabled: ws.processes.enabled, interval_ms: ms },
        }
    }
}

/// The loop-cadence table with one enable switch flipped, by topic name.
pub open spec fn ws_with_toggle(ws: WebSocketConfig, name: Seq<char>) -> WebSocketConfig {
    if name == "stats"@ {
        WebSocketConfig {
            stats: TopicConfig { enabled: !ws.stats.enabled, interval_ms: ws.stats.interval_ms },
            media: ws.media,
            processes: ws.processes,
        }
    } else if name == "media"@ {
        WebSocketConfig {
            stats: ws.stats,
            media: TopicConfig { enabled: !ws.media.enabled, interval_ms: ws.media.interval_ms },
            processes: ws.processes,
        }
    } else {
        WebSocketConfig {
            stats: ws.stats,
            media: ws.media,
            processes: TopicConfig {
                enabled: !ws.processes.enabled,
                interval_ms: ws.processes.interval_ms,
            },
        }
    }
}

/// Whether a text names one of the three loops.
pub open spec fn is_loop_topic(name: Seq<char>) -> bool {
    name == "stats"@ || name == "media"@ || name == "processes"@
}

/// Whether a text names a capability flag.
pub open spec fn is_feature_name(name: Seq<char>) -> bool {
    ||| name == "system"@
    ||| name == "usage"@
    ||| name == "stream"@
    ||| name == "media"@
    ||| name == "processes"@
    ||| name == "shutdown"@
    ||| name == "restart"@
    ||| name == "hibernate"@
    ||| name == "sleep"@
    ||| name == "autostart"@
}

/// The capability table with one flag flipped, by name, first match taken.
pub open spec fn features_with_toggle(f: FeaturesConfig, name: Seq<char>) -> FeaturesConfig {
    if name == "system"@ {
        FeaturesConfig { enable_system: !f.enable_system, ..f }
    } else if name == "usage"@ {
        FeaturesConfig { enable_usage: !f.enable_usage, ..f }
    } else if name == "stream"@ {
        FeaturesConfig { enable_stream: !f.enable_stream, ..f }
    } else if name == "media"@ {
        FeaturesConfig { enable_media: !f.enable_media, ..f }
    } else if name == "processes"@ {
        FeaturesConfig { enable_processes: !f.enable_processes, ..f }
    } else if name == "shutdown"@ {
        FeaturesConfig { enable_shutdown: !f.enable_shutdown, ..f }
    } else if name == "restart"@ {
        FeaturesConfig { enable_restart: !f.enable_restart, ..f }
    } else if name == "hibernate"@ {
        FeaturesConfig { enable_hibernate: !f.enable_hibernate, ..f }
    } else if name == "sleep"@ {
        FeaturesConfig { enable_sleep: !f.enable_sleep, ..f }
    } else {
        FeaturesConfig { enable_autostart: !f.enable_autostart, ..f }
    }
}

impl AppConfig {
    /// Set one worker loop's interval. The interval must lie between a tenth
    /// of a second and a minute, and the topic must name one of the three
    /// loops.
    pub fn update_ws_interval(&mut self, topic: &str, interval_ms: u64) -> (r: Result<(), String>)
        ensures
            r is Ok <==> 100 <= interval_ms <= 60000 && is_loop_topic(topic@),
            !(100 <= interval_ms <= 60000) ==> (r matches Err(e)
                && e@ == "Interval must be between 100ms and 60000ms"@),
            r is Ok ==> final(self).websocket == ws_with_interval(
                old(self).websocket,
                topic@,
                interval_ms,
            ),
            r is Err ==> *final(self) == *old(self),
            final(self).server == old(self).server,
            final(self).display == old(self).display,
            final(self).features == old(self).features,
            final(self).stats == old(self).stats,
            final(self).auth == old(self).auth,
    {
        if interval_ms < 100 || interval_ms > 60000 {
            return Err(String::from_str("Interval must be between 100ms and 60000ms"));
        }
        if str_eq(topic, "stats") {
            self.websocket.stats.interval_ms = interval_ms;
            Ok(())
        } else if str_eq(topic, "media") {
            self.websocket.media.interval_ms = interval_ms;
            Ok(())
        } else if str_eq(topic, "processes") {
            self.websocket.processes.interval_ms = interval_ms;
            Ok(())
        } else {
            Err(String::from_str("Invalid topic. Use: stats, media, or processes"))
        }
    }

    /// Flip one worker loop's enable switch.
    pub fn toggle_ws_topic(&mut self, topic: &str) -> (r: Result<(), String>)
        ensures
            r is Ok <==> is_loop_topic(topic@),
            r is Ok ==> final(self).websocket == ws_with_toggle(old(self).websocket, topic@),
            r is Err ==> *final(self) == *old(self),
            final(self).server == old(self).server,
            final(self).display == old(self).display,
            final(self).features == old(self).features,
            final(self).stats == old(self).stats,
            final(self).auth == old(self).auth,
    {
        if str_eq(topic, "stats") {
            self.websocket.stats.enabled = !self.websocket.stats.enabled;
            Ok(())
        } else if str_eq(topic, "media") {
            self.websocket.media.enabled = !self.websocket.media.enabled;
            Ok(())
        } else if str_eq(topic, "processes") {
            self.websocket.processes.enabled = !self.websocket.processes.enabled;
            Ok(())
        } else {
            Err(String::from_str("Invalid topic. Use: stats, media, or processes"))
        }
    }

    /// Flip one capability flag by name. The caller applies any side effect
    /// the flag implies, reading the new value back.
    #[verifier::rlimit(100)]
    pub fn toggle_feature(&mut self, feature: &str) -> (r: Result<(), String>)
        ensures
            r is Ok <==> is_feature_name(feature@),
            r matches Err(e) ==> e@ == "Feature not found"@ && *final(self) == *old(self),
            r is Ok ==> final(self).features == features_with_toggle(
                old(self).features,
                feature@,
            ),
            final(self).server == old(self).server,
            final(self).display == old(self).display,
            final(self).stats == old(self).stats,
            final(self).auth == old(self).auth,
            final(self).websocket == old(self).websocket,
    {
        if str_eq(feature, "system") {
            self.features.enable_system = !self.features.enable_system;
            Ok(())
        } else if str_eq(feature, "usage") {
            self.features.enable_usage = !self.features.enable_usage;
            Ok(())
        } else if str_eq(feature, "stream") {
            self.features.enable_stream = !self.features.enable_stream;
            Ok(())
        } else if str_eq(feature, "media") {
            self.features.enable_media = !self.features.enable_media;
            Ok(())
        } else if str_eq(feature, "processes") {
            self.features.enable_processes = !self.features.enable_processes;
            Ok(())
        } else if str_eq(feature, "shutdown") {
            self.features.enable_shutdown = !self.features.enable_shutdown;
            Ok(())
        } else if str_eq(feature, "restart") {
            self.features.enable_restart = !self.features.enable_restart;
            Ok(())
        } else if str_eq(feature, "hibernate") {
            self.features.enable_hibernate = !self.features.enable_hibernate;
            Ok(())
        } else if str_eq(feature, "sleep") {
            self.features.enable_sleep = !self.features.enable_sleep;
            Ok(())
        } else if str_eq(feature, "autostart") {
            self.features.enable_autostart = !self.features.enable_autostart;
            Ok(())
        } else {
            Err(String::from_str("Feature not found"))
        }
    }

    /// Set the listener port; ports below 1024 are rejected.
    pub fn update_server_port(&mut self, port: u16) -> (r: Result<(), String>)
        ensures
            r is Ok <==> port >= 1024,
            r matches Err(e) ==> e@ == "Port must be >= 1024"@ && *final(self) == *old(self),
            r is Ok ==> final(self).server.port == port && final(self).server.host == old(self).server.host,
            final(self).display == old(self).display,
            final(self).features == old(self).features,
            final(self).stats == old(self).stats,
            final(self).auth == old(self).auth,
            final(self).websocket == old(self).websocket,
    {
        if port < 1024 {
            return Err(String::from_str("Port must be >= 1024"));
        }
        self.server.port = port;
        Ok(())
    }

    /// Set the listener host; the text must parse as an address.
    pub fn update_server_host(&mut self, host: String) -> (r: Result<(), String>)
        ensures
            r is Ok <==> spec_parse_ip(host@) is Some,
            r matches Err(e) ==> e@ == "Invalid IP address"@ && *final(self) == *old(self),
            r is Ok ==> final(self).server.host == host && final(self).server.port == old(self).server.port,
            final(self).display == old(self).display,
            final(self).features == old(self).features,
            final(self).stats == old(self).stats,
            final(self).auth == old(self).auth,
            final(self).websocket == old(self).websocket,
    {
        if parse_ip(host.as_str()).is_none() {
            return Err(String::from_str("Invalid IP address"));
        }
        self.server.host = host;
        Ok(())
    }

    /// Set the displayed hostname; any text is accepted.
    pub fn update_hostname(&mut self, hostname: String)
        ensures
            final(self).display.hostname == hostname,
            final(self).server == old(self).server,
            final(self).features == old(self).features,
            final(self).stats == old(self).stats,
            final(self).auth == old(self).auth,
            final(self).websocket == old(self).websocket,
    {
        self.display.hostname = hostname;
    }

    /// Flip token protection.
    pub fn toggle_auth(&mut self)
        ensures
            final(self).auth.enabled == !old(self).auth.enabled,
            final(self).auth.api_key == old(self).auth.api_key,
            final(self).auth.allowed_ips == old(self).auth.allowed_ips,
            final(self).auth.blocked_ips == old(self).auth.blocked_ips,
            final(self).server == old(self).server,
            final(self).display == old(self).display,
            final(self).features == old(self).features,
            final(self).stats == old(self).stats,
            final(self).websocket == old(self).websocket,
    {
        self.auth.enabled = !self.auth.enabled;
    }

    /// Set or clear the token.
    pub fn update_api_key(&mut self, api_key: Option<String>)
        ensures
            final(self).auth.api_key == api_key,
            final(self).auth.enabled == old(self).auth.enabled,
            final(self).auth.allowed_ips == old(self).auth.allowed_ips,
            final(self).auth.blocked_ips == old(self).auth.blocked_ips,
            final(self).server == old(self).server,
            final(self).display == old(self).display,
            final(self).features == old(self).features,
            final(self).stats == old(self).stats,
            final(self).websocket == old(self).websocket,
    {
        self.auth.api_key = api_key;
    }

    /// Add an entry to the allow list; the text must parse as an address or
    /// carry a `/`. A present entry is not duplicated.
    pub fn add_allowed_ip(&mut self, ip: String) -> (r: Result<(), String>)
        ensures
            r is Ok <==> spec_parse_ip(ip@) is Some || contains_sub(ip@, "/"@),
            r matches Err(e) ==> e@ == "Invalid IP address or CIDR"@ && *final(self) == *old(self),
            r is Ok ==> if seq_views(old(self).auth.allowed_ips@).contains(ip@) {
                final(self).auth.allowed_ips == old(self).auth.allowed_ips
            } else {
                final(self).auth.allowed_ips@ == old(self).auth.allowed_ips@.push(ip)
            },
            r is Ok ==> final(self).auth.blocked_ips == old(self).auth.blocked_ips && final(self).auth.enabled == old(self).auth.enabled && final(self).auth.api_key == old(self).auth.api_key,
            final(self).server == old(self).server,
            final(self).display == old(self).display,
            final(self).features == old(self).features,
            final(self).stats == old(self).stats,
            final(self).websocket == old(self).websocket,
    {
        if parse_ip(ip.as_str()).is_none() && !contains_str(ip.as_str(), "/") {
            return Err(String::from_str("Invalid IP address or CIDR"));
        }
        if !vec_contains_str(&self.auth.allowed_ips, ip.as_str()) {
            self.auth.allowed_ips.push(ip);
        }
        Ok(())
    }

    /// Add an entry to the block list; the text must parse as an address or
    /// carry a `/`. A present entry is not duplicated.
    pub fn add_blocked_ip(&mut self, ip: String) -> (r: Result<(), String>)
        ensures
            r is Ok <==> spec_parse_ip(ip@) is Some || contains_sub(ip@, "/"@),
            r matches Err(e) ==> e@ == "Invalid IP address or CIDR"@ && *final(self) == *old(self),
            r is Ok ==> if seq_views(old(self).auth.blocked_ips@).contains(ip@) {
                final(self).auth.blocked_ips == old(self).auth.blocked_ips
            } else {
                final(self).auth.blocked_ips@ == old(self).auth.blocked_ips@.push(ip)
            },
            r is Ok ==> final(self).auth.allowed_ips == old(self).auth.allowed_ips && final(self).auth.enabled == old(self).auth.enabled && final(self).auth.api_key == old(self).auth.api_key,
            final(self).server == old(self).server,
            final(self).display == old(self).display,
            final(self).features == old(self).features,
            final(self).stats == old(self).stats,
            final(self).websocket == old(self).websocket,
    {
        if parse_ip(ip.as_str()).is_none() && !contains_str(ip.as_str(), "/") {
            return Err(String::from_str("Invalid IP address or CIDR"));
        }
        if !vec_contains_str(&self.auth.blocked_ips, ip.as_str()) {
            self.auth.blocked_ips.push(ip);
        }
        Ok(())
    }

    /// Remove every allow-list entry that reads as the given text.
    pub fn remove_allowed_ip(&mut self, ip: &str)
        ensures
            final(self).auth.allowed_ips@ == old(self).auth.allowed_ips@.filter(
                |e: String| e@ != ip@,
            ),
            final(self).auth.blocked_ips == old(self).auth.blocked_ips,
            final(self).auth.enabled == old(self).auth.enabled,
            final(self).auth.api_key == old(self).auth.api_key,
            final(self).server == old(self).server,
            final(self).display == old(self).display,
            final(self).features == old(self).features,
            final(self).stats == old(self).stats,
            final(self).websocket == old(self).websocket,
    {
        let mut kept: Vec<String> = Vec::new();
        let ghost pred = |e: String| e@ != ip@;
        let ghost src = self.auth.allowed_ips@;
        let mut i: usize = 0;
        proof {
            reveal(Seq::filter);
            assert(src.take(0) =~= Seq::<String>::empty());
            assert(src.take(0).filter(pred) =~= Seq::<String>::empty());
            assert(kept@ =~= Seq::<String>::empty());
        }
        while i < self.auth.allowed_ips.len()
            invariant
                src == self.auth.allowed_ips@,
                pred == (|e: String| e@ != ip@),
                0 <= i <= src.len(),
                kept@ == src.take(i as int).filter(pred),
            decreases src.len() - i,
        {
            proof {
                lemma_string_filter_take_step(src, pred, i as int);
            }
            if !str_eq(self.auth.allowed_ips[i].as_str(), ip) {
                kept.push(self.auth.allowed_ips[i].clone());
            }
            i += 1;
        }
        proof {
            assert(src.take(src.len() as int) =~= src);
        }
        self.auth.allowed_ips = kept;
    }

    /// Remove every block-list entry that reads as the given text.
    pub fn remove_blocked_ip(&mut self, ip: &str)
        ensures
            final(self).auth.blocked_ips@ == old(self).auth.blocked_ips@.filter(
                |e: String| e@ != ip@,
            ),
            final(self).auth.allowed_ips == old(self).auth.allowed_ips,
            final(self).auth.enabled == old(self).auth.enabled,
            final(self).auth.api_key == old(self).auth.api_key,
            final(self).server == old(self).server,
            final(self).display == old(self).display,
            final(self).features == old(self).features,
            final(self).stats == old(self).stats,
            final(self).websocket == old(self).websocket,
    {
        let mut kept: Vec<String> = Vec::new();
        let ghost pred = |e: String| e@ != ip@;
        let ghost src = self.auth.blocked_ips@;
        let mut i: usize = 0;
        proof {
            reveal(Seq::filter);
            assert(src.take(0) =~= Seq::<String>::empty());
            assert(src.take(0).filter(pred) =~= Seq::<String>::empty());
            assert(kept@ =~= Seq::<String>::empty());
        }
        while i < self.auth.blocked_ips.len()
            invariant
                src == self.auth.blocked_ips@,
                pred == (|e: String| e@ != ip@),
                0 <= i <= src.len(),
                kept@ == src.take(i as int).filter(pred),
            decreases src.len() - i,
        {
            proof {
                lemma_string_filter_take_step(src, pred, i as int);
            }
            if !str_eq(self.auth.blocked_ips[i].as_str(), ip) {
                kept.push(self.auth.blocked_ips[i].clone());
            }
            i += 1;
        }
        proof {
            assert(src.take(src.len() as int) =~= src);
        }
        self.auth.blocked_ips = kept;
    }

    /// Empty the block list.
    pub fn clear_blocked_ips(&mut self)
        ensures
            final(self).auth.blocked_ips@.len() == 0,
            final(self).auth.allowed_ips == old(self).auth.allowed_ips,
            final(self).auth.enabled == old(self).auth.enabled,
            final(self).auth.api_key == old(self).auth.api_key,
            final(self).server == old(self).server,
            final(self).display == old(self).display,
            final(self).features == old(self).features,
            final(self).stats == old(self).stats,
            final(self).websocket == old(self).websocket,
    {
        self.auth.blocked_ips = Vec::new();
    }

    /// Flip GPU sampling.
    pub fn toggle_gpu_stats(&mut self)
        ensures
            final(self).stats.gpu_enabled == !old(self).stats.gpu_enabled,
            final(self).stats.disk_cache_seconds == old(self).stats.disk_cache_seconds,
            final(self).stats.stream_interval_seconds == old(self).stats.stream_interval_seconds,
            final(self).server == old(self).server,
            final(self).display == old(self).display,
            final(self).features == old(self).features,
            final(self).auth == old(self).auth,
            final(self).websocket == old(self).websocket,
    {
        self.stats.gpu_enabled = !self.stats.gpu_enabled;
    }

    /// Set the heavy-sample TTL, between one second and five minutes.
    pub fn update_disk_cache_seconds(&mut self, seconds: u64) -> (r: Result<(), String>)
        ensures
            r is Ok <==> 1 <= seconds <= 300,
            r matches Err(e) ==> e@ == "Seconds must be between 1 and 300"@ && *final(self)
                == *old(self),
            r is Ok ==> final(self).stats.disk_cache_seconds == seconds && final(self).stats.gpu_enabled == old(self).stats.gpu_enabled && final(self).stats.stream_interval_seconds == old(self).stats.stream_interval_seconds,
            final(self).server == old(self).server,
            final(self).display == old(self).display,
            final(self).features == old(self).features,
            final(self).auth == old(self).auth,
            final(self).websocket == old(self).websocket,
    {
        if seconds < 1 || seconds > 300 {
            return Err(String::from_str("Seconds must be between 1 and 300"));
        }
        self.stats.disk_cache_seconds = seconds;
        Ok(())
    }

    /// Set the event-stream cadence, between one second and a minute.
    pub fn update_stream_interval(&mut self, seconds: u64) -> (r: Result<(), String>)
        ensures
            r is Ok <==> 1 <= seconds <= 60,
            r matches Err(e) ==> e@ == "Seconds must be between 1 and 60"@ && *final(self)
                == *old(self),
            r is Ok ==> final(self).stats.stream_interval_seconds == seconds && final(self).stats.gpu_enabled == old(self).stats.gpu_enabled && final(self).stats.disk_cache_seconds == old(self).stats.disk_cache_seconds,
            final(self).server == old(self).server,
            final(self).display == old(self).display,
            final(self).features == old(self).features,
            final(self).auth == old(self).auth,
            final(self).websocket == old(self).websocket,
    {
        if seconds < 1 || seconds > 60 {
            return Err(String::from_str("Seconds must be between 1 and 60"));
        }
        self.stats.stream_interval_seconds = seconds;
        Ok(())
    }

    /// Apply a batch update: each present field overwrites its setting, as
    /// given, and absent fields change nothing.
    #[verifier::rlimit(100)]
    pub fn update_config(&mut self, updates: ConfigUpdate)
        ensures
            final(self).server.port == match updates.server_port {
                Some(p) => p,
                None => old(self).server.port,
            },
            final(self).server.host == match updates.server_host {
                Some(h) => h,
                None => old(self).server.host,
            },
            final(self).display.hostname == match updates.display_hostname {
                Some(h) => h,
                None => old(self).display.hostname,
            },
            final(self).stats.gpu_enabled == match updates.stats_gpu_enabled {
                Some(b) => b,
                None => old(self).stats.gpu_enabled,
            },
            final(self).stats.disk_cache_seconds == match updates.stats_disk_cache_seconds {
                Some(v) => v,
                None => old(self).stats.disk_cache_seconds,
            },
            final(self).stats.stream_interval_seconds == match updates
                .stats_stream_interval_seconds {
                Some(v) => v,
                None => old(self).stats.stream_interval_seconds,
            },
            final(self).websocket.stats.enabled == match updates.ws_stats_enabled {
                Some(b) => b,
                None => old(self).websocket.stats.enabled,
            },
            final(self).websocket.stats.interval_ms == match updates.ws_stats_interval_ms {
                Some(v) => v,
                None => old(self).websocket.stats.interval_ms,
            },
            final(self).websocket.media.enabled == match updates.ws_media_enabled {
                Some(b) => b,
                None => old(self).websocket.media.enabled,
            },
            final(self).websocket.media.interval_ms == match updates.ws_media_interval_ms {
                Some(v) => v,
                None => old(self).websocket.media.interval_ms,
            },
            final(self).websocket.processes.enabled == match updates.ws_processes_enabled {
                Some(b) => b,
                None => old(self).websocket.processes.enabled,
            },
            final(self).websocket.processes.interval_ms == match updates
                .ws_processes_interval_ms {
                Some(v) => v,
                None => old(self).websocket.processes.interval_ms,
            },
            final(self).features == old(self).features,
            final(self).auth == old(self).auth,
    {
        let new_server = ServerConfig {
            port: match updates.server_port {
                Some(p) => p,
                None => self.server.port,
            },
            host: match updates.server_host {
                Some(h) => h,
                None => self.server.host.clone(),
            },
        };
        let new_display = DisplayConfig {
            hostname: match updates.display_hostname {
                Some(h) => h,
                None => self.display.hostname.clone(),
            },
        };
        let new_stats = StatsConfig {
            gpu_enabled: match updates.stats_gpu_enabled {
                Some(b) => b,
                None => self.stats.gpu_enabled,
            },
            disk_cache_seconds: match updates.stats_disk_cache_seconds {
                Some(v) => v,
                None => self.stats.disk_cache_seconds,
            },
            stream_interval_seconds: match updates.stats_stream_interval_seconds {
                Some(v) => v,
                None => self.stats.stream_interval_seconds,
            },
        };
        let new_ws = WebSocketConfig {
            stats: TopicConfig {
                enabled: match updates.ws_stats_enabled {
                    Some(b) => b,
                    None => self.websocket.stats.enabled,
                },
                interval_ms: match updates.ws_stats_interval_ms {
                    Some(v) => v,
                    None => self.websocket.stats.interval_ms,
                },
            },
            media: TopicConfig {
                enabled: match updates.ws_media_enabled {
                    Some(b) => b,
                    None => self.websocket.media.enabled,
                },
                interval_ms: match updates.ws_media_interval_ms {
                    Some(v) => v,
                    None => self.websocket.media.interval_ms,
                },
            },
            processes: TopicConfig {
                enabled: match updates.ws_processes_enabled {
                    Some(b) => b,
                    None => self.websocket.processes.enabled,
                },
                interval_ms: match updates.ws_processes_interval_ms {
                    Some(v) => v,
                    None => self.websocket.processes.interval_ms,
                },
            },
        };
        self.server = new_server;
        self.display = new_display;
        self.stats = new_stats;
        self.websocket = new_ws;
    }

    /// Install a freshly generated token, built from the given clock reading
    /// and a random draw: `ck_`, the time in hexadecimal, `_`, the draw in
    /// hexadecimal.
    pub fn generate_api_key(&mut self, now_nanos: u128)
        ensures
            final(self).auth.api_key is Some,
            exists|draw: u64|
                (#[trigger] hex_text(draw as nat), true).1 && (final(self).auth.api_key->Some_0)@ == "ck_"@ + hex_text(now_nanos as nat) + "_"@ + hex_text(
                    draw as nat,
                ),
            final(self).auth.enabled == old(self).auth.enabled,
            final(self).auth.allowed_ips == old(self).auth.allowed_ips,
            final(self).auth.blocked_ips == old(self).auth.blocked_ips,
            final(self).server == old(self).server,
            final(self).display == old(self).display,
            final(self).features == old(self).features,
            final(self).stats == old(self).stats,
            final(self).websocket == old(self).websocket,
    {
        let draw = crate::netutil::random_u64();
        let mut key = String::from_str("ck_");
        let ts = to_hex_string(now_nanos);
        key.append(ts.as_str());
        key.append("_");
        let suffix = to_hex_string(draw as u128);
        key.append(suffix.as_str());
        proof {
            assert(key@ == "ck_"@ + hex_text(now_nanos as nat) + "_"@ + hex_text(draw as nat));
        }
        self.auth.api_key = Some(key);
    }
}

/// One filtering step over owned strings: extending the scanned prefix.
proof fn lemma_string_filter_take_step(s: Seq<String>, pred: spec_fn(String) -> bool, i: int)
    requires
        0 <= i < s.len(),
    ensures
        s.take(i + 1).filter(pred) == if pred(s[i]) {
            s.take(i).filter(pred).push(s[i])
        } else {
            s.take(i).filter(pred)
        },
{
    reveal(Seq::filter);
    assert(s.take(i + 1).drop_last() =~= s.take(i));
    assert(s.take(i + 1).last() == s[i]);
}

} // verus!
