//! Decisions of the control paths: the error-kind to status-code mapping,
//! capability gating, power action classification, media action
//! classification, kill target selection, and the feedback every socket
//! command broadcasts. The platform backends perform the chosen action; the
//! choice and the reported outcome are decided here.

use vstd::prelude::*;

use crate::config::FeaturesConfig;
use crate::text::{contains_sub, contains_str, lower_seq, seq_views, str_eq, to_ascii_lower};
use crate::types::{KillRequest, MediaControlRequest, OperationFeedback, WebSocketMessage};

verus! {

/// The error kinds the wire surface reports.
#[derive(Clone, Copy, PartialEq, Eq, Structural, Debug)]
pub enum ErrorKind {
    Unauthorized,
    Forbidden,
    BadRequest,
    NotFound,
    InternalError,
    Unsupported,
    ParseError,
}

/// The status code an error kind maps to. A parse error never leaves the
/// socket, where it is reported inline; its code is the bad-request one.
pub fn http_status(kind: ErrorKind) -> (r: u16)
    ensures
        kind is Unauthorized ==> r == 401,
        kind is Forbidden ==> r == 403,
        kind is BadRequest ==> r == 400,
        kind is NotFound ==> r == 404,
        kind is InternalError ==> r == 500,
        kind is Unsupported ==> r == 400,
        kind is ParseError ==> r == 400,
{
    match kind {
        ErrorKind::Unauthorized => 401,
        ErrorKind::Forbidden => 403,
        ErrorKind::BadRequest => 400,
        ErrorKind::NotFound => 404,
        ErrorKind::InternalError => 500,
        ErrorKind::Unsupported => 400,
        ErrorKind::ParseError => 400,
    }
}

/// The four power actions.
#[derive(Clone, Copy, PartialEq, Eq, Structural, Debug)]
pub enum PowerAction {
    Shutdown,
    Restart,
    Sleep,
    Hibernate,
}

/// The power action a path segment names, first match taken.
pub open spec fn spec_power_action(action: Seq<char>) -> Option<PowerAction> {
    if action == "shutdown"@ {
        Some(PowerAction::Shutdown)
    } else if action == "restart"@ {
        Some(PowerAction::Restart)
    } else if action == "sleep"@ {
        Some(PowerAction::Sleep)
    } else if action == "hibernate"@ {
        Some(PowerAction::Hibernate)
    } else {
        None
    }
}

/// Whether the capability table admits a power action.
pub open spec fn power_allowed(features: FeaturesConfig, a: PowerAction) -> bool {
    match a {
        PowerAction::Shutdown => features.enable_shutdown,
        PowerAction::Restart => features.enable_restart,
        PowerAction::Sleep => features.enable_sleep,
        PowerAction::Hibernate => features.enable_hibernate,
    }
}

/// The power action a path segment names, if any.
pub fn classify_power_action(action: &str) -> (r: Option<PowerAction>)
    ensures
        r == spec_power_action(action@),
{
    if str_eq(action, "shutdown") {
        Some(PowerAction::Shutdown)
    } else if str_eq(action, "restart") {
        Some(PowerAction::Restart)
    } else if str_eq(action, "sleep") {
        Some(PowerAction::Sleep)
    } else if str_eq(action, "hibernate") {
        Some(PowerAction::Hibernate)
    } else {
        None
    }
}

/// Decide a power request: an unknown action is a bad request, a disabled
/// one is forbidden, an admitted one names the action the platform layer
/// must perform.
pub fn power_action(features: &FeaturesConfig, action: &str) -> (r: Result<PowerAction, ErrorKind>)
    ensures
        r == match spec_power_action(action@) {
            None => Err::<PowerAction, ErrorKind>(ErrorKind::BadRequest),
            Some(a) => if power_allowed(*features, a) {
                Ok::<PowerAction, ErrorKind>(a)
            } else {
                Err::<PowerAction, ErrorKind>(ErrorKind::Forbidden)
            },
        },
{
    let a = if str_eq(action, "shutdown") {
        PowerAction::Shutdown
    } else if str_eq(action, "restart") {
        PowerAction::Restart
    } else if str_eq(action, "sleep") {
        PowerAction::Sleep
    } else if str_eq(action, "hibernate") {
        PowerAction::Hibernate
    } else {
        return Err(ErrorKind::BadRequest);
    };
    let allowed = match a {
        PowerAction::Shutdown => features.enable_shutdown,
        PowerAction::Restart => features.enable_restart,
        PowerAction::Sleep => features.enable_sleep,
        PowerAction::Hibernate => features.enable_hibernate,
    };
    if allowed {
        Ok(a)
    } else {
        Err(ErrorKind::Forbidden)
    }
}

/// The denial message a disabled power action reports, naming the action.
pub fn power_denied_message(a: PowerAction) -> (r: String)
    ensures
        a is Shutdown ==> r@ == "Shutdown disabled"@,
        a is Restart ==> r@ == "Restart disabled"@,
        a is Sleep ==> r@ == "Sleep disabled"@,
        a is Hibernate ==> r@ == "Hibernate disabled"@,
{
    match a {
        PowerAction::Shutdown => String::from_str("Shutdown disabled"),
        PowerAction::Restart => String::from_str("Restart disabled"),
        PowerAction::Sleep => String::from_str("Sleep disabled"),
        PowerAction::Hibernate => String::from_str("Hibernate disabled"),
    }
}

/// What a media request asks the platform layer to do.
pub enum MediaPlan {
    /// The media capability is off: refuse as forbidden.
    Denied,
    /// `set_volume` came without a value: a bad request.
    NeedsValue,
    /// Set the output volume to the given level.
    SetVolume(i32),
    /// Set the mute state.
    SetMute(bool),
    /// Flip the mute state.
    ToggleMute,
    /// Run the named transport action.
    Transport(TransportAction),
    /// The action is not one of the recognized set: a bad request.
    Unsupported,
}

/// The recognized transport actions.
#[derive(Clone, Copy, PartialEq, Eq, Structural, Debug)]
pub enum TransportAction {
    PlayPause,
    Next,
    Prev,
    VolumeUp,
    VolumeDown,
}

/// The plan a media action text names, first match taken.
pub open spec fn spec_media_plan(
    feature_media: bool,
    action: Seq<char>,
    value: Option<i32>,
) -> MediaPlan {
    if !feature_media {
        MediaPlan::Denied
    } else if action == "set_volume"@ {
        match value {
            Some(v) => MediaPlan::SetVolume(v),
            None => MediaPlan::NeedsValue,
        }
    } else if action == "mute"@ {
        MediaPlan::SetMute(true)
    } else if action == "unmute"@ {
        MediaPlan::SetMute(false)
    } else if action == "toggle_mute"@ {
        MediaPlan::ToggleMute
    } else if action == "play"@ || action == "pause"@ || action == "play_pause"@ {
        MediaPlan::Transport(TransportAction::PlayPause)
    } else if action == "next"@ {
        MediaPlan::Transport(TransportAction::Next)
    } else if action == "prev"@ || action == "previous"@ {
        MediaPlan::Transport(TransportAction::Prev)
    } else if action == "volume_up"@ {
        MediaPlan::Transport(TransportAction::VolumeUp)
    } else if action == "volume_down"@ {
        MediaPlan::Transport(TransportAction::VolumeDown)
    } else {
        MediaPlan::Unsupported
    }
}

/// Decide a media request against the capability table.
pub fn media_control(feature_media: bool, req: &MediaControlRequest) -> (r: MediaPlan)
    ensures
        r == spec_media_plan(feature_media, req.action@, req.value),
{
    if !feature_media {
        return MediaPlan::Denied;
    }
    let action = req.action.as_str();
    if str_eq(action, "set_volume") {
        match req.value {
            Some(v) => MediaPlan::SetVolume(v),
            None => MediaPlan::NeedsValue,
        }
    } else if str_eq(action, "mute") {
        MediaPlan::SetMute(true)
    } else if str_eq(action, "unmute") {
        MediaPlan::SetMute(false)
    } else if str_eq(action, "toggle_mute") {
        MediaPlan::ToggleMute
    } else if str_eq(action, "play") || str_eq(action, "pause") || str_eq(action, "play_pause") {
        MediaPlan::Transport(TransportAction::PlayPause)
    } else if str_eq(action, "next") {
        MediaPlan::Transport(TransportAction::Next)
    } else if str_eq(action, "prev") || str_eq(action, "previous") {
        MediaPlan::Transport(TransportAction::Prev)
    } else if str_eq(action, "volume_up") {
        MediaPlan::Transport(TransportAction::VolumeUp)
    } else if str_eq(action, "volume_down") {
        MediaPlan::Transport(TransportAction::VolumeDown)
    } else {
        MediaPlan::Unsupported
    }
}

/// The processes a kill request addresses, from a `(pid, name)` table: the
/// given process id when it is present, else every process reading exactly
/// the given name, else nothing.
pub fn select_kill_targets(procs: &Vec<(u32, String)>, req: &KillRequest) -> (r: Vec<u32>)
    ensures
        match req.pid {
            Some(pid) => if exists|i: int| 0 <= i < procs@.len() && (#[trigger] procs@[i]).0 == pid {
                r@ == seq![pid]
            } else {
                r@.len() == 0
            },
            None => match req.name {
                Some(name) => r@ =~= procs@.filter(
                    |p: (u32, String)| p.1@ == name@,
                ).map_values(|p: (u32, String)| p.0),
                None => r@.len() == 0,
            },
        },
{
    let mut r: Vec<u32> = Vec::new();
    match req.pid {
        Some(pid) => {
            let mut found = false;
            let mut i: usize = 0;
            while i < procs.len()
                invariant
                    0 <= i <= procs@.len(),
                    found == exists|j: int| 0 <= j < i && (#[trigger] procs@[j]).0 == pid,
                decreases procs@.len() - i,
            {
                if procs[i].0 == pid {
                    found = true;
                    assert((#[trigger] procs@[i as int]).0 == pid);
                }
                i += 1;
            }
            if found {
                r.push(pid);
                assert(r@ == seq![pid]) by {
                    assert(r@ =~= seq![pid]);
                }
            }
            r
        },
        None => {
            match &req.name {
                Some(name) => {
                    let ghost pred = |p: (u32, String)| p.1@ == name@;
                    let mut i: usize = 0;
                    proof {
                        reveal(Seq::filter);
                        assert(procs@.take(0) =~= Seq::<(u32, String)>::empty());
                        assert(procs@.take(0).filter(pred) =~= Seq::<(u32, String)>::empty());
                        assert(r@ =~= procs@.take(0).filter(pred).map_values(
                            |p: (u32, String)| p.0,
                        ));
                    }
                    while i < procs.len()
                        invariant
                            pred == (|p: (u32, String)| p.1@ == name@),
                            0 <= i <= procs@.len(),
                            r@ =~= procs@.take(i as int).filter(pred).map_values(
                                |p: (u32, String)| p.0,
                            ),
                        decreases procs@.len() - i,
                    {
                        proof {
                            reveal(Seq::filter);
                            assert(procs@.take(i as int + 1).drop_last() =~= procs@.take(i as int));
                            assert(procs@.take(i as int + 1).last() == procs@[i as int]);
                        }
                        let ghost r_pre = r@;
                        if str_eq(procs[i].1.as_str(), name.as_str()) {
                            r.push(procs[i].0);
                            proof {
                                assert(procs@.take(i as int + 1).filter(pred) =~= procs@.take(
                                    i as int,
                                ).filter(pred).push(procs@[i as int]));
                                assert(r@ =~= procs@.take(i as int + 1).filter(pred).map_values(
                                    |p: (u32, String)| p.0,
                                ));
                            }
                        } else {
                            proof {
                                assert(procs@.take(i as int + 1).filter(pred) =~= procs@.take(
                                    i as int,
                                ).filter(pred));
                            }
                        }
                        i += 1;
                    }
                    proof {
                        assert(procs@.take(procs@.len() as int) =~= procs@);
                    }
                    r
                },
                None => r,
            }
        },
    }
}

/// The status a kill attempt reports: found targets succeed, none is a
/// missing process.
pub fn kill_status(count: usize) -> (r: u16)
    ensures
        count > 0 ==> r == 200,
        count == 0 ==> r == 404,
{
    if count > 0 {
        200
    } else {
        404
    }
}

/// Whether a process name satisfies a detail query: the query, case-folded,
/// occurs in the case-folded name.
pub fn name_matches_query(name: &str, query_lower: &str) -> (r: bool)
    ensures
        r == contains_sub(lower_seq(name@), query_lower@),
{
    contains_str(to_ascii_lower(name).as_str(), query_lower)
}

/// What the socket's command loop does with one inbound message.
pub enum WsCommandPlan {
    /// Swap the subscription set.
    Subscribe,
    /// Refuse: the family's capability is off; broadcast this feedback.
    Deny(OperationFeedback),
    /// Run the media plan and broadcast media feedback.
    Media(MediaPlan),
    /// Kill and broadcast process feedback.
    Kill,
    /// Launch and broadcast process feedback.
    Launch,
    /// Focus generates no feedback.
    Focus,
}

/// Decide one inbound socket message against the capability table: a
/// disabled capability turns into a broadcast failure feedback with the
/// denial message the family uses; everything else names the action to run.
pub fn ws_command_plan(msg: &WebSocketMessage, features: &FeaturesConfig) -> (r: WsCommandPlan)
    ensures
        msg is Subscribe ==> r is Subscribe,
        msg matches WebSocketMessage::Media(req) ==> if features.enable_media {
            r == WsCommandPlan::Media(spec_media_plan(true, req.action@, req.value))
        } else {
            r matches WsCommandPlan::Deny(fb) && (!fb.success && fb.action@ == req.action@
                && (fb.message matches Some(m) && m@ == "Media control disabled"@)
                && fb.pid is None && fb.name is None)
        },
        msg matches WebSocketMessage::ProcessKill(req) ==> if features.enable_processes {
            r is Kill
        } else {
            r matches WsCommandPlan::Deny(fb) && (!fb.success && fb.action@ == "kill"@
                && (fb.message matches Some(m) && m@ == "Process control disabled"@)
                && fb.pid == req.pid)
        },
        msg matches WebSocketMessage::ProcessLaunch(req) ==> if features.enable_processes {
            r is Launch
        } else {
            r matches WsCommandPlan::Deny(fb) && (!fb.success && fb.action@ == "launch"@
                && (fb.message matches Some(m) && m@ == "Process control disabled"@)
                && (fb.name matches Some(n) && n@ == req.path@))
        },
        msg is ProcessFocus ==> r is Focus,
{
    match msg {
        WebSocketMessage::Subscribe(_) => WsCommandPlan::Subscribe,
        WebSocketMessage::Media(req) => {
            if !features.enable_media {
                WsCommandPlan::Deny(
                    OperationFeedback {
                        success: false,
                        action: req.action.clone(),
                        message: Some(String::from_str("Media control disabled")),
                        pid: None,
                        name: None,
                    },
                )
            } else {
                WsCommandPlan::Media(media_control(true, req))
            }
        },
        WebSocketMessage::ProcessKill(req) => {
            if !features.enable_processes {
                WsCommandPlan::Deny(
                    OperationFeedback {
                        success: false,
                        action: String::from_str("kill"),
                        message: Some(String::from_str("Process control disabled")),
                        pid: req.pid,
                        name: match &req.name {
                            Some(n) => Some(n.clone()),
                            None => None,
                        },
                    },
                )
            } else {
                WsCommandPlan::Kill
            }
        },
        WebSocketMessage::ProcessLaunch(req) => {
            if !features.enable_processes {
                WsCommandPlan::Deny(
                    OperationFeedback {
                        success: false,
                        action: String::from_str("launch"),
                        message: Some(String::from_str("Process control disabled")),
                        pid: None,
                        name: Some(req.path.clone()),
                    },
                )
            } else {
                WsCommandPlan::Launch
            }
        },
        WebSocketMessage::ProcessFocus(_) => WsCommandPlan::Focus,
    }
}

/// The health endpoint's body, carrying the given version.
pub fn status_body(version: &str) -> (r: String)
    ensures
        r@ == "{\"status\":\"ok\",\"version\":\""@ + version@ + "\"}"@,
{
    let mut r = String::from_str("{\"status\":\"ok\",\"version\":\"");
    r.append(version);
    r.append("\"}");
    assert(r@ =~= "{\"status\":\"ok\",\"version\":\""@ + version@ + "\"}"@);
    r
}

/// The feedback a kill attempt broadcasts: the found process's name when one
/// was found, else the requested name; on failure the not-found message.
pub fn kill_feedback(
    success: bool,
    pid: Option<u32>,
    requested_name: Option<String>,
    found_name: Option<String>,
) -> (r: OperationFeedback)
    ensures
        r.success == success,
        r.action@ == "kill"@,
        r.pid == pid,
        success ==> r.message is None,
        !success ==> (r.message matches Some(m) && m@
            == "Process not found or could not be killed"@),
        r.name == if found_name is Some {
            found_name
        } else {
            requested_name
        },
{
    OperationFeedback {
        success,
        action: String::from_str("kill"),
        message: if success {
            None
        } else {
            Some(String::from_str("Process not found or could not be killed"))
        },
        pid,
        name: match found_name {
            Some(n) => Some(n),
            None => requested_name,
        },
    }
}

} // verus!
