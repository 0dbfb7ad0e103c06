//! The topic grammar, the registry refcounts and the loop engine: expansion,
//! demand, lazy starts and idle stops.

use bridge::engine::Engine;
use bridge::types::{status_after_bind, status_after_serve, ServerStatus};
use bridge::registry::TopicRegistry;
use bridge::session::Session;
use bridge::topics::{expand_topic, expand_topic_set, family_of, TopicFamily};

fn strings(v: &[&str]) -> Vec<String> {
    v.iter().map(|s| s.to_string()).collect()
}

#[test]
fn expand_stats_umbrella() {
    let r = expand_topic("stats");
    assert_eq!(
        r,
        strings(&[
            "stats",
            "stats.cpu",
            "stats.memory",
            "stats.gpu",
            "stats.disks",
            "stats.network",
            "cpu",
            "memory",
            "gpu",
            "disks",
            "network",
        ])
    );
}

#[test]
fn expand_legacy_aliases() {
    assert_eq!(expand_topic("cpu"), strings(&["cpu", "stats.cpu"]));
    assert_eq!(expand_topic("net"), strings(&["network", "stats.network"]));
    assert_eq!(expand_topic("network"), strings(&["network", "stats.network"]));
    assert_eq!(expand_topic("memory"), strings(&["memory", "stats.memory"]));
    assert_eq!(expand_topic("process"), strings(&["processes", "process"]));
    // the plural canonical name is not an alias
    assert_eq!(expand_topic("processes"), strings(&["processes"]));
}

#[test]
fn unknown_topic_passes_verbatim() {
    assert_eq!(expand_topic("weather"), strings(&["weather"]));
    assert_eq!(expand_topic("stats.media"), strings(&["stats.media"]));
}

#[test]
fn expansion_set_folds_case_and_dedupes() {
    let r = expand_topic_set(&strings(&["CPU", "cpu", "Stats.CPU"]));
    assert_eq!(r, strings(&["cpu", "stats.cpu"]));
}

#[test]
fn families_of_topics() {
    assert_eq!(family_of("stats.gpu"), Some(TopicFamily::Stats));
    assert_eq!(family_of("system"), Some(TopicFamily::Stats));
    assert_eq!(family_of("stats.media"), Some(TopicFamily::Media));
    assert_eq!(family_of("process"), Some(TopicFamily::Processes));
    assert_eq!(family_of("weather"), None);
}

#[test]
fn registry_counts_and_transitions() {
    let mut reg = TopicRegistry::new();
    let started = reg.subscribe_topics(&strings(&["cpu", "stats.cpu"]));
    assert_eq!(started, strings(&["cpu", "stats.cpu"]));
    assert_eq!(reg.get_count("cpu"), 1);
    let started2 = reg.subscribe_topics(&strings(&["cpu"]));
    assert!(started2.is_empty());
    assert_eq!(reg.get_count("cpu"), 2);
    let stopped = reg.unsubscribe_topics(&strings(&["cpu"]));
    assert!(stopped.is_empty());
    assert_eq!(reg.get_count("cpu"), 1);
    let stopped2 = reg.unsubscribe_topics(&strings(&["cpu", "stats.cpu"]));
    assert_eq!(stopped2, strings(&["cpu", "stats.cpu"]));
    assert_eq!(reg.get_count("cpu"), 0);
}

#[test]
fn unsubscribe_clamps_at_zero() {
    let mut reg = TopicRegistry::new();
    let stopped = reg.unsubscribe_topics(&strings(&["cpu"]));
    assert!(stopped.is_empty());
    assert_eq!(reg.get_count("cpu"), 0);
}

#[test]
fn engine_spawns_on_first_subscriber_and_stops_on_last() {
    let mut engine = Engine::new();
    let spawns = engine.subscribe_topics(&strings(&["stats.cpu"]));
    assert_eq!(spawns, vec![TopicFamily::Stats]);
    // a second subscriber starts nothing new
    let spawns2 = engine.subscribe_topics(&strings(&["stats.cpu"]));
    assert!(spawns2.is_empty());
    let stops = engine.unsubscribe_topics(&strings(&["stats.cpu"]));
    assert!(stops.is_empty());
    let stops2 = engine.unsubscribe_topics(&strings(&["stats.cpu"]));
    assert_eq!(stops2, vec![TopicFamily::Stats]);
}

#[test]
fn two_sessions_share_one_loop() {
    // two wire clients hold stats; the loop survives the first disconnect and
    // ends with the second
    let mut engine = Engine::new();
    let mut a = Session::new();
    let mut b = Session::new();
    let (_, spawned_a) = a.apply_subscribe(&mut engine, &strings(&["stats"]));
    assert_eq!(spawned_a, vec![TopicFamily::Stats]);
    let (_, spawned_b) = b.apply_subscribe(&mut engine, &strings(&["stats"]));
    assert!(spawned_b.is_empty());
    let stops_a = a.cleanup(&mut engine);
    assert!(stops_a.is_empty());
    let stops_b = b.cleanup(&mut engine);
    assert_eq!(stops_b, vec![TopicFamily::Stats]);
}

#[test]
fn empty_replacement_drops_demand() {
    // replacing a subscription with the empty set ends the family's loop
    let mut engine = Engine::new();
    let mut s = Session::new();
    let (_, spawned) = s.apply_subscribe(&mut engine, &strings(&["stats.cpu"]));
    assert_eq!(spawned, vec![TopicFamily::Stats]);
    let empty: Vec<String> = Vec::new();
    let (stopped, spawned2) = s.apply_subscribe(&mut engine, &empty);
    assert_eq!(stopped, vec![TopicFamily::Stats]);
    assert!(spawned2.is_empty());
}

#[test]
fn refcounts_follow_sessions() {
    // the registry count of each topic equals the number of sessions holding it
    let mut engine = Engine::new();
    let mut a = Session::new();
    let mut b = Session::new();
    a.apply_subscribe(&mut engine, &strings(&["cpu"]));
    b.apply_subscribe(&mut engine, &strings(&["cpu", "media"]));
    assert_eq!(engine.registry.get_count("cpu"), 2);
    assert_eq!(engine.registry.get_count("stats.cpu"), 2);
    assert_eq!(engine.registry.get_count("media"), 1);
    a.cleanup(&mut engine);
    assert_eq!(engine.registry.get_count("cpu"), 1);
    assert_eq!(engine.registry.get_count("media"), 1);
}

#[test]
fn listener_states_resolve() {
    assert!(matches!(status_after_bind(true, String::new()), ServerStatus::Running));
    assert!(matches!(status_after_bind(false, "no port".to_string()), ServerStatus::Error(_)));
    assert!(matches!(status_after_serve(true, String::new()), ServerStatus::Stopped));
    assert!(matches!(status_after_serve(false, "boom".to_string()), ServerStatus::Error(_)));
}

#[test]
fn process_alias_holds_both_names() {
    let mut engine = Engine::new();
    let mut s = Session::new();
    let (_, spawned) = s.apply_subscribe(&mut engine, &strings(&["process"]));
    assert_eq!(spawned, vec![TopicFamily::Processes]);
    assert_eq!(engine.registry.get_count("processes"), 1);
    assert_eq!(engine.registry.get_count("process"), 1);
    s.cleanup(&mut engine);
    assert_eq!(engine.registry.get_count("processes"), 0);
}

#[test]
fn cleanup_twice_is_a_no_op() {
    let mut engine = Engine::new();
    let mut s = Session::new();
    s.apply_subscribe(&mut engine, &strings(&["processes"]));
    assert_eq!(engine.registry.get_count("processes"), 1);
    let stops = s.cleanup(&mut engine);
    assert_eq!(stops, vec![TopicFamily::Processes]);
    assert_eq!(engine.registry.get_count("processes"), 0);
    let stops2 = s.cleanup(&mut engine);
    assert!(stops2.is_empty());
    assert_eq!(engine.registry.get_count("processes"), 0);
}
