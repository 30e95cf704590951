use trgui_relay::poller::{read_poll_response, CycleStep, PollCycle};
use trgui_relay::cache::{process_response, Arguments, Inspection, ServerResponse, TorrentState, TorrentCache};

fn t(id: i64, name: &str, status: i64) -> TorrentState {
    TorrentState { id, name: name.to_string(), status }
}

fn names(r: &Inspection) -> Vec<String> {
    let mut v: Vec<String> = r.notifications.iter().map(|t| t.name.clone()).collect();
    v.sort();
    v
}

fn success(torrents: Vec<TorrentState>) -> ServerResponse {
    ServerResponse { result: "success".to_string(), arguments: Some(Arguments { torrents }) }
}

#[test]
fn first_observation_reports_nothing() {
    let mut cache = TorrentCache::new();
    let r = cache.process_torrents(vec![t(1, "A", 6), t(2, "B", 6)], "http://d/rpc", true, true);
    assert!(r.notifications.is_empty());
    assert!(!r.play_sound);
}

#[test]
fn partial_update_carries_forward_and_completes() {
    let mut cache = TorrentCache::new();
    let origin = "http://daemon:9091/transmission/rpc";
    cache.process_torrents(vec![t(1, "A", 4), t(2, "B", 6)], origin, true, true);
    let r = cache.process_torrents(vec![t(1, "A", 6)], origin, true, true);
    assert_eq!(names(&r), vec!["A".to_string()]);
    assert_eq!(r.notifications[0].id, 1);
    assert!(r.play_sound);
    // id 2 was carried forward: a later full poll that moves it is judged
    // against status 6, and id 1 against its new status 6.
    let r = cache.process_torrents(vec![t(1, "A", 6), t(2, "B", 4)], origin, true, true);
    assert!(r.notifications.is_empty());
    let r = cache.process_torrents(vec![t(1, "A", 6), t(2, "B", 6)], origin, true, true);
    assert_eq!(names(&r), vec!["B".to_string()]);
}

#[test]
fn full_update_prunes_missing_torrents() {
    let mut cache = TorrentCache::new();
    let origin = "o";
    cache.process_torrents(vec![t(1, "A", 4), t(2, "B", 4)], origin, true, false);
    // A full update without id 2 drops it.
    cache.process_torrents(vec![t(1, "A", 4), t(3, "C", 4)], origin, true, false);
    let r = cache.process_torrents(vec![t(2, "B", 6), t(3, "C", 6)], origin, true, false);
    assert_eq!(names(&r), vec!["C".to_string()]);
    assert!(!r.play_sound);
}

#[test]
fn renamed_torrent_does_not_complete() {
    let mut cache = TorrentCache::new();
    cache.process_torrents(vec![t(1, "A", 4), t(2, "B", 4)], "o", true, true);
    let r = cache.process_torrents(vec![t(1, "Other", 6), t(2, "B", 5)], "o", true, true);
    assert_eq!(names(&r), vec!["B".to_string()]);
    assert!(r.play_sound);
}

#[test]
fn status_must_have_been_downloading() {
    let mut cache = TorrentCache::new();
    cache.process_torrents(vec![t(1, "A", 3), t(2, "B", 4)], "o", true, true);
    let r = cache.process_torrents(vec![t(1, "A", 6), t(2, "B", 4)], "o", true, true);
    assert!(r.notifications.is_empty());
    assert!(!r.play_sound);
}

#[test]
fn toast_off_still_sounds_once_per_batch() {
    let mut cache = TorrentCache::new();
    cache.process_torrents(vec![t(1, "A", 4), t(2, "B", 4)], "o", false, true);
    let r = cache.process_torrents(vec![t(1, "A", 6), t(2, "B", 6)], "o", false, true);
    assert!(r.notifications.is_empty());
    assert!(r.play_sound);
}

#[test]
fn two_completions_in_one_batch() {
    let mut cache = TorrentCache::new();
    cache.process_torrents(vec![t(1, "A", 4), t(2, "B", 4), t(3, "C", 4)], "o", true, false);
    let r = cache.process_torrents(vec![t(1, "A", 6), t(2, "B", 5), t(3, "C", 4)], "o", true, false);
    assert_eq!(names(&r), vec!["A".to_string(), "B".to_string()]);
    assert!(!r.play_sound);
}

#[test]
fn origins_are_kept_apart() {
    let mut cache = TorrentCache::new();
    cache.process_torrents(vec![t(1, "A", 4), t(2, "B", 4)], "one", true, true);
    let r = cache.process_torrents(vec![t(1, "A", 6), t(2, "B", 6)], "two", true, true);
    assert!(r.notifications.is_empty());
    let r = cache.process_torrents(vec![t(1, "A", 6), t(2, "B", 4)], "one", true, true);
    assert_eq!(names(&r), vec!["A".to_string()]);
}

#[test]
fn duplicate_ids_last_occurrence_wins() {
    let mut cache = TorrentCache::new();
    cache.process_torrents(vec![t(1, "A", 6), t(1, "A", 4), t(2, "B", 4)], "o", true, true);
    let r = cache.process_torrents(vec![t(1, "A", 6), t(2, "B", 4)], "o", true, true);
    assert_eq!(names(&r), vec!["A".to_string()]);
}

#[test]
fn empty_payload_keeps_everything() {
    let mut cache = TorrentCache::new();
    cache.process_torrents(vec![t(1, "A", 4), t(2, "B", 4)], "o", true, true);
    let r = cache.process_torrents(vec![], "o", true, true);
    assert!(r.notifications.is_empty());
    let r = cache.process_torrents(vec![t(1, "A", 6), t(2, "B", 6)], "o", true, true);
    assert_eq!(names(&r), vec!["A".to_string(), "B".to_string()]);
}

#[test]
fn non_success_response_is_ignored() {
    let mut cache = TorrentCache::new();
    let r = process_response(&mut cache, success(vec![t(1, "A", 4), t(2, "B", 4)]), "o", true, true);
    assert!(r.notifications.is_empty());
    let failed = ServerResponse {
        result: "no such method".to_string(),
        arguments: Some(Arguments { torrents: vec![t(1, "A", 6), t(2, "B", 6)] }),
    };
    let r = process_response(&mut cache, failed, "o", true, true);
    assert!(r.notifications.is_empty());
    assert!(!r.play_sound);
    // The cache still holds the downloading snapshot.
    let r = process_response(&mut cache, success(vec![t(1, "A", 6), t(2, "B", 6)]), "o", true, true);
    assert_eq!(names(&r), vec!["A".to_string(), "B".to_string()]);
}

#[test]
fn response_without_arguments_is_ignored() {
    let mut cache = TorrentCache::new();
    process_response(&mut cache, success(vec![t(1, "A", 4), t(2, "B", 4)]), "o", true, true);
    let bare = ServerResponse { result: "success".to_string(), arguments: None };
    let r = process_response(&mut cache, bare, "o", true, true);
    assert!(r.notifications.is_empty());
    let r = process_response(&mut cache, success(vec![t(1, "A", 6), t(2, "B", 4)]), "o", true, true);
    assert_eq!(names(&r), vec!["A".to_string()]);
}

#[test]
fn conflict_retry_inspects_once() {
    let mut cache = TorrentCache::new();
    process_response(&mut cache, success(vec![t(1, "A", 4), t(2, "B", 4)]), "o", true, true);
    let mut cycle = PollCycle::new();
    let mut inspections = 0;
    let first = read_poll_response(409, Some("fresh".to_string()));
    assert_eq!(first, Err(Some("fresh".to_string())));
    let step = cycle.next(first);
    let session = match step {
        CycleStep::Send(s) => s,
        _ => panic!("a conflict is retried"),
    };
    assert_eq!(session, Some("fresh".to_string()));
    let second = read_poll_response(200, Some("fresh".to_string()));
    if second.is_ok() {
        inspections += 1;
        let r = process_response(&mut cache, success(vec![t(1, "A", 6), t(2, "B", 4)]), "o", true, true);
        assert_eq!(names(&r), vec!["A".to_string()]);
    }
    match cycle.next(second) {
        CycleStep::Store(s) => assert_eq!(s, "fresh"),
        _ => panic!("a success stores its token"),
    }
    assert_eq!(inspections, 1);
}
