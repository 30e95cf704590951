use trgui_relay::commands::{is_torrent_name, may_remove, window_request_id};
use trgui_relay::geoip::{ip_list, lookup_reply, reject_bad_ips};
use trgui_relay::http::{allowed_origins, Header};
use trgui_relay::integrations::{app_integration_impl, integration_request, IntegrationRequest};
use trgui_relay::ipc::{local_address, ForwardVerdict, Ipc};
use trgui_relay::macos::{
    event_kind, listen_open_documents, listen_reopen_app, listen_url, set_handler, EventKind,
    HandlerError,
};
use trgui_relay::poller::{
    basic_auth, poll_request, read_poll_response, Connection, CycleStep, PollCycle, Poller,
    PollerConfig, TORRENT_GET_BODY,
};

fn conn(url: &str, user: &str, pass: &str) -> Connection {
    Connection { url: url.to_string(), username: user.to_string(), password: pass.to_string() }
}

fn config(name: &str, url: &str, interval: u64) -> PollerConfig {
    PollerConfig { name: name.to_string(), connection: conn(url, "", ""), interval }
}

#[test]
fn latch_holds_until_start_in_order() {
    let mut ipc = Ipc::new();
    ipc.init(true);
    assert!(ipc.is_listening());
    assert!(ipc.post_args(b"[\"one\"]".to_vec()).is_empty());
    assert!(ipc.post_args(b"[\"two\"]".to_vec()).is_empty());
    let delivered = ipc.start();
    assert_eq!(delivered, vec![b"[\"one\"]".to_vec(), b"[\"two\"]".to_vec()]);
    assert_eq!(ipc.post_args(b"[\"three\"]".to_vec()), vec![b"[\"three\"]".to_vec()]);
    ipc.pause();
    ipc.pause();
    assert!(ipc.post_args(b"[\"four\"]".to_vec()).is_empty());
    assert_eq!(ipc.start(), vec![b"[\"four\"]".to_vec()]);
    assert!(ipc.start().is_empty());
}

#[test]
fn listener_lifecycle() {
    let mut ipc = Ipc::new();
    assert_eq!(ipc.post_args(b"x".to_vec()), vec![b"x".to_vec()]);
    ipc.init(false);
    assert_eq!(ipc.listen(), Err("No TCP listener".to_string()));
    assert!(!ipc.stop());
    let mut ipc = Ipc::new();
    ipc.init(true);
    assert_eq!(ipc.listen(), Ok(()));
    assert!(ipc.stop());
    assert!(!ipc.is_listening());
    assert!(!ipc.stop());
}

#[test]
fn hand_off_to_primary() {
    let mut secondary = Ipc::new();
    secondary.init(false);
    let fwd = secondary.send(&vec!["a.torrent".to_string(), "magnet:?xt".to_string()]);
    assert_eq!(fwd.url, "http://127.0.0.1:44321/args");
    assert_eq!(fwd.body, b"[\"a.torrent\",\"magnet:?xt\"]".to_vec());
    assert!(fwd.exit_after);
    assert_eq!(secondary.after_forward(true), ForwardVerdict::Exit);
    assert_eq!(secondary.after_forward(false), ForwardVerdict::BecomePrimary);
    let mut primary = Ipc::new();
    primary.init(true);
    assert!(!primary.send(&vec![]).exit_after);
    assert_eq!(primary.send(&vec![]).body, b"[]".to_vec());
    assert_eq!(primary.after_forward(false), ForwardVerdict::Stay);
    assert_eq!(local_address(), "127.0.0.1:44321");
}

#[test]
fn basic_authentication() {
    assert_eq!(basic_auth(&conn("u", "user", "pass")), Some("Basic dXNlcjpwYXNz".to_string()));
    assert_eq!(basic_auth(&conn("u", "", "p")), Some("Basic OnA=".to_string()));
    assert_eq!(basic_auth(&conn("u", "", "")), None);
}

#[test]
fn poll_request_headers() {
    let r = poll_request(&conn("http://d:9091/transmission/rpc", "a", "b"), &Some("tok".to_string()));
    assert_eq!(r.url, "http://d:9091/transmission/rpc");
    let hs: Vec<(String, String)> = r.headers.iter().map(|h| (h.name.clone(), h.value.clone())).collect();
    assert_eq!(
        hs,
        vec![
            ("accept-encoding".to_string(), "gzip, deflate".to_string()),
            ("x-transmission-session-id".to_string(), "tok".to_string()),
            ("authorization".to_string(), "Basic YTpi".to_string()),
        ]
    );
    assert_eq!(r.body, TORRENT_GET_BODY.as_bytes().to_vec());
    let r = poll_request(&conn("http://d", "", ""), &None);
    assert_eq!(r.headers.len(), 1);
}

#[test]
fn poll_responses() {
    assert_eq!(read_poll_response(200, Some("t".to_string())), Ok("t".to_string()));
    assert_eq!(read_poll_response(204, None), Ok(String::new()));
    assert_eq!(read_poll_response(409, None), Err(Some(String::new())));
    assert_eq!(read_poll_response(500, Some("t".to_string())), Err(None));
}

#[test]
fn one_retry_per_cycle() {
    let mut cycle = PollCycle::new();
    assert!(matches!(cycle.next(Err(Some("a".to_string()))), CycleStep::Send(Some(ref s)) if s == "a"));
    assert!(matches!(cycle.next(Err(Some("b".to_string()))), CycleStep::Done));
    let mut cycle = PollCycle::new();
    assert!(matches!(cycle.next(Err(None)), CycleStep::Done));
}

#[test]
fn poller_registry() {
    let mut poller = Poller::new();
    poller.set_configs(
        vec![config("a", "http://one", 5), config("b", "http://two", 7), config("a", "http://three", 9)],
        true,
        false,
    );
    let mut names = poller.task_names();
    names.sort();
    assert_eq!(names, vec!["a".to_string(), "b".to_string()]);
    assert_eq!(poller.interval(&"a".to_string()), Some(9));
    assert_eq!(poller.interval(&"c".to_string()), None);
    assert_eq!(poller.notify_flags(), (true, false));
    let (c, s) = poller.poll_target(&"a".to_string()).unwrap();
    assert_eq!((c.url.as_str(), s), ("http://three", None));
    poller.store_session(&"a".to_string(), "tok".to_string());
    assert_eq!(poller.poll_target(&"a".to_string()).unwrap().1, Some("tok".to_string()));
    assert_eq!(poller.poll_target(&"b".to_string()).unwrap().1, None);
    poller.store_session(&"zzz".to_string(), "tok".to_string());
    assert!(poller.poll_target(&"zzz".to_string()).is_none());
    poller.set_configs(vec![config("b", "http://two", 7)], false, true);
    assert_eq!(poller.task_names(), vec!["b".to_string()]);
    assert_eq!(poller.poll_target(&"b".to_string()).unwrap().1, None);
}

#[test]
fn ip_lists() {
    let req: Vec<Header> = vec![];
    let al = allowed_origins(false);
    assert_eq!(ip_list(&b"[\"1.2.3.4\",\"::1\"]".to_vec(), &req, &al).ok().unwrap(), vec!["1.2.3.4", "::1"]);
    let bad = ip_list(&b"{\"a\":1}".to_vec(), &req, &al).err().unwrap();
    assert_eq!(bad.status, 400);
    assert!(bad.body.starts_with(b"INVALID REQUEST: Can not parse json: "));
    assert!(bad.body.ends_with(b"\n"));
}

#[test]
fn bad_ips_are_listed_together() {
    let req: Vec<Header> = vec![];
    let al = allowed_origins(false);
    let ips = vec!["1.2.3.4".to_string(), "nope".to_string(), "::1".to_string(), "x".to_string()];
    let errs = vec![None, Some("invalid IP address syntax".to_string()), None, Some("invalid IP address syntax".to_string())];
    let r = reject_bad_ips(&ips, &errs, &req, &al).unwrap();
    assert_eq!(r.status, 400);
    assert_eq!(
        r.body,
        b"INVALID REQUEST: nope: invalid IP address syntax\nx: invalid IP address syntax\n".to_vec()
    );
    assert!(reject_bad_ips(&ips, &vec![None, None, None, None], &req, &al).is_none());
    let ok = lookup_reply("[{\"ip\":\"1.2.3.4\"}]".to_string(), &req, &al);
    assert_eq!((ok.status, ok.body.as_slice()), (200, b"[{\"ip\":\"1.2.3.4\"}]".as_slice()));
}

#[test]
fn apple_events() {
    let u = listen_url();
    assert_eq!((u.class, u.id), (0x4755524c, 0x4755524c));
    let d = listen_open_documents();
    assert_eq!((d.class, d.id), (0x61657674, 0x6F646F63));
    let r = listen_reopen_app();
    assert_eq!((r.class, r.id), (0x61657674, 0x72617070));
    assert_eq!(event_kind(u.class, u.id), EventKind::Url);
    assert_eq!(event_kind(d.class, d.id), EventKind::Documents);
    assert_eq!(event_kind(r.class, r.id), EventKind::Other);
}

#[test]
fn handler_is_set_once() {
    let mut slot: Option<u32> = None;
    assert_eq!(set_handler(&mut slot, 1), Ok(()));
    assert_eq!(set_handler(&mut slot, 2), Err(HandlerError::AlreadyExists));
    assert_eq!(HandlerError::AlreadyExists.message(), "Handler was already set");
    assert_eq!(slot, Some(1));
}

#[test]
fn integration_modes() {
    assert_eq!(integration_request(&"torrent".to_string()), IntegrationRequest::AssociateTorrent);
    assert_eq!(integration_request(&"magnet".to_string()), IntegrationRequest::AssociateMagnet);
    assert_eq!(integration_request(&"autostart".to_string()), IntegrationRequest::Autostart);
    assert_eq!(integration_request(&"noautostart".to_string()), IntegrationRequest::NoAutostart);
    assert_eq!(integration_request(&"getautostart".to_string()), IntegrationRequest::GetAutostart);
    assert_eq!(integration_request(&"other".to_string()), IntegrationRequest::Unknown);
    assert!(!app_integration_impl("getautostart".to_string()));
}

#[test]
fn window_labels() {
    assert_eq!(window_request_id("createtorrent-12"), Ok(12));
    assert_eq!(window_request_id("createtorrent--3"), Err("Incorrect window label".to_string()));
    assert_eq!(window_request_id("main"), Err("Incorrect window label".to_string()));
    assert_eq!(window_request_id("createtorrent-x"), Err("Incorrect window label".to_string()));
}

#[test]
fn removable_files() {
    assert!(may_remove("/tmp/Some.TORRENT"));
    assert!(may_remove("a.torrent"));
    assert!(!may_remove("a.torrent.part"));
    assert!(!may_remove("torrent"));
    assert!(is_torrent_name(".torrent"));
    assert!(!is_torrent_name("A.TORRENT"));
}
