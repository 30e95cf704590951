//! The background poller: one task per configured connection asks the
//! daemon for its torrents on a timer. This module holds its registry, the
//! request it sends, how a response is read, and the retry rule of a cycle.

use base64::Engine as _;
use vstd::prelude::*;
use vstd::string::{StrSliceExecFns, StringExecFns};
use vstd::utf8::encode_utf8;

use crate::http::{headers_view, strings_view, Header};

verus! {

/// How to reach one daemon.
pub struct Connection {
    pub url: String,
    pub username: String,
    pub password: String,
}

impl Clone for Connection {
    fn clone(&self) -> (r: Connection)
        ensures
            r.url@ == self.url@,
            r.username@ == self.username@,
            r.password@ == self.password@,
    {
        Connection { url: self.url.clone(), username: self.username.clone(), password: self.password.clone() }
    }
}

/// One configured poll: a name, a connection and an interval in seconds.
pub struct PollerConfig {
    pub name: String,
    pub connection: Connection,
    pub interval: u64,
}

/// What the registry keeps of a configuration: url, username, password and
/// interval.
pub open spec fn config_view(c: PollerConfig) -> (Seq<char>, Seq<char>, Seq<char>, u64) {
    (c.connection.url@, c.connection.username@, c.connection.password@, c.interval)
}

/// The configurations by name; a later one of the same name replaces an
/// earlier one.
pub open spec fn configs_by_name(cs: Seq<PollerConfig>) -> Map<
    Seq<char>,
    (Seq<char>, Seq<char>, Seq<char>, u64),
>
    decreases cs.len(),
{
    if cs.len() == 0 {
        Map::empty()
    } else {
        configs_by_name(cs.drop_last()).insert(cs.last().name@, config_view(cs.last()))
    }
}

struct PollerEntry {
    config: PollerConfig,
    session: Option<String>,
}

spec fn entries_configs(es: Seq<PollerEntry>) -> Seq<PollerConfig> {
    es.map_values(|e: PollerEntry| e.config)
}

spec fn names_unique(es: Seq<PollerEntry>) -> bool {
    forall|i: int, j: int| 0 <= i < j < es.len() ==> es[i].config.name@ != es[j].config.name@
}

pub open spec fn opt_view(o: Option<String>) -> Option<Seq<char>> {
    match o {
        Some(s) => Some(s@),
        None => None,
    }
}

spec fn sessions_of(es: Seq<PollerEntry>) -> Map<Seq<char>, Option<Seq<char>>>
    decreases es.len(),
{
    if es.len() == 0 {
        Map::empty()
    } else {
        sessions_of(es.drop_last()).insert(es.last().config.name@, opt_view(es.last().session))
    }
}

/// The configured polls, each with the session token it last saw.
pub struct Poller {
    configs: Vec<PollerEntry>,
    toast: bool,
    sound: bool,
}

proof fn lemma_update_entry(es: Seq<PollerEntry>, j: int, e: PollerEntry)
    requires
        names_unique(es),
        0 <= j < es.len(),
        es[j].config.name@ == e.config.name@,
    ensures
        configs_by_name(entries_configs(es.update(j, e))) == configs_by_name(entries_configs(es)).insert(
            e.config.name@,
            config_view(e.config),
        ),
        sessions_of(es.update(j, e)) == sessions_of(es).insert(e.config.name@, opt_view(e.session)),
    decreases es.len(),
{
    let u = es.update(j, e);
    assert(entries_configs(u).drop_last() =~= entries_configs(u.drop_last()));
    assert(entries_configs(es).drop_last() =~= entries_configs(es.drop_last()));
    if j == es.len() - 1 {
        assert(u.drop_last() =~= es.drop_last());
    } else {
        assert(u.drop_last() =~= es.drop_last().update(j, e));
        lemma_update_entry(es.drop_last(), j, e);
    }
    assert(configs_by_name(entries_configs(u)) =~= configs_by_name(entries_configs(es)).insert(
        e.config.name@,
        config_view(e.config),
    ));
    assert(sessions_of(u) =~= sessions_of(es).insert(e.config.name@, opt_view(e.session)));
}

proof fn lemma_entry_at(es: Seq<PollerEntry>, i: int)
    requires
        names_unique(es),
        0 <= i < es.len(),
    ensures
        configs_by_name(entries_configs(es)).contains_key(es[i].config.name@),
        configs_by_name(entries_configs(es))[es[i].config.name@] == config_view(es[i].config),
        sessions_of(es).contains_key(es[i].config.name@),
        sessions_of(es)[es[i].config.name@] == opt_view(es[i].session),
    decreases es.len(),
{
    assert(entries_configs(es).drop_last() =~= entries_configs(es.drop_last()));
    if i < es.len() - 1 {
        lemma_entry_at(es.drop_last(), i);
    }
}

proof fn lemma_entry_absent(es: Seq<PollerEntry>, n: Seq<char>)
    requires
        forall|i: int| 0 <= i < es.len() ==> es[i].config.name@ != n,
    ensures
        !configs_by_name(entries_configs(es)).contains_key(n),
        !sessions_of(es).contains_key(n),
    decreases es.len(),
{
    if es.len() > 0 {
        assert(entries_configs(es).drop_last() =~= entries_configs(es.drop_last()));
        lemma_entry_absent(es.drop_last(), n);
    }
}

impl Poller {
    /// The configurations by name.
    pub closed spec fn configs(&self) -> Map<Seq<char>, (Seq<char>, Seq<char>, Seq<char>, u64)> {
        configs_by_name(entries_configs(self.configs@))
    }

    /// The session token of each configured poll, by name.
    pub closed spec fn sessions(&self) -> Map<Seq<char>, Option<Seq<char>>> {
        sessions_of(self.configs@)
    }

    pub closed spec fn toast(&self) -> bool {
        self.toast
    }

    pub closed spec fn sound(&self) -> bool {
        self.sound
    }

    pub closed spec fn wf(&self) -> bool {
        names_unique(self.configs@)
    }

    /// No configuration.
    pub fn new() -> (r: Poller)
        ensures
            r.wf(),
            r.configs() == Map::<Seq<char>, (Seq<char>, Seq<char>, Seq<char>, u64)>::empty(),
            r.sessions() == Map::<Seq<char>, Option<Seq<char>>>::empty(),
            !r.toast(),
            !r.sound(),
    {
        let r = Poller { configs: Vec::new(), toast: false, sound: false };
        assert(entries_configs(r.configs@) =~= Seq::<PollerConfig>::empty());
        r
    }

    /// Replaces the whole configuration: every prior poll is dropped (its
    /// task is to be cancelled) and each new one starts without a session
    /// token. The names of the polls to run are `task_names`.
    pub fn set_configs(&mut self, configs: Vec<PollerConfig>, toast: bool, sound: bool)
        ensures
            final(self).wf(),
            final(self).configs() == configs_by_name(configs@),
            final(self).sessions() == configs_by_name(configs@).map_values(
                |c: (Seq<char>, Seq<char>, Seq<char>, u64)| None::<Seq<char>>,
            ),
            final(self).toast() == toast,
            final(self).sound() == sound,
    {
        self.toast = toast;
        self.sound = sound;
        let mut entries: Vec<PollerEntry> = Vec::new();
        let ghost cs = configs@;
        assert(entries_configs(entries@) =~= Seq::<PollerConfig>::empty());
        assert(cs.subrange(0, 0) =~= Seq::<PollerConfig>::empty());
        let mut i: usize = 0;
        while i < configs.len()
            invariant
                configs@ == cs,
                i <= cs.len(),
                names_unique(entries@),
                configs_by_name(entries_configs(entries@)) == configs_by_name(cs.subrange(0, i as int)),
                sessions_of(entries@) == configs_by_name(cs.subrange(0, i as int)).map_values(
                    |c: (Seq<char>, Seq<char>, Seq<char>, u64)| None::<Seq<char>>,
                ),
            decreases cs.len() - i,
        {
            let c = clone_config(&configs[i]);
            let ghost pre = cs.subrange(0, i as int);
            assert(cs.subrange(0, i + 1).drop_last() =~= pre);
            let e = PollerEntry { config: c, session: None };
            let ghost prev = entries@;
            match find_entry(&entries, &e.config.name) {
                Some(j) => {
                    proof {
                        lemma_update_entry(prev, j as int, e);
                    }
                    entries.set(j, e);
                },
                None => {
                    entries.push(e);
                    assert(entries@.drop_last() =~= prev);
                    assert(entries_configs(entries@).drop_last() =~= entries_configs(prev));
                },
            }
            assert(configs_by_name(entries_configs(entries@)) =~= configs_by_name(cs.subrange(0, i + 1)));
            assert(sessions_of(entries@) =~= configs_by_name(cs.subrange(0, i + 1)).map_values(
                |c: (Seq<char>, Seq<char>, Seq<char>, u64)| None::<Seq<char>>,
            ));
            i = i + 1;
        }
        assert(cs.subrange(0, cs.len() as int) =~= cs);
        self.configs = entries;
    }

    /// The names of the configured polls: one task runs for each.
    pub fn task_names(&self) -> (r: Vec<String>)
        requires
            self.wf(),
        ensures
            forall|n: Seq<char>| self.configs().contains_key(n) <==> strings_view(r@).contains(n),
            r@.len() == self.configs().len(),
    {
        let mut r: Vec<String> = Vec::new();
        let mut i: usize = 0;
        while i < self.configs.len()
            invariant
                i <= self.configs@.len(),
                names_unique(self.configs@),
                r@.len() == i,
                forall|k: int| 0 <= k < i ==> #[trigger] r@[k]@ == self.configs@[k].config.name@,
            decreases self.configs@.len() - i,
        {
            r.push(self.configs[i].config.name.clone());
            i = i + 1;
        }
        proof {
            let es = self.configs@;
            assert forall|n: Seq<char>| self.configs().contains_key(n) <==> strings_view(r@).contains(n) by {
                if strings_view(r@).contains(n) {
                    let k = choose|k: int| 0 <= k < strings_view(r@).len() && strings_view(r@)[k] == n;
                    lemma_entry_at(es, k);
                } else {
                    assert forall|k: int| 0 <= k < es.len() implies es[k].config.name@ != n by {
                        assert(strings_view(r@)[k] == n ==> strings_view(r@).contains(n));
                    }
                    lemma_entry_absent(es, n);
                }
            }
            lemma_names_dom(es);
        }
        r
    }

    /// What a poll of `name` sends with, copied out under the lock: its
    /// connection and the session token it last saw.
    pub fn poll_target(&self, name: &String) -> (r: Option<(Connection, Option<String>)>)
        requires
            self.wf(),
        ensures
            r is Some <==> self.configs().contains_key(name@),
            r is Some ==> {
                let (c, s) = r->0;
                &&& (c.url@, c.username@, c.password@) == (
                    self.configs()[name@].0,
                    self.configs()[name@].1,
                    self.configs()[name@].2,
                )
                &&& opt_view(s) == self.sessions()[name@]
            },
    {
        match find_entry(&self.configs, name) {
            Some(j) => {
                proof {
                    lemma_entry_at(self.configs@, j as int);
                }
                let e = &self.configs[j];
                let session = match &e.session {
                    Some(s) => Some(s.clone()),
                    None => None,
                };
                Some((e.config.connection.clone(), session))
            },
            None => {
                proof {
                    lemma_entry_absent(self.configs@, name@);
                }
                None
            },
        }
    }

    /// The interval of poll `name`, in seconds.
    pub fn interval(&self, name: &String) -> (r: Option<u64>)
        requires
            self.wf(),
        ensures
            r is Some <==> self.configs().contains_key(name@),
            r is Some ==> r->0 == self.configs()[name@].3,
    {
        match find_entry(&self.configs, name) {
            Some(j) => {
                proof {
                    lemma_entry_at(self.configs@, j as int);
                }
                Some(self.configs[j].config.interval)
            },
            None => {
                proof {
                    lemma_entry_absent(self.configs@, name@);
                }
                None
            },
        }
    }

    /// Whether completions found by the polls are announced, and sounded.
    pub fn notify_flags(&self) -> (r: (bool, bool))
        ensures
            r == (self.toast(), self.sound()),
    {
        (self.toast, self.sound)
    }

    /// Keeps `session` as the token of poll `name`, if it is still
    /// configured.
    pub fn store_session(&mut self, name: &String, session: String)
        requires
            old(self).wf(),
        ensures
            final(self).wf(),
            final(self).configs() == old(self).configs(),
            old(self).configs().contains_key(name@) ==> final(self).sessions() == old(self).sessions().insert(
                name@,
                Some(session@),
            ),
            !old(self).configs().contains_key(name@) ==> final(self).sessions() == old(self).sessions(),
            final(self).toast() == old(self).toast(),
            final(self).sound() == old(self).sound(),
    {
        match find_entry(&self.configs, name) {
            Some(j) => {
                let ghost es = self.configs@;
                let old_entry = &self.configs[j];
                let e = PollerEntry { config: clone_config(&old_entry.config), session: Some(session) };
                proof {
                    lemma_update_entry(es, j as int, e);
                    lemma_entry_at(es, j as int);
                }
                self.configs.set(j, e);
                proof {
                    assert(configs_by_name(entries_configs(self.configs@)) =~= configs_by_name(entries_configs(es)));
                    assert forall|a: int, b: int|
                        0 <= a < b < self.configs@.len() implies self.configs@[a].config.name@
                        != self.configs@[b].config.name@ by {
                        assert(es[a].config.name@ != es[b].config.name@);
                    }
                }
            },
            None => {
                proof {
                    lemma_entry_absent(self.configs@, name@);
                }
            },
        }
    }
}

proof fn lemma_names_dom(es: Seq<PollerEntry>)
    requires
        names_unique(es),
    ensures
        configs_by_name(entries_configs(es)).len() == es.len(),
        configs_by_name(entries_configs(es)).dom().finite(),
    decreases es.len(),
{
    if es.len() > 0 {
        assert(entries_configs(es).drop_last() =~= entries_configs(es.drop_last()));
        assert(names_unique(es.drop_last()));
        lemma_names_dom(es.drop_last());
        assert forall|i: int| 0 <= i < es.len() - 1 implies es.drop_last()[i].config.name@ != es.last().config.name@ by {
            assert(es[i].config.name@ != es[es.len() - 1].config.name@);
        }
        lemma_entry_absent(es.drop_last(), es.last().config.name@);
    }
}

fn clone_config(c: &PollerConfig) -> (r: PollerConfig)
    ensures
        r.name@ == c.name@,
        config_view(r) == config_view(*c),
{
    PollerConfig { name: c.name.clone(), connection: c.connection.clone(), interval: c.interval }
}

fn find_entry(es: &Vec<PollerEntry>, name: &String) -> (r: Option<usize>)
    ensures
        match r {
            Some(j) => j < es@.len() && es@[j as int].config.name@ == name@,
            None => forall|i: int| 0 <= i < es@.len() ==> es@[i].config.name@ != name@,
        },
{
    let mut j: usize = 0;
    while j < es.len()
        invariant
            j <= es@.len(),
            forall|i: int| 0 <= i < j ==> es@[i].config.name@ != name@,
        decreases es@.len() - j,
    {
        if es[j].config.name == *name {
            return Some(j);
        }
        j = j + 1;
    }
    None
}


/// What base64's standard engine makes of a byte string: padded standard
/// alphabet.
pub uninterp spec fn base64_of(b: Seq<u8>) -> Seq<char>;

/// Relies on `base64::engine::general_purpose::STANDARD.encode`: the padded
/// standard encoding, four characters for each started group of three
/// bytes. It panics when that length overflows, which `requires` leaves
/// out.
#[verifier::external_body]
pub(crate) fn encode_base64(b: &[u8]) -> (r: String)
    requires
        b@.len() <= usize::MAX / 2,
    ensures
        r@ == base64_of(b@),
        r@.len() == 4 * ((b@.len() + 2) / 3),
{
    base64::engine::general_purpose::STANDARD.encode(b)
}

/// The bytes that basic authentication encodes: `username:password`.
pub open spec fn credentials(c: Connection) -> Seq<u8> {
    encode_utf8(c.username@ + ":"@ + c.password@)
}

/// The credentials fit in memory twice over, as base64 needs.
pub open spec fn credentials_fit(c: Connection) -> bool {
    credentials(c).len() <= usize::MAX / 2
}

/// The `Authorization` value for a connection: none when both username and
/// password are empty, else basic authentication.
pub open spec fn basic_auth_of(c: Connection) -> Option<Seq<char>> {
    if c.username@.len() == 0 && c.password@.len() == 0 {
        None
    } else {
        Some("Basic "@ + base64_of(credentials(c)))
    }
}

/// The `Authorization` value for `connection`, if it has credentials.
pub fn basic_auth(connection: &Connection) -> (r: Option<String>)
    requires
        credentials_fit(*connection),
    ensures
        opt_view(r) == basic_auth_of(*connection),
{
    if connection.username.as_str().is_empty() && connection.password.as_str().is_empty() {
        return None;
    }
    let creds = connection.username.clone().concat(":").concat(connection.password.as_str());
    let encoded = encode_base64(creds.as_str().as_bytes());
    Some(String::from_str("Basic ").concat(encoded.as_str()))
}

/// The request body of a poll: `torrent-get` of ids, names and statuses.
pub const TORRENT_GET_BODY: &'static str = "
{
    \"method\": \"torrent-get\",
    \"arguments\": {
        \"fields\": [\"id\",\"name\",\"status\"]
    }
}";

/// One poll of a daemon.
pub struct PollRequest {
    pub url: String,
    pub headers: Vec<Header>,
    pub body: Vec<u8>,
}

/// The headers of a poll: compressed answers are accepted; the session
/// token and the credentials go along when there are any.
pub open spec fn poll_headers(c: Connection, session: Option<Seq<char>>) -> Seq<(Seq<char>, Seq<char>)> {
    seq![("accept-encoding"@, "gzip, deflate"@)] + (match session {
        Some(t) => seq![(crate::http::session_header_name(), t)],
        None => Seq::empty(),
    }) + (match basic_auth_of(c) {
        Some(a) => seq![("authorization"@, a)],
        None => Seq::empty(),
    })
}

/// The poll of `connection` with the session token last seen, if any.
pub fn poll_request(connection: &Connection, session: &Option<String>) -> (r: PollRequest)
    requires
        credentials_fit(*connection),
    ensures
        r.url@ == connection.url@,
        headers_view(r.headers@) == poll_headers(*connection, opt_view(*session)),
        r.body@ == encode_utf8(TORRENT_GET_BODY@),
{
    let mut headers: Vec<Header> = Vec::new();
    headers.push(Header { name: String::from_str("accept-encoding"), value: String::from_str("gzip, deflate") });
    let ghost h1 = headers_view(headers@);
    match session {
        Some(t) => headers.push(Header { name: String::from_str("x-transmission-session-id"), value: t.clone() }),
        None => {},
    }
    let ghost h2 = headers_view(headers@);
    match basic_auth(connection) {
        Some(a) => headers.push(Header { name: String::from_str("authorization"), value: a }),
        None => {},
    }
    assert(h1 =~= seq![("accept-encoding"@, "gzip, deflate"@)]);
    assert(h2 =~= h1 + match opt_view(*session) {
        Some(t) => seq![(crate::http::session_header_name(), t)],
        None => Seq::<(Seq<char>, Seq<char>)>::empty(),
    });
    assert(headers_view(headers@) =~= poll_headers(*connection, opt_view(*session)));
    PollRequest { url: connection.url.clone(), headers, body: crate::http::text_body(TORRENT_GET_BODY) }
}

/// How a poll's response reads: a success gives the session token it
/// carries (empty when it carries none) and is inspected; a 409 gives the
/// fresh token to retry with; anything else is a failure.
pub open spec fn poll_result(status: u16, session: Option<Seq<char>>) -> Result<
    Seq<char>,
    Option<Seq<char>>,
> {
    let token = match session {
        Some(t) => t,
        None => Seq::empty(),
    };
    if crate::proxy::is_success_status(status) {
        Ok(token)
    } else if status == crate::http::STATUS_CONFLICT {
        Err(Some(token))
    } else {
        Err(None)
    }
}

pub open spec fn result_view(r: Result<String, Option<String>>) -> Result<Seq<char>, Option<Seq<char>>> {
    match r {
        Ok(t) => Ok(t@),
        Err(e) => Err(opt_view(e)),
    }
}

/// Reads a poll's response from its status and its session header.
pub fn read_poll_response(status: u16, session: Option<String>) -> (r: Result<String, Option<String>>)
    ensures
        result_view(r) == poll_result(status, opt_view(session)),
{
    let token = match session {
        Some(t) => t,
        None => String::new(),
    };
    if 200 <= status && status < 300 {
        Ok(token)
    } else if status == crate::http::STATUS_CONFLICT {
        Err(Some(token))
    } else {
        Err(None)
    }
}

/// The next thing a poll cycle does.
pub enum CycleStep {
    /// Send a poll with this session token.
    Send(Option<String>),
    /// Keep this session token for the next cycle; the cycle is over.
    Store(String),
    /// The cycle is over; the token is kept as it was.
    Done,
}

/// One cycle's rule: a success keeps its token; a first 409 is retried once
/// with the token it brought; anything else ends the cycle.
pub open spec fn cycle_next(retried: bool, result: Result<String, Option<String>>) -> (bool, CycleStep) {
    match result {
        Ok(t) => (retried, CycleStep::Store(t)),
        Err(Some(t)) => if retried {
            (retried, CycleStep::Done)
        } else {
            (true, CycleStep::Send(Some(t)))
        },
        Err(None) => (retried, CycleStep::Done),
    }
}

/// The state of one poll cycle.
pub struct PollCycle {
    retried: bool,
}

impl PollCycle {
    pub closed spec fn retried(&self) -> bool {
        self.retried
    }

    /// A cycle that has not retried.
    pub fn new() -> (r: PollCycle)
        ensures
            !r.retried(),
    {
        PollCycle { retried: false }
    }

    /// The step after a poll that read as `result`.
    pub fn next(&mut self, result: Result<String, Option<String>>) -> (r: CycleStep)
        ensures
            (final(self).retried(), r) == cycle_next(old(self).retried(), result),
    {
        match result {
            Ok(t) => CycleStep::Store(t),
            Err(Some(t)) => if self.retried {
                CycleStep::Done
            } else {
                self.retried = true;
                CycleStep::Send(Some(t))
            },
            Err(None) => CycleStep::Done,
        }
    }
}

/// A poll that meets a 409 carrying token `fresh` is retried once, with
/// `fresh`; when the retry succeeds carrying `next`, `next` is kept and the
/// cycle ends. Of the two responses only the successful one is inspected. A
/// second 409 in the same cycle ends it without another retry.
pub proof fn lemma_conflict_then_success(
    fresh: String,
    next: String,
    first_status: u16,
    retry_status: u16,
    again: Result<String, Option<String>>,
)
    requires
        first_status == crate::http::STATUS_CONFLICT,
        crate::proxy::is_success_status(retry_status),
        again is Err,
    ensures
        poll_result(first_status, Some(fresh@)) == Err::<Seq<char>, Option<Seq<char>>>(Some(fresh@)),
        poll_result(retry_status, Some(next@)) == Ok::<Seq<char>, Option<Seq<char>>>(next@),
        cycle_next(false, Err(Some(fresh))) == (true, CycleStep::Send(Some(fresh))),
        cycle_next(true, Ok(next)) == (true, CycleStep::Store(next)),
        cycle_next(true, again).1 is Done,
{
}

} // verus!
