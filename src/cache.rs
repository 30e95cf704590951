//! The inspection cache: per origin, the last seen snapshot of torrents,
//! and the detection of download completions between two snapshots.

use vstd::prelude::*;
use vstd::string::StringExecFns;

verus! {

/// One torrent as the daemon reports it.
pub struct TorrentState {
    pub id: i64,
    pub name: String,
    pub status: i64,
}

impl Clone for TorrentState {
    fn clone(&self) -> (r: TorrentState)
        ensures
            r.id == self.id,
            r.name@ == self.name@,
            r.status == self.status,
    {
        TorrentState { id: self.id, name: self.name.clone(), status: self.status }
    }
}

/// Status code of a torrent that is downloading.
pub const STATUS_DOWNLOADING: i64 = 4;

/// What a snapshot keeps of one torrent: its name and its status.
pub open spec fn entry_of(t: TorrentState) -> (Seq<char>, i64) {
    (t.name@, t.status)
}

/// The snapshot that a payload describes: each id maps to its last
/// occurrence in the payload.
pub open spec fn snapshot_of(ts: Seq<TorrentState>) -> Map<i64, (Seq<char>, i64)>
    decreases ts.len(),
{
    if ts.len() == 0 {
        Map::empty()
    } else {
        snapshot_of(ts.drop_last()).insert(ts.last().id, entry_of(ts.last()))
    }
}

pub open spec fn ids_unique(ts: Seq<TorrentState>) -> bool {
    forall|i: int, j: int| 0 <= i < j < ts.len() ==> ts[i].id != ts[j].id
}

pub open spec fn has_id(ts: Seq<TorrentState>, k: i64) -> bool {
    exists|i: int| 0 <= i < ts.len() && ts[i].id == k
}

/// A payload of at most one torrent is taken for a detail request: torrents
/// that it does not mention are kept from the prior snapshot.
pub open spec fn is_partial(ts: Seq<TorrentState>) -> bool {
    ts.len() <= 1
}

/// The snapshot that replaces `prior` once `ts` has been inspected.
pub open spec fn next_snapshot(
    prior: Option<Map<i64, (Seq<char>, i64)>>,
    ts: Seq<TorrentState>,
) -> Map<i64, (Seq<char>, i64)> {
    match prior {
        Some(prev) => if is_partial(ts) {
            prev.union_prefer_right(snapshot_of(ts))
        } else {
            snapshot_of(ts)
        },
        None => snapshot_of(ts),
    }
}

/// The cache after inspecting payload `ts` of `origin`: that origin's
/// snapshot is replaced, the others are kept.
pub open spec fn inspected(
    cache: Map<Seq<char>, Map<i64, (Seq<char>, i64)>>,
    origin: Seq<char>,
    ts: Seq<TorrentState>,
) -> Map<Seq<char>, Map<i64, (Seq<char>, i64)>> {
    cache.insert(origin, next_snapshot(cache.get(origin), ts))
}

/// The cache after inspecting each payload of `payloads` in turn, all of
/// `origin`.
pub open spec fn inspected_all(
    cache: Map<Seq<char>, Map<i64, (Seq<char>, i64)>>,
    origin: Seq<char>,
    payloads: Seq<Seq<TorrentState>>,
) -> Map<Seq<char>, Map<i64, (Seq<char>, i64)>>
    decreases payloads.len(),
{
    if payloads.len() == 0 {
        cache
    } else {
        inspected(inspected_all(cache, origin, payloads.drop_last()), origin, payloads.last())
    }
}

/// TorrentState `k` went from downloading to seeding (or queued to seed, or
/// complete) under the same name between `old` and `new`.
pub open spec fn is_completion(
    prev: Map<i64, (Seq<char>, i64)>,
    next: Map<i64, (Seq<char>, i64)>,
    k: i64,
) -> bool {
    &&& prev.contains_key(k)
    &&& next.contains_key(k)
    &&& prev[k].0 == next[k].0
    &&& prev[k].1 == STATUS_DOWNLOADING
    &&& next[k].1 > STATUS_DOWNLOADING
}

/// Some torrent completed between the prior snapshot (if any) and payload `ts`.
pub open spec fn any_completion(prior: Option<Map<i64, (Seq<char>, i64)>>, ts: Seq<TorrentState>) -> bool {
    &&& prior is Some
    &&& exists|k: i64| #[trigger] is_completion(prior->0, snapshot_of(ts), k)
}

/// The completed torrents that `r` lists are exactly those between the prior
/// snapshot (if any) and payload `ts`, each once, as the payload has it.
pub open spec fn lists_completions(
    r: Seq<TorrentState>,
    prior: Option<Map<i64, (Seq<char>, i64)>>,
    ts: Seq<TorrentState>,
) -> bool {
    &&& ids_unique(r)
    &&& forall|i: int| 0 <= i < r.len() ==> snapshot_of(ts).contains_key(#[trigger] r[i].id)
        && snapshot_of(ts)[r[i].id] == entry_of(r[i])
    &&& forall|k: i64| has_id(r, k) <==> match prior {
        Some(prev) => is_completion(prev, snapshot_of(ts), k),
        None => false,
    }
}

proof fn lemma_snapshot_dom(ts: Seq<TorrentState>, k: i64)
    ensures
        snapshot_of(ts).contains_key(k) <==> has_id(ts, k),
    decreases ts.len(),
{
    if ts.len() > 0 {
        lemma_snapshot_dom(ts.drop_last(), k);
        if has_id(ts, k) && ts.last().id != k {
            let i = choose|i: int| 0 <= i < ts.len() && ts[i].id == k;
            assert(ts.drop_last()[i].id == k);
        }
        if has_id(ts.drop_last(), k) {
            let i = choose|i: int| 0 <= i < ts.len() - 1 && ts.drop_last()[i].id == k;
            assert(ts[i].id == k);
        }
    }
}

proof fn lemma_snapshot_at(ts: Seq<TorrentState>, i: int)
    requires
        ids_unique(ts),
        0 <= i < ts.len(),
    ensures
        snapshot_of(ts).contains_key(ts[i].id),
        snapshot_of(ts)[ts[i].id] == entry_of(ts[i]),
    decreases ts.len(),
{
    if i < ts.len() - 1 {
        lemma_snapshot_at(ts.drop_last(), i);
    }
}

proof fn lemma_snapshot_update(ts: Seq<TorrentState>, j: int, t: TorrentState)
    requires
        ids_unique(ts),
        0 <= j < ts.len(),
        ts[j].id == t.id,
    ensures
        snapshot_of(ts.update(j, t)) == snapshot_of(ts).insert(t.id, entry_of(t)),
    decreases ts.len(),
{
    let u = ts.update(j, t);
    if j == ts.len() - 1 {
        assert(u.drop_last() =~= ts.drop_last());
        assert(snapshot_of(u) =~= snapshot_of(ts).insert(t.id, entry_of(t)));
    } else {
        assert(u.drop_last() =~= ts.drop_last().update(j, t));
        lemma_snapshot_update(ts.drop_last(), j, t);
        assert(ts.last().id != t.id);
        assert(snapshot_of(u) =~= snapshot_of(ts).insert(t.id, entry_of(t)));
    }
}

/// Index of the torrent with id `k` in `v`, if any.
fn find_id(v: &Vec<TorrentState>, k: i64) -> (r: Option<usize>)
    ensures
        match r {
            Some(j) => j < v@.len() && v@[j as int].id == k,
            None => !has_id(v@, k),
        },
{
    let mut j: usize = 0;
    while j < v.len()
        invariant
            j <= v@.len(),
            forall|i: int| 0 <= i < j ==> v@[i].id != k,
        decreases v@.len() - j,
    {
        if v[j].id == k {
            return Some(j);
        }
        j = j + 1;
    }
    None
}

/// Folds a payload into a snapshot: one entry per id, the last occurrence
/// wins.
fn collect_snapshot(torrents: &Vec<TorrentState>) -> (r: Vec<TorrentState>)
    ensures
        ids_unique(r@),
        snapshot_of(r@) == snapshot_of(torrents@),
{
    let mut r: Vec<TorrentState> = Vec::new();
    let mut i: usize = 0;
    while i < torrents.len()
        invariant
            i <= torrents@.len(),
            ids_unique(r@),
            snapshot_of(r@) == snapshot_of(torrents@.subrange(0, i as int)),
        decreases torrents@.len() - i,
    {
        let t = torrents[i].clone();
        assert(torrents@.subrange(0, i + 1).drop_last() =~= torrents@.subrange(0, i as int));
        assert(entry_of(t) == entry_of(torrents@[i as int]));
        match find_id(&r, t.id) {
            Some(j) => {
                proof {
                    lemma_snapshot_update(r@, j as int, t);
                }
                r.set(j, t);
            },
            None => {
                let ghost prev = r@;
                r.push(t);
                assert(r@.drop_last() =~= prev);
            },
        }
        i = i + 1;
    }
    assert(torrents@.subrange(0, torrents@.len() as int) =~= torrents@);
    r
}


/// Compares a prior snapshot `old` with the fresh one (`fresh`, the payload
/// folded): returns the snapshot that replaces it and the completed torrents.
fn merge_snapshots(fresh: Vec<TorrentState>, old: &Vec<TorrentState>, partial: bool) -> (r: (
    Vec<TorrentState>,
    Vec<TorrentState>,
))
    requires
        ids_unique(fresh@),
        ids_unique(old@),
    ensures
        ids_unique(r.0@),
        snapshot_of(r.0@) == if partial {
            snapshot_of(old@).union_prefer_right(snapshot_of(fresh@))
        } else {
            snapshot_of(fresh@)
        },
        ids_unique(r.1@),
        forall|i: int|
            0 <= i < r.1@.len() ==> snapshot_of(fresh@).contains_key(#[trigger] r.1@[i].id)
                && snapshot_of(fresh@)[r.1@[i].id] == entry_of(r.1@[i]),
        forall|k: i64|
            has_id(r.1@, k) <==> is_completion(snapshot_of(old@), snapshot_of(fresh@), k),
{
    let ghost fs = fresh@;
    let ghost os = old@;
    let ghost fmap = snapshot_of(fs);
    let ghost omap = snapshot_of(os);
    let n0 = fresh.len();
    let mut merged = fresh;
    let mut completed: Vec<TorrentState> = Vec::new();
    let mut i: usize = 0;
    while i < old.len()
        invariant
            old@ == os,
            ids_unique(os),
            ids_unique(fs),
            fmap == snapshot_of(fs),
            omap == snapshot_of(os),
            n0 == fs.len(),
            0 <= i <= os.len(),
            n0 <= merged@.len(),
            !partial ==> merged@.len() == n0,
            merged@.subrange(0, n0 as int) == fs,
            ids_unique(merged@),
            forall|m: int|
                n0 <= m < merged@.len() ==> has_id(os.subrange(0, i as int), #[trigger] merged@[m].id),
            snapshot_of(merged@) == if partial {
                snapshot_of(os.subrange(0, i as int)).union_prefer_right(fmap)
            } else {
                fmap
            },
            ids_unique(completed@),
            forall|c: int|
                0 <= c < completed@.len() ==> fmap.contains_key(#[trigger] completed@[c].id)
                    && fmap[completed@[c].id] == entry_of(completed@[c]),
            forall|k: i64|
                has_id(completed@, k) <==> (has_id(os.subrange(0, i as int), k)
                    && is_completion(omap, fmap, k)),
        decreases os.len() - i,
    {
        let o = &old[i];
        let ghost pre = os.subrange(0, i as int);
        let ghost post = os.subrange(0, i + 1);
        assert(post.drop_last() =~= pre);
        assert(post.last() == os[i as int]);
        proof {
            lemma_snapshot_at(os, i as int);
            lemma_snapshot_dom(fs, o.id);
            assert forall|k: i64| has_id(post, k) <==> (has_id(pre, k) || k == o.id) by {
                if has_id(post, k) && k != o.id {
                    let w = choose|w: int| 0 <= w < post.len() && post[w].id == k;
                    assert(pre[w].id == k);
                }
                if has_id(pre, k) {
                    let w = choose|w: int| 0 <= w < pre.len() && pre[w].id == k;
                    assert(post[w].id == k);
                }
                if k == o.id {
                    assert(post[i as int].id == k);
                }
            }
            assert(!has_id(pre, o.id)) by {
                if has_id(pre, o.id) {
                    let w = choose|w: int| 0 <= w < pre.len() && pre[w].id == o.id;
                    assert(os[w].id == os[i as int].id);
                }
            }
        }
        let ghost cprev = completed@;
        let ghost mprev = merged@;
        match find_id(&merged, o.id) {
            Some(j) => {
                proof {
                    if j >= n0 {
                        assert(has_id(pre, merged@[j as int].id));
                    }
                    assert(merged@[j as int] == merged@.subrange(0, n0 as int)[j as int]);
                    lemma_snapshot_at(fs, j as int);
                }
                if merged[j].name == o.name && o.status == STATUS_DOWNLOADING && merged[j].status
                    > STATUS_DOWNLOADING {
                    let t = merged[j].clone();
                    proof {
                        assert(!has_id(cprev, t.id));
                    }
                    completed.push(t);
                    proof {
                        assert forall|k: i64| has_id(completed@, k) <==> (has_id(cprev, k) || k == t.id) by {
                            if has_id(completed@, k) && k != t.id {
                                let w = choose|w: int| 0 <= w < completed@.len() && completed@[w].id == k;
                                assert(cprev[w].id == k);
                            }
                            if has_id(cprev, k) {
                                let w = choose|w: int| 0 <= w < cprev.len() && cprev[w].id == k;
                                assert(completed@[w].id == k);
                            }
                            if k == t.id {
                                assert(completed@[cprev.len() as int].id == k);
                            }
                        }
                    }
                    assert(is_completion(omap, fmap, o.id));
                    assert forall|k: i64|
                        has_id(completed@, k) <==> (has_id(post, k) && is_completion(omap, fmap, k)) by {
                        assert(has_id(cprev, k) <==> (has_id(pre, k) && is_completion(omap, fmap, k)));
                    }
                } else {
                    assert(!is_completion(omap, fmap, o.id));
                    assert forall|k: i64|
                        has_id(completed@, k) <==> (has_id(post, k) && is_completion(omap, fmap, k)) by {
                        assert(has_id(cprev, k) <==> (has_id(pre, k) && is_completion(omap, fmap, k)));
                    }
                }
                proof {
                    if partial {
                        assert(snapshot_of(post).union_prefer_right(fmap) =~= snapshot_of(
                            pre,
                        ).union_prefer_right(fmap));
                    }
                }
            },
            None => {
                proof {
                    assert forall|w: int| 0 <= w < fs.len() implies fs[w].id != o.id by {
                        assert(merged@[w] == merged@.subrange(0, n0 as int)[w]);
                    }
                    assert(!fmap.contains_key(o.id));
                    assert(!is_completion(omap, fmap, o.id));
                    assert forall|k: i64|
                        has_id(completed@, k) <==> (has_id(post, k) && is_completion(omap, fmap, k)) by {
                        assert(has_id(cprev, k) <==> (has_id(pre, k) && is_completion(omap, fmap, k)));
                    }
                }
                if partial {
                    merged.push(o.clone());
                    proof {
                        assert(merged@.drop_last() =~= mprev);
                        assert(merged@.subrange(0, n0 as int) =~= mprev.subrange(0, n0 as int));
                        assert(snapshot_of(merged@) =~= snapshot_of(post).union_prefer_right(fmap));
                        assert forall|m: int|
                            n0 <= m < merged@.len() implies has_id(post, #[trigger] merged@[m].id) by {
                            if m < mprev.len() {
                                assert(mprev[m] == merged@[m]);
                                assert(has_id(pre, mprev[m].id));
                            }
                        }
                    }
                }
            },
        }
        i = i + 1;
    }
    proof {
        assert(os.subrange(0, os.len() as int) =~= os);
        assert forall|k: i64| is_completion(omap, fmap, k) implies has_id(os, k) by {
            lemma_snapshot_dom(os, k);
        }
        if !partial {
            assert(merged@ =~= merged@.subrange(0, n0 as int));
        }
    }
    (merged, completed)
}


/// What one inspection asks of the host: the torrents to announce as
/// downloaded, and whether to play the completion sound (once per batch).
pub struct Inspection {
    pub notifications: Vec<TorrentState>,
    pub play_sound: bool,
}

struct OriginSnapshot {
    origin: String,
    entries: Vec<TorrentState>,
}

/// For each origin URL, the snapshot of its last inspected payload.
pub struct TorrentCache {
    server_data: Vec<OriginSnapshot>,
}

spec fn cache_view(s: Seq<OriginSnapshot>) -> Map<Seq<char>, Map<i64, (Seq<char>, i64)>>
    decreases s.len(),
{
    if s.len() == 0 {
        Map::empty()
    } else {
        cache_view(s.drop_last()).insert(s.last().origin@, snapshot_of(s.last().entries@))
    }
}

spec fn origins_unique(s: Seq<OriginSnapshot>) -> bool {
    forall|i: int, j: int| 0 <= i < j < s.len() ==> s[i].origin@ != s[j].origin@
}

proof fn lemma_cache_dom(s: Seq<OriginSnapshot>, k: Seq<char>)
    ensures
        cache_view(s).contains_key(k) <==> exists|i: int| 0 <= i < s.len() && s[i].origin@ == k,
    decreases s.len(),
{
    if s.len() > 0 {
        lemma_cache_dom(s.drop_last(), k);
        if exists|i: int| 0 <= i < s.len() - 1 && s.drop_last()[i].origin@ == k {
            let i = choose|i: int| 0 <= i < s.len() - 1 && s.drop_last()[i].origin@ == k;
            assert(s[i].origin@ == k);
        }
        if exists|i: int| 0 <= i < s.len() && s[i].origin@ == k {
            let i = choose|i: int| 0 <= i < s.len() && s[i].origin@ == k;
            if i < s.len() - 1 {
                assert(s.drop_last()[i].origin@ == k);
            }
        }
    }
}

proof fn lemma_cache_at(s: Seq<OriginSnapshot>, i: int)
    requires
        origins_unique(s),
        0 <= i < s.len(),
    ensures
        cache_view(s).contains_key(s[i].origin@),
        cache_view(s)[s[i].origin@] == snapshot_of(s[i].entries@),
    decreases s.len(),
{
    if i < s.len() - 1 {
        lemma_cache_at(s.drop_last(), i);
    }
}

proof fn lemma_cache_update(s: Seq<OriginSnapshot>, j: int, e: OriginSnapshot)
    requires
        origins_unique(s),
        0 <= j < s.len(),
        s[j].origin@ == e.origin@,
    ensures
        cache_view(s.update(j, e)) == cache_view(s).insert(e.origin@, snapshot_of(e.entries@)),
    decreases s.len(),
{
    let u = s.update(j, e);
    if j == s.len() - 1 {
        assert(u.drop_last() =~= s.drop_last());
        assert(cache_view(u) =~= cache_view(s).insert(e.origin@, snapshot_of(e.entries@)));
    } else {
        assert(u.drop_last() =~= s.drop_last().update(j, e));
        lemma_cache_update(s.drop_last(), j, e);
        assert(cache_view(u) =~= cache_view(s).insert(e.origin@, snapshot_of(e.entries@)));
    }
}

impl View for TorrentCache {
    type V = Map<Seq<char>, Map<i64, (Seq<char>, i64)>>;

    closed spec fn view(&self) -> Self::V {
        cache_view(self.server_data@)
    }
}

impl TorrentCache {
    /// At most one snapshot per origin, each with one entry per id.
    pub closed spec fn wf(&self) -> bool {
        &&& origins_unique(self.server_data@)
        &&& forall|i: int|
            0 <= i < self.server_data@.len() ==> ids_unique(#[trigger] self.server_data@[i].entries@)
    }

    /// An empty cache: no origin has been seen.
    pub fn new() -> (r: TorrentCache)
        ensures
            r.wf(),
            r@ == Map::<Seq<char>, Map<i64, (Seq<char>, i64)>>::empty(),
    {
        TorrentCache { server_data: Vec::new() }
    }

    fn find_origin(&self, origin: &String) -> (r: Option<usize>)
        ensures
            match r {
                Some(j) => j < self.server_data@.len() && self.server_data@[j as int].origin@
                    == origin@,
                None => forall|i: int|
                    0 <= i < self.server_data@.len() ==> self.server_data@[i].origin@ != origin@,
            },
    {
        let mut j: usize = 0;
        while j < self.server_data.len()
            invariant
                j <= self.server_data@.len(),
                forall|i: int| 0 <= i < j ==> self.server_data@[i].origin@ != origin@,
            decreases self.server_data@.len() - j,
        {
            if self.server_data[j].origin == *origin {
                return Some(j);
            }
            j = j + 1;
        }
        None
    }

    /// Inspects the torrents of one successful response from
    /// `original_url`: replaces that origin's snapshot and reports the
    /// completions against the prior one. On the first response of an
    /// origin nothing completes.
    pub fn process_torrents(
        &mut self,
        torrents: Vec<TorrentState>,
        original_url: &str,
        toast: bool,
        sound: bool,
    ) -> (r: Inspection)
        requires
            old(self).wf(),
        ensures
            final(self).wf(),
            final(self)@ == inspected(old(self)@, original_url@, torrents@),
            toast ==> lists_completions(r.notifications@, old(self)@.get(original_url@), torrents@),
            !toast ==> r.notifications@.len() == 0,
            r.play_sound == (sound && any_completion(old(self)@.get(original_url@), torrents@)),
    {
        let partial = torrents.len() <= 1;
        let fresh = collect_snapshot(&torrents);
        let key = String::from_str(original_url);
        let ghost prior = self@.get(original_url@);
        match self.find_origin(&key) {
            Some(j) => {
                let ghost os = self.server_data@[j as int].entries@;
                proof {
                    lemma_cache_at(self.server_data@, j as int);
                    assert(ids_unique(self.server_data@[j as int].entries@));
                }
                let (merged, completed) = merge_snapshots(fresh, &self.server_data[j].entries, partial);
                let ghost sd = self.server_data@;
                let e = OriginSnapshot { origin: key, entries: merged };
                proof {
                    lemma_cache_update(sd, j as int, e);
                }
                self.server_data.set(j, e);
                proof {
                    assert forall|a: int, b: int|
                        0 <= a < b < self.server_data@.len() implies self.server_data@[a].origin@
                        != self.server_data@[b].origin@ by {
                        assert(sd[a].origin@ != sd[b].origin@);
                    }
                    assert forall|a: int|
                        0 <= a < self.server_data@.len() implies ids_unique(
                        #[trigger] self.server_data@[a].entries@,
                    ) by {
                        if a != j {
                            assert(self.server_data@[a] == sd[a]);
                        }
                    }
                    assert(prior == Some(snapshot_of(os)));
                    if completed@.len() > 0 {
                        assert(has_id(completed@, completed@[0].id));
                        assert(is_completion(prior->0, snapshot_of(torrents@), completed@[0].id));
                    }
                    if exists|k: i64| is_completion(snapshot_of(os), snapshot_of(torrents@), k) {
                        let k = choose|k: i64| is_completion(snapshot_of(os), snapshot_of(torrents@), k);
                        assert(has_id(completed@, k));
                    }
                }
                let play_sound = sound && completed.len() > 0;
                if toast {
                    Inspection { notifications: completed, play_sound }
                } else {
                    Inspection { notifications: Vec::new(), play_sound }
                }
            },
            None => {
                proof {
                    lemma_cache_dom(self.server_data@, original_url@);
                }
                let ghost sd = self.server_data@;
                self.server_data.push(OriginSnapshot { origin: key, entries: fresh });
                proof {
                    assert(self.server_data@.drop_last() =~= sd);
                    assert forall|a: int|
                        0 <= a < self.server_data@.len() implies ids_unique(
                        #[trigger] self.server_data@[a].entries@,
                    ) by {
                        if a < sd.len() {
                            assert(self.server_data@[a] == sd[a]);
                        }
                    }
                    assert forall|k: i64| !has_id(Seq::<TorrentState>::empty(), k) by {}
                }
                Inspection { notifications: Vec::new(), play_sound: false }
            },
        }
    }
}

/// Last write wins: after any non-empty sequence of inspections of one
/// origin, its snapshot is the map that the last inspection produced from
/// the one before, and every other origin keeps what it had.
pub proof fn lemma_last_inspection_wins(
    cache: Map<Seq<char>, Map<i64, (Seq<char>, i64)>>,
    origin: Seq<char>,
    payloads: Seq<Seq<TorrentState>>,
)
    requires
        payloads.len() > 0,
    ensures
        inspected_all(cache, origin, payloads).contains_key(origin),
        inspected_all(cache, origin, payloads)[origin] == next_snapshot(
            inspected_all(cache, origin, payloads.drop_last()).get(origin),
            payloads.last(),
        ),
        payloads.len() > 1 && !is_partial(payloads.last()) ==> inspected_all(
            cache,
            origin,
            payloads,
        )[origin] == snapshot_of(payloads.last()),
        forall|o: Seq<char>|
            o != origin ==> #[trigger] inspected_all(cache, origin, payloads).get(o) == cache.get(o),
    decreases payloads.len(),
{
    let prev = payloads.drop_last();
    if prev.len() > 0 {
        lemma_last_inspection_wins(cache, origin, prev);
    }
    assert forall|o: Seq<char>| o != origin implies #[trigger] inspected_all(
        cache,
        origin,
        payloads,
    ).get(o) == cache.get(o) by {
        let before = inspected_all(cache, origin, prev);
        assert(inspected_all(cache, origin, payloads) == inspected(before, origin, payloads.last()));
        assert(before.get(o) == cache.get(o));
    }
}

/// Completions are only judged against a prior snapshot: the first
/// inspection of an origin reports none and asks for no sound, whatever the
/// payload. Against a prior snapshot, torrent `k` completes exactly when it
/// was downloading there and now has a higher status under the same name.
pub proof fn lemma_completion_rule(
    cache: Map<Seq<char>, Map<i64, (Seq<char>, i64)>>,
    origin: Seq<char>,
    ts: Seq<TorrentState>,
    r: Seq<TorrentState>,
    k: i64,
)
    requires
        lists_completions(r, cache.get(origin), ts),
    ensures
        !cache.contains_key(origin) ==> r.len() == 0 && !any_completion(cache.get(origin), ts),
        has_id(r, k) <==> cache.contains_key(origin) && cache[origin].contains_key(k)
            && snapshot_of(ts).contains_key(k) && cache[origin][k].0 == snapshot_of(ts)[k].0
            && cache[origin][k].1 == STATUS_DOWNLOADING && snapshot_of(ts)[k].1
            > STATUS_DOWNLOADING,
{
    if !cache.contains_key(origin) && r.len() > 0 {
        assert(has_id(r, r[0].id));
    }
}

/// The envelope of a daemon's RPC response, as far as inspection reads it.
pub struct ServerResponse {
    pub result: String,
    pub arguments: Option<Arguments>,
}

/// The `arguments` object of a response; `torrents` is empty when absent.
pub struct Arguments {
    pub torrents: Vec<TorrentState>,
}

/// A successful response that carries arguments: only those are inspected.
pub open spec fn inspectable(response: ServerResponse) -> bool {
    response.result@ == "success"@ && response.arguments is Some
}

/// Inspects one proxied response of `original_url`. A response whose result
/// is not `"success"`, or that has no arguments, leaves the cache as it was
/// and asks for nothing.
pub fn process_response(
    cache: &mut TorrentCache,
    response: ServerResponse,
    original_url: &str,
    toast: bool,
    sound: bool,
) -> (r: Inspection)
    requires
        old(cache).wf(),
    ensures
        final(cache).wf(),
        inspectable(response) ==> {
            let ts = response.arguments->0.torrents@;
            &&& final(cache)@ == inspected(old(cache)@, original_url@, ts)
            &&& toast ==> lists_completions(r.notifications@, old(cache)@.get(original_url@), ts)
            &&& !toast ==> r.notifications@.len() == 0
            &&& r.play_sound == (sound && any_completion(old(cache)@.get(original_url@), ts))
        },
        !inspectable(response) ==> final(cache)@ == old(cache)@ && r.notifications@.len() == 0
            && !r.play_sound,
{
    let success = String::from_str("success");
    if response.result == success {
        match response.arguments {
            Some(arguments) => cache.process_torrents(arguments.torrents, original_url, toast, sound),
            None => Inspection { notifications: Vec::new(), play_sound: false },
        }
    } else {
        Inspection { notifications: Vec::new(), play_sound: false }
    }
}

} // verus!
