//! What a torrent-creation request asks for, and how its progress is
//! reported.

use vstd::prelude::*;
use vstd::string::StrSliceExecFns;

use crate::http::strings_view;

verus! {

/// A torrent to create, as the front-end describes it.
pub struct TorrentCreateInfo {
    pub name: String,
    pub path: String,
    pub piece_length: i64,
    pub comment: String,
    pub source: String,
    pub private: bool,
    /// Tracker URLs; an empty entry separates two tiers.
    pub announce_list: Vec<String>,
    /// Web seed URLs; empty entries are ignored.
    pub url_list: Vec<String>,
    pub version: String,
}

/// How far hashing has come.
pub struct ProgressData {
    pub hashed: u64,
    pub total: u64,
}

/// The state of a creation request.
pub enum CreateCheckResult {
    NotFound,
    Error(String),
    /// Done: the info hash of the new torrent.
    Complete(String),
    InProgress(ProgressData),
}

/// Keeps the non-empty strings.
pub open spec fn non_empty() -> spec_fn(Seq<char>) -> bool {
    |s: Seq<char>| s.len() > 0
}

/// The runs of entries between empty entries, in order; at least one,
/// possibly empty.
pub open spec fn runs(list: Seq<Seq<char>>) -> Seq<Seq<Seq<char>>>
    decreases list.len(),
{
    if list.len() == 0 {
        seq![Seq::empty()]
    } else {
        let p = runs(list.drop_last());
        if list.last().len() == 0 {
            p.push(Seq::empty())
        } else {
            p.update(p.len() - 1, p.last().push(list.last()))
        }
    }
}

/// Keeps the non-empty runs.
pub open spec fn non_empty_run() -> spec_fn(Seq<Seq<char>>) -> bool {
    |r: Seq<Seq<char>>| r.len() > 0
}

/// The tracker tiers of an announce list: its runs between empty entries,
/// leaving out the empty runs.
pub open spec fn tiers_spec(list: Seq<Seq<char>>) -> Seq<Seq<Seq<char>>> {
    runs(list).filter(non_empty_run())
}

/// Splits an announce list into tiers.
pub fn announce_tiers(list: &Vec<String>) -> (r: Vec<Vec<String>>)
    ensures
        crate::commands::tiers_view(r@) == tiers_spec(strings_view(list@)),
{
    let ghost lv = strings_view(list@);
    let mut done: Vec<Vec<String>> = Vec::new();
    let mut current: Vec<String> = Vec::new();
    let mut i: usize = 0;
    assert(lv.subrange(0, 0) =~= Seq::<Seq<char>>::empty());
    assert(runs(lv.subrange(0, 0)).drop_last().filter(non_empty_run())
        =~= Seq::<Seq<Seq<char>>>::empty()) by {
        reveal(Seq::filter);
    }
    while i < list.len()
        invariant
            lv == strings_view(list@),
            i <= list@.len(),
            runs(lv.subrange(0, i as int)).len() >= 1,
            crate::commands::tiers_view(done@) == runs(lv.subrange(0, i as int)).drop_last().filter(
                non_empty_run(),
            ),
            strings_view(current@) == runs(lv.subrange(0, i as int)).last(),
        decreases list@.len() - i,
    {
        let ghost pre = lv.subrange(0, i as int);
        let ghost post = lv.subrange(0, i + 1);
        assert(post.drop_last() =~= pre);
        assert(post.last() == list@[i as int]@);
        let ghost p = runs(pre);
        let ghost dv = crate::commands::tiers_view(done@);
        let ghost cv = strings_view(current@);
        if list[i].as_str().is_empty() {
            assert(runs(post) == p.push(Seq::<Seq<char>>::empty()));
            assert(runs(post).drop_last() =~= p);
            assert(p.filter(non_empty_run()) == if p.last().len() > 0 {
                p.drop_last().filter(non_empty_run()).push(p.last())
            } else {
                p.drop_last().filter(non_empty_run())
            }) by {
                reveal(Seq::filter);
            }
            if current.len() > 0 {
                let mut fresh: Vec<String> = Vec::new();
                std::mem::swap(&mut fresh, &mut current);
                done.push(fresh);
                assert(crate::commands::tiers_view(done@) =~= dv.push(cv));
            }
            assert(strings_view(current@) =~= Seq::<Seq<char>>::empty());
        } else {
            let ghost x = list@[i as int]@;
            assert(runs(post) == p.update(p.len() - 1, p.last().push(x)));
            assert(runs(post).drop_last() =~= p.drop_last());
            current.push(list[i].clone());
            assert(strings_view(current@) =~= cv.push(x));
        }
        i = i + 1;
    }
    assert(lv.subrange(0, i as int) =~= lv);
    let ghost p = runs(lv);
    let ghost dv = crate::commands::tiers_view(done@);
    let ghost cv = strings_view(current@);
    assert(p.filter(non_empty_run()) == if p.last().len() > 0 {
        p.drop_last().filter(non_empty_run()).push(p.last())
    } else {
        p.drop_last().filter(non_empty_run())
    }) by {
        reveal(Seq::filter);
    }
    if current.len() > 0 {
        done.push(current);
        assert(crate::commands::tiers_view(done@) =~= dv.push(cv));
    }
    done
}

/// The web seeds of a request: its URL list without empty entries.
pub fn url_list(list: &Vec<String>) -> (r: Vec<String>)
    ensures
        strings_view(r@) == strings_view(list@).filter(non_empty()),
{
    let ghost lv = strings_view(list@);
    let mut r: Vec<String> = Vec::new();
    let mut i: usize = 0;
    assert(lv.subrange(0, 0).filter(non_empty()) =~= Seq::<Seq<char>>::empty()) by {
        reveal(Seq::filter);
    }
    while i < list.len()
        invariant
            lv == strings_view(list@),
            i <= list@.len(),
            strings_view(r@) == lv.subrange(0, i as int).filter(non_empty()),
        decreases list@.len() - i,
    {
        let ghost pre = lv.subrange(0, i as int);
        let ghost post = lv.subrange(0, i + 1);
        assert(post.drop_last() =~= pre);
        assert(post.last() == list@[i as int]@);
        let ghost rv = strings_view(r@);
        assert(post.filter(non_empty()) == if post.last().len() > 0 {
            pre.filter(non_empty()).push(post.last())
        } else {
            pre.filter(non_empty())
        }) by {
            reveal(Seq::filter);
        }
        if !list[i].as_str().is_empty() {
            r.push(list[i].clone());
            assert(strings_view(r@) =~= rv.push(list@[i as int]@));
        }
        i = i + 1;
    }
    assert(lv.subrange(0, i as int) =~= lv);
    r
}

} // verus!
