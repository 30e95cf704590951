//! Pieces of the front-end commands that decide something: what is shown of
//! a torrent file, the size of a path, which torrent creation a window's
//! request refers to, and which files may be removed.

use vstd::prelude::*;
use vstd::string::{StrSliceExecFns, StringExecFns};

use crate::http::strings_view;
use crate::poller::{base64_of, encode_base64};
use crate::proxy::{segments, split_at_char};

verus! {

pub open spec fn is_digit(c: char) -> bool {
    '0' <= c && c <= '9'
}

/// The value of a string of decimal digits.
pub open spec fn digits_value(ds: Seq<char>) -> int
    decreases ds.len(),
{
    if ds.len() == 0 {
        0
    } else {
        digits_value(ds.drop_last()) * 10 + (ds.last() as int - '0' as int)
    }
}

pub open spec fn all_digits(ds: Seq<char>) -> bool {
    forall|i: int| 0 <= i < ds.len() ==> is_digit(#[trigger] ds[i])
}

/// The length of the sign that `s` starts with: 1 for `+` or `-`, else 0.
pub open spec fn sign_len(s: Seq<char>) -> int {
    if s.len() > 0 && (s[0] == '-' || s[0] == '+') {
        1
    } else {
        0
    }
}

/// The `i32` that `s` writes: an optional `+` or `-`, then one or more
/// decimal digits and nothing else, of a value that fits.
pub open spec fn decimal_i32(s: Seq<char>) -> Option<i32> {
    let ds = s.subrange(sign_len(s), s.len() as int);
    let v = if s.len() > 0 && s[0] == '-' {
        -digits_value(ds)
    } else {
        digits_value(ds)
    };
    if ds.len() > 0 && all_digits(ds) && i32::MIN <= v <= i32::MAX {
        Some(v as i32)
    } else {
        None
    }
}

proof fn lemma_digits_value_nonneg(ds: Seq<char>)
    requires
        forall|i: int| 0 <= i < ds.len() ==> is_digit(#[trigger] ds[i]),
    ensures
        digits_value(ds) >= 0,
    decreases ds.len(),
{
    if ds.len() > 0 {
        lemma_digits_value_nonneg(ds.drop_last());
        assert(is_digit(ds[ds.len() - 1]));
    }
}

/// One past the largest magnitude of an `i32`: digit strings are read up to
/// this value and no further.
const DIGITS_CAP: u64 = 2147483649;

/// Reads the decimal `i32` that `s` writes, as `str::parse::<i32>` does: an
/// optional sign, then decimal digits only, of a value that fits.
pub fn parse_i32(s: &str) -> (r: Option<i32>)
    ensures
        r == decimal_i32(s@),
{
    let n = s.unicode_len();
    if n == 0 {
        return None;
    }
    let first = s.get_char(0);
    let negative = first == '-';
    let start: usize = if first == '-' || first == '+' {
        1
    } else {
        0
    };
    let ghost ds = s@.subrange(start as int, n as int);
    assert(sign_len(s@) == start);
    if start == n {
        return None;
    }
    let mut acc: u64 = 0;
    let mut i: usize = start;
    assert(s@.subrange(start as int, start as int) =~= Seq::<char>::empty());
    while i < n
        invariant
            n == s@.len(),
            start <= i <= n,
            ds == s@.subrange(start as int, n as int),
            sign_len(s@) == start,
            forall|k: int| start <= k < i ==> is_digit(#[trigger] s@[k]),
            acc <= DIGITS_CAP,
            acc == (if digits_value(s@.subrange(start as int, i as int)) >= DIGITS_CAP {
                DIGITS_CAP as int
            } else {
                digits_value(s@.subrange(start as int, i as int))
            }),
        decreases n - i,
    {
        let c = s.get_char(i);
        if !('0' <= c && c <= '9') {
            assert(!is_digit(ds[i - start]));
            assert(!all_digits(ds));
            return None;
        }
        let ghost pre = s@.subrange(start as int, i as int);
        let ghost post = s@.subrange(start as int, i + 1);
        assert(post.drop_last() =~= pre);
        assert(post.last() == c);
        proof {
            assert forall|k: int| 0 <= k < pre.len() implies is_digit(#[trigger] pre[k]) by {
                assert(pre[k] == s@[start + k]);
            }
            lemma_digits_value_nonneg(pre);
        }
        let d = (c as u32 - '0' as u32) as u64;
        assert(d == c as int - '0' as int);
        assert(digits_value(post) == digits_value(pre) * 10 + d);
        let next = acc * 10 + d;
        proof {
            if digits_value(pre) >= DIGITS_CAP {
                assert(digits_value(pre) * 10 + d >= DIGITS_CAP) by (nonlinear_arith)
                    requires
                        digits_value(pre) >= DIGITS_CAP,
                        d >= 0,
                ;
            } else {
                assert(acc == digits_value(pre));
            }
        }
        acc = if next > DIGITS_CAP {
            DIGITS_CAP
        } else {
            next
        };
        i = i + 1;
    }
    assert(s@.subrange(start as int, i as int) == ds);
    proof {
        assert forall|k: int| 0 <= k < ds.len() implies is_digit(#[trigger] ds[k]) by {
            assert(ds[k] == s@[start + k]);
        }
    }
    if negative {
        if acc > 2147483648 {
            None
        } else {
            Some((0 - (acc as i64)) as i32)
        }
    } else {
        if acc > 2147483647 {
            None
        } else {
            Some(acc as i32)
        }
    }
}

/// The request id of a window labelled `<kind>-<id>`, or why there is none.
pub open spec fn label_id(label: Seq<char>) -> Result<i32, Seq<char>> {
    let parts = segments(label, '-');
    if parts.len() != 2 {
        Err("Incorrect window label"@)
    } else {
        match decimal_i32(parts[1]) {
            Some(id) => Ok(id),
            None => Err("Incorrect window label"@),
        }
    }
}

/// The torrent-creation request that the window labelled `label` owns.
pub fn window_request_id(label: &str) -> (r: Result<i32, String>)
    ensures
        match r {
            Ok(id) => label_id(label@) == Ok::<i32, Seq<char>>(id),
            Err(e) => label_id(label@) == Err::<i32, Seq<char>>(e@),
        },
{
    let parts = split_at_char(label, '-');
    if parts.len() != 2 {
        return Err(String::from_str("Incorrect window label"));
    }
    assert(strings_view(parts@)[1] == parts@[1]@);
    match parse_i32(parts[1].as_str()) {
        Some(id) => Ok(id),
        None => Err(String::from_str("Incorrect window label")),
    }
}


/// What `str::to_lowercase` makes of a string.
pub uninterp spec fn lowercase_of(s: Seq<char>) -> Seq<char>;

/// Relies on `str::to_lowercase`: the lower-case form of `s`, which depends
/// on its characters alone.
#[verifier::external_body]
fn lowercase(s: &str) -> (r: String)
    ensures
        r@ == lowercase_of(s@),
{
    s.to_lowercase()
}

pub open spec fn has_suffix(s: Seq<char>, suffix: Seq<char>) -> bool {
    s.len() >= suffix.len() && s.subrange(s.len() - suffix.len(), s.len() as int) == suffix
}

/// Whether a lower-cased path names a torrent file.
pub fn is_torrent_name(lowered: &str) -> (r: bool)
    ensures
        r == has_suffix(lowered@, ".torrent"@),
{
    proof {
        reveal_strlit(".torrent");
    }
    let n = lowered.unicode_len();
    if n < 8 {
        return false;
    }
    String::from_str(lowered.substring_char(n - 8, n)) == String::from_str(".torrent")
}

/// Only torrent files may be removed at the front-end's request: the path
/// must end in `.torrent`, in any case.
pub fn may_remove(path: &str) -> (r: bool)
    ensures
        r == has_suffix(lowercase_of(path@), ".torrent"@),
{
    let lowered = lowercase(path);
    is_torrent_name(lowered.as_str())
}


/// Torrent files larger than this are not read: 10 MiB.
pub const MAX_TORRENT_FILE: u64 = 10485760;

/// Whether a file of `len` bytes is too large to be read as a torrent.
pub fn too_large(len: u64) -> (r: bool)
    ensures
        r == (len > MAX_TORRENT_FILE),
{
    len > MAX_TORRENT_FILE
}

/// One file of a multi-file torrent.
pub struct TorrentFileEntry {
    pub name: String,
    pub length: i64,
}

/// What the front-end is shown of a torrent file before adding it.
pub struct TorrentReadResult {
    pub torrent_path: String,
    /// The whole file, base64-encoded.
    pub metadata: String,
    pub name: String,
    pub length: i64,
    pub hash: String,
    /// `None` for a single-file torrent.
    pub files: Option<Vec<TorrentFileEntry>>,
    /// The trackers, tier by tier; an empty entry separates two tiers.
    pub trackers: Vec<String>,
}

/// The parts of a parsed torrent that are shown.
pub struct TorrentParts {
    pub name: String,
    pub length: i64,
    pub files: Option<Vec<TorrentFileEntry>>,
    pub announce: Option<String>,
    pub announce_list: Option<Vec<Vec<String>>>,
}

#[verifier::external_type_specification]
#[verifier::external_body]
pub struct ExTorrent(lava_torrent::torrent::v1::Torrent);

/// Whether lava_torrent reads `b` as a torrent file.
pub uninterp spec fn is_torrent(b: Seq<u8>) -> bool;

/// Relies on lava_torrent's `Torrent::read_from_bytes`: the metainfo that a
/// bencoded torrent file holds, if it is one; whether it is depends on the
/// bytes alone. Its parser recurses once per nested list or dictionary, so
/// the nesting is bounded first.
#[verifier::external_body]
fn read_torrent_bytes(bytes: &[u8]) -> (r: Option<lava_torrent::torrent::v1::Torrent>)
    requires
        bencode_nesting_within(bytes@, MAX_BENCODE_DEPTH as int),
    ensures
        r is Some <==> is_torrent(bytes@),
{
    lava_torrent::torrent::v1::Torrent::read_from_bytes(bytes).ok()
}

/// Relies on lava_torrent's `Torrent::info_hash`: the torrent's info hash.
#[verifier::external_body]
fn info_hash(t: &lava_torrent::torrent::v1::Torrent) -> (r: String) {
    t.info_hash()
}

/// Relies on the public fields of lava_torrent's `Torrent`: takes out those
/// that are shown, file paths as text.
#[verifier::external_body]
fn torrent_parts(t: lava_torrent::torrent::v1::Torrent) -> (r: TorrentParts) {
    TorrentParts {
        name: t.name,
        length: t.length,
        files: t.files.map(|v| {
            v.into_iter()
                .map(|f| TorrentFileEntry { name: f.path.to_string_lossy().into(), length: f.length })
                .collect()
        }),
        announce: t.announce,
        announce_list: t.announce_list,
    }
}

/// The trackers to show: the announce list tier by tier, an empty entry
/// before each tier that follows a tracker; without a list, the single
/// announce URL if there is one.
pub open spec fn trackers_spec(
    announce_list: Option<Seq<Seq<Seq<char>>>>,
    announce: Option<Seq<char>>,
) -> Seq<Seq<char>> {
    match announce_list {
        Some(tiers) => tiers_flat(tiers),
        None => match announce {
            Some(a) => seq![a],
            None => Seq::empty(),
        },
    }
}

pub open spec fn tiers_flat(tiers: Seq<Seq<Seq<char>>>) -> Seq<Seq<char>>
    decreases tiers.len(),
{
    if tiers.len() == 0 {
        Seq::empty()
    } else {
        let before = tiers_flat(tiers.drop_last());
        if before.len() > 0 {
            before.push(Seq::empty()) + tiers.last()
        } else {
            tiers.last()
        }
    }
}

pub open spec fn tiers_view(v: Seq<Vec<String>>) -> Seq<Seq<Seq<char>>> {
    v.map_values(|t: Vec<String>| strings_view(t@))
}

/// The tracker list of a torrent.
pub fn trackers_of(announce_list: &Option<Vec<Vec<String>>>, announce: &Option<String>) -> (r: Vec<String>)
    ensures
        strings_view(r@) == trackers_spec(
            match announce_list {
                Some(l) => Some(tiers_view(l@)),
                None => None,
            },
            crate::poller::opt_view(*announce),
        ),
{
    let mut r: Vec<String> = Vec::new();
    match announce_list {
        Some(list) => {
            let ghost tv = tiers_view(list@);
            let mut i: usize = 0;
            assert(tv.subrange(0, 0) =~= Seq::<Seq<Seq<char>>>::empty());
            while i < list.len()
                invariant
                    tv == tiers_view(list@),
                    i <= list@.len(),
                    strings_view(r@) == tiers_flat(tv.subrange(0, i as int)),
                decreases list@.len() - i,
            {
                let ghost pre = tv.subrange(0, i as int);
                assert(tv.subrange(0, i + 1).drop_last() =~= pre);
                let ghost start = strings_view(r@);
                if r.len() > 0 {
                    r.push(String::new());
                }
                let ghost sep = strings_view(r@);
                assert(sep =~= if start.len() > 0 { start.push(Seq::<char>::empty()) } else { start });
                let tier = &list[i];
                let mut j: usize = 0;
                while j < tier.len()
                    invariant
                        j <= tier@.len(),
                        strings_view(r@) == sep + strings_view(tier@).subrange(0, j as int),
                    decreases tier@.len() - j,
                {
                    let ghost before = strings_view(r@);
                    r.push(tier[j].clone());
                    assert(strings_view(r@) =~= before.push(tier@[j as int]@));
                    assert(strings_view(tier@).subrange(0, j + 1) =~= strings_view(tier@).subrange(
                        0,
                        j as int,
                    ).push(tier@[j as int]@));
                    assert(strings_view(r@) =~= sep + strings_view(tier@).subrange(0, j + 1));
                    j = j + 1;
                }
                assert(strings_view(tier@).subrange(0, j as int) =~= strings_view(tier@));
                assert(tv.subrange(0, i + 1).last() == strings_view(tier@));
                assert(strings_view(r@) =~= tiers_flat(tv.subrange(0, i + 1)));
                i = i + 1;
            }
            assert(tv.subrange(0, i as int) =~= tv);
        },
        None => match announce {
            Some(a) => {
                r.push(a.clone());
                assert(strings_view(r@) =~= seq![a@]);
            },
            None => {
                assert(strings_view(r@) =~= Seq::<Seq<char>>::empty());
            },
        },
    }
    r
}

/// Deepest nesting of lists and dictionaries that a torrent file may have:
/// far beyond the few levels that torrent files use, and shallow enough for
/// the parser, which recurses once per level, to stay within a thread's stack.
pub const MAX_BENCODE_DEPTH: usize = 256;

/// Where a scan of bencoded bytes stands: at the start of a token, inside
/// an integer, reading a string's length, or skipping a string's body.
pub enum ScanMode {
    Token,
    Int,
    Length(usize),
    Skip(usize),
}

pub open spec fn is_digit_byte(b: u8) -> bool {
    48 <= b <= 57
}

/// A string length read so far, held at `n` (the input's length) at most:
/// a longer string runs past the end all the same.
pub open spec fn capped(v: int, n: int) -> int {
    if v > n {
        n
    } else {
        v
    }
}

/// The depth and the mode after one byte `b` of an input of length `n`.
/// `d` and `l` open a dictionary or a list, `e` closes one or ends an
/// integer, `i` starts an integer, anything else starts a string's length,
/// which runs to `:` and is followed by that many bytes.
pub open spec fn scan_step(b: u8, depth: int, mode: ScanMode, n: int) -> (int, ScanMode) {
    match mode {
        ScanMode::Token => if b == 100 || b == 108 {
            (depth + 1, ScanMode::Token)
        } else if b == 101 {
            (if depth > 0 {
                depth - 1
            } else {
                0
            }, ScanMode::Token)
        } else if b == 105 {
            (depth, ScanMode::Int)
        } else if is_digit_byte(b) {
            (depth, ScanMode::Length(capped(b - 48, n) as usize))
        } else {
            (depth, ScanMode::Length(0))
        },
        ScanMode::Int => if b == 101 {
            (depth, ScanMode::Token)
        } else {
            (depth, ScanMode::Int)
        },
        ScanMode::Length(acc) => if b == 58 {
            if acc == 0 {
                (depth, ScanMode::Token)
            } else {
                (depth, ScanMode::Skip(acc))
            }
        } else if is_digit_byte(b) {
            (depth, ScanMode::Length(capped(acc * 10 + (b - 48), n) as usize))
        } else {
            (depth, ScanMode::Length(acc))
        },
        ScanMode::Skip(k) => if k <= 1 {
            (depth, ScanMode::Token)
        } else {
            (depth, ScanMode::Skip((k - 1) as usize))
        },
    }
}

/// From byte `i` on, in state (`depth`, `mode`), no list or dictionary
/// opens deeper than `limit`.
pub open spec fn nesting_from(b: Seq<u8>, i: int, depth: int, mode: ScanMode, limit: int) -> bool
    decreases b.len() - i,
{
    if i < 0 || i >= b.len() {
        true
    } else {
        let (d, m) = scan_step(b[i], depth, mode, b.len() as int);
        d <= limit && nesting_from(b, i + 1, d, m, limit)
    }
}

/// Bencoded bytes `b` nest lists and dictionaries `limit` deep at most.
pub open spec fn bencode_nesting_within(b: Seq<u8>, limit: int) -> bool {
    nesting_from(b, 0, 0, ScanMode::Token, limit)
}

/// Whether `bytes` nest lists and dictionaries `limit` deep at most.
pub fn bencode_nesting_ok(bytes: &[u8], limit: usize) -> (r: bool)
    requires
        bytes@.len() <= usize::MAX / 16,
    ensures
        r == bencode_nesting_within(bytes@, limit as int),
{
    let n = bytes.len();
    let mut depth: usize = 0;
    let mut mode = ScanMode::Token;
    let mut i: usize = 0;
    while i < n
        invariant
            n == bytes@.len(),
            n <= usize::MAX / 16,
            i <= n,
            depth <= limit,
            match mode {
                ScanMode::Length(acc) => acc <= n,
                ScanMode::Skip(k) => k <= n,
                _ => true,
            },
            bencode_nesting_within(bytes@, limit as int) == nesting_from(
                bytes@,
                i as int,
                depth as int,
                mode,
                limit as int,
            ),
        decreases n - i,
    {
        let b = bytes[i];
        let ghost next = scan_step(b, depth as int, mode, n as int);
        let (d, m): (usize, ScanMode) = match mode {
            ScanMode::Token => if b == 100 || b == 108 {
                if depth >= limit {
                    return false;
                }
                (depth + 1, ScanMode::Token)
            } else if b == 101 {
                (if depth > 0 {
                    depth - 1
                } else {
                    0
                }, ScanMode::Token)
            } else if b == 105 {
                (depth, ScanMode::Int)
            } else if 48 <= b && b <= 57 {
                let v = (b - 48) as usize;
                (depth, ScanMode::Length(if v > n {
                    n
                } else {
                    v
                }))
            } else {
                (depth, ScanMode::Length(0))
            },
            ScanMode::Int => if b == 101 {
                (depth, ScanMode::Token)
            } else {
                (depth, ScanMode::Int)
            },
            ScanMode::Length(acc) => if b == 58 {
                if acc == 0 {
                    (depth, ScanMode::Token)
                } else {
                    (depth, ScanMode::Skip(acc))
                }
            } else if 48 <= b && b <= 57 {
                let v = acc * 10 + (b - 48) as usize;
                (depth, ScanMode::Length(if v > n {
                    n
                } else {
                    v
                }))
            } else {
                (depth, ScanMode::Length(acc))
            },
            ScanMode::Skip(k) => if k <= 1 {
                (depth, ScanMode::Token)
            } else {
                (depth, ScanMode::Skip(k - 1))
            },
        };
        assert(next == (d as int, m));
        depth = d;
        mode = m;
        i = i + 1;
    }
    true
}

/// What std's `Debug` formatting makes of a string: quoted, with quotes,
/// backslashes and non-printing characters escaped.
pub uninterp spec fn debug_quoted_of(s: Seq<char>) -> Seq<char>;

/// Relies on std's `Debug` impl of `str` (`format!("{s:?}")`): the quoted,
/// escaped form of `s`, which depends on its characters alone.
#[verifier::external_body]
fn debug_quoted(s: &str) -> (r: String)
    ensures
        r@ == debug_quoted_of(s@),
{
    format!("{s:?}")
}

/// The error shown for a file that is not a torrent.
pub open spec fn parse_error(path: Seq<char>) -> Seq<char> {
    "Failed to parse torrent "@ + debug_quoted_of(path)
}

/// The error shown for a file at `path` that is not a torrent.
fn parse_error_text(path: &str) -> (r: String)
    ensures
        r@ == parse_error(path@),
{
    String::from_str("Failed to parse torrent ").concat(debug_quoted(path).as_str())
}

/// What the front-end is shown of the torrent file at `path`, whose bytes
/// are `bytes`, given what was read from it: its info hash and its parts.
pub fn torrent_read_result(path: String, bytes: &Vec<u8>, hash: String, parts: TorrentParts) -> (r:
    TorrentReadResult)
    requires
        bytes@.len() <= MAX_TORRENT_FILE,
    ensures
        r.torrent_path@ == path@,
        r.metadata@ == base64_of(bytes@),
        r.name@ == parts.name@,
        r.length == parts.length,
        r.hash@ == hash@,
        r.files == parts.files,
        strings_view(r.trackers@) == trackers_spec(
            match parts.announce_list {
                Some(l) => Some(tiers_view(l@)),
                None => None,
            },
            crate::poller::opt_view(parts.announce),
        ),
{
    let trackers = trackers_of(&parts.announce_list, &parts.announce);
    let metadata = encode_base64(bytes.as_slice());
    TorrentReadResult {
        torrent_path: path,
        metadata,
        name: parts.name,
        length: parts.length,
        hash,
        files: parts.files,
        trackers,
    }
}

/// Reads a torrent file's bytes for the front-end. It succeeds exactly on
/// a file within the size limit, nested no deeper than
/// `MAX_BENCODE_DEPTH`, that lava_torrent reads as a torrent; the result is
/// then `torrent_read_result` of what was read.
pub fn read_torrent(path: String, bytes: Vec<u8>) -> (r: Result<TorrentReadResult, String>)
    ensures
        bytes@.len() > MAX_TORRENT_FILE ==> r is Err && r->Err_0@ == "File is too large"@,
        bytes@.len() <= MAX_TORRENT_FILE ==> (r is Ok <==> bencode_nesting_within(
            bytes@,
            MAX_BENCODE_DEPTH as int,
        ) && is_torrent(bytes@)),
        r is Ok ==> r->Ok_0.torrent_path@ == path@ && r->Ok_0.metadata@ == base64_of(bytes@),
        r is Err && bytes@.len() <= MAX_TORRENT_FILE ==> r->Err_0@ == parse_error(path@),
{
    if bytes.len() as u64 > MAX_TORRENT_FILE {
        return Err(String::from_str("File is too large"));
    }
    if !bencode_nesting_ok(bytes.as_slice(), MAX_BENCODE_DEPTH) {
        return Err(parse_error_text(path.as_str()));
    }
    match read_torrent_bytes(bytes.as_slice()) {
        None => Err(parse_error_text(path.as_str())),
        Some(t) => {
            let hash = info_hash(&t);
            let parts = torrent_parts(t);
            Ok(torrent_read_result(path, &bytes, hash, parts))
        },
    }
}

/// The number of files under a path and their total size; `files` is -1
/// when the path cannot be read.
pub struct FileStats {
    pub files: i64,
    pub size: u64,
}

/// What the file system says of a path.
pub enum PathStats {
    /// A file of this size.
    File(u64),
    /// A directory holding files of these sizes, at any depth.
    Dir(Vec<u64>),
    /// Neither could be read.
    Unreadable,
}

pub open spec fn total(sizes: Seq<u64>) -> int
    decreases sizes.len(),
{
    if sizes.len() == 0 {
        0
    } else {
        total(sizes.drop_last()) + sizes.last()
    }
}

proof fn lemma_total_monotone(sizes: Seq<u64>, i: int)
    requires
        0 <= i <= sizes.len(),
    ensures
        total(sizes.subrange(0, i)) <= total(sizes),
    decreases sizes.len() - i,
{
    if i < sizes.len() {
        lemma_total_monotone(sizes, i + 1);
        assert(sizes.subrange(0, i + 1).drop_last() =~= sizes.subrange(0, i));
    } else {
        assert(sizes.subrange(0, i) =~= sizes);
    }
}

/// The stats of a path: one file and its size; or the files of a directory
/// and the sum of their sizes; or -1 files.
pub fn file_stats(stats: &PathStats) -> (r: FileStats)
    requires
        stats matches PathStats::Dir(sizes) ==> total(sizes@) <= u64::MAX && sizes@.len() <= i64::MAX,
    ensures
        stats matches PathStats::File(n) ==> r.files == 1 && r.size == n,
        stats matches PathStats::Dir(sizes) ==> r.files == sizes@.len() && r.size == total(sizes@),
        stats is Unreadable ==> r.files == -1 && r.size == 0,
{
    match stats {
        PathStats::File(n) => FileStats { files: 1, size: *n },
        PathStats::Dir(sizes) => {
            let mut sum: u64 = 0;
            let mut i: usize = 0;
            while i < sizes.len()
                invariant
                    i <= sizes@.len(),
                    total(sizes@) <= u64::MAX,
                    sum == total(sizes@.subrange(0, i as int)),
                decreases sizes@.len() - i,
            {
                assert(sizes@.subrange(0, i + 1).drop_last() =~= sizes@.subrange(0, i as int));
                proof {
                    lemma_total_monotone(sizes@, i + 1);
                }
                sum = sum + sizes[i];
                i = i + 1;
            }
            assert(sizes@.subrange(0, i as int) =~= sizes@);
            FileStats { files: sizes.len() as i64, size: sum }
        },
        PathStats::Unreadable => FileStats { files: -1, size: 0 },
    }
}

} // verus!
