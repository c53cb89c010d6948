//! The locker: an ordered index from record keys to the place in a file
//! where each record starts.
use vstd::prelude::*;
use crate::jsf::{entry_ok, key_at, lemma_frame_window, step_spec, FileScan, ScanEntry};
use crate::model::{Channel, DecodeError, FrameStep, RecordKind, SonarDataRecord, Timestamp};

verus! {

/// The key of a record: its kind, its acquisition time and its channel,
/// ordered in that field order, so that the pings of both channels at one
/// instant sit next to each other.
#[derive(Debug, Clone, Copy, PartialEq, Eq, Structural, PartialOrd, Ord, Hash)]
pub struct LockerKey {
    pub kind: RecordKind,
    pub timestamp: Timestamp,
    pub channel: Channel,
}

/// Where a record starts: a file of the locker, by number, and a byte offset.
#[derive(Debug, Clone, Copy, PartialEq, Eq, Structural)]
pub struct Location {
    pub file: usize,
    pub offset: u64,
}

/// The strict key order: by kind, then by time, then by channel.
pub open spec fn key_lt(a: LockerKey, b: LockerKey) -> bool {
    if a.kind.rank() != b.kind.rank() {
        a.kind.rank() < b.kind.rank()
    } else if a.timestamp.unix_millis != b.timestamp.unix_millis {
        a.timestamp.unix_millis < b.timestamp.unix_millis
    } else {
        a.channel.rank() < b.channel.rank()
    }
}

pub open spec fn key_le(a: LockerKey, b: LockerKey) -> bool {
    a == b || key_lt(a, b)
}

fn kind_rank(k: RecordKind) -> (r: u8)
    ensures
        r == k.rank(),
{
    match k {
        RecordKind::Course => 0,
        RecordKind::Orientation => 1,
        RecordKind::Ping => 2,
        RecordKind::Position => 3,
    }
}

fn channel_rank(c: Channel) -> (r: u8)
    ensures
        r == c.rank(),
{
    match c {
        Channel::Port => 0,
        Channel::Starboard => 1,
        Channel::Other => 2,
    }
}

/// Whether `a` comes strictly before `b` in key order.
pub fn key_less(a: &LockerKey, b: &LockerKey) -> (r: bool)
    ensures
        r == key_lt(*a, *b),
{
    let ka = kind_rank(a.kind);
    let kb = kind_rank(b.kind);
    if ka != kb {
        ka < kb
    } else if a.timestamp.unix_millis != b.timestamp.unix_millis {
        a.timestamp.unix_millis < b.timestamp.unix_millis
    } else {
        channel_rank(a.channel) < channel_rank(b.channel)
    }
}

/// The key of a record: pings keep their channel, every other kind is keyed
/// on `Channel::Other`, and unknown records have no key.
pub open spec fn record_key<T>(rec: SonarDataRecord<T>) -> Option<LockerKey> {
    match rec {
        SonarDataRecord::Ping(p) => Some(
            LockerKey { kind: RecordKind::Ping, timestamp: p.timestamp, channel: p.channel },
        ),
        SonarDataRecord::Course(c) => Some(
            LockerKey { kind: RecordKind::Course, timestamp: c.timestamp, channel: Channel::Other },
        ),
        SonarDataRecord::Position(p) => Some(
            LockerKey {
                kind: RecordKind::Position,
                timestamp: p.timestamp,
                channel: Channel::Other,
            },
        ),
        SonarDataRecord::Orientation(o) => Some(
            LockerKey {
                kind: RecordKind::Orientation,
                timestamp: o.timestamp,
                channel: Channel::Other,
            },
        ),
        SonarDataRecord::Unknown => None,
    }
}

/// Create a LockerKey from a SonarDataRecord
///
/// Returns `None` if the record is `SonarDataRecord::Unknown`, otherwise
/// `Some(key)`.
pub fn create_key<T>(rec: SonarDataRecord<T>) -> (r: Option<LockerKey>)
    ensures
        r == record_key(rec),
{
    match rec {
        SonarDataRecord::Ping(p) => Some(
            LockerKey { kind: RecordKind::Ping, timestamp: p.timestamp, channel: p.channel },
        ),
        SonarDataRecord::Course(c) => Some(
            LockerKey { kind: RecordKind::Course, timestamp: c.timestamp, channel: Channel::Other },
        ),
        SonarDataRecord::Position(p) => Some(
            LockerKey {
                kind: RecordKind::Position,
                timestamp: p.timestamp,
                channel: Channel::Other,
            },
        ),
        SonarDataRecord::Orientation(o) => Some(
            LockerKey {
                kind: RecordKind::Orientation,
                timestamp: o.timestamp,
                channel: Channel::Other,
            },
        ),
        SonarDataRecord::Unknown => None,
    }
}


/// One entry of the index: a key and where its record starts.
#[derive(Debug, Clone, Copy, PartialEq, Eq, Structural)]
pub struct IndexEntry {
    pub key: LockerKey,
    pub location: Location,
}

/// Strictly increasing keys, hence no key twice.
pub open spec fn sorted(s: Seq<IndexEntry>) -> bool {
    forall|i: int, j: int| 0 <= i < j < s.len() ==> key_lt(#[trigger] s[i].key, #[trigger] s[j].key)
}

/// Whether some entry has key `k`.
pub open spec fn has_key(s: Seq<IndexEntry>, k: LockerKey) -> bool {
    exists|i: int| 0 <= i < s.len() && #[trigger] s[i].key == k
}

/// The keys of the entries.
pub open spec fn key_set(s: Seq<IndexEntry>) -> Set<LockerKey> {
    Set::new(|k: LockerKey| has_key(s, k))
}

/// `key_lt` is a strict total order.
pub proof fn lemma_key_order(a: LockerKey, b: LockerKey, c: LockerKey)
    ensures
        !key_lt(a, a),
        key_lt(a, b) ==> !key_lt(b, a),
        key_lt(a, b) && key_lt(b, c) ==> key_lt(a, c),
        a == b || key_lt(a, b) || key_lt(b, a),
{
    if a.timestamp.unix_millis == b.timestamp.unix_millis {
        assert(a.timestamp == b.timestamp);
    }
}

/// An ordered index from keys to locations, kept as a vector sorted by key.
pub struct Index {
    entries: Vec<IndexEntry>,
}

impl View for Index {
    type V = Seq<IndexEntry>;

    closed spec fn view(&self) -> Seq<IndexEntry> {
        self.entries@
    }
}

impl Index {
    pub open spec fn wf(&self) -> bool {
        sorted(self@)
    }

    /// An empty index
    pub fn new() -> (r: Index)
        ensures
            r@ == Seq::<IndexEntry>::empty(),
            r.wf(),
    {
        Index { entries: Vec::new() }
    }

    /// The number of entries
    pub fn len(&self) -> (r: usize)
        ensures
            r == self@.len(),
    {
        self.entries.len()
    }

    /// The entries, in key order
    pub fn entries(&self) -> (r: &Vec<IndexEntry>)
        ensures
            r@ == self@,
    {
        &self.entries
    }

    /// The first position whose key is not before `k`.
    pub fn lower_bound(&self, k: &LockerKey) -> (r: usize)
        requires
            self.wf(),
        ensures
            r <= self@.len(),
            forall|j: int| 0 <= j < r ==> key_lt(#[trigger] self@[j].key, *k),
            forall|j: int| r <= j < self@.len() ==> !key_lt(#[trigger] self@[j].key, *k),
    {
        let mut lo: usize = 0;
        let mut hi: usize = self.entries.len();
        while lo < hi
            invariant
                lo <= hi <= self@.len(),
                sorted(self@),
                forall|j: int| 0 <= j < lo ==> key_lt(#[trigger] self@[j].key, *k),
                forall|j: int| hi <= j < self@.len() ==> !key_lt(#[trigger] self@[j].key, *k),
            decreases hi - lo,
        {
            let mid = lo + (hi - lo) / 2;
            if key_less(&self.entries[mid].key, k) {
                proof {
                    assert forall|j: int| 0 <= j <= mid implies key_lt(#[trigger] self@[j].key, *k) by {
                        if j < mid {
                            lemma_key_order(self@[j].key, self@[mid as int].key, *k);
                        }
                    }
                }
                lo = mid + 1;
            } else {
                proof {
                    assert forall|j: int| mid <= j < self@.len() implies !key_lt(#[trigger] self@[j].key, *k) by {
                        if j > mid {
                            lemma_key_order(self@[mid as int].key, self@[j].key, *k);
                            lemma_key_order(*k, self@[mid as int].key, self@[j].key);
                            lemma_key_order(self@[j].key, *k, self@[mid as int].key);
                        }
                    }
                }
                hi = mid;
            }
        }
        lo
    }

    /// Store `l` under `k`, replacing the location that `k` had, if any.
    pub fn insert(&mut self, k: LockerKey, l: Location)
        requires
            old(self).wf(),
        ensures
            final(self).wf(),
            final(self)@.contains(IndexEntry { key: k, location: l }),
            forall|x: IndexEntry| #[trigger] final(self)@.contains(x) <==> (if x.key == k {
                x.location == l
            } else {
                old(self)@.contains(x)
            }),
            forall|k2: LockerKey| has_key(final(self)@, k2) <==> (has_key(old(self)@, k2) || k2 == k),
            final(self)@.len() == old(self)@.len() + if has_key(old(self)@, k) {
                0int
            } else {
                1int
            },
    {
        let ghost s = self@;
        let e = IndexEntry { key: k, location: l };
        let i = self.lower_bound(&k);
        let found = i < self.entries.len() && self.entries[i].key == k;
        proof {
            assert forall|j: int| i <= j < s.len() && !(found && j == i) implies key_lt(k, #[trigger] s[j].key) by {
                lemma_key_order(k, s[j].key, k);
                if j > i {
                    assert(key_lt(s[i as int].key, s[j].key));
                    lemma_key_order(k, s[i as int].key, s[j].key);
                    lemma_key_order(s[i as int].key, k, s[i as int].key);
                }
            }
            lemma_key_order(k, k, k);
        }
        if found {
            self.entries.set(i, e);
            proof {
                let t = self@;
                assert(t =~= s.update(i as int, e));
                assert forall|a: int, b: int| 0 <= a < b < t.len() implies key_lt(#[trigger] t[a].key, #[trigger] t[b].key) by {
                    assert(t[a].key == s[a].key && t[b].key == s[b].key);
                }
                assert forall|x: IndexEntry| #[trigger] t.contains(x) <==> (if x.key == k {
                    x.location == l
                } else {
                    s.contains(x)
                }) by {
                    if t.contains(x) {
                        let j = choose|j: int| 0 <= j < t.len() && t[j] == x;
                        if j != i {
                            assert(s[j] == x);
                            if j < i {
                                assert(key_lt(s[j].key, k));
                            } else {
                                assert(key_lt(k, s[j].key));
                            }
                        }
                    }
                    if x.key == k && x.location == l {
                        assert(t[i as int] == x);
                    }
                    if x.key != k && s.contains(x) {
                        let j = choose|j: int| 0 <= j < s.len() && s[j] == x;
                        assert(j != i);
                        assert(t[j] == x);
                    }
                }
                assert forall|k2: LockerKey| has_key(t, k2) <==> (has_key(s, k2) || k2 == k) by {
                    if has_key(t, k2) {
                        let j = choose|j: int| 0 <= j < t.len() && #[trigger] t[j].key == k2;
                        assert(s[j].key == k2);
                    }
                    if has_key(s, k2) {
                        let j = choose|j: int| 0 <= j < s.len() && #[trigger] s[j].key == k2;
                        assert(t[j].key == k2);
                    }
                    if k2 == k {
                        assert(t[i as int].key == k2);
                    }
                }
                assert(has_key(s, k)) by {
                    assert(s[i as int].key == k);
                }
            }
        } else {
            self.entries.insert(i, e);
            proof {
                let t = self@;
                assert(t =~= s.insert(i as int, e));
                assert forall|j: int| 0 <= j < t.len() implies #[trigger] t[j] == (if j < i {
                    s[j]
                } else if j == i {
                    e
                } else {
                    s[j - 1]
                }) by {}
                assert forall|a: int, b: int| 0 <= a < b < t.len() implies key_lt(#[trigger] t[a].key, #[trigger] t[b].key) by {
                    if b < i {
                        assert(key_lt(s[a].key, s[b].key));
                    } else if b == i {
                    } else if a < i {
                        lemma_key_order(s[a].key, k, s[b - 1].key);
                    } else if a == i {
                    } else {
                        assert(key_lt(s[a - 1].key, s[b - 1].key));
                    }
                }
                assert forall|j: int| 0 <= j < s.len() implies #[trigger] s[j].key != k by {
                    if j < i {
                        assert(key_lt(s[j].key, k));
                    } else {
                        assert(key_lt(k, s[j].key));
                    }
                }
                assert forall|x: IndexEntry| #[trigger] t.contains(x) <==> (if x.key == k {
                    x.location == l
                } else {
                    s.contains(x)
                }) by {
                    if t.contains(x) {
                        let j = choose|j: int| 0 <= j < t.len() && t[j] == x;
                        if j < i {
                            assert(s[j] == x);
                        } else if j > i {
                            assert(s[j - 1] == x);
                        }
                    }
                    if x.key == k && x.location == l {
                        assert(t[i as int] == x);
                    }
                    if s.contains(x) {
                        let j = choose|j: int| 0 <= j < s.len() && s[j] == x;
                        if j < i {
                            assert(t[j] == x);
                        } else {
                            assert(t[j + 1] == x);
                        }
                    }
                }
                assert forall|k2: LockerKey| has_key(t, k2) <==> (has_key(s, k2) || k2 == k) by {
                    if has_key(t, k2) {
                        let j = choose|j: int| 0 <= j < t.len() && #[trigger] t[j].key == k2;
                        if j < i {
                            assert(s[j].key == k2);
                        } else if j > i {
                            assert(s[j - 1].key == k2);
                        }
                    }
                    if has_key(s, k2) {
                        let j = choose|j: int| 0 <= j < s.len() && #[trigger] s[j].key == k2;
                        if j < i {
                            assert(t[j].key == k2);
                        } else {
                            assert(t[j + 1].key == k2);
                        }
                    }
                    if k2 == k {
                        assert(t[i as int].key == k2);
                    }
                }
            }
        }
        proof {
            assert(self@.contains(IndexEntry { key: k, location: l }) <==> (l == l));
        }
    }

    /// The entries whose keys lie in `[lo, hi)`, in key order.
    pub fn range(&self, lo: &LockerKey, hi: &LockerKey) -> (r: Vec<IndexEntry>)
        requires
            self.wf(),
        ensures
            sorted(r@),
            forall|x: IndexEntry| #[trigger] r@.contains(x) <==> (self@.contains(x) && key_le(*lo, x.key)
                && key_lt(x.key, *hi)),
    {
        let a = self.lower_bound(lo);
        let b0 = self.lower_bound(hi);
        let b = if b0 < a {
            a
        } else {
            b0
        };
        let mut r: Vec<IndexEntry> = Vec::new();
        let mut j: usize = a;
        while j < b
            invariant
                a <= j <= b,
                b <= self@.len(),
                r@ == self@.subrange(a as int, j as int),
            decreases b - j,
        {
            r.push(self.entries[j]);
            j += 1;
            proof {
                assert(r@ =~= self@.subrange(a as int, j as int));
            }
        }
        proof {
            let s = self@;
            assert(r@ =~= s.subrange(a as int, b as int));
            assert forall|x: IndexEntry| #[trigger] r@.contains(x) <==> (s.contains(x) && key_le(*lo, x.key)
                && key_lt(x.key, *hi)) by {
                if r@.contains(x) {
                    let j = choose|j: int| 0 <= j < r@.len() && r@[j] == x;
                    assert(s[a + j] == x);
                    lemma_key_order(x.key, *lo, x.key);
                }
                if s.contains(x) && key_le(*lo, x.key) && key_lt(x.key, *hi) {
                    let j = choose|j: int| 0 <= j < s.len() && s[j] == x;
                    if j < a {
                        lemma_key_order(x.key, *lo, x.key);
                        lemma_key_order(*lo, x.key, *lo);
                    }
                    if j >= b {
                        assert(!key_lt(s[j].key, *hi));
                    }
                    assert(j < b);
                    assert(r@[j - a] == x);
                }
            }
            assert forall|i: int, k: int| 0 <= i < k < r@.len() implies key_lt(#[trigger] r@[i].key, #[trigger] r@[k].key) by {
                assert(r@[i] == s[a + i] && r@[k] == s[a + k]);
            }
        }
        r
    }

    /// The location stored under `k`, if any.
    pub fn get(&self, k: &LockerKey) -> (r: Option<Location>)
        requires
            self.wf(),
        ensures
            r is Some <==> has_key(self@, *k),
            forall|l: Location|
                #![trigger self@.contains(IndexEntry { key: *k, location: l })]
                r == Some(l) <==> self@.contains(IndexEntry { key: *k, location: l }),
    {
        let i = self.lower_bound(k);
        if i < self.entries.len() && self.entries[i].key == *k {
            let r = Some(self.entries[i].location);
            proof {
                assert forall|l: Location| self@.contains(IndexEntry { key: *k, location: l }) implies r == Some(l) by {
                    let j = choose|j: int| 0 <= j < self@.len() && self@[j] == IndexEntry { key: *k, location: l };
                    lemma_key_order(*k, *k, *k);
                    if j < i {
                        assert(key_lt(self@[j].key, self@[i as int].key));
                    } else if j > i {
                        assert(key_lt(self@[i as int].key, self@[j].key));
                    }
                }
                assert(self@[i as int] == IndexEntry { key: *k, location: self@[i as int].location });
            }
            r
        } else {
            proof {
                assert forall|j: int| 0 <= j < self@.len() implies #[trigger] self@[j].key != *k by {
                    if j >= i && self@[j].key == *k {
                        lemma_key_order(*k, *k, *k);
                        if j > i {
                            assert(key_lt(self@[i as int].key, self@[j].key));
                            lemma_key_order(self@[i as int].key, *k, *k);
                            lemma_key_order(*k, self@[i as int].key, *k);
                        }
                    }
                }
                assert forall|l: Location| !self@.contains(IndexEntry { key: *k, location: l }) by {
                    if self@.contains(IndexEntry { key: *k, location: l }) {
                        let j = choose|j: int| 0 <= j < self@.len() && self@[j] == IndexEntry { key: *k, location: l };
                        assert(self@[j].key == *k);
                    }
                }
            }
            None
        }
    }
}


/// Whether a file's decoding succeeded and holds an entry with key `k`.
pub open spec fn scan_has_key(r: Result<FileScan, DecodeError>, k: LockerKey) -> bool {
    match r {
        Ok(s) => exists|j: int| 0 <= j < s.entries@.len() && #[trigger] s.entries@[j].key == k,
        Err(_) => false,
    }
}

/// Whether key `k` is in an index that started as `start` and took the
/// entries `es[0..n]` that `kind` lets through.
pub open spec fn added(
    start: Seq<IndexEntry>,
    es: Seq<ScanEntry>,
    n: int,
    kind: Option<RecordKind>,
    k: LockerKey,
) -> bool {
    has_key(start, k) || (selects(kind, k) && exists|j: int| 0 <= j < n && #[trigger] es[j].key == k)
}

proof fn lemma_added_step(
    start: Seq<IndexEntry>,
    before: Seq<IndexEntry>,
    after: Seq<IndexEntry>,
    es: Seq<ScanEntry>,
    i: int,
    kind: Option<RecordKind>,
    wanted: bool,
)
    requires
        0 <= i < es.len(),
        wanted == selects(kind, es[i].key),
        forall|k: LockerKey| #[trigger] has_key(before, k) == added(start, es, i, kind, k),
        wanted ==> forall|k: LockerKey| has_key(after, k) <==> (has_key(before, k) || k == es[i].key),
        !wanted ==> after == before,
    ensures
        forall|k: LockerKey| #[trigger] has_key(after, k) == added(start, es, i + 1, kind, k),
{
    assert forall|k: LockerKey| #[trigger] has_key(after, k) == added(start, es, i + 1, kind, k) by {
        assert(has_key(before, k) == added(start, es, i, kind, k));
        if k == es[i].key {
            assert(es[i].key == k);
        }
        if exists|j: int| 0 <= j < i + 1 && #[trigger] es[j].key == k {
            let j = choose|j: int| 0 <= j < i + 1 && #[trigger] es[j].key == k;
            if j < i {
                assert(exists|j: int| 0 <= j < i && #[trigger] es[j].key == k);
            }
        }
    }
}

/// Whether a kind filter lets a key through: `None` lets every key through.
pub open spec fn selects(kind: Option<RecordKind>, k: LockerKey) -> bool {
    match kind {
        Some(x) => k.kind == x,
        None => true,
    }
}

/// Whether a key is among those that building from `scans` has added once
/// every kind of rank below `rank` is done, and, of kind `rank`, the files
/// below `file`.
pub open spec fn built_upto(
    scans: Seq<Result<FileScan, DecodeError>>,
    k: LockerKey,
    rank: int,
    file: int,
) -> bool {
    exists|a: int|
        0 <= a < scans.len() && #[trigger] scan_has_key(scans[a], k) && (k.kind.rank() < rank || (
        k.kind.rank() == rank && a < file))
}

proof fn lemma_kind_rank_injective(a: RecordKind, b: RecordKind)
    ensures
        a.rank() == b.rank() <==> a == b,
{
}

fn kind_of_rank(rank: u8) -> (r: RecordKind)
    requires
        rank < 4,
    ensures
        r.rank() == rank,
{
    if rank == 0 {
        RecordKind::Course
    } else if rank == 1 {
        RecordKind::Orientation
    } else if rank == 2 {
        RecordKind::Ping
    } else {
        RecordKind::Position
    }
}

/// Why a locker lookup failed.
#[derive(Debug, Clone, Copy, PartialEq, Eq, Structural)]
pub enum LockerError {
    /// No record of the locker has the key.
    KeyNotFound,
}

/// Whether an entry points at a well-framed message of its file whose key
/// is the entry's key.
pub open spec fn locates(contents: Seq<Seq<u8>>, e: IndexEntry) -> bool {
    &&& e.location.file < contents.len()
    &&& entry_ok(contents[e.location.file as int], ScanEntry { offset: e.location.offset, key: e.key })
}

/// A representation of an on-disk sonar data set
///
/// A `Locker` holds an in-memory index that maps keys to a file and a byte
/// offset within that file where the record can be found. Keys hold the
/// kind of the record, its acquisition time and its channel, in that order,
/// so that the pings of both channels between two times form one range.
/// The channel only has meaning for pings; all other records are keyed on
/// `Channel::Other`.
pub struct Locker {
    path: String,
    files: Vec<String>,
    index: Index,
    contents: Ghost<Seq<Seq<u8>>>,
}

impl Locker {
    /// The entries of the index, in key order.
    pub closed spec fn index_view(&self) -> Seq<IndexEntry> {
        self.index@
    }

    /// The bytes of each file of the locker, as they were decoded.
    pub closed spec fn contents(&self) -> Seq<Seq<u8>> {
        self.contents@
    }

    /// The paths of the files, by number.
    pub closed spec fn file_paths(&self) -> Seq<Seq<char>> {
        self.files@.map_values(|f: String| f@)
    }

    pub closed spec fn path_view(&self) -> Seq<char> {
        self.path@
    }

    /// The index is sorted, there are as many contents as files, and every
    /// entry points at a well-framed message of its file whose key is the
    /// entry's key.
    pub closed spec fn wf(&self) -> bool {
        &&& self.index.wf()
        &&& self.files@.len() == self.contents@.len()
        &&& forall|j: int| 0 <= j < self.index@.len() ==> #[trigger] locates(self.contents@, self.index@[j])
    }

    /// An empty locker for the directory at `path`
    pub fn new(path: String) -> (r: Locker)
        ensures
            r.wf(),
            r.index_view() == Seq::<IndexEntry>::empty(),
            r.contents() == Seq::<Seq<u8>>::empty(),
            r.file_paths() == Seq::<Seq<char>>::empty(),
            r.path_view() == path@,
    {
        let r = Locker { path, files: Vec::new(), index: Index::new(), contents: Ghost(Seq::empty()) };
        proof {
            assert(r.file_paths() =~= Seq::<Seq<char>>::empty());
        }
        r
    }

    /// Return a reference to the path of the locker
    pub fn path(&self) -> (r: &String)
        ensures
            r@ == self.path_view(),
    {
        &self.path
    }

    /// Return a reference to the underlying index
    pub fn index(&self) -> (r: &Index)
        requires
            self.wf(),
        ensures
            r@ == self.index_view(),
            r.wf(),
    {
        &self.index
    }

    /// The path of the file with number `file`
    pub fn file_path(&self, file: usize) -> (r: Option<&String>)
        ensures
            file < self.file_paths().len() ==> r is Some && r->0@ == self.file_paths()[file as int],
            file >= self.file_paths().len() ==> r is None,
    {
        if file < self.files.len() {
            Some(&self.files[file])
        } else {
            None
        }
    }

    /// Take in a file's name and the bytes it was decoded from, under the
    /// next file number, without adding its records.
    fn register_file(&mut self, file_path: String, contents: Ghost<Seq<u8>>)
        requires
            old(self).wf(),
        ensures
            final(self).wf(),
            final(self).index@ == old(self).index@,
            final(self).path == old(self).path,
            final(self).files@ == old(self).files@.push(file_path),
            final(self).contents@ == old(self).contents@.push(contents@),
    {
        self.files.push(file_path);
        proof {
            self.contents@ = self.contents@.push(contents@);
            assert forall|j: int| 0 <= j < self.index@.len() implies #[trigger] locates(self.contents@, self.index@[j]) by {
                assert(locates(old(self).contents@, self.index@[j]));
                assert(self.contents@[self.index@[j].location.file as int] == old(self).contents@[self.index@[j].location.file as int]);
            }
        }
    }

    /// Add the records of a decoded file, the file with number `file`, to
    /// the index: those of kind `kind`, or all of them when `kind` is
    /// `None`. A key that is already there takes the new location.
    fn insert_entries(&mut self, file: usize, scan: &FileScan, kind: Option<RecordKind>)
        requires
            old(self).wf(),
            scan.wf(),
            file < old(self).contents@.len(),
            old(self).contents@[file as int] == scan.contents@,
        ensures
            final(self).wf(),
            final(self).path == old(self).path,
            final(self).files@ == old(self).files@,
            final(self).contents@ == old(self).contents@,
            forall|k: LockerKey| #[trigger] has_key(final(self).index@, k) == added(
                old(self).index@,
                scan.entries@,
                scan.entries@.len() as int,
                kind,
                k,
            ),
    {
        let mut i: usize = 0;
        while i < scan.entries.len()
            invariant
                i <= scan.entries@.len(),
                scan.wf(),
                self.files@ == old(self).files@,
                self.path == old(self).path,
                self.contents@ == old(self).contents@,
                file < self.contents@.len(),
                self.contents@[file as int] == scan.contents@,
                self.files@.len() == self.contents@.len(),
                self.index.wf(),
                forall|j: int| 0 <= j < self.index@.len() ==> #[trigger] locates(self.contents@, self.index@[j]),
                forall|k: LockerKey| #[trigger] has_key(self.index@, k) == added(
                    old(self).index@,
                    scan.entries@,
                    i as int,
                    kind,
                    k,
                ),
            decreases scan.entries@.len() - i,
        {
            let e = scan.entries[i];
            let wanted = match kind {
                Some(x) => kind_rank(x) == kind_rank(e.key.kind),
                None => true,
            };
            proof {
                if kind is Some {
                    lemma_kind_rank_injective(kind->0, e.key.kind);
                }
            }
            let ghost before = self.index@;
            if wanted {
                let ghost c = self.contents@;
                assert(forall|j: int| 0 <= j < before.len() ==> #[trigger] locates(c, before[j]));
                self.index.insert(e.key, Location { file, offset: e.offset });
                proof {
                    assert(entry_ok(scan.contents@, scan.entries@[i as int]));
                    assert forall|j: int| 0 <= j < self.index@.len() implies #[trigger] locates(c, self.index@[j]) by {
                        let x = self.index@[j];
                        assert(self.index@.contains(x));
                        if x.key != e.key {
                            let m = choose|m: int| 0 <= m < before.len() && before[m] == x;
                            assert(locates(c, before[m]));
                        }
                    }
                }
            }
            proof {
                lemma_added_step(old(self).index@, before, self.index@, scan.entries@, i as int, kind, wanted);
            }
            i += 1;
        }
    }

    /// Add the records of a decoded file to the index, under the next file
    /// number. A key that is already there takes the new location.
    pub fn add_file(&mut self, file_path: String, scan: &FileScan)
        requires
            old(self).wf(),
            scan.wf(),
        ensures
            final(self).wf(),
            final(self).path_view() == old(self).path_view(),
            final(self).file_paths() == old(self).file_paths().push(file_path@),
            final(self).contents() == old(self).contents().push(scan.contents@),
            forall|k: LockerKey| has_key(final(self).index_view(), k) <==> (has_key(old(self).index_view(), k)
                || exists|j: int| 0 <= j < scan.entries@.len() && #[trigger] scan.entries@[j].key == k),
    {
        let file = self.files.len();
        let ghost name = file_path;
        self.register_file(file_path, Ghost(scan.contents@));
        let ghost middle = self.index@;
        self.insert_entries(file, scan, None);
        proof {
            assert(self.file_paths() =~= old(self).file_paths().push(name@));
            assert(middle == old(self).index@);
            assert forall|k: LockerKey| has_key(self.index_view(), k) <==> (has_key(old(self).index_view(), k)
                || exists|j: int| 0 <= j < scan.entries@.len() && #[trigger] scan.entries@[j].key == k) by {
                assert(has_key(self.index@, k) == added(middle, scan.entries@, scan.entries@.len() as int, None, k));
            }
        }
    }

    /// Build the locker of a directory from the decoding of each of its
    /// files, numbering the files in the order given. The first file that
    /// failed to decode, if any, is the result instead, with its number.
    ///
    /// The records go into the index one kind at a time, in key order, so
    /// that a directory whose files are in time order fills the index
    /// mostly at its end. Records with the same key keep the order of the
    /// files and of the records within a file, so the last one wins.
    pub fn from_scans(
        path: String,
        names: &Vec<String>,
        scans: &Vec<Result<FileScan, DecodeError>>,
    ) -> (r: Result<Locker, (usize, DecodeError)>)
        requires
            names@.len() == scans@.len(),
            forall|i: int| 0 <= i < scans@.len() ==> (#[trigger] scans@[i] matches Ok(s) ==> s.wf()),
        ensures
            match r {
                Err((i, e)) => i < scans@.len() && scans@[i as int] == Err::<FileScan, DecodeError>(e)
                    && forall|j: int| 0 <= j < i ==> #[trigger] scans@[j] is Ok,
                Ok(_) => true,
            },
            r is Ok <==> forall|i: int| 0 <= i < scans@.len() ==> #[trigger] scans@[i] is Ok,
            match r {
                Ok(l) => l.wf() && l.path_view() == path@ && l.file_paths() == names@.map_values(
                    |n: String| n@,
                ) && l.contents().len() == scans@.len() && (forall|i: int|
                    0 <= i < scans@.len() ==> match #[trigger] scans@[i] {
                        Ok(s) => l.contents()[i] == s.contents@,
                        Err(_) => false,
                    }) && forall|k: LockerKey|
                    has_key(l.index_view(), k) <==> exists|i: int|
                        0 <= i < scans@.len() && #[trigger] scan_has_key(scans@[i], k),
                Err(_) => true,
            },
    {
        let mut i: usize = 0;
        while i < scans.len()
            invariant
                i <= scans@.len(),
                forall|j: int| 0 <= j < i ==> #[trigger] scans@[j] is Ok,
            decreases scans@.len() - i,
        {
            match &scans[i] {
                Err(e) => {
                    return Err((i, *e));
                },
                Ok(_) => {},
            }
            i += 1;
        }
        let mut locker = Locker::new(path);
        let mut i: usize = 0;
        while i < scans.len()
            invariant
                i <= scans@.len(),
                names@.len() == scans@.len(),
                forall|j: int| 0 <= j < scans@.len() ==> #[trigger] scans@[j] is Ok,
                locker.wf(),
                locker.index@.len() == 0,
                locker.path@ == path@,
                locker.file_paths() == names@.subrange(0, i as int).map_values(|n: String| n@),
                locker.contents@.len() == i,
                forall|j: int| 0 <= j < i ==> match #[trigger] scans@[j] {
                    Ok(s) => locker.contents@[j] == s.contents@,
                    Err(_) => false,
                },
            decreases scans@.len() - i,
        {
            match &scans[i] {
                Ok(s) => {
                    let ghost before_contents = locker.contents@;
                    let ghost before_paths = locker.file_paths();
                    let name = names[i].clone();
                    let ghost name_view = name@;
                    locker.register_file(name, Ghost(s.contents@));
                    proof {
                        assert(locker.file_paths() =~= before_paths.push(name_view));
                        assert(names@.subrange(0, i + 1).map_values(|n: String| n@) =~= names@.subrange(
                            0,
                            i as int,
                        ).map_values(|n: String| n@).push(names@[i as int]@));
                        assert(locker.file_paths() =~= names@.subrange(0, i + 1).map_values(|n: String| n@));
                        assert forall|j: int| 0 <= j < i + 1 implies match #[trigger] scans@[j] {
                            Ok(s) => locker.contents@[j] == s.contents@,
                            Err(_) => false,
                        } by {
                            if j < i {
                                assert(locker.contents@[j] == before_contents[j]);
                            }
                        }
                    }
                },
                Err(_) => {},
            }
            i += 1;
        }
        proof {
            assert(names@.subrange(0, names@.len() as int) =~= names@);
            assert forall|k: LockerKey| !has_key(locker.index@, k) by {}
        }
        let mut rank: u8 = 0;
        while rank < 4
            invariant
                rank <= 4,
                names@.len() == scans@.len(),
                forall|j: int| 0 <= j < scans@.len() ==> #[trigger] scans@[j] is Ok,
                forall|j: int| 0 <= j < scans@.len() ==> (#[trigger] scans@[j] matches Ok(s) ==> s.wf()),
                locker.wf(),
                locker.path@ == path@,
                locker.file_paths() == names@.map_values(|n: String| n@),
                locker.contents@.len() == scans@.len(),
                forall|j: int| 0 <= j < scans@.len() ==> match #[trigger] scans@[j] {
                    Ok(s) => locker.contents@[j] == s.contents@,
                    Err(_) => false,
                },
                forall|k: LockerKey| has_key(locker.index@, k) <==> built_upto(scans@, k, rank as int, 0),
            decreases 4 - rank,
        {
            let kind = kind_of_rank(rank);
            let mut i: usize = 0;
            while i < scans.len()
                invariant
                    rank < 4,
                    kind.rank() == rank,
                    i <= scans@.len(),
                    names@.len() == scans@.len(),
                    forall|j: int| 0 <= j < scans@.len() ==> #[trigger] scans@[j] is Ok,
                    forall|j: int| 0 <= j < scans@.len() ==> (#[trigger] scans@[j] matches Ok(s) ==> s.wf()),
                    locker.wf(),
                    locker.path@ == path@,
                    locker.file_paths() == names@.map_values(|n: String| n@),
                    locker.contents@.len() == scans@.len(),
                    forall|j: int| 0 <= j < scans@.len() ==> match #[trigger] scans@[j] {
                        Ok(s) => locker.contents@[j] == s.contents@,
                        Err(_) => false,
                    },
                    forall|k: LockerKey| has_key(locker.index@, k) <==> built_upto(scans@, k, rank as int, i as int),
                decreases scans@.len() - i,
            {
                match &scans[i] {
                    Ok(s) => {
                        let ghost before = locker.index@;
                        assert(locker.contents@[i as int] == s.contents@);
                        locker.insert_entries(i, s, Some(kind));
                        proof {
                            assert(locker.file_paths() == names@.map_values(|n: String| n@));
                            assert forall|k: LockerKey| has_key(locker.index@, k) <==> built_upto(scans@, k, rank as int, i + 1) by {
                                assert(has_key(locker.index@, k) == added(before, s.entries@, s.entries@.len() as int, Some(kind), k));
                                assert(has_key(before, k) <==> built_upto(scans@, k, rank as int, i as int));
                                if selects(Some(kind), k) && exists|j: int| 0 <= j < s.entries@.len() && #[trigger] s.entries@[j].key == k {
                                    assert(scan_has_key(scans@[i as int], k));
                                }
                                if built_upto(scans@, k, rank as int, i + 1) {
                                    let a = choose|a: int| 0 <= a < scans@.len() && #[trigger] scan_has_key(scans@[a], k)
                                        && (k.kind.rank() < rank || (k.kind.rank() == rank && a < i + 1));
                                    if a == i && k.kind.rank() == rank {
                                        lemma_kind_rank_injective(kind, k.kind);
                                        assert(exists|j: int| 0 <= j < s.entries@.len() && #[trigger] s.entries@[j].key == k);
                                    } else {
                                        assert(built_upto(scans@, k, rank as int, i as int));
                                    }
                                }
                            }
                        }
                    },
                    Err(_) => {},
                }
                i += 1;
            }
            proof {
                assert forall|k: LockerKey| built_upto(scans@, k, rank as int, scans@.len() as int) <==> built_upto(scans@, k, rank + 1, 0) by {}
            }
            rank += 1;
        }
        proof {
            assert forall|k: LockerKey| has_key(locker.index@, k) <==> exists|i: int|
                0 <= i < scans@.len() && #[trigger] scan_has_key(scans@[i], k) by {
                if exists|i: int| 0 <= i < scans@.len() && #[trigger] scan_has_key(scans@[i], k) {
                    let a = choose|a: int| 0 <= a < scans@.len() && #[trigger] scan_has_key(scans@[a], k);
                    assert(k.kind.rank() < 4);
                    assert(built_upto(scans@, k, 4, 0));
                }
            }
        }
        Ok(locker)
    }

    /// Where the record with key `k` starts.
    pub fn locate(&self, k: &LockerKey) -> (r: Result<Location, LockerError>)
        requires
            self.wf(),
        ensures
            r is Err <==> !has_key(self.index_view(), *k),
            r is Err ==> r == Err::<Location, LockerError>(LockerError::KeyNotFound),
            forall|l: Location| r == Ok::<Location, LockerError>(l) <==> self.index_view().contains(
                IndexEntry { key: *k, location: l },
            ),
    {
        match self.index.get(k) {
            Some(l) => Ok(l),
            None => Err(LockerError::KeyNotFound),
        }
    }

    /// The entries whose keys lie in `[lo, hi)`, in key order.
    pub fn range(&self, lo: &LockerKey, hi: &LockerKey) -> (r: Vec<IndexEntry>)
        requires
            self.wf(),
        ensures
            sorted(r@),
            forall|x: IndexEntry| #[trigger] r@.contains(x) <==> (self.index_view().contains(x) && key_le(*lo, x.key)
                && key_lt(x.key, *hi)),
    {
        self.index.range(lo, hi)
    }

    /// Get an iterator over the entries of the locker, sorted by key
    pub fn iter(&self) -> (r: Iter<'_>)
        requires
            self.wf(),
        ensures
            r.wf(),
            r.remaining() == self.index_view(),
    {
        Iter { entries: &self.index.entries, pos: 0 }
    }
}

/// An iterator over the entries of the locker, in key order
pub struct Iter<'a> {
    entries: &'a Vec<IndexEntry>,
    pos: usize,
}

impl<'a> Iter<'a> {
    pub closed spec fn wf(&self) -> bool {
        self.pos <= self.entries@.len()
    }

    /// The entries that the iterator has yet to hand out.
    pub closed spec fn remaining(&self) -> Seq<IndexEntry> {
        self.entries@.subrange(self.pos as int, self.entries@.len() as int)
    }

    /// The next entry, if any
    pub fn next(&mut self) -> (r: Option<IndexEntry>)
        requires
            old(self).wf(),
        ensures
            final(self).wf(),
            old(self).remaining().len() == 0 ==> r is None && final(self).remaining() == old(self).remaining(),
            old(self).remaining().len() > 0 ==> r == Some(old(self).remaining()[0])
                && final(self).remaining() == old(self).remaining().drop_first(),
    {
        if self.pos < self.entries.len() {
            let e = self.entries[self.pos];
            self.pos = self.pos + 1;
            proof {
                assert(self.remaining() =~= old(self).remaining().drop_first());
            }
            Some(e)
        } else {
            None
        }
    }

    /// The number of entries left
    pub fn len(&self) -> (r: usize)
        requires
            self.wf(),
        ensures
            r == self.remaining().len(),
    {
        self.entries.len() - self.pos
    }
}


/// Every key of a locker comes back from its own location: the message that
/// starts there is well framed, and it converts to a record with that key,
/// also when the reader sees only that message's bytes.
pub proof fn lemma_round_trip(locker: &Locker, k: LockerKey, l: Location)
    requires
        locker.wf(),
        locker.index_view().contains(IndexEntry { key: k, location: l }),
    ensures
        l.file < locker.contents().len(),
        key_at(locker.contents()[l.file as int], l.offset as int) == Some(k),
        match step_spec(locker.contents()[l.file as int], l.offset as int) {
            FrameStep::Next(n) => {
                let frame = locker.contents()[l.file as int].subrange(l.offset as int, n);
                step_spec(frame, 0) == FrameStep::Next(n - l.offset) && key_at(frame, 0) == Some(k)
            },
            _ => false,
        },
{
    let j = choose|j: int|
        0 <= j < locker.index_view().len() && locker.index_view()[j] == IndexEntry { key: k, location: l };
    assert(locates(locker.contents(), locker.index_view()[j]));
    lemma_frame_window(locker.contents()[l.file as int], l.offset as int);
}

/// For two instants `t0 < t1` and a kind, the keys from `(kind, t0, Port)`
/// up to `(kind, t1, Other)` are exactly those of that kind whose time lies
/// in `[t0, t1)`, whatever their channel, provided no key of that kind at
/// exactly `t1` is on port or starboard (those would fall inside the bound).
pub proof fn lemma_time_range(
    s: Seq<IndexEntry>,
    r: Seq<IndexEntry>,
    kind: RecordKind,
    t0: Timestamp,
    t1: Timestamp,
)
    requires
        t0.unix_millis < t1.unix_millis,
        forall|x: IndexEntry| #[trigger] r.contains(x) <==> (s.contains(x) && key_le(
            LockerKey { kind, timestamp: t0, channel: Channel::Port },
            x.key,
        ) && key_lt(x.key, LockerKey { kind, timestamp: t1, channel: Channel::Other })),
        forall|x: IndexEntry|
            #![trigger s.contains(x)]
            s.contains(x) && x.key.kind == kind && x.key.timestamp == t1 ==> x.key.channel
                == Channel::Other,
    ensures
        forall|x: IndexEntry| #[trigger] r.contains(x) <==> (s.contains(x) && x.key.kind == kind
            && t0.unix_millis <= x.key.timestamp.unix_millis < t1.unix_millis),
{
    let lo = LockerKey { kind, timestamp: t0, channel: Channel::Port };
    let hi = LockerKey { kind, timestamp: t1, channel: Channel::Other };
    assert forall|x: IndexEntry| #[trigger] r.contains(x) <==> (s.contains(x) && x.key.kind == kind
        && t0.unix_millis <= x.key.timestamp.unix_millis < t1.unix_millis) by {
        if s.contains(x) && x.key.kind == kind && x.key.timestamp.unix_millis == t1.unix_millis {
            assert(x.key.timestamp == t1);
        }
        if x.key.kind.rank() == kind.rank() {
            assert(x.key.kind == kind);
        }
    }
}

/// Opening the same directory twice gives the same keys and the same number
/// of entries, whatever order the files' decodings arrive in: a locker
/// holds one entry per key, and its keys are those of the files it was built
/// from.
pub proof fn lemma_open_twice(
    first: &Locker,
    second: &Locker,
    scans_first: Seq<Result<FileScan, DecodeError>>,
    scans_second: Seq<Result<FileScan, DecodeError>>,
)
    requires
        first.wf(),
        second.wf(),
        forall|k: LockerKey| has_key(first.index_view(), k) <==> exists|i: int|
            0 <= i < scans_first.len() && #[trigger] scan_has_key(scans_first[i], k),
        forall|k: LockerKey| has_key(second.index_view(), k) <==> exists|i: int|
            0 <= i < scans_second.len() && #[trigger] scan_has_key(scans_second[i], k),
        forall|i: int| 0 <= i < scans_first.len() ==> #[trigger] scans_second.contains(scans_first[i]),
        forall|i: int| 0 <= i < scans_second.len() ==> #[trigger] scans_first.contains(scans_second[i]),
    ensures
        key_set(first.index_view()) == key_set(second.index_view()),
        first.index_view().len() == second.index_view().len(),
{
    assert forall|k: LockerKey| has_key(first.index_view(), k) <==> has_key(second.index_view(), k) by {
        if has_key(first.index_view(), k) {
            let i = choose|i: int| 0 <= i < scans_first.len() && #[trigger] scan_has_key(scans_first[i], k);
            assert(scans_second.contains(scans_first[i]));
            let j = choose|j: int| 0 <= j < scans_second.len() && scans_second[j] == scans_first[i];
            assert(scan_has_key(scans_second[j], k));
        }
        if has_key(second.index_view(), k) {
            let i = choose|i: int| 0 <= i < scans_second.len() && #[trigger] scan_has_key(scans_second[i], k);
            assert(scans_first.contains(scans_second[i]));
            let j = choose|j: int| 0 <= j < scans_first.len() && scans_first[j] == scans_second[i];
            assert(scan_has_key(scans_first[j], k));
        }
    }
    assert(key_set(first.index_view()) =~= key_set(second.index_view()));
    lemma_sorted_len(first.index_view());
    lemma_sorted_len(second.index_view());
}

/// A sorted index has as many entries as keys.
proof fn lemma_sorted_len(x: Seq<IndexEntry>)
    requires
        sorted(x),
    ensures
        key_set(x) == x.map_values(|e: IndexEntry| e.key).to_set(),
        key_set(x).len() == x.len(),
{
    let ks = x.map_values(|e: IndexEntry| e.key);
    assert forall|i: int, j: int| 0 <= i < ks.len() && 0 <= j < ks.len() && i != j implies ks[i] != ks[j] by {
        lemma_key_order(x[i].key, x[j].key, x[i].key);
        assert(ks[i] == x[i].key && ks[j] == x[j].key);
        if i < j {
            assert(key_lt(x[i].key, x[j].key));
        } else {
            assert(key_lt(x[j].key, x[i].key));
        }
    }
    assert(ks.no_duplicates());
    ks.unique_seq_to_set();
    assert forall|k: LockerKey| key_set(x).contains(k) <==> ks.to_set().contains(k) by {
        if has_key(x, k) {
            let i = choose|i: int| 0 <= i < x.len() && #[trigger] x[i].key == k;
            assert(ks[i] == k);
        }
        if ks.contains(k) {
            let i = choose|i: int| 0 <= i < ks.len() && ks[i] == k;
            assert(x[i].key == k);
        }
    }
    assert(key_set(x) =~= ks.to_set());
}

} // verus!
