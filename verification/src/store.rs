//! The snapshot store: pure logic over a directory of snapshot entries.
//!
//! A directory is modelled as a sequence of entries, each a name and the byte
//! content behind it, in creation (discovery) order.  The store enumerates
//! entries, derives the next free index by scanning names (no persisted
//! counter), appends new snapshots, and hands back the bytes of a chosen one.
//! Reading and writing the real directory is the caller's job.

use vstd::prelude::*;
use vstd::string::*;

use crate::SnapError;
use crate::index::lemma_snapshot_name_parses;
use crate::index::parse_index;
use crate::index::parse_index_spec;
use crate::index::snapshot_name;
use crate::index::snapshot_name_spec;

verus! {

broadcast use vstd::seq_lib::group_to_multiset_ensures;

/// One directory entry: a file name and the bytes stored under it.
pub struct Entry {
    pub name: String,
    pub content: Vec<u8>,
}

/// A snapshot directory's contents, in creation (discovery) order.
pub struct Store {
    pub entries: Vec<Entry>,
}

impl View for Entry {
    type V = (Seq<char>, Seq<u8>);

    open spec fn view(&self) -> (Seq<char>, Seq<u8>) {
        (self.name@, self.content@)
    }
}

impl View for Store {
    type V = Seq<(Seq<char>, Seq<u8>)>;

    open spec fn view(&self) -> Seq<(Seq<char>, Seq<u8>)> {
        self.entries@.map_values(|e: Entry| e@)
    }
}

/// The names of a modelled directory, in order.
pub open spec fn names_of(s: Seq<(Seq<char>, Seq<u8>)>) -> Seq<Seq<char>> {
    s.map_values(|e: (Seq<char>, Seq<u8>)| e.0)
}

/// The largest snapshot index among `names` (0 when none parses).
pub open spec fn max_index(names: Seq<Seq<char>>) -> int
    decreases names.len(),
{
    if names.len() == 0 {
        0
    } else {
        let rest = max_index(names.drop_last());
        match parse_index_spec(names.last()) {
            Some(v) => if v > rest { v as int } else { rest },
            None => rest,
        }
    }
}

/// The index every parseable name carries is at most `max_index`, and
/// `max_index` itself always fits in a `u64`.
pub proof fn lemma_max_index_bounds(names: Seq<Seq<char>>)
    ensures
        0 <= max_index(names) <= u64::MAX,
        forall|j: int| 0 <= j < names.len() && parse_index_spec(#[trigger] names[j]) is Some
            ==> parse_index_spec(names[j])->0 <= max_index(names),
    decreases names.len(),
{
    if names.len() > 0 {
        lemma_max_index_bounds(names.drop_last());
        assert forall|j: int| 0 <= j < names.len() && parse_index_spec(#[trigger] names[j]) is Some
            implies parse_index_spec(names[j])->0 <= max_index(names) by {
            if j < names.len() - 1 {
                assert(names.drop_last()[j] == names[j]);
            } else {
                assert(names[j] == names.last());
            }
        }
    }
}

/// The bytes behind the first entry called `name`, if any.
pub open spec fn restore_spec(s: Seq<(Seq<char>, Seq<u8>)>, name: Seq<char>) -> Option<Seq<u8>>
    decreases s.len(),
{
    if s.len() == 0 {
        None
    } else if s[0].0 == name {
        Some(s[0].1)
    } else {
        restore_spec(s.drop_first(), name)
    }
}

proof fn lemma_restore_at(s: Seq<(Seq<char>, Seq<u8>)>, name: Seq<char>, i: int)
    requires
        0 <= i <= s.len(),
        forall|k: int| 0 <= k < i ==> (#[trigger] s[k]).0 != name,
        i == s.len() || s[i].0 == name,
    ensures
        restore_spec(s, name) == if i == s.len() {
            None::<Seq<u8>>
        } else {
            Some(s[i].1)
        },
    decreases s.len(),
{
    if s.len() > 0 && s[0].0 != name {
        lemma_restore_at(s.drop_first(), name, i - 1);
    }
}

/// A directory after one successful snapshot creation: the old entries, then
/// the new one, named with the next free index and the given note.
pub open spec fn create_spec(
    s: Seq<(Seq<char>, Seq<u8>)>,
    note: Seq<char>,
    content: Seq<u8>,
) -> Seq<(Seq<char>, Seq<u8>)> {
    s.push((snapshot_name_spec((max_index(names_of(s)) + 1) as u64, note), content))
}

/// Copy a byte vector.
fn copy_bytes(src: &Vec<u8>) -> (r: Vec<u8>)
    ensures
        r@ == src@,
{
    let mut r: Vec<u8> = Vec::new();
    let mut i: usize = 0;
    while i < src.len()
        invariant
            0 <= i <= src@.len(),
            r@ == src@.take(i as int),
        decreases src@.len() - i,
    {
        r.push(src[i]);
        proof {
            assert(src@.take(i + 1) =~= src@.take(i as int).push(src@[i as int]));
        }
        i = i + 1;
    }
    proof {
        assert(src@.take(src@.len() as int) =~= src@);
    }
    r
}

impl Store {
    /// An empty directory.
    pub fn new() -> (s: Store)
        ensures
            s@ == Seq::<(Seq<char>, Seq<u8>)>::empty(),
    {
        let s = Store { entries: Vec::new() };
        proof {
            assert(s@ =~= Seq::<(Seq<char>, Seq<u8>)>::empty());
        }
        s
    }

    /// The largest index any entry name carries, 0 when none parses.  Lets
    /// a caller check, before creating, that the numbering has room left.
    pub fn largest_index(&self) -> (m: u64)
        ensures
            m as int == max_index(names_of(self@)),
    {
        let ghost names = names_of(self@);
        let mut m: u64 = 0;
        let mut i: usize = 0;
        proof {
            assert(names.take(0) =~= Seq::<Seq<char>>::empty());
        }
        while i < self.entries.len()
            invariant
                0 <= i <= self.entries@.len(),
                names == names_of(self@),
                names.len() == self.entries@.len(),
                m == max_index(names.take(i as int)),
            decreases self.entries@.len() - i,
        {
            let parsed = parse_index((&self.entries[i].name).as_str());
            proof {
                assert(names[i as int] == self.entries@[i as int].name@);
                assert(names.take(i + 1).drop_last() =~= names.take(i as int));
                assert(names.take(i + 1).last() == names[i as int]);
                lemma_max_index_bounds(names.take(i + 1));
            }
            if let Some(v) = parsed {
                if v > m {
                    m = v;
                }
            }
            i = i + 1;
        }
        proof {
            assert(names.take(names.len() as int) =~= names);
        }
        m
    }

    /// The index the next snapshot will get: one past the largest index any
    /// entry name carries, or 1 for a directory where none parses.  Entries
    /// whose name does not parse are ignored, never an error.
    pub fn next_index(&self) -> (r: u64)
        requires
            max_index(names_of(self@)) < u64::MAX,
        ensures
            r == max_index(names_of(self@)) + 1,
    {
        self.largest_index() + 1
    }

    /// Take a snapshot: with the source bytes in hand, append a new entry
    /// named after the next free index and the note.  With no source (the
    /// tracked file is missing), fail and leave the directory untouched.
    /// Returns the assigned index for the caller's event reporting.
    pub fn create(&mut self, source: Option<&Vec<u8>>, note: &str) -> (r: Result<
        u64,
        SnapError,
    >)
        requires
            source is Some ==> max_index(names_of(old(self)@)) < u64::MAX,
        ensures
            match r {
                Ok(idx) => {
                    &&& source is Some
                    &&& idx == max_index(names_of(old(self)@)) + 1
                    &&& final(self)@ == create_spec(old(self)@, note@, source->0@)
                },
                Err(e) => {
                    &&& e == SnapError::SourceMissing
                    &&& source is None
                    &&& final(self)@ == old(self)@
                },
            },
    {
        match source {
            None => Err(SnapError::SourceMissing),
            Some(content) => {
                let idx = self.next_index();
                let name = snapshot_name(idx, note);
                let bytes = copy_bytes(content);
                self.entries.push(Entry { name, content: bytes });
                proof {
                    assert(self@ =~= create_spec(old(self)@, note@, content@));
                }
                Ok(idx)
            },
        }
    }

    /// The bytes of the first entry called `name`, or `None` when the
    /// directory holds no such entry.
    pub fn restore(&self, name: &String) -> (r: Option<&Vec<u8>>)
        ensures
            match r {
                Some(c) => restore_spec(self@, name@) == Some(c@),
                None => restore_spec(self@, name@) is None,
            },
    {
        let mut i: usize = 0;
        while i < self.entries.len()
            invariant
                0 <= i <= self.entries@.len(),
                forall|k: int| 0 <= k < i ==> (#[trigger] self@[k]).0 != name@,
            decreases self.entries@.len() - i,
        {
            if (&self.entries[i].name).eq(name) {
                proof {
                    assert(self@[i as int].0 == name@);
                    lemma_restore_at(self@, name@, i as int);
                }
                return Some(&self.entries[i].content);
            }
            proof {
                assert(self@[i as int].0 == self.entries@[i as int].name@);
            }
            i = i + 1;
        }
        proof {
            lemma_restore_at(self@, name@, self@.len() as int);
        }
        None
    }
}

/// The views of a sequence of name strings.
pub open spec fn name_views(names: Seq<String>) -> Seq<Seq<char>> {
    names.map_values(|s: String| s@)
}

/// The names that are snapshots: those whose prefix parses as an index, in
/// stored order.
pub open spec fn snapshot_names(names: Seq<Seq<char>>) -> Seq<Seq<char>>
    decreases names.len(),
{
    if names.len() == 0 {
        Seq::empty()
    } else {
        let rest = snapshot_names(names.drop_last());
        if parse_index_spec(names.last()) is Some {
            rest.push(names.last())
        } else {
            rest
        }
    }
}

/// Every name a listing keeps parses as a snapshot index.
pub proof fn lemma_snapshot_names_parse(names: Seq<Seq<char>>)
    ensures
        forall|q: int| 0 <= q < snapshot_names(names).len()
            ==> parse_index_spec(#[trigger] snapshot_names(names)[q]) is Some,
    decreases names.len(),
{
    if names.len() > 0 {
        lemma_snapshot_names_parse(names.drop_last());
        let rest = snapshot_names(names.drop_last());
        assert forall|q: int| 0 <= q < snapshot_names(names).len()
            implies parse_index_spec(#[trigger] snapshot_names(names)[q]) is Some by {
            if parse_index_spec(names.last()) is Some {
                if q < rest.len() {
                    assert(snapshot_names(names)[q] == rest[q]);
                } else {
                    assert(snapshot_names(names)[q] == names.last());
                }
            } else {
                assert(snapshot_names(names)[q] == rest[q]);
            }
        }
    }
}

/// The index a (parseable) snapshot name carries.
pub open spec fn index_key(s: Seq<char>) -> u64 {
    parse_index_spec(s)->0
}

proof fn lemma_snapshot_names_push(v: Seq<Seq<char>>, x: Seq<char>)
    ensures
        snapshot_names(v.push(x)) == if parse_index_spec(x) is Some {
            snapshot_names(v).push(x)
        } else {
            snapshot_names(v)
        },
{
    assert(v.push(x).drop_last() =~= v);
    assert(v.push(x).last() == x);
}

proof fn lemma_name_views_push(ns: Seq<String>, s: String)
    ensures
        name_views(ns.push(s)) == name_views(ns).push(s@),
{
    assert(name_views(ns.push(s)) =~= name_views(ns).push(s@));
}

proof fn lemma_name_views_remove(ns: Seq<String>, j: int)
    requires
        0 <= j < ns.len(),
    ensures
        name_views(ns.remove(j)) == name_views(ns).remove(j),
{
    assert(name_views(ns.remove(j)) =~= name_views(ns).remove(j));
}

/// The key of the (parseable) name `s`, for ordering a listing.
fn key_of(s: &String) -> (k: u64)
    requires
        parse_index_spec(s@) is Some,
    ensures
        k == index_key(s@),
{
    parse_index(s.as_str()).unwrap()
}

/// Order the parseable entry names ascending by their index; names that do
/// not parse are silently excluded.  Names with equal indices may come out
/// in either order.
pub fn list(names: Vec<String>) -> (r: Vec<String>)
    ensures
        name_views(r@).to_multiset() == snapshot_names(name_views(names@)).to_multiset(),
        forall|a: int| 0 <= a < r@.len() ==> parse_index_spec(#[trigger] name_views(r@)[a]) is Some,
        forall|a: int, b: int|
            #![trigger name_views(r@)[a], name_views(r@)[b]]
            0 <= a < b < r@.len() ==> index_key(name_views(r@)[a]) <= index_key(name_views(r@)[b]),
{
    // Keep only the names that parse.
    let mut work: Vec<String> = Vec::new();
    let mut i: usize = 0;
    proof {
        assert(name_views(names@.take(0)) =~= Seq::<Seq<char>>::empty());
        assert(name_views(work@) =~= snapshot_names(name_views(names@.take(0))));
    }
    while i < names.len()
        invariant
            0 <= i <= names@.len(),
            name_views(work@) == snapshot_names(name_views(names@.take(i as int))),
        decreases names@.len() - i,
    {
        let kept = names[i].clone();
        let keep = parse_index(kept.as_str()).is_some();
        proof {
            let v = name_views(names@.take(i as int));
            let v1 = name_views(names@.take(i + 1));
            assert(v1 =~= v.push(names@[i as int]@));
            lemma_snapshot_names_push(v, names@[i as int]@);
            assert(kept@ == names@[i as int]@);
            if keep {
                lemma_name_views_push(work@, kept);
            }
        }
        if keep {
            work.push(kept);
        }
        i = i + 1;
    }
    proof {
        assert(names@.take(names@.len() as int) =~= names@);
    }
    let ghost total = snapshot_names(name_views(names@)).to_multiset();
    // Selection sort: repeatedly move the smallest remaining key.
    let mut out: Vec<String> = Vec::new();
    proof {
        assert(name_views(out@) =~= Seq::<Seq<char>>::empty());
        lemma_snapshot_names_parse(name_views(names@));
    }
    while work.len() > 0
        invariant
            forall|q: int| 0 <= q < work@.len()
                ==> parse_index_spec(#[trigger] name_views(work@)[q]) is Some,
            forall|p: int| 0 <= p < out@.len()
                ==> parse_index_spec(#[trigger] name_views(out@)[p]) is Some,
            forall|p: int, q: int|
                #![trigger name_views(out@)[p], name_views(out@)[q]]
                0 <= p < q < out@.len()
                    ==> index_key(name_views(out@)[p]) <= index_key(name_views(out@)[q]),
            forall|p: int, q: int|
                #![trigger name_views(out@)[p], name_views(work@)[q]]
                0 <= p < out@.len() && 0 <= q < work@.len()
                    ==> index_key(name_views(out@)[p]) <= index_key(name_views(work@)[q]),
            name_views(out@).to_multiset().add(name_views(work@).to_multiset()) == total,
        decreases work@.len(),
    {
        let mut j: usize = 0;
        let mut t: usize = 1;
        proof {
            assert(name_views(work@)[0] == work@[0]@);
        }
        while t < work.len()
            invariant
                0 <= j < t <= work@.len(),
                work@.len() > 0,
                forall|q: int| 0 <= q < work@.len()
                    ==> parse_index_spec(#[trigger] name_views(work@)[q]) is Some,
                forall|q: int| 0 <= q < t
                    ==> index_key(name_views(work@)[j as int])
                        <= index_key(#[trigger] name_views(work@)[q]),
            decreases work@.len() - t,
        {
            proof {
                assert(name_views(work@)[t as int] == work@[t as int]@);
                assert(name_views(work@)[j as int] == work@[j as int]@);
            }
            if key_of(&work[t]) < key_of(&work[j]) {
                j = t;
            }
            t = t + 1;
        }
        let ghost pre_work = work@;
        let ghost pre_out = out@;
        let s = work.remove(j);
        out.push(s);
        proof {
            let pw = name_views(pre_work);
            let x = pw[j as int];
            assert(s@ == x);
            lemma_name_views_remove(pre_work, j as int);
            lemma_name_views_push(pre_out, s);
            assert(name_views(work@) == pw.remove(j as int));
            assert(name_views(out@) == name_views(pre_out).push(x));
            assert(pw.remove(j as int).to_multiset() =~= pw.to_multiset().remove(x));
            assert(name_views(pre_out).push(x).to_multiset()
                =~= name_views(pre_out).to_multiset().insert(x));
            assert(pw.contains(x)) by {
                assert(pw[j as int] == x);
            }
            assert(pw.to_multiset().count(x) > 0);
            assert(name_views(out@).to_multiset().add(name_views(work@).to_multiset())
                =~= name_views(pre_out).to_multiset().add(pw.to_multiset()));
            assert forall|q: int| 0 <= q < work@.len()
                implies parse_index_spec(#[trigger] name_views(work@)[q]) is Some by {
                if q < j {
                    assert(name_views(work@)[q] == pw[q]);
                } else {
                    assert(name_views(work@)[q] == pw[q + 1]);
                }
            }
            assert forall|p: int, q: int|
                0 <= p < out@.len() && 0 <= q < work@.len()
                    implies index_key(#[trigger] name_views(out@)[p])
                        <= index_key(#[trigger] name_views(work@)[q]) by {
                if q < j {
                    assert(name_views(work@)[q] == pw[q]);
                } else {
                    assert(name_views(work@)[q] == pw[q + 1]);
                }
                if p < out@.len() - 1 {
                    assert(name_views(out@)[p] == name_views(pre_out)[p]);
                } else {
                    assert(name_views(out@)[p] == x);
                }
            }
            assert forall|p: int, q: int|
                0 <= p < q < out@.len()
                    implies index_key(#[trigger] name_views(out@)[p])
                        <= index_key(#[trigger] name_views(out@)[q]) by {
                if q < out@.len() - 1 {
                    assert(name_views(out@)[p] == name_views(pre_out)[p]);
                    assert(name_views(out@)[q] == name_views(pre_out)[q]);
                } else {
                    assert(name_views(out@)[p] == name_views(pre_out)[p]);
                    assert(name_views(out@)[q] == x);
                    assert(pw[j as int] == x);
                }
            }
        }
    }
    out
}

impl Store {
    /// The entry names of the directory, in stored order.
    pub fn names(&self) -> (r: Vec<String>)
        ensures
            name_views(r@) == names_of(self@),
    {
        let mut r: Vec<String> = Vec::new();
        let mut i: usize = 0;
        proof {
            assert(name_views(r@) =~= names_of(self@).take(0));
        }
        while i < self.entries.len()
            invariant
                0 <= i <= self.entries@.len(),
                names_of(self@).len() == self.entries@.len(),
                name_views(r@) == names_of(self@).take(i as int),
            decreases self.entries@.len() - i,
        {
            proof {
                assert(names_of(self@)[i as int] == self.entries@[i as int].name@);
                lemma_name_views_push(r@, self.entries@[i as int].name);
                assert(names_of(self@).take(i + 1)
                    =~= names_of(self@).take(i as int).push(names_of(self@)[i as int]));
            }
            r.push(self.entries[i].name.clone());
            i = i + 1;
        }
        proof {
            assert(names_of(self@).take(names_of(self@).len() as int) =~= names_of(self@));
        }
        r
    }

    /// The directory's snapshots, ordered ascending by index; entries whose
    /// name does not parse are silently excluded.
    pub fn list(&self) -> (r: Vec<String>)
        ensures
            name_views(r@).to_multiset() == snapshot_names(names_of(self@)).to_multiset(),
            forall|a: int| 0 <= a < r@.len()
                ==> parse_index_spec(#[trigger] name_views(r@)[a]) is Some,
            forall|a: int, b: int|
                #![trigger name_views(r@)[a], name_views(r@)[b]]
                0 <= a < b < r@.len()
                    ==> index_key(name_views(r@)[a]) <= index_key(name_views(r@)[b]),
    {
        list(self.names())
    }
}

/// A directory after a whole run of snapshot creations, each job a note and
/// the source bytes captured for it.
pub open spec fn run_creates(
    s: Seq<(Seq<char>, Seq<u8>)>,
    jobs: Seq<(Seq<char>, Seq<u8>)>,
) -> Seq<(Seq<char>, Seq<u8>)>
    decreases jobs.len(),
{
    if jobs.len() == 0 {
        s
    } else {
        run_creates(create_spec(s, jobs[0].0, jobs[0].1), jobs.drop_first())
    }
}

proof fn lemma_max_of_consecutive(names: Seq<Seq<char>>)
    requires
        names.len() <= u64::MAX,
        forall|j: int| 0 <= j < names.len()
            ==> parse_index_spec(#[trigger] names[j]) == Some((j + 1) as u64),
    ensures
        max_index(names) == names.len(),
    decreases names.len(),
{
    if names.len() > 0 {
        let d = names.drop_last();
        assert forall|j: int| 0 <= j < d.len()
            implies parse_index_spec(#[trigger] d[j]) == Some((j + 1) as u64) by {
            assert(d[j] == names[j]);
        }
        lemma_max_of_consecutive(d);
        assert(parse_index_spec(names.last()) == Some(names.len() as u64));
    }
}

proof fn lemma_run_consecutive(s: Seq<(Seq<char>, Seq<u8>)>, jobs: Seq<(Seq<char>, Seq<u8>)>)
    requires
        s.len() + jobs.len() <= u64::MAX,
        forall|j: int| 0 <= j < s.len()
            ==> parse_index_spec(#[trigger] names_of(s)[j]) == Some((j + 1) as u64),
    ensures
        run_creates(s, jobs).len() == s.len() + jobs.len(),
        forall|j: int| 0 <= j < s.len() + jobs.len()
            ==> parse_index_spec(#[trigger] names_of(run_creates(s, jobs))[j])
                == Some((j + 1) as u64),
    decreases jobs.len(),
{
    if jobs.len() > 0 {
        lemma_max_of_consecutive(names_of(s));
        let idx = (s.len() + 1) as u64;
        lemma_snapshot_name_parses(idx, jobs[0].0);
        let s1 = create_spec(s, jobs[0].0, jobs[0].1);
        assert forall|j: int| 0 <= j < s1.len()
            implies parse_index_spec(#[trigger] names_of(s1)[j]) == Some((j + 1) as u64) by {
            if j < s.len() {
                assert(names_of(s1)[j] == names_of(s)[j]);
            } else {
                assert(names_of(s1)[j] == snapshot_name_spec(idx, jobs[0].0));
            }
        }
        lemma_run_consecutive(s1, jobs.drop_first());
    }
}

/// Law: any run of successful creations on an initially empty directory,
/// with any mix of empty and non-empty notes, numbers its snapshots 1, 2,
/// ... in creation order; so after N creations the indices present are
/// exactly 1 through N, each once.
pub proof fn lemma_creates_number_consecutively(jobs: Seq<(Seq<char>, Seq<u8>)>)
    requires
        jobs.len() <= u64::MAX,
    ensures
        ({
            let t = run_creates(Seq::empty(), jobs);
            &&& t.len() == jobs.len()
            &&& forall|j: int| 0 <= j < t.len()
                ==> parse_index_spec(#[trigger] names_of(t)[j]) == Some((j + 1) as u64)
        }),
{
    let e = Seq::<(Seq<char>, Seq<u8>)>::empty();
    lemma_run_consecutive(e, jobs);
}

proof fn lemma_restore_push(
    s: Seq<(Seq<char>, Seq<u8>)>,
    x: (Seq<char>, Seq<u8>),
    name: Seq<char>,
)
    ensures
        restore_spec(s.push(x), name) == if restore_spec(s, name) is Some {
            restore_spec(s, name)
        } else if x.0 == name {
            Some(x.1)
        } else {
            None::<Seq<u8>>
        },
    decreases s.len(),
{
    let p = s.push(x);
    if s.len() == 0 {
        assert(p[0] == x);
        assert(p.drop_first() =~= Seq::<(Seq<char>, Seq<u8>)>::empty());
    } else {
        assert(p[0] == s[0]);
        assert(p.drop_first() =~= s.drop_first().push(x));
        lemma_restore_push(s.drop_first(), x, name);
    }
}

proof fn lemma_restore_after_run(
    t: Seq<(Seq<char>, Seq<u8>)>,
    jobs: Seq<(Seq<char>, Seq<u8>)>,
    name: Seq<char>,
)
    requires
        restore_spec(t, name) is Some,
    ensures
        restore_spec(run_creates(t, jobs), name) == restore_spec(t, name),
    decreases jobs.len(),
{
    if jobs.len() > 0 {
        let t1 = create_spec(t, jobs[0].0, jobs[0].1);
        lemma_restore_push(
            t,
            (
                snapshot_name_spec((max_index(names_of(t)) + 1) as u64, jobs[0].0),
                jobs[0].1,
            ),
            name,
        );
        lemma_restore_after_run(t1, jobs.drop_first(), name);
    }
}

/// Law: restoring a snapshot reproduces byte-for-byte the content captured
/// when it was created, independent of any snapshots created afterward.
pub proof fn lemma_restore_returns_creation_content(
    s: Seq<(Seq<char>, Seq<u8>)>,
    note: Seq<char>,
    content: Seq<u8>,
    later: Seq<(Seq<char>, Seq<u8>)>,
)
    requires
        max_index(names_of(s)) < u64::MAX,
    ensures
        ({
            let name = snapshot_name_spec((max_index(names_of(s)) + 1) as u64, note);
            restore_spec(run_creates(create_spec(s, note, content), later), name)
                == Some(content)
        }),
{
    let m = max_index(names_of(s));
    lemma_max_index_bounds(names_of(s));
    let idx = (m + 1) as u64;
    lemma_snapshot_name_parses(idx, note);
    let name = snapshot_name_spec(idx, note);
    assert forall|k: int| 0 <= k < s.len() implies (#[trigger] s[k]).0 != name by {
        if s[k].0 == name {
            assert(names_of(s)[k] == name);
            assert(parse_index_spec(names_of(s)[k]) == Some(idx));
        }
    }
    lemma_restore_at(s, name, s.len() as int);
    lemma_restore_push(s, (name, content), name);
    lemma_restore_after_run(create_spec(s, note, content), later, name);
}

} // verus!
