//! The status of each file of a versioned project, by path, in the order of
//! the paths: a sorted map from path to status.
use vstd::prelude::*;
use crate::text::chars_of;

verus! {

broadcast use vstd::string::group_string_axioms;

/// The state of one file in a versioned project.
#[derive(Clone, Copy, Debug, PartialEq, Eq, Structural)]
pub enum VcsFileStatus {
    Clean,
    Modified,
    Added,
    Deleted,
    Renamed,
    Untracked,
    Ignored,
    Conflicted,
}

/// `a` comes strictly before `b` in the order of strings: lexicographic by
/// code point, which is the byte order of their UTF-8 encodings.
pub open spec fn chars_lt(a: Seq<char>, b: Seq<char>) -> bool
    decreases a.len(),
{
    if a.len() == 0 {
        b.len() > 0
    } else if b.len() == 0 {
        false
    } else if a[0] != b[0] {
        (a[0] as int) < (b[0] as int)
    } else {
        chars_lt(a.drop_first(), b.drop_first())
    }
}

pub proof fn lemma_chars_lt_transitive(a: Seq<char>, b: Seq<char>, c: Seq<char>)
    requires
        chars_lt(a, b),
        chars_lt(b, c),
    ensures
        chars_lt(a, c),
    decreases a.len(),
{
    if a.len() > 0 && b.len() > 0 && c.len() > 0 && a[0] == b[0] && b[0] == c[0] {
        lemma_chars_lt_transitive(a.drop_first(), b.drop_first(), c.drop_first());
    }
}

pub proof fn lemma_chars_lt_irreflexive(a: Seq<char>)
    ensures
        !chars_lt(a, a),
    decreases a.len(),
{
    if a.len() > 0 {
        lemma_chars_lt_irreflexive(a.drop_first());
    }
}

pub proof fn lemma_chars_lt_total(a: Seq<char>, b: Seq<char>)
    requires
        a != b,
    ensures
        chars_lt(a, b) || chars_lt(b, a),
    decreases a.len(),
{
    if a.len() > 0 && b.len() > 0 {
        if a[0] == b[0] {
            if a.drop_first() == b.drop_first() {
                assert(a =~= seq![a[0]] + a.drop_first());
                assert(b =~= seq![b[0]] + b.drop_first());
            }
            lemma_chars_lt_total(a.drop_first(), b.drop_first());
        } else {
            assert(a[0] as int != b[0] as int);
        }
    } else if a.len() == 0 {
        if b.len() == 0 {
            assert(a =~= b);
        }
    }
}

proof fn lemma_char_code(c: char)
    ensures
        c as u32 == c as int,
{
}

/// Whether `a` comes strictly before `b` in the order of strings.
pub fn str_lt(a: &str, b: &str) -> (r: bool)
    ensures
        r == chars_lt(a@, b@),
{
    let x = chars_of(a);
    let y = chars_of(b);
    let mut i: usize = 0;
    assert(x@.skip(0) =~= x@);
    assert(y@.skip(0) =~= y@);
    while i < x.len() && i < y.len() && x[i] == y[i]
        invariant
            i <= x.len(),
            i <= y.len(),
            chars_lt(a@, b@) == chars_lt(x@.skip(i as int), y@.skip(i as int)),
        decreases x.len() - i,
    {
        assert(x@.skip(i as int).drop_first() =~= x@.skip(i + 1));
        assert(y@.skip(i as int).drop_first() =~= y@.skip(i + 1));
        i = i + 1;
    }
    if i == x.len() {
        i < y.len()
    } else if i == y.len() {
        false
    } else {
        let c = x[i];
        let d = y[i];
        proof {
            assert(x@.skip(i as int)[0] == c);
            assert(y@.skip(i as int)[0] == d);
            lemma_char_code(c);
            lemma_char_code(d);
        }
        (c as u32) < (d as u32)
    }
}

/// The entries' paths and statuses.
pub open spec fn entries_view(s: Seq<(String, VcsFileStatus)>) -> Seq<(Seq<char>, VcsFileStatus)> {
    s.map_values(|e: (String, VcsFileStatus)| (e.0@, e.1))
}

/// The paths of `s` increase strictly.
pub open spec fn strictly_sorted(s: Seq<(Seq<char>, VcsFileStatus)>) -> bool {
    forall|i: int, j: int| 0 <= i < j < s.len() ==> chars_lt(#[trigger] s[i].0, #[trigger] s[j].0)
}

/// The status stored under `path` in `s`, if any.
pub open spec fn lookup(s: Seq<(Seq<char>, VcsFileStatus)>, path: Seq<char>) -> Option<VcsFileStatus> {
    if exists|i: int| 0 <= i < s.len() && (#[trigger] s[i]).0 == path {
        Some(s[choose|i: int| 0 <= i < s.len() && (#[trigger] s[i]).0 == path].1)
    } else {
        None
    }
}

/// The map that the entries `s` hold.
pub open spec fn map_of(s: Seq<(Seq<char>, VcsFileStatus)>) -> Map<Seq<char>, VcsFileStatus> {
    Map::new(|p: Seq<char>| lookup(s, p) is Some, |p: Seq<char>| lookup(s, p)->0)
}

/// The map left by inserting each of `records` in turn into `m`: a later
/// record for a path replaces an earlier one.
pub open spec fn insert_all(m: Map<Seq<char>, VcsFileStatus>, records: Seq<(Seq<char>, VcsFileStatus)>) -> Map<Seq<char>, VcsFileStatus>
    decreases records.len(),
{
    if records.len() == 0 {
        m
    } else {
        insert_all(m, records.drop_last()).insert(records.last().0, records.last().1)
    }
}

proof fn lemma_lookup_at(s: Seq<(Seq<char>, VcsFileStatus)>, i: int)
    requires
        strictly_sorted(s),
        0 <= i < s.len(),
    ensures
        lookup(s, s[i].0) == Some(s[i].1),
{
    let j = choose|j: int| 0 <= j < s.len() && (#[trigger] s[j]).0 == s[i].0;
    if j != i {
        lemma_chars_lt_irreflexive(s[i].0);
        if j < i {
            assert(chars_lt(s[j].0, s[i].0));
        } else {
            assert(chars_lt(s[i].0, s[j].0));
        }
    }
}

/// The file statuses of a project, by path, in path order (a `BTreeMap` from
/// path to status).
pub struct FileStatuses {
    entries: Vec<(String, VcsFileStatus)>,
}

impl FileStatuses {
    /// The entries, in path order.
    pub closed spec fn entries(&self) -> Seq<(Seq<char>, VcsFileStatus)> {
        entries_view(self.entries@)
    }

    /// The status of each path.
    pub open spec fn map(&self) -> Map<Seq<char>, VcsFileStatus> {
        map_of(self.entries())
    }

    /// The paths increase strictly.
    pub open spec fn wf(&self) -> bool {
        strictly_sorted(self.entries())
    }

    /// No statuses.
    pub fn new() -> (r: Self)
        ensures
            r.wf(),
            r.entries().len() == 0,
            r.map() == Map::<Seq<char>, VcsFileStatus>::empty(),
    {
        let r = FileStatuses { entries: Vec::new() };
        assert(r.map() =~= Map::<Seq<char>, VcsFileStatus>::empty());
        r
    }

    /// How many paths have a status.
    pub fn len(&self) -> (n: usize)
        ensures
            n == self.entries().len(),
    {
        self.entries.len()
    }

    /// The path and status of the `i`-th entry in path order.
    pub fn entry(&self, i: usize) -> (r: (&str, VcsFileStatus))
        requires
            i < self.entries().len(),
        ensures
            r.0@ == self.entries()[i as int].0,
            r.1 == self.entries()[i as int].1,
    {
        (self.entries[i].0.as_str(), self.entries[i].1)
    }

    /// The status of `path`.
    pub fn get(&self, path: &str) -> (r: Option<VcsFileStatus>)
        requires
            self.wf(),
        ensures
            r == lookup(self.entries(), path@),
            r == (if self.map().contains_key(path@) { Some(self.map()[path@]) } else { None }),
    {
        let ghost s = self.entries();
        let mut i: usize = 0;
        while i < self.entries.len()
            invariant
                s == entries_view(self.entries@),
                strictly_sorted(s),
                i <= self.entries.len(),
                forall|k: int| 0 <= k < i ==> (#[trigger] s[k]).0 != path@,
            decreases self.entries.len() - i,
        {
            if crate::text::str_eq(self.entries[i].0.as_str(), path) {
                proof {
                    lemma_lookup_at(s, i as int);
                }
                return Some(self.entries[i].1);
            }
            i = i + 1;
        }
        None
    }

    /// Sets the status of `path`, replacing the one it had.
    pub fn insert(&mut self, path: String, status: VcsFileStatus)
        requires
            old(self).wf(),
        ensures
            final(self).wf(),
            final(self).map() == old(self).map().insert(path@, status),
    {
        let ghost s = self.entries();
        let mut p: usize = 0;
        while p < self.entries.len() && str_lt(self.entries[p].0.as_str(), path.as_str())
            invariant
                s == entries_view(self.entries@),
                p <= self.entries.len(),
                forall|k: int| 0 <= k < p ==> chars_lt(#[trigger] s[k].0, path@),
            decreases self.entries.len() - p,
        {
            p = p + 1;
        }
        if p < self.entries.len() && crate::text::str_eq(self.entries[p].0.as_str(), path.as_str()) {
            let ghost key = path@;
            self.entries.set(p, (path, status));
            proof {
                let t = self.entries();
                assert(t =~= s.update(p as int, (key, status)));
                assert forall|i: int, j: int| 0 <= i < j < t.len() implies chars_lt(#[trigger] t[i].0, #[trigger] t[j].0) by {
                    assert(chars_lt(s[i].0, s[j].0));
                }
                assert forall|q: Seq<char>| #[trigger] lookup(t, q) == (if q == key { Some(status) } else { lookup(s, q) }) by {
                    if q == key {
                        lemma_lookup_at(t, p as int);
                    } else if exists|i: int| 0 <= i < s.len() && (#[trigger] s[i]).0 == q {
                        let i = choose|i: int| 0 <= i < s.len() && (#[trigger] s[i]).0 == q;
                        lemma_lookup_at(s, i);
                        lemma_lookup_at(t, i);
                    } else {
                        assert(!exists|i: int| 0 <= i < t.len() && (#[trigger] t[i]).0 == q);
                    }
                }
                assert(map_of(t) =~= map_of(s).insert(key, status));
            }
        } else {
            let ghost key = path@;
            proof {
                if p < s.len() {
                    lemma_chars_lt_total(s[p as int].0, key);
                }
            }
            self.entries.insert(p, (path, status));
            proof {
                let t = self.entries();
                assert(t =~= s.insert(p as int, (key, status)));
                assert forall|i: int, j: int| 0 <= i < j < t.len() implies chars_lt(#[trigger] t[i].0, #[trigger] t[j].0) by {
                    if j < p {
                        assert(chars_lt(s[i].0, s[j].0));
                    } else if j == p {
                        assert(chars_lt(s[i].0, key));
                    } else if i == p {
                        assert(t[j] == s[j - 1]);
                        if j - 1 > p {
                            assert(chars_lt(s[p as int].0, s[j - 1].0));
                            lemma_chars_lt_transitive(key, s[p as int].0, s[j - 1].0);
                        }
                    } else if i < p {
                        assert(t[j] == s[j - 1]);
                        if j - 1 == p {
                            lemma_chars_lt_transitive(s[i].0, key, s[p as int].0);
                        } else {
                            assert(chars_lt(s[i].0, s[j - 1].0));
                        }
                    } else {
                        assert(chars_lt(s[i - 1].0, s[j - 1].0));
                    }
                }
                assert forall|q: Seq<char>| #[trigger] lookup(t, q) == (if q == key { Some(status) } else { lookup(s, q) }) by {
                    if q == key {
                        lemma_lookup_at(t, p as int);
                    } else if exists|i: int| 0 <= i < s.len() && (#[trigger] s[i]).0 == q {
                        let i = choose|i: int| 0 <= i < s.len() && (#[trigger] s[i]).0 == q;
                        lemma_lookup_at(s, i);
                        if i < p {
                            lemma_lookup_at(t, i);
                        } else {
                            assert(t[i + 1] == s[i]);
                            lemma_lookup_at(t, i + 1);
                        }
                    } else {
                        if exists|i: int| 0 <= i < t.len() && (#[trigger] t[i]).0 == q {
                            let i = choose|i: int| 0 <= i < t.len() && (#[trigger] t[i]).0 == q;
                            if i < p {
                                assert(t[i] == s[i]);
                            } else if i > p {
                                assert(t[i] == s[i - 1]);
                            }
                        }
                    }
                }
                assert(map_of(t) =~= map_of(s).insert(key, status));
            }
        }
    }
}

} // verus!
