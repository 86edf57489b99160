//! Aggregation of markers per section name, and the validator that drops
//! incomplete sections.
//!
//! The map is an association list in insertion order with unique keys, so
//! every operation is deterministic.

use vstd::prelude::*;
use vstd::pervasive::VecAdditionalExecFns;

use crate::comment::{CommentType, MarkerModel, Specialcomment};
use crate::strutil::str_eq;

verus! {

/// One model entry: a section name and its markers in push order.
pub type MapEntry = (Seq<char>, Seq<MarkerModel>);

pub struct CommentMap {
    entries: Vec<(String, Vec<Specialcomment>)>,
    potentially_invalid: bool,
}

pub open spec fn map_has_key(m: Seq<MapEntry>, name: Seq<char>) -> bool {
    exists|i: int| 0 <= i < m.len() && m[i].0 == name
}

/// No two entries share a name.
pub open spec fn unique_keys(m: Seq<MapEntry>) -> bool {
    forall|i: int, j: int| 0 <= i < j < m.len() ==> (#[trigger] m[i]).0 != (#[trigger] m[j]).0
}

/// Index of the entry with the given name; meaningful only when present.
pub open spec fn map_key_index(m: Seq<MapEntry>, name: Seq<char>) -> int
    decreases m.len(),
{
    if m.len() == 0 {
        0
    } else if m[0].0 == name {
        0
    } else {
        1 + map_key_index(m.subrange(1, m.len() as int), name)
    }
}

pub proof fn lemma_map_key_index(m: Seq<MapEntry>, name: Seq<char>)
    requires
        map_has_key(m, name),
    ensures
        0 <= map_key_index(m, name) < m.len(),
        m[map_key_index(m, name)].0 == name,
        forall|k: int| 0 <= k < map_key_index(m, name) ==> m[k].0 != name,
    decreases m.len(),
{
    if m.len() > 0 && m[0].0 != name {
        let t = m.subrange(1, m.len() as int);
        assert(map_has_key(t, name)) by {
            let j0 = choose|j: int| 0 <= j < m.len() && m[j].0 == name;
            assert(t[j0 - 1].0 == name);
        }
        lemma_map_key_index(t, name);
        assert forall|k: int| 0 <= k < map_key_index(m, name) implies m[k].0 != name by {
            if k > 0 {
                assert(m[k] == t[k - 1]);
            }
        }
    }
}

pub proof fn lemma_map_key_index_at(m: Seq<MapEntry>, name: Seq<char>, i: int)
    requires
        0 <= i < m.len(),
        m[i].0 == name,
        forall|j: int| 0 <= j < i ==> m[j].0 != name,
    ensures
        map_has_key(m, name),
        map_key_index(m, name) == i,
{
    assert(map_has_key(m, name));
    lemma_map_key_index(m, name);
    let ki = map_key_index(m, name);
    if ki < i {
        assert(m[ki].0 != name);
        assert(false);
    }
    if ki > i {
        assert(m[i].0 != name);
        assert(false);
    }
}

pub open spec fn map_get(m: Seq<MapEntry>, name: Seq<char>) -> Option<Seq<MarkerModel>> {
    if map_has_key(m, name) {
        Some(m[map_key_index(m, name)].1)
    } else {
        None
    }
}

/// Effect of pushing one marker: appended to its section's entry, or a
/// fresh entry at the end.
pub open spec fn map_push(m: Seq<MapEntry>, c: MarkerModel) -> Seq<MapEntry> {
    if map_has_key(m, c.section) {
        let i = map_key_index(m, c.section);
        m.update(i, (c.section, m[i].1.push(c)))
    } else {
        m.push((c.section, seq![c]))
    }
}

pub open spec fn markers_have_kind(cs: Seq<MarkerModel>, k: CommentType) -> bool {
    exists|i: int| 0 <= i < cs.len() && cs[i].kind == k
}

pub open spec fn no_duplicate_kinds(cs: Seq<MarkerModel>) -> bool {
    forall|i: int, j: int| 0 <= i < j < cs.len() ==> cs[i].kind != cs[j].kind
}

/// A section survives validation when no marker kind repeats and Begin,
/// End and Hash are all present.
pub open spec fn section_complete(cs: Seq<MarkerModel>) -> bool {
    &&& no_duplicate_kinds(cs)
    &&& markers_have_kind(cs, CommentType::SectionBegin)
    &&& markers_have_kind(cs, CommentType::SectionEnd)
    &&& markers_have_kind(cs, CommentType::HashInfo)
}

pub open spec fn keep_entry(e: MapEntry) -> bool {
    e.0 == "all"@ || section_complete(e.1)
}

/// Effect of the validator: entries other than `"all"` survive exactly
/// when complete; order is preserved.
pub open spec fn remove_incomplete_spec(m: Seq<MapEntry>) -> Seq<MapEntry>
    decreases m.len(),
{
    if m.len() == 0 {
        Seq::empty()
    } else {
        let rest = remove_incomplete_spec(m.drop_last());
        if keep_entry(m.last()) {
            rest.push(m.last())
        } else {
            rest
        }
    }
}

/// Effect of removing one section by name.
pub open spec fn map_remove_key(m: Seq<MapEntry>, name: Seq<char>) -> Seq<MapEntry>
    decreases m.len(),
{
    if m.len() == 0 {
        Seq::empty()
    } else {
        let rest = map_remove_key(m.drop_last(), name);
        if m.last().0 == name {
            rest
        } else {
            rest.push(m.last())
        }
    }
}

/// First marker of a given kind, in push order.
pub open spec fn first_with_kind(cs: Seq<MarkerModel>, k: CommentType) -> Option<MarkerModel>
    decreases cs.len(),
{
    if cs.len() == 0 {
        None
    } else if cs[0].kind == k {
        Some(cs[0])
    } else {
        first_with_kind(cs.subrange(1, cs.len() as int), k)
    }
}

pub open spec fn map_get_kind(m: Seq<MapEntry>, name: Seq<char>, k: CommentType) -> Option<
    MarkerModel,
> {
    match map_get(m, name) {
        None => None,
        Some(cs) => first_with_kind(cs, k),
    }
}

/// Section names other than `"all"`, in insertion order.
pub open spec fn section_names(m: Seq<MapEntry>) -> Seq<Seq<char>>
    decreases m.len(),
{
    if m.len() == 0 {
        Seq::empty()
    } else {
        let rest = section_names(m.drop_last());
        if m.last().0 == "all"@ {
            rest
        } else {
            rest.push(m.last().0)
        }
    }
}

impl View for CommentMap {
    type V = Seq<MapEntry>;

    closed spec fn view(&self) -> Seq<MapEntry> {
        Seq::new(self.entries@.len(), |i: int| (self.entries@[i].0@, self.entries@[i].1.deep_view()))
    }
}

fn clone_comments(v: &Vec<Specialcomment>) -> (r: Vec<Specialcomment>)
    ensures
        r@ == v@,
{
    let mut out: Vec<Specialcomment> = Vec::new();
    let n = v.len();
    let mut i: usize = 0;
    while i < n
        invariant
            0 <= i <= n,
            n == v@.len(),
            out@ == v@.subrange(0, i as int),
        decreases n - i,
    {
        out.push(v[i].clone());
        proof {
            assert(out@ =~= v@.subrange(0, i + 1));
        }
        i = i + 1;
    }
    proof {
        assert(v@.subrange(0, n as int) =~= v@);
    }
    out
}

impl CommentMap {
    /// Keys are unique: each section name appears in at most one entry.
    pub open spec fn wf(&self) -> bool {
        unique_keys(self@)
    }

    pub fn new() -> (r: Self)
        ensures
            r@ == Seq::<MapEntry>::empty(),
            r.wf(),
    {
        let r = CommentMap { entries: Vec::new(), potentially_invalid: false };
        proof {
            assert(r@ =~= Seq::<MapEntry>::empty());
        }
        r
    }

    /// Appends a marker to its section's list, creating the entry if it is
    /// the first marker of that section.
    pub fn push_comment(&mut self, comment: Specialcomment)
        requires
            old(self).wf(),
        ensures
            final(self).wf(),
            final(self)@ == map_push(old(self)@, comment@),
    {
        let ghost m0 = self@;
        let n = self.entries.len();
        let mut i: usize = 0;
        while i < n
            invariant
                0 <= i <= n,
                n == self.entries@.len(),
                self@ == m0,
                m0 == old(self)@,
                self.wf(),
                forall|j: int| 0 <= j < i ==> self@[j].0 != comment.section@,
            decreases n - i,
        {
            if str_eq(self.entries[i].0.as_str(), comment.section.as_str()) {
                proof {
                    assert(m0[i as int].0 == comment@.section);
                    lemma_map_key_index_at(m0, comment@.section, i as int);
                }
                let ghost old_markers = m0[i as int].1;
                let name = self.entries[i].0.clone();
                let mut cvec = clone_comments(&self.entries[i].1);
                cvec.push(comment);
                proof {
                    assert(cvec.deep_view() =~= old_markers.push(comment@));
                }
                self.entries.set(i, (name, cvec));
                self.potentially_invalid = true;
                proof {
                    assert(self@[i as int].0 == m0[i as int].0);
                    assert(self@[i as int].1 == old_markers.push(comment@));
                    assert(self@ =~= map_push(m0, comment@));
                }
                return;
            }
            i = i + 1;
        }
        proof {
            assert(!map_has_key(m0, comment@.section));
        }
        let name = comment.section.clone();
        let mut cvec: Vec<Specialcomment> = Vec::new();
        cvec.push(comment);
        self.entries.push((name, cvec));
        self.potentially_invalid = true;
        proof {
            assert(cvec.deep_view() =~= seq![comment@]);
            assert(self@ =~= map_push(m0, comment@));
        }
    }

    /// The validator: drops every section other than `"all"` that repeats
    /// a marker kind or misses Begin, End or Hash.
    pub fn remove_incomplete(&mut self)
        requires
            old(self).wf(),
        ensures
            final(self).wf(),
            final(self)@ == remove_incomplete_spec(old(self)@),
    {
        let ghost m0 = self@;
        let n = self.entries.len();
        let mut out: Vec<(String, Vec<Specialcomment>)> = Vec::new();
        let ghost out0 = Seq::new(out@.len(), |i: int| (out@[i].0@, out@[i].1.deep_view()));
        let mut i: usize = 0;
        proof {
            assert(m0.subrange(0, 0) =~= Seq::<MapEntry>::empty());
        }
        while i < n
            invariant
                0 <= i <= n,
                n == self.entries@.len(),
                self@ == m0,
                old(self).wf(),
                Seq::new(out@.len(), |k: int| (out@[k].0@, out@[k].1.deep_view()))
                    == remove_incomplete_spec(m0.subrange(0, i as int)),
                forall|k: int| 0 <= k < out@.len() ==> map_has_key(m0, out@[k].0@),
            decreases n - i,
    {
            let ghost prev = Seq::new(out@.len(), |k: int| (out@[k].0@, out@[k].1.deep_view()));
            let keep: bool = if str_eq(self.entries[i].0.as_str(), "all") {
                true
            } else {
                let complete = Self::comments_complete(&self.entries[i].1);
                complete
            };
            if keep {
                let name = self.entries[i].0.clone();
                let cvec = clone_comments(&self.entries[i].1);
                out.push((name, cvec));
                proof {
                    assert(map_has_key(m0, self@[i as int].0)) by {
                        assert(m0[i as int].0 == self@[i as int].0);
                    }
                }
            }
            proof {
                let sub1 = m0.subrange(0, i + 1);
                assert(sub1.drop_last() =~= m0.subrange(0, i as int));
                assert(sub1.last() == m0[i as int]);
                assert(keep == keep_entry(m0[i as int]));
                if keep {
                    assert(Seq::new(out@.len(), |k: int| (out@[k].0@, out@[k].1.deep_view()))
                        =~= prev.push(m0[i as int]));
                } else {
                    assert(Seq::new(out@.len(), |k: int| (out@[k].0@, out@[k].1.deep_view()))
                        =~= prev);
                }
            }
            i = i + 1;
        }
        proof {
            assert(m0.subrange(0, n as int) =~= m0);
        }
        self.entries = out;
        self.potentially_invalid = false;
        proof {
            lemma_remove_incomplete_entries(m0);
            assert(self.wf()) by {
                lemma_remove_incomplete_unique(m0);
            }
        }
    }

    /// True when the markers repeat no kind and hold Begin, End and Hash.
    fn comments_complete(v: &Vec<Specialcomment>) -> (r: bool)
        ensures
            r == section_complete(v.deep_view()),
    {
        let n = v.len();
        let mut i: usize = 0;
        while i < n
            invariant
                0 <= i <= n,
                n == v@.len(),
                forall|a: int, b: int| 0 <= a < b < i ==> v.deep_view()[a].kind
                    != v.deep_view()[b].kind,
            decreases n - i,
        {
            let mut j: usize = 0;
            while j < i
                invariant
                    0 <= j <= i < n,
                    n == v@.len(),
                    forall|a: int, b: int| 0 <= a < b < i ==> v.deep_view()[a].kind
                        != v.deep_view()[b].kind,
                    forall|a: int| 0 <= a < j ==> v.deep_view()[a].kind
                        != v.deep_view()[i as int].kind,
                decreases i - j,
            {
                if v[j].comment_type == v[i].comment_type {
                    proof {
                        assert(v.deep_view()[j as int].kind == v.deep_view()[i as int].kind);
                        assert(!no_duplicate_kinds(v.deep_view()));
                    }
                    return false;
                }
                j = j + 1;
            }
            i = i + 1;
        }
        let has_begin = Self::comments_have_kind(v, CommentType::SectionBegin);
        let has_end = Self::comments_have_kind(v, CommentType::SectionEnd);
        let has_hash = Self::comments_have_kind(v, CommentType::HashInfo);
        has_begin && has_end && has_hash
    }

    fn comments_have_kind(v: &Vec<Specialcomment>, k: CommentType) -> (r: bool)
        ensures
            r == markers_have_kind(v.deep_view(), k),
    {
        let n = v.len();
        let mut i: usize = 0;
        while i < n
            invariant
                0 <= i <= n,
                n == v@.len(),
                forall|a: int| 0 <= a < i ==> v.deep_view()[a].kind != k,
            decreases n - i,
        {
            if v[i].comment_type == k {
                proof {
                    assert(v.deep_view()[i as int].kind == k);
                }
                return true;
            }
            i = i + 1;
        }
        false
    }

    /// Removes the entry for `section`, if present.
    pub fn remove_section(&mut self, section: &str)
        requires
            old(self).wf(),
        ensures
            final(self).wf(),
            final(self)@ == map_remove_key(old(self)@, section@),
    {
        let ghost m0 = self@;
        let n = self.entries.len();
        let mut i: usize = 0;
        while i < n
            invariant
                0 <= i <= n,
                n == self.entries@.len(),
                self@ == m0,
                m0 == old(self)@,
                old(self).wf(),
                forall|j: int| 0 <= j < i ==> self@[j].0 != section@,
            decreases n - i,
        {
            if str_eq(self.entries[i].0.as_str(), section) {
                proof {
                    assert(m0[i as int].0 == section@);
                    assert forall|j: int| 0 <= j < m0.len() && j != i as int implies m0[j].0
                        != section@ by {
                        if j > i as int {
                            assert(m0[i as int].0 != m0[j].0);
                        }
                    }
                }
                self.entries.remove(i);
                proof {
                    lemma_map_remove_key_at(m0, section@, i as int);
                    assert(self@ =~= m0.subrange(0, i as int) + m0.subrange(
                        i + 1,
                        m0.len() as int,
                    ));
                    assert forall|a: int, b: int| 0 <= a < b < self@.len() implies self@[a].0
                        != self@[b].0 by {
                        let ma = if a < i as int { a } else { a + 1 };
                        let mb = if b < i as int { b } else { b + 1 };
                        assert(self@[a] == m0[ma]);
                        assert(self@[b] == m0[mb]);
                    }
                }
                return;
            }
            i = i + 1;
        }
        proof {
            lemma_map_remove_key_absent(m0, section@);
        }
    }

    /// The markers pushed for `section`, in push order.
    pub fn get_comments(&self, section: &str) -> (r: Option<&Vec<Specialcomment>>)
        requires
            self.wf(),
        ensures
            match r {
                Some(v) => map_get(self@, section@) == Some(v.deep_view()),
                None => map_get(self@, section@) is None,
            },
    {
        let n = self.entries.len();
        let mut i: usize = 0;
        while i < n
            invariant
                0 <= i <= n,
                n == self.entries@.len(),
                self.wf(),
                forall|j: int| 0 <= j < i ==> self@[j].0 != section@,
            decreases n - i,
        {
            if str_eq(self.entries[i].0.as_str(), section) {
                proof {
                    assert(self@[i as int].0 == section@);
                    lemma_map_key_index_at(self@, section@, i as int);
                    assert(self@[i as int].1 == self.entries@[i as int].1.deep_view());
                }
                return Some(&self.entries[i].1);
            }
            i = i + 1;
        }
        proof {
            assert(!map_has_key(self@, section@));
        }
        None
    }

    /// All section names except `"all"`, in insertion order.
    pub fn get_sections(&self) -> (r: Vec<String>)
        ensures
            r.deep_view() == section_names(self@),
    {
        let n = self.entries.len();
        let mut out: Vec<String> = Vec::new();
        let mut i: usize = 0;
        proof {
            assert(self@.subrange(0, 0) =~= Seq::<MapEntry>::empty());
            assert(out.deep_view() =~= section_names(self@.subrange(0, 0)));
        }
        while i < n
            invariant
                0 <= i <= n,
                n == self.entries@.len(),
                out.deep_view() == section_names(self@.subrange(0, i as int)),
            decreases n - i,
        {
            let ghost prev = out.deep_view();
            if !str_eq(self.entries[i].0.as_str(), "all") {
                out.push(self.entries[i].0.clone());
                proof {
                    assert(out.deep_view() =~= prev.push(self@[i as int].0));
                }
            }
            proof {
                let sub1 = self@.subrange(0, i + 1);
                assert(sub1.drop_last() =~= self@.subrange(0, i as int));
                assert(sub1.last() == self@[i as int]);
            }
            i = i + 1;
        }
        proof {
            assert(self@.subrange(0, n as int) =~= self@);
        }
        out
    }

    /// First marker of the given kind for `section`, if any.
    pub fn get_comment(&self, section: &str, comment_type: CommentType) -> (r: Option<
        &Specialcomment,
    >)
        requires
            self.wf(),
        ensures
            match r {
                Some(c) => map_get_kind(self@, section@, comment_type) == Some(c@),
                None => map_get_kind(self@, section@, comment_type) is None,
            },
    {
        let comments = match self.get_comments(section) {
            Some(v) => v,
            None => {
                return None;
            },
        };
        let n = comments.len();
        let ghost cs = comments.deep_view();
        let mut i: usize = 0;
        while i < n
            invariant
                0 <= i <= n,
                n == comments@.len(),
                cs == comments.deep_view(),
                map_get(self@, section@) == Some(cs),
                forall|j: int| 0 <= j < i ==> cs[j].kind != comment_type,
        decreases n - i,
        {
            if comments[i].comment_type == comment_type {
                proof {
                    assert(cs[i as int] == comments@[i as int]@);
                    assert(cs[i as int].kind == comment_type);
                    lemma_first_with_kind_at(cs, comment_type, i as int);
                    assert(map_get(self@, section@) == Some(cs));
                    assert(map_get_kind(self@, section@, comment_type) == Some(cs[i as int]));
                }
                return Some(&comments[i]);
            }
            i = i + 1;
        }
        proof {
            lemma_first_with_kind_absent(cs, comment_type);
        }
        None
    }
}

proof fn lemma_first_with_kind_at(cs: Seq<MarkerModel>, k: CommentType, i: int)
    requires
        0 <= i < cs.len(),
        cs[i].kind == k,
        forall|j: int| 0 <= j < i ==> cs[j].kind != k,
    ensures
        first_with_kind(cs, k) == Some(cs[i]),
    decreases cs.len(),
{
    if i > 0 {
        let t = cs.subrange(1, cs.len() as int);
        assert(t[i - 1] == cs[i]);
        assert forall|j: int| 0 <= j < i - 1 implies t[j].kind != k by {
            assert(t[j] == cs[j + 1]);
        }
        lemma_first_with_kind_at(t, k, i - 1);
    }
}

proof fn lemma_first_with_kind_absent(cs: Seq<MarkerModel>, k: CommentType)
    requires
        forall|j: int| 0 <= j < cs.len() ==> cs[j].kind != k,
    ensures
        first_with_kind(cs, k) is None,
    decreases cs.len(),
{
    if cs.len() > 0 {
        let t = cs.subrange(1, cs.len() as int);
        assert forall|j: int| 0 <= j < t.len() implies t[j].kind != k by {
            assert(t[j] == cs[j + 1]);
        }
        lemma_first_with_kind_absent(t, k);
    }
}

proof fn lemma_map_remove_key_at(m: Seq<MapEntry>, name: Seq<char>, i: int)
    requires
        0 <= i < m.len(),
        m[i].0 == name,
        forall|j: int| 0 <= j < m.len() && j != i ==> m[j].0 != name,
    ensures
        map_remove_key(m, name) == m.subrange(0, i) + m.subrange(i + 1, m.len() as int),
    decreases m.len(),
{
    let last = m.len() - 1;
    if i == last {
        lemma_map_remove_key_absent(m.drop_last(), name);
        assert(m.drop_last() =~= m.subrange(0, i));
        assert(m.subrange(i + 1, m.len() as int) =~= Seq::<MapEntry>::empty());
        assert(map_remove_key(m, name) =~= m.subrange(0, i) + m.subrange(i + 1, m.len() as int));
    } else {
        let d = m.drop_last();
        assert(d[i] == m[i]);
        lemma_map_remove_key_at(d, name, i);
        assert(map_remove_key(m, name) == map_remove_key(d, name).push(m.last()));
        assert(map_remove_key(m, name) =~= m.subrange(0, i) + m.subrange(i + 1, m.len() as int))
            by {
            assert(d.subrange(0, i) =~= m.subrange(0, i));
            assert(d.subrange(i + 1, d.len() as int) =~= m.subrange(i + 1, m.len() - 1));
        }
    }
}

proof fn lemma_map_remove_key_absent(m: Seq<MapEntry>, name: Seq<char>)
    requires
        forall|j: int| 0 <= j < m.len() ==> m[j].0 != name,
    ensures
        map_remove_key(m, name) == m,
    decreases m.len(),
{
    if m.len() > 0 {
        lemma_map_remove_key_absent(m.drop_last(), name);
        assert(map_remove_key(m, name) =~= m);
    } else {
        assert(map_remove_key(m, name) =~= m);
    }
}

/// Every entry the validator keeps is one of the original entries.
pub proof fn lemma_remove_incomplete_entries(m: Seq<MapEntry>)
    ensures
        forall|k: int| 0 <= k < remove_incomplete_spec(m).len() ==> exists|i: int|
            0 <= i < m.len() && m[i] == #[trigger] remove_incomplete_spec(m)[k],
    decreases m.len(),
{
    if m.len() > 0 {
        lemma_remove_incomplete_entries(m.drop_last());
        let r = remove_incomplete_spec(m);
        let rd = remove_incomplete_spec(m.drop_last());
        assert forall|k: int| 0 <= k < r.len() implies exists|i: int|
            0 <= i < m.len() && m[i] == #[trigger] r[k] by {
            if k < rd.len() {
                let i0 = choose|i: int| 0 <= i < m.drop_last().len() && m.drop_last()[i] == rd[k];
                assert(m[i0] == r[k]);
            } else {
                assert(m[m.len() - 1] == r[k]);
            }
        }
    }
}

/// The validator keeps a subsequence, so unique keys stay unique.
proof fn lemma_remove_incomplete_unique(m: Seq<MapEntry>)
    requires
        forall|i: int, j: int| 0 <= i < j < m.len() ==> m[i].0 != m[j].0,
    ensures
        forall|i: int, j: int| 0 <= i < j < remove_incomplete_spec(m).len()
            ==> remove_incomplete_spec(m)[i].0 != remove_incomplete_spec(m)[j].0,
    decreases m.len(),
{
    if m.len() > 0 {
        let d = m.drop_last();
        lemma_remove_incomplete_unique(d);
        lemma_remove_incomplete_entries(d);
        let r = remove_incomplete_spec(m);
        let rd = remove_incomplete_spec(d);
        assert forall|i: int, j: int| 0 <= i < j < r.len() implies r[i].0 != r[j].0 by {
            if j < rd.len() {
            } else if keep_entry(m.last()) && j == rd.len() {
                let i0 = choose|a: int| 0 <= a < d.len() && d[a] == rd[i];
                assert(m[i0] == rd[i]);
                assert(m[i0].0 != m.last().0);
            }
        }
    }
}

} // verus!
