//! The library's general laws, stated over the models and proved once
//! and for all.

use vstd::prelude::*;

use crate::comment::{
    keyword_kind, kw_str, marker_rest, marker_valid, parse_marker, CommentType, MarkerModel,
    Specialcomment,
};
use crate::commentmap::{
    keep_entry, map_has_key, remove_incomplete_spec, section_complete, unique_keys, MapEntry,
};
use crate::digest::content_digest;
use crate::files::{
    anon_model, assembled_sections, compile_doc, doc_modified, doc_named_sections, doc_survivors,
    fill_sec, gap_anons, insert_by_start, merged_sections, resolve_overlaps, scan_content,
    sort_by_start, sorted_by_start, DocModel,
};
use crate::metafile::{compiled_meta, meta_modified, MetaModel};
use crate::section::{
    compiled_sec, finalized_sec, sec_end, sec_modified, sec_start, SectionModel,
};
use crate::strutil::{count_spaces_from, has_no_char, spec_starts_with, split_on};

verus! {

broadcast use vstd::seq_lib::group_to_multiset_ensures;

/// Compiling a section clears its modified state and accepting the same
/// content a second time changes nothing: `compile` reports `Changed` at
/// most once per actual edit.
pub proof fn lemma_section_compile_idempotent(s: SectionModel)
    ensures
        !sec_modified(compiled_sec(s)),
        compiled_sec(compiled_sec(s)) == compiled_sec(s),
{
}

/// The same, for a metafile: after `compile` the stored hash is the
/// digest of the content, so a second `compile` reports `Unchanged`.
pub proof fn lemma_meta_compile_idempotent(m: MetaModel)
    ensures
        !meta_modified(compiled_meta(m)),
        compiled_meta(compiled_meta(m)) == compiled_meta(m),
{
}

/// Document-level idempotence: an immediate second `compile` reports
/// that nothing changed.
pub proof fn lemma_doc_compile_idempotent(d: DocModel)
    ensures
        !compile_doc(compile_doc(d).0).1,
{
    let d1 = compile_doc(d).0;
    match d.metafile {
        None => {
            assert(!doc_modified(d1)) by {
                assert forall|i: int| 0 <= i < d1.sections.len() implies !sec_modified(
                    #[trigger] d1.sections[i],
                ) by {
                    assert(d1.sections[i] == compiled_sec(d.sections[i]));
                }
            }
        },
        Some(m) => {
            assert(!meta_modified(compiled_meta(m)));
        },
    }
}

/// Hash correctness: after assembly every named section's hash is the
/// upper-hex SHA-256 digest of its content.  (A section is modified
/// exactly when this hash differs from its target hash, by the
/// definition of `sec_modified`.)
pub proof fn lemma_assembled_hashes(lines: Seq<Seq<char>>, prefix: Seq<char>)
    ensures
        forall|i: int| 0 <= i < assembled_sections(lines, prefix).len()
            ==> match #[trigger] assembled_sections(lines, prefix)[i] {
                SectionModel::Named(d, nd) => nd.hash == content_digest(d.content),
                SectionModel::Anonymous(_) => true,
            },
{
    let ss = assembled_sections(lines, prefix);
    assert forall|i: int| 0 <= i < ss.len() implies match #[trigger] ss[i] {
        SectionModel::Named(d, nd) => nd.hash == content_digest(d.content),
        SectionModel::Anonymous(_) => true,
    } by {
        let cls = crate::files::scan_content(lines, prefix);
        let merged = crate::files::merged_sections(
            crate::files::doc_survivors(lines, prefix),
            lines.len() as u32,
        );
        assert(ss[i] == crate::section::finalized_sec(crate::files::fill_sec(merged[i], cls)));
    }
}

/// Validator completeness: an entry that misses Begin, End or Hash, or
/// repeats a kind, does not survive — no entry under its name remains,
/// whatever other markers it had.
pub proof fn lemma_validator_removes_incomplete(m: Seq<MapEntry>, i: int)
    requires
        unique_keys(m),
        0 <= i < m.len(),
        m[i].0 != "all"@,
        !section_complete(m[i].1),
    ensures
        !map_has_key(remove_incomplete_spec(m), m[i].0),
    decreases m.len(),
{
    let r = remove_incomplete_spec(m);
    let d = m.drop_last();
    if m.len() > 0 {
        if i == m.len() - 1 {
            assert(!keep_entry(m.last()));
            assert(r == remove_incomplete_spec(d));
            assert forall|k: int| 0 <= k < r.len() implies (#[trigger] r[k]).0 != m[i].0 by {
                crate::commentmap::lemma_remove_incomplete_entries(d);
                let j = choose|j: int| 0 <= j < d.len() && d[j] == r[k];
                assert(m[j] == d[j]);
                assert(m[j].0 != m[i].0);
            }
        } else {
            assert(d[i] == m[i]);
            assert forall|a: int, b: int| 0 <= a < b < d.len() implies (#[trigger] d[a]).0 != (
            #[trigger] d[b]).0 by {
                assert(d[a] == m[a] && d[b] == m[b]);
            }
            lemma_validator_removes_incomplete(d, i);
            if keep_entry(m.last()) {
                assert(m.last().0 != m[i].0);
                assert forall|k: int| 0 <= k < r.len() implies (#[trigger] r[k]).0 != m[i].0 by {
                    if k < r.len() - 1 {
                        assert(r[k] == remove_incomplete_spec(d)[k]);
                        assert(map_has_key(remove_incomplete_spec(d), m[i].0) || r[k].0 != m[i].0);
                    } else {
                        assert(r[k] == m.last());
                    }
                }
            } else {
                assert forall|k: int| 0 <= k < r.len() implies (#[trigger] r[k]).0 != m[i].0 by {
                    assert(map_has_key(remove_incomplete_spec(d), m[i].0) || r[k].0 != m[i].0);
                }
            }
        }
    }
}

/// Validator soundness: a complete entry (or the `"all"` entry) survives.
pub proof fn lemma_validator_keeps_complete(m: Seq<MapEntry>, i: int)
    requires
        0 <= i < m.len(),
        keep_entry(m[i]),
    ensures
        map_has_key(remove_incomplete_spec(m), m[i].0),
    decreases m.len(),
{
    let r = remove_incomplete_spec(m);
    let d = m.drop_last();
    if i == m.len() - 1 {
        assert(r == remove_incomplete_spec(d).push(m.last()));
        assert(r[r.len() - 1].0 == m[i].0);
    } else {
        assert(d[i] == m[i]);
        lemma_validator_keeps_complete(d, i);
        let rd = remove_incomplete_spec(d);
        let k = choose|k: int| 0 <= k < rd.len() && rd[k].0 == m[i].0;
        if keep_entry(m.last()) {
            assert(r[k] == rd[k]);
        } else {
            assert(r[k] == rd[k]);
        }
        assert(map_has_key(r, m[i].0));
    }
}

/// Merge safety: applying a candidate section does nothing — and reports
/// failure — when the candidate is uncompiled (its hash differs from its
/// target hash) or when no same-named target section exists.
pub proof fn lemma_merge_safety(
    ts: Seq<SectionModel>,
    d: crate::section::SectionDataModel,
    nd: crate::section::NamedDataModel,
)
    ensures
        nd.hash != nd.targethash ==> crate::files::apply_one(ts, d, nd) == (ts, false),
        !crate::files::has_named(ts, nd.name) ==> crate::files::apply_one(ts, d, nd) == (
            ts,
            false,
        ),
{
}

/// The whole-document fast path: an unmodified comment-based target whose
/// named sections are a subset of the source's takes over the source's
/// sections and markers wholesale.
pub proof fn lemma_whole_document_replace(t: DocModel, s: DocModel)
    requires
        t.metafile is None,
        s.metafile is None,
        crate::files::count_named(t.sections) > 0,
        crate::files::count_named(s.sections) > 0,
        !doc_modified(t),
        crate::files::sections_subset(t.sections, s.sections),
    ensures
        crate::files::applyfile_spec(t, s).0.sections == s.sections,
        crate::files::applyfile_spec(t, s).0.comments == s.comments,
        crate::files::applyfile_spec(t, s).1,
{
}

/// The canonical keywords are non-empty, hold no space, and parse back to
/// their own kind.
proof fn lemma_kw_facts(kind: CommentType)
    ensures
        kw_str(kind).len() > 0,
        has_no_char(kw_str(kind), ' '),
        keyword_kind(kw_str(kind)) == Some(kind),
{
    reveal_strlit("begin");
    reveal_strlit("start");
    reveal_strlit("end");
    reveal_strlit("stop");
    reveal_strlit("hash");
    reveal_strlit("source");
    reveal_strlit("permissions");
    reveal_strlit("target");
    match kind {
        CommentType::SectionBegin => {
            assert forall|j: int| 0 <= j < kw_str(kind).len() implies kw_str(kind)[j] != ' ' by {
                assert("begin"@.len() == 5);
            }
        },
        CommentType::SectionEnd => {
            assert forall|j: int| 0 <= j < kw_str(kind).len() implies kw_str(kind)[j] != ' ' by {
                assert("end"@.len() == 3);
            }
        },
        CommentType::SourceInfo => {
            assert forall|j: int| 0 <= j < kw_str(kind).len() implies kw_str(kind)[j] != ' ' by {
                assert("source"@.len() == 6);
            }
            assert("source"@[0] == 's');
        },
        CommentType::TargetInfo => {
            assert forall|j: int| 0 <= j < kw_str(kind).len() implies kw_str(kind)[j] != ' ' by {
                assert("target"@.len() == 6);
            }
            assert("target"@[0] == 't');
            assert("source"@[0] == 's');
        },
        CommentType::HashInfo => {
            assert forall|j: int| 0 <= j < kw_str(kind).len() implies kw_str(kind)[j] != ' ' by {
                assert("hash"@.len() == 4);
            }
            assert("hash"@[0] == 'h');
            assert("stop"@[0] == 's');
        },
        CommentType::PermissionInfo => {
            assert forall|j: int| 0 <= j < kw_str(kind).len() implies kw_str(kind)[j] != ' ' by {
                assert("permissions"@.len() == 11);
            }
        },
    }
}

/// Round trip at the marker level: serializing a valid marker and parsing
/// the resulting line (without its trailing newline) gives back exactly
/// the same marker.  Section names and arguments must not contain spaces,
/// which the grammar cannot represent.
#[verifier::rlimit(60)]
pub proof fn lemma_marker_round_trip(
    prefix: Seq<char>,
    kind: CommentType,
    section: Seq<char>,
    arg: Option<Seq<char>>,
    n: u32,
)
    requires
        section.len() > 0,
        has_no_char(section, ' '),
        arg matches Some(a) ==> has_no_char(a, ' '),
        marker_valid(kind, section, arg),
    ensures
        ({
            let full = Specialcomment::spec_marker_line(prefix, kind, section, arg);
            parse_marker(full.subrange(0, full.len() - 1), prefix, n) == Some(
                MarkerModel { line: n, section: section, kind: kind, argument: arg },
            )
        }),
{
    reveal_strlit("... ");
    reveal_strlit(" ");
    reveal_strlit("\n");
    lemma_kw_facts(kind);
    let kw = kw_str(kind);
    let ap: Seq<char> = match arg {
        Some(a) => " "@ + a,
        None => Seq::<char>::empty(),
    };
    let full = Specialcomment::spec_marker_line(prefix, kind, section, arg);
    let rest = section + " "@ + kw + ap;
    let line = full.subrange(0, full.len() - 1);
    let p = prefix.len() as int;
    assert(("... "@).len() == 4);
    assert(("... "@)[0] == '.' && ("... "@)[1] == '.' && ("... "@)[2] == '.' && ("... "@)[3]
        == ' ');
    assert((" "@).len() == 1 && (" "@)[0] == ' ');
    assert(("\n"@).len() == 1);
    assert(full.len() == p + 4 + rest.len() + 1);
    assert(line =~= prefix + "... "@ + rest);
    let head = prefix + "... "@ + rest;
    // sentinel recognition
    assert(spec_starts_with(line, prefix)) by {
        assert(line.subrange(0, p) =~= prefix);
    }
    assert(line[p] == '.');
    assert(count_spaces_from(line, p) == 0);
    assert(line[p + 1] == '.' && line[p + 2] == '.');
    assert(line[p + 3] == ' ');
    assert(line[p + 4] == section[0]);
    assert(section[0] != ' ');
    assert(count_spaces_from(line, p + 4) == 0);
    assert(count_spaces_from(line, p + 3) == 1);
    assert(line.subrange(p + 4, line.len() as int) =~= rest);
    assert(marker_rest(line, prefix) == Some(rest));
    // tokenization
    let s = section.len() as int;
    assert(rest[s] == ' ');
    assert(forall|j: int| 0 <= j < s ==> rest[j] == section[j]);
    crate::strutil::lemma_split_on_step(rest, ' ', s);
    assert(rest.subrange(0, s) =~= section);
    let tail1 = rest.subrange(s + 1, rest.len() as int);
    let toks = split_on(rest, ' ');
    match arg {
        None => {
            assert(tail1 =~= kw);
            crate::strutil::lemma_split_on_whole(kw, ' ');
            assert(toks =~= seq![section, kw]);
            assert(toks.len() == 2);
            assert(toks[0] == section && toks[1] == kw);
        },
        Some(a) => {
            assert(tail1 =~= kw + " "@ + a);
            let k = kw.len() as int;
            assert(tail1[k] == ' ');
            assert(forall|j: int| 0 <= j < k ==> tail1[j] == kw[j]);
            crate::strutil::lemma_split_on_step(tail1, ' ', k);
            assert(tail1.subrange(0, k) =~= kw);
            let tail2 = tail1.subrange(k + 1, tail1.len() as int);
            assert(tail2 =~= a);
            crate::strutil::lemma_split_on_whole(a, ' ');
            assert(split_on(tail1, ' ') =~= seq![kw, a]);
            assert(toks =~= seq![section, kw, a]);
            assert(toks.len() == 3);
            assert(toks[0] == section && toks[1] == kw && toks[2] == a);
        },
    }
    assert(keyword_kind(toks[1]) == Some(kind));
    assert(parse_marker(line, prefix, n) == Some(
        MarkerModel { line: n, section: section, kind: kind, argument: arg },
    ));
}

// ---- facts about the stable sort ----

proof fn lemma_insert_elems(s: SectionModel, sorted: Seq<SectionModel>)
    ensures
        insert_by_start(s, sorted).len() == sorted.len() + 1,
        forall|k: int| 0 <= k < insert_by_start(s, sorted).len()
            ==> #[trigger] insert_by_start(s, sorted)[k] == s || exists|j: int|
                0 <= j < sorted.len() && sorted[j] == insert_by_start(s, sorted)[k],
    decreases sorted.len(),
{
    let r = insert_by_start(s, sorted);
    if sorted.len() == 0 {
    } else if sec_start(sorted.last()) <= sec_start(s) {
        assert forall|k: int| 0 <= k < r.len() implies #[trigger] r[k] == s || exists|j: int|
            0 <= j < sorted.len() && sorted[j] == r[k] by {
            if k < sorted.len() {
                assert(sorted[k] == r[k]);
            }
        }
    } else {
        let d = sorted.drop_last();
        lemma_insert_elems(s, d);
        let rd = insert_by_start(s, d);
        assert forall|k: int| 0 <= k < r.len() implies #[trigger] r[k] == s || exists|j: int|
            0 <= j < sorted.len() && sorted[j] == r[k] by {
            if k < rd.len() {
                assert(r[k] == rd[k]);
                if rd[k] != s {
                    let j = choose|j: int| 0 <= j < d.len() && d[j] == rd[k];
                    assert(sorted[j] == r[k]);
                }
            } else {
                assert(r[k] == sorted.last());
                assert(sorted[sorted.len() - 1] == r[k]);
            }
        }
    }
}

proof fn lemma_insert_sorted(s: SectionModel, sorted: Seq<SectionModel>)
    requires
        sorted_by_start(sorted),
    ensures
        sorted_by_start(insert_by_start(s, sorted)),
    decreases sorted.len(),
{
    let r = insert_by_start(s, sorted);
    if sorted.len() == 0 {
    } else if sec_start(sorted.last()) <= sec_start(s) {
        assert forall|i: int, j: int| 0 <= i < j < r.len() implies sec_start(#[trigger] r[i])
            <= sec_start(#[trigger] r[j]) by {
            if j < sorted.len() {
                assert(r[i] == sorted[i] && r[j] == sorted[j]);
            } else {
                assert(r[j] == s);
                assert(r[i] == sorted[i]);
                if i < sorted.len() - 1 {
                    assert(sec_start(sorted[i]) <= sec_start(sorted[sorted.len() - 1]));
                }
            }
        }
    } else {
        let d = sorted.drop_last();
        assert forall|i: int, j: int| 0 <= i < j < d.len() implies sec_start(#[trigger] d[i])
            <= sec_start(#[trigger] d[j]) by {
            assert(d[i] == sorted[i] && d[j] == sorted[j]);
        }
        lemma_insert_sorted(s, d);
        lemma_insert_elems(s, d);
        let rd = insert_by_start(s, d);
        assert forall|i: int, j: int| 0 <= i < j < r.len() implies sec_start(#[trigger] r[i])
            <= sec_start(#[trigger] r[j]) by {
            if j < rd.len() {
                assert(r[i] == rd[i] && r[j] == rd[j]);
            } else {
                assert(r[j] == sorted.last());
                assert(r[i] == rd[i]);
                if rd[i] == s {
                    assert(sec_start(s) <= sec_start(sorted.last()));
                } else {
                    let j0 = choose|j0: int| 0 <= j0 < d.len() && d[j0] == rd[i];
                    assert(d[j0] == sorted[j0]);
                    assert(sec_start(sorted[j0]) <= sec_start(sorted[sorted.len() - 1]));
                }
            }
        }
    }
}

pub proof fn lemma_sort_sorted(ss: Seq<SectionModel>)
    ensures
        sorted_by_start(sort_by_start(ss)),
    decreases ss.len(),
{
    if ss.len() > 0 {
        lemma_sort_sorted(ss.drop_last());
        lemma_insert_sorted(ss.last(), sort_by_start(ss.drop_last()));
    }
}

proof fn lemma_insert_multiset(s: SectionModel, sorted: Seq<SectionModel>)
    ensures
        insert_by_start(s, sorted).to_multiset() == sorted.to_multiset().insert(s),
    decreases sorted.len(),
{
    let r = insert_by_start(s, sorted);
    if sorted.len() == 0 {
        assert(Seq::<SectionModel>::empty().push(s) =~= seq![s]);
        assert(r.to_multiset() =~= sorted.to_multiset().insert(s));
    } else if sec_start(sorted.last()) <= sec_start(s) {
        assert(r == sorted.push(s));
    } else {
        let d = sorted.drop_last();
        lemma_insert_multiset(s, d);
        assert(r == insert_by_start(s, d).push(sorted.last()));
        assert(r.to_multiset() =~= insert_by_start(s, d).to_multiset().insert(sorted.last()));
        assert(d.push(sorted.last()) =~= sorted);
        assert(sorted.to_multiset() =~= d.to_multiset().insert(sorted.last()));
        assert(r.to_multiset() =~= d.to_multiset().insert(s).insert(sorted.last()));
        assert(d.to_multiset().insert(s).insert(sorted.last()) =~= d.to_multiset().insert(
            sorted.last(),
        ).insert(s));
    }
}

pub proof fn lemma_sort_multiset(ss: Seq<SectionModel>)
    ensures
        sort_by_start(ss).to_multiset() == ss.to_multiset(),
    decreases ss.len(),
{
    if ss.len() > 0 {
        let d = ss.drop_last();
        lemma_sort_multiset(d);
        lemma_insert_multiset(ss.last(), sort_by_start(d));
        assert(d.push(ss.last()) =~= ss);
        assert(ss.to_multiset() =~= d.to_multiset().insert(ss.last()));
        assert(sort_by_start(ss).to_multiset() =~= ss.to_multiset());
    }
}

/// Two equal elements at different indices give a multiset count of at
/// least two.
proof fn lemma_count_from_pair(s: Seq<SectionModel>, i: int, j: int)
    requires
        0 <= i < j < s.len(),
        s[i] == s[j],
    ensures
        s.to_multiset().count(s[i]) >= 2,
    decreases s.len(),
{
    let d = s.drop_last();
    let e = s[i];
    assert(d.push(s.last()) =~= s);
    assert(s.to_multiset() =~= d.to_multiset().insert(s.last()));
    if j == s.len() - 1 {
        assert(d[i] == e);
        assert(d.contains(e));
        assert(d.to_multiset().count(e) > 0);
        assert(s.last() == e);
    } else {
        lemma_count_from_pair(d, i, j);
    }
}

/// A multiset count of at least two gives two equal elements at
/// different indices.
proof fn lemma_pair_from_count(s: Seq<SectionModel>, e: SectionModel)
    requires
        s.to_multiset().count(e) >= 2,
    ensures
        exists|i: int, j: int| 0 <= i < j < s.len() && s[i] == e && s[j] == e,
    decreases s.len(),
{
    assert(s.len() >= 2) by {
        assert(s.to_multiset().len() == s.len());
        assert(s.to_multiset().count(e) <= s.to_multiset().len()) by {
            vstd::multiset::axiom_count_le_len(s.to_multiset(), e);
        }
    }
    let d = s.drop_last();
    assert(d.push(s.last()) =~= s);
    assert(s.to_multiset() =~= d.to_multiset().insert(s.last()));
    if s.last() == e {
        assert(d.to_multiset().count(e) >= 1);
        assert(d.contains(e));
        let i = choose|i: int| 0 <= i < d.len() && d[i] == e;
        assert(s[i] == e && s[s.len() - 1] == e);
    } else {
        assert(d.to_multiset().count(e) >= 2);
        lemma_pair_from_count(d, e);
        let (i, j) = choose|i: int, j: int| 0 <= i < j < d.len() && d[i] == e && d[j] == e;
        assert(s[i] == e && s[j] == e);
    }
}

/// An element of one sequence appears in any multiset-equal sequence.
proof fn lemma_elem_exchange(a: Seq<SectionModel>, b: Seq<SectionModel>, i: int)
    requires
        a.to_multiset() == b.to_multiset(),
        0 <= i < a.len(),
    ensures
        exists|j: int| 0 <= j < b.len() && b[j] == a[i],
{
    assert(a.contains(a[i]));
    assert(a.to_multiset().count(a[i]) > 0);
    assert(b.to_multiset().count(a[i]) > 0);
    assert(b.contains(a[i]));
}

// ---- the partition invariant ----

/// Section ranges are contiguous from line 1: no gaps, no overlaps.
pub open spec fn contiguous_from_1(ss: Seq<SectionModel>) -> bool {
    &&& ss.len() > 0 ==> sec_start(ss[0]) == 1
    &&& forall|i: int| 0 <= i < ss.len() - 1 ==> sec_start(#[trigger] ss[i + 1]) == sec_end(
        ss[i],
    ) + 1
}

pub open spec fn range_ok(s: SectionModel, lo: int, hi: int) -> bool {
    lo <= sec_start(s) as int && sec_start(s) <= sec_end(s) && sec_end(s) as int <= hi
}

pub open spec fn ranges_disjoint(a: SectionModel, b: SectionModel) -> bool {
    sec_end(a) < sec_start(b) || sec_end(b) < sec_start(a)
}

pub open spec fn all_ranges_ok(c: Seq<SectionModel>, lo: int, hi: int) -> bool {
    forall|i: int| 0 <= i < c.len() ==> range_ok(#[trigger] c[i], lo, hi)
}

pub open spec fn pairwise_disjoint(c: Seq<SectionModel>) -> bool {
    forall|i: int, j: int| 0 <= i < c.len() && 0 <= j < c.len() && i != j ==> ranges_disjoint(
        #[trigger] c[i],
        #[trigger] c[j],
    )
}

pub open spec fn covered(c: Seq<SectionModel>, x: int) -> bool {
    exists|i: int| 0 <= i < c.len() && sec_start(#[trigger] c[i]) as int <= x && x <= sec_end(
        c[i],
    ) as int
}

pub open spec fn covers_all(c: Seq<SectionModel>, lo: int, hi: int) -> bool {
    forall|x: int| lo <= x <= hi ==> #[trigger] covered(c, x)
}

/// Every survivor of the overlap policy is one of the input sections.
proof fn lemma_resolve_member(ss: Seq<SectionModel>)
    ensures
        forall|k: int| 0 <= k < resolve_overlaps(ss).len() ==> exists|j: int|
            0 <= j < ss.len() && ss[j] == #[trigger] resolve_overlaps(ss)[k],
    decreases ss.len(),
{
    let r = resolve_overlaps(ss);
    if ss.len() <= 1 {
    } else if sec_start(ss[1]) < sec_end(ss[0]) {
        let t = ss.skip(2);
        lemma_resolve_member(t);
        assert(r == resolve_overlaps(t));
        assert forall|k: int| 0 <= k < r.len() implies exists|j: int| 0 <= j < ss.len() && ss[j]
            == #[trigger] r[k] by {
            assert(resolve_overlaps(t)[k] == r[k]);
            let j = choose|j: int| 0 <= j < t.len() && t[j] == r[k];
            assert(ss[j + 2] == r[k]);
        }
    } else {
        let t = ss.skip(1);
        lemma_resolve_member(t);
        let rt = resolve_overlaps(t);
        assert(r == seq![ss[0]] + rt);
        assert forall|k: int| 0 <= k < r.len() implies exists|j: int| 0 <= j < ss.len() && ss[j]
            == #[trigger] r[k] by {
            if k == 0 {
                assert(ss[0] == r[k]);
            } else {
                assert(r[k] == rt[k - 1]);
                let j = choose|j: int| 0 <= j < t.len() && t[j] == rt[k - 1];
                assert(ss[j + 1] == r[k]);
            }
        }
    }
}

/// The survivors of a sorted input stay sorted.
proof fn lemma_resolve_sorted(ss: Seq<SectionModel>)
    requires
        sorted_by_start(ss),
    ensures
        sorted_by_start(resolve_overlaps(ss)),
    decreases ss.len(),
{
    let r = resolve_overlaps(ss);
    if ss.len() <= 1 {
    } else if sec_start(ss[1]) < sec_end(ss[0]) {
        let t = ss.skip(2);
        assert forall|i: int, j: int| 0 <= i < j < t.len() implies sec_start(#[trigger] t[i])
            <= sec_start(#[trigger] t[j]) by {
            assert(t[i] == ss[i + 2] && t[j] == ss[j + 2]);
        }
        lemma_resolve_sorted(t);
    } else {
        let t = ss.skip(1);
        assert forall|i: int, j: int| 0 <= i < j < t.len() implies sec_start(#[trigger] t[i])
            <= sec_start(#[trigger] t[j]) by {
            assert(t[i] == ss[i + 1] && t[j] == ss[j + 1]);
        }
        lemma_resolve_sorted(t);
        lemma_resolve_member(t);
        let rt = resolve_overlaps(t);
        assert(r == seq![ss[0]] + rt);
        assert forall|i: int, j: int| 0 <= i < j < r.len() implies sec_start(#[trigger] r[i])
            <= sec_start(#[trigger] r[j]) by {
            if i == 0 {
                assert(r[j] == rt[j - 1]);
                let j0 = choose|j0: int| 0 <= j0 < t.len() && t[j0] == rt[j - 1];
                assert(t[j0] == ss[j0 + 1]);
                assert(sec_start(ss[0]) <= sec_start(ss[j0 + 1]));
            } else {
                assert(r[i] == rt[i - 1] && r[j] == rt[j - 1]);
            }
        }
    }
}

/// Consecutive survivors come from distinct input positions, the earlier
/// ending no later than the next one starts.
#[verifier::rlimit(60)]
proof fn lemma_resolve_pairs(ss: Seq<SectionModel>)
    requires
        sorted_by_start(ss),
    ensures
        forall|k: int| 0 <= k < resolve_overlaps(ss).len() - 1 ==> (exists|j1: int, j2: int|
            0 <= j1 < j2 < ss.len() && ss[j1] == #[trigger] resolve_overlaps(ss)[k] && ss[j2]
                == resolve_overlaps(ss)[k + 1]) && sec_end(resolve_overlaps(ss)[k]) <= sec_start(
            resolve_overlaps(ss)[k + 1],
        ),
    decreases ss.len(),
{
    let r = resolve_overlaps(ss);
    if ss.len() <= 1 {
    } else if sec_start(ss[1]) < sec_end(ss[0]) {
        let t = ss.skip(2);
        assert forall|i: int, j: int| 0 <= i < j < t.len() implies sec_start(#[trigger] t[i])
            <= sec_start(#[trigger] t[j]) by {
            assert(t[i] == ss[i + 2] && t[j] == ss[j + 2]);
        }
        lemma_resolve_pairs(t);
        assert(r == resolve_overlaps(t));
        assert forall|k: int| 0 <= k < r.len() - 1 implies (exists|j1: int, j2: int|
            0 <= j1 < j2 < ss.len() && ss[j1] == #[trigger] r[k] && ss[j2] == r[k + 1]) && sec_end(
            r[k],
        ) <= sec_start(r[k + 1]) by {
            assert(resolve_overlaps(t)[k] == r[k]);
            assert(resolve_overlaps(t)[k + 1] == r[k + 1]);
            let (j1, j2) = choose|j1: int, j2: int|
                0 <= j1 < j2 < t.len() && t[j1] == #[trigger] r[k] && t[j2] == r[k + 1];
            assert(ss[j1 + 2] == r[k] && ss[j2 + 2] == r[k + 1]);
        }
    } else {
        let t = ss.skip(1);
        assert forall|i: int, j: int| 0 <= i < j < t.len() implies sec_start(#[trigger] t[i])
            <= sec_start(#[trigger] t[j]) by {
            assert(t[i] == ss[i + 1] && t[j] == ss[j + 1]);
        }
        lemma_resolve_pairs(t);
        lemma_resolve_member(t);
        let rt = resolve_overlaps(t);
        assert(r == seq![ss[0]] + rt);
        assert forall|k: int| 0 <= k < r.len() - 1 implies (exists|j1: int, j2: int|
            0 <= j1 < j2 < ss.len() && ss[j1] == #[trigger] r[k] && ss[j2] == r[k + 1]) && sec_end(
            r[k],
        ) <= sec_start(r[k + 1]) by {
            if k == 0 {
                assert(r[1] == rt[0]);
                let j = choose|j: int| 0 <= j < t.len() && t[j] == rt[0];
                assert(t[j] == ss[j + 1]);
                assert(ss[0] == r[0] && ss[j + 1] == r[1]);
                assert(0 < j + 1 < ss.len());
                assert(sec_start(ss[1]) >= sec_end(ss[0]));
                assert(sec_start(t[j]) >= sec_start(t[0])) by {
                    assert(sorted_by_start(t));
                }
                assert(t[0] == ss[1]);
            } else {
                assert(r[k] == rt[k - 1] && r[k + 1] == rt[k]);
                let (j1, j2) = choose|j1: int, j2: int|
                    0 <= j1 < j2 < t.len() && t[j1] == #[trigger] rt[k - 1] && t[j2] == rt[k];
                assert(ss[j1 + 1] == r[k] && ss[j2 + 1] == r[k + 1]);
            }
        }
    }
}

/// The gap-filling anonymous sections, together with the sections they
/// fill around, tile the whole range from the cursor to the last end.
proof fn lemma_gap_tiling(s: Seq<SectionModel>, cursor: int)
    requires
        s.len() > 0,
        forall|i: int| 0 <= i < s.len() ==> sec_start(#[trigger] s[i]) <= sec_end(s[i]),
        forall|i: int| 0 <= i < s.len() - 1 ==> sec_end(#[trigger] s[i]) < sec_start(s[i + 1]),
        1 <= cursor,
        cursor <= sec_start(s[0]) as int,
    ensures
        all_ranges_ok(s + gap_anons(s, cursor), cursor, sec_end(s[s.len() - 1]) as int),
        pairwise_disjoint(s + gap_anons(s, cursor)),
        covers_all(s + gap_anons(s, cursor), cursor, sec_end(s[s.len() - 1]) as int),
    decreases s.len(),
{
    let a = gap_anons(s, cursor);
    let c = s + a;
    let hi = sec_end(s[s.len() - 1]) as int;
    let start0 = sec_start(s[0]) as int;
    let end0 = sec_end(s[0]) as int;
    if s.len() == 1 {
        assert(hi == end0);
        assert(s.skip(1).len() == 0);
        assert(gap_anons(s.skip(1), end0 + 1) =~= Seq::<SectionModel>::empty());
        if cursor < start0 {
            assert(a =~= seq![anon_model(cursor as u32, (sec_start(s[0]) - 1) as u32)]);
            assert(c.len() == 2);
            assert(c[0] == s[0] && c[1] == a[0]);
        } else {
            assert(a =~= Seq::<SectionModel>::empty());
            assert(c.len() == 1);
            assert(c[0] == s[0]);
        }
        assert forall|x: int| cursor <= x <= hi implies #[trigger] covered(c, x) by {
            if x < start0 {
                assert(cursor < start0);
                assert(sec_start(c[1]) as int <= x && x <= sec_end(c[1]) as int);
            } else {
                assert(sec_start(c[0]) as int <= x && x <= sec_end(c[0]) as int);
            }
        }
    } else {
        let s2 = s.skip(1);
        let cursor2 = end0 + 1;
        assert(s2.len() == s.len() - 1);
        assert forall|i: int| 0 <= i < s2.len() implies sec_start(#[trigger] s2[i]) <= sec_end(
            s2[i],
        ) by {
            assert(s2[i] == s[i + 1]);
        }
        assert forall|i: int| 0 <= i < s2.len() - 1 implies sec_end(#[trigger] s2[i]) < sec_start(
            s2[i + 1],
        ) by {
            assert(s2[i] == s[i + 1] && s2[i + 1] == s[i + 2]);
        }
        assert(s2[0] == s[1]);
        assert(sec_end(s[0]) < sec_start(s[1]));
        lemma_gap_tiling(s2, cursor2);
        let a2 = gap_anons(s2, cursor2);
        let c2 = s2 + a2;
        assert(s2[s2.len() - 1] == s[s.len() - 1]);
        let plen: int = if cursor < start0 { 1int } else { 0int };
        if cursor < start0 {
            assert(a =~= seq![anon_model(cursor as u32, (sec_start(s[0]) - 1) as u32)] + a2);
        } else {
            assert(a =~= a2);
        }
        assert(a.len() == plen + a2.len());
        // map every index of c to the head, the gap piece, or c2
        assert forall|k: int| 0 <= k < c.len() implies #[trigger] c[k] == s[0] || (plen == 1 && c[k]
            == a[0] && a[0] == anon_model(cursor as u32, (sec_start(s[0]) - 1) as u32)) || exists|
            k2: int,
        |
            0 <= k2 < c2.len() && c2[k2] == c[k] by {
            if k == 0 {
            } else if k < s.len() {
                assert(c[k] == s[k]);
                assert(c2[k - 1] == s2[k - 1]);
                assert(s2[k - 1] == s[k]);
            } else if plen == 1 && k == s.len() {
                assert(c[k] == a[0]);
            } else {
                let off = k - s.len() - plen;
                assert(c[k] == a[k - s.len()]);
                assert(a[k - s.len()] == a2[off]);
                assert(c2[s2.len() + off] == a2[off]);
            }
        }
        // every element of c2 has a cursor2 lower bound
        assert(all_ranges_ok(c2, cursor2, hi));
        // bounds
        assert forall|k: int| 0 <= k < c.len() implies range_ok(#[trigger] c[k], cursor, hi) by {
            if c[k] == s[0] {
                assert(range_ok(c2[0], cursor2, hi));
                assert(c2[0] == s[1]);
                assert(end0 < sec_start(s[1]) as int);
                assert(sec_end(s[1]) as int <= hi);
            } else if plen == 1 && c[k] == anon_model(cursor as u32, (sec_start(s[0]) - 1) as u32) {
                assert(range_ok(c2[0], cursor2, hi));
                assert(c2[0] == s[1]);
            } else {
                let k2 = choose|k2: int| 0 <= k2 < c2.len() && c2[k2] == c[k];
                assert(range_ok(c2[k2], cursor2, hi));
            }
        }
        // disjointness
        assert forall|i: int, j: int|
            0 <= i < c.len() && 0 <= j < c.len() && i != j implies ranges_disjoint(
            #[trigger] c[i],
            #[trigger] c[j],
        ) by {
            lemma_gap_disjoint_cases(s, cursor, i, j);
        }
        // coverage
        assert forall|x: int| cursor <= x <= hi implies #[trigger] covered(c, x) by {
            if x < start0 {
                assert(cursor < start0);
                assert(c[s.len() as int] == a[0]);
                assert(sec_start(c[s.len() as int]) as int <= x && x <= sec_end(
                    c[s.len() as int],
                ) as int);
            } else if x <= end0 {
                assert(sec_start(c[0]) as int <= x && x <= sec_end(c[0]) as int);
            } else {
                assert(cursor2 <= x <= hi);
                assert(covered(c2, x));
                let k2 = choose|k2: int|
                    0 <= k2 < c2.len() && sec_start(#[trigger] c2[k2]) as int <= x && x <= sec_end(
                        c2[k2],
                    ) as int;
                if k2 < s2.len() {
                    assert(c[k2 + 1] == s2[k2]);
                    assert(sec_start(c[k2 + 1]) as int <= x && x <= sec_end(c[k2 + 1]) as int);
                } else {
                    let k = s.len() + plen + (k2 - s2.len());
                    assert(c[k] == a2[k2 - s2.len()]);
                    assert(sec_start(c[k]) as int <= x && x <= sec_end(c[k]) as int);
                }
            }
        }
    }
}

/// Disjointness case analysis for one pair in the gap tiling.
proof fn lemma_gap_disjoint_cases(s: Seq<SectionModel>, cursor: int, i: int, j: int)
    requires
        s.len() > 1,
        forall|k: int| 0 <= k < s.len() ==> sec_start(#[trigger] s[k]) <= sec_end(s[k]),
        forall|k: int| 0 <= k < s.len() - 1 ==> sec_end(#[trigger] s[k]) < sec_start(s[k + 1]),
        1 <= cursor,
        cursor <= sec_start(s[0]) as int,
        0 <= i < (s + gap_anons(s, cursor)).len(),
        0 <= j < (s + gap_anons(s, cursor)).len(),
        i != j,
        pairwise_disjoint(s.skip(1) + gap_anons(s.skip(1), sec_end(s[0]) + 1)),
        all_ranges_ok(
            s.skip(1) + gap_anons(s.skip(1), sec_end(s[0]) + 1),
            sec_end(s[0]) + 1,
            sec_end(s[s.len() - 1]) as int,
        ),
    ensures
        ranges_disjoint((s + gap_anons(s, cursor))[i], (s + gap_anons(s, cursor))[j]),
{
    let a = gap_anons(s, cursor);
    let c = s + a;
    let s2 = s.skip(1);
    let start0 = sec_start(s[0]) as int;
    let end0 = sec_end(s[0]) as int;
    let cursor2 = end0 + 1;
    let a2 = gap_anons(s2, cursor2);
    let c2 = s2 + a2;
    let plen: int = if cursor < start0 { 1int } else { 0int };
    if cursor < start0 {
        assert(a =~= seq![anon_model(cursor as u32, (sec_start(s[0]) - 1) as u32)] + a2);
    } else {
        assert(a =~= a2);
    }
    // classify an index of c: 0 is the head, s.len() (when plen == 1) is
    // the gap piece, everything else maps into c2
    let head = s[0];
    let piece = anon_model(cursor as u32, (sec_start(s[0]) - 1) as u32);
    assert forall|k: int| 0 <= k < c.len() && k != 0 && !(plen == 1 && k == s.len()) implies exists|
        k2: int,
    |
        0 <= k2 < c2.len() && c2[k2] == #[trigger] c[k] by {
        if k < s.len() {
            assert(c[k] == s[k]);
            assert(c2[k - 1] == s2[k - 1]);
            assert(s2[k - 1] == s[k]);
        } else {
            let off = k - s.len() - plen;
            assert(c[k] == a[k - s.len()]);
            assert(a[k - s.len()] == a2[off]);
            assert(c2[s2.len() + off] == a2[off]);
        }
    }
    let x = c[i];
    let y = c[j];
    let xi_head = i == 0;
    let xi_piece = plen == 1 && i == s.len();
    let yj_head = j == 0;
    let yj_piece = plen == 1 && j == s.len();
    // bounds of c2 elements
    if xi_head {
        if yj_piece {
            assert(sec_end(piece) < sec_start(head));
        } else {
            let k2 = choose|k2: int| 0 <= k2 < c2.len() && c2[k2] == y;
            assert(range_ok(c2[k2], cursor2, sec_end(s[s.len() - 1]) as int));
            assert(sec_end(head) < sec_start(y));
        }
    } else if xi_piece {
        if yj_head {
            assert(sec_end(piece) < sec_start(head));
        } else {
            let k2 = choose|k2: int| 0 <= k2 < c2.len() && c2[k2] == y;
            assert(range_ok(c2[k2], cursor2, sec_end(s[s.len() - 1]) as int));
            assert(sec_end(piece) < sec_start(y));
        }
    } else {
        if yj_head {
            let k2 = choose|k2: int| 0 <= k2 < c2.len() && c2[k2] == x;
            assert(range_ok(c2[k2], cursor2, sec_end(s[s.len() - 1]) as int));
            assert(sec_end(head) < sec_start(x));
        } else if yj_piece {
            let k2 = choose|k2: int| 0 <= k2 < c2.len() && c2[k2] == x;
            assert(range_ok(c2[k2], cursor2, sec_end(s[s.len() - 1]) as int));
            assert(sec_end(piece) < sec_start(x));
        } else {
            // both are in c2; their c2 indices differ because the index
            // mapping is injective position-wise
            lemma_gap_pair_in_tail(s, cursor, i, j);
        }
    }
}

/// Two distinct non-head, non-piece indices of the combined sequence map
/// to distinct indices of the tail tiling, which is pairwise disjoint.
proof fn lemma_gap_pair_in_tail(s: Seq<SectionModel>, cursor: int, i: int, j: int)
    requires
        s.len() > 1,
        1 <= cursor,
        cursor <= sec_start(s[0]) as int,
        0 <= i < (s + gap_anons(s, cursor)).len(),
        0 <= j < (s + gap_anons(s, cursor)).len(),
        i != j,
        i != 0,
        j != 0,
        !((if cursor < sec_start(s[0]) as int { 1int } else { 0int }) == 1 && i == s.len()),
        !((if cursor < sec_start(s[0]) as int { 1int } else { 0int }) == 1 && j == s.len()),
        pairwise_disjoint(s.skip(1) + gap_anons(s.skip(1), sec_end(s[0]) + 1)),
    ensures
        ranges_disjoint((s + gap_anons(s, cursor))[i], (s + gap_anons(s, cursor))[j]),
{
    let a = gap_anons(s, cursor);
    let c = s + a;
    let s2 = s.skip(1);
    let start0 = sec_start(s[0]) as int;
    let end0 = sec_end(s[0]) as int;
    let cursor2 = end0 + 1;
    let a2 = gap_anons(s2, cursor2);
    let c2 = s2 + a2;
    let plen: int = if cursor < start0 { 1int } else { 0int };
    if cursor < start0 {
        assert(a =~= seq![anon_model(cursor as u32, (sec_start(s[0]) - 1) as u32)] + a2);
    } else {
        assert(a =~= a2);
    }
    let mi = if i < s.len() { i - 1 } else { s2.len() + (i - s.len() - plen) };
    let mj = if j < s.len() { j - 1 } else { s2.len() + (j - s.len() - plen) };
    assert(c2[mi] == c[i]) by {
        if i < s.len() {
            assert(c[i] == s[i]);
            assert(c2[i - 1] == s2[i - 1]);
            assert(s2[i - 1] == s[i]);
        } else {
            assert(c[i] == a[i - s.len()]);
            assert(a[i - s.len()] == a2[i - s.len() - plen]);
        }
    }
    assert(c2[mj] == c[j]) by {
        if j < s.len() {
            assert(c[j] == s[j]);
            assert(c2[j - 1] == s2[j - 1]);
            assert(s2[j - 1] == s[j]);
        } else {
            assert(c[j] == a[j - s.len()]);
            assert(a[j - s.len()] == a2[j - s.len() - plen]);
        }
    }
    assert(mi != mj);
    assert(ranges_disjoint(c2[mi], c2[mj]));
}

/// A sorted sequence of well-formed, pairwise disjoint ranges that cover
/// `[1, hi]` exactly is contiguous from line 1.
proof fn lemma_sorted_tiling_contiguous(c: Seq<SectionModel>, hi: int)
    requires
        c.len() > 0,
        1 <= hi,
        sorted_by_start(c),
        all_ranges_ok(c, 1, hi),
        pairwise_disjoint(c),
        covers_all(c, 1, hi),
    ensures
        contiguous_from_1(c),
{
    assert(covered(c, 1));
    let j0 = choose|j: int|
        0 <= j < c.len() && sec_start(#[trigger] c[j]) as int <= 1 && 1 <= sec_end(c[j]) as int;
    assert(range_ok(c[j0], 1, hi));
    assert(sec_start(c[j0]) as int == 1);
    assert(range_ok(c[0], 1, hi));
    if j0 > 0 {
        assert(sec_start(c[0]) <= sec_start(c[j0]));
    }
    assert(sec_start(c[0]) == 1);
    assert forall|i: int| 0 <= i < c.len() - 1 implies sec_start(#[trigger] c[i + 1]) == sec_end(
        c[i],
    ) + 1 by {
        assert(range_ok(c[i], 1, hi));
        assert(range_ok(c[i + 1], 1, hi));
        assert(ranges_disjoint(c[i], c[i + 1]));
        assert(sec_start(c[i]) <= sec_start(c[i + 1]));
        assert(sec_end(c[i]) < sec_start(c[i + 1]));
        assert((sec_end(c[i]) as int) < hi);
        let x = sec_end(c[i]) as int + 1;
        assert(1 <= x <= hi);
        assert(covered(c, x));
        let j = choose|j: int|
            0 <= j < c.len() && sec_start(#[trigger] c[j]) as int <= x && x <= sec_end(
                c[j],
            ) as int;
        assert(range_ok(c[j], 1, hi));
        assert(j != i);
        if j < i {
            assert(sec_start(c[j]) <= sec_start(c[i]));
            assert(ranges_disjoint(c[j], c[i]));
            assert(false);
        }
        assert(j > i);
        assert(ranges_disjoint(c[i], c[j]));
        assert(sec_end(c[i]) < sec_start(c[j]));
        assert(sec_start(c[j]) as int == x);
        if j > i + 1 {
            assert(sec_start(c[i + 1]) <= sec_start(c[j]));
        }
        assert(sec_start(c[i + 1]) as int <= x);
        assert(sec_start(c[i + 1]) as int >= x);
    }
}

/// The inputs on which the overlap policy leaves a clean layout: after
/// sorting, every parsed named section has a sane range and no section's
/// end line collides with another section's start line.
pub open spec fn clean_layout(lines: Seq<Seq<char>>, prefix: Seq<char>) -> bool {
    let sorted = sort_by_start(doc_named_sections(lines, prefix));
    &&& forall|i: int| 0 <= i < sorted.len() ==> 1 <= sec_start(#[trigger] sorted[i]) && sec_start(
        sorted[i],
    ) <= sec_end(sorted[i])
    &&& forall|i: int, j: int|
        0 <= i < sorted.len() && 0 <= j < sorted.len() && i != j ==> sec_end(#[trigger] sorted[i])
            != sec_start(#[trigger] sorted[j])
}

/// Tiling facts carry over to any multiset-equal rearrangement.
proof fn lemma_tiling_transfer(cc: Seq<SectionModel>, m: Seq<SectionModel>, lo: int, hi: int)
    requires
        m.to_multiset() == cc.to_multiset(),
        all_ranges_ok(cc, lo, hi),
        pairwise_disjoint(cc),
        covers_all(cc, lo, hi),
    ensures
        all_ranges_ok(m, lo, hi),
        pairwise_disjoint(m),
        covers_all(m, lo, hi),
        m.len() == cc.len(),
{
    assert(m.len() == cc.len()) by {
        assert(cc.to_multiset().len() == cc.len());
        assert(m.to_multiset().len() == m.len());
    }
    assert forall|i: int| 0 <= i < m.len() implies range_ok(#[trigger] m[i], lo, hi) by {
        lemma_elem_exchange(m, cc, i);
        let j = choose|j: int| 0 <= j < cc.len() && cc[j] == m[i];
        assert(range_ok(cc[j], lo, hi));
    }
    assert forall|i: int, j: int|
        0 <= i < m.len() && 0 <= j < m.len() && i != j implies ranges_disjoint(
        #[trigger] m[i],
        #[trigger] m[j],
    ) by {
        if m[i] == m[j] {
            let (a0, b0) = if i < j {
                (i, j)
            } else {
                (j, i)
            };
            lemma_count_from_pair(m, a0, b0);
            assert(cc.to_multiset().count(m[i]) >= 2);
            lemma_pair_from_count(cc, m[i]);
            let (a, b) = choose|a: int, b: int|
                0 <= a < b < cc.len() && cc[a] == m[i] && cc[b] == m[i];
            assert(ranges_disjoint(cc[a], cc[b]));
            assert(range_ok(cc[a], lo, hi));
            assert(false);
        } else {
            lemma_elem_exchange(m, cc, i);
            lemma_elem_exchange(m, cc, j);
            let a = choose|a: int| 0 <= a < cc.len() && cc[a] == m[i];
            let b = choose|b: int| 0 <= b < cc.len() && cc[b] == m[j];
            assert(a != b);
            assert(ranges_disjoint(cc[a], cc[b]));
        }
    }
    assert forall|x: int| lo <= x <= hi implies #[trigger] covered(m, x) by {
        assert(covered(cc, x));
        let k = choose|k: int|
            0 <= k < cc.len() && sec_start(#[trigger] cc[k]) as int <= x && x <= sec_end(
                cc[k],
            ) as int;
        lemma_elem_exchange(cc, m, k);
        let k2 = choose|k2: int| 0 <= k2 < m.len() && m[k2] == cc[k];
        assert(sec_start(m[k2]) as int <= x && x <= sec_end(m[k2]) as int);
    }
}

/// On a sorted input whose sections are well formed and whose end lines
/// collide with no other section's start line, the surviving sections
/// are well formed and strictly separated.
#[verifier::rlimit(100)]
proof fn lemma_clean_survivors(sorted: Seq<SectionModel>)
    requires
        sorted_by_start(sorted),
        forall|i: int| 0 <= i < sorted.len() ==> 1 <= sec_start(#[trigger] sorted[i]) && sec_start(
            sorted[i],
        ) <= sec_end(sorted[i]),
        forall|i: int, j: int|
            0 <= i < sorted.len() && 0 <= j < sorted.len() && i != j ==> sec_end(
                #[trigger] sorted[i],
            ) != sec_start(#[trigger] sorted[j]),
    ensures
        forall|k: int| 0 <= k < resolve_overlaps(sorted).len() ==> 1 <= sec_start(
            #[trigger] resolve_overlaps(sorted)[k],
        ) && sec_start(resolve_overlaps(sorted)[k]) <= sec_end(resolve_overlaps(sorted)[k]),
        forall|k: int| 0 <= k < resolve_overlaps(sorted).len() - 1 ==> sec_end(
            #[trigger] resolve_overlaps(sorted)[k],
        ) < sec_start(resolve_overlaps(sorted)[k + 1]),
        sorted_by_start(resolve_overlaps(sorted)),
{
    let surv = resolve_overlaps(sorted);
    lemma_resolve_member(sorted);
    lemma_resolve_sorted(sorted);
    lemma_resolve_pairs(sorted);
    assert forall|k: int| 0 <= k < surv.len() implies 1 <= sec_start(#[trigger] surv[k])
        && sec_start(surv[k]) <= sec_end(surv[k]) by {
        let j = choose|j: int| 0 <= j < sorted.len() && sorted[j] == surv[k];
        assert(1 <= sec_start(sorted[j]) && sec_start(sorted[j]) <= sec_end(sorted[j]));
    }
    assert forall|k: int| 0 <= k < surv.len() - 1 implies sec_end(#[trigger] surv[k]) < sec_start(
        surv[k + 1],
    ) by {
        let (j1, j2) = choose|j1: int, j2: int|
            0 <= j1 < j2 < sorted.len() && sorted[j1] == #[trigger] surv[k] && sorted[j2] == surv[k
                + 1];
        assert(sec_end(sorted[j1]) != sec_start(sorted[j2]));
        assert(sec_end(surv[k]) <= sec_start(surv[k + 1]));
    }
}

/// The partition invariant: on any input with a clean layout, the
/// assembled sections are contiguous from line 1, with no gaps and no
/// overlaps.
pub proof fn lemma_partition_invariant(lines: Seq<Seq<char>>, prefix: Seq<char>)
    requires
        clean_layout(lines, prefix),
    ensures
        contiguous_from_1(assembled_sections(lines, prefix)),
{
    let surv = doc_survivors(lines, prefix);
    let cls = scan_content(lines, prefix);
    let merged = merged_sections(surv, lines.len() as u32);
    let out = assembled_sections(lines, prefix);
    assert(out.len() == merged.len());
    assert forall|i: int| 0 <= i < out.len() implies sec_start(#[trigger] out[i]) == sec_start(
        merged[i],
    ) && sec_end(out[i]) == sec_end(merged[i]) by {
        assert(out[i] == finalized_sec(fill_sec(merged[i], cls)));
    }
    if surv.len() == 0 {
        assert(merged =~= seq![anon_model(1, lines.len() as u32)]);
        assert(sec_start(out[0]) == 1);
        assert(contiguous_from_1(out));
    } else {
        lemma_sort_sorted(doc_named_sections(lines, prefix));
        lemma_clean_survivors(sort_by_start(doc_named_sections(lines, prefix)));
        lemma_gap_tiling(surv, 1);
        let anons = gap_anons(surv, 1);
        let cc = surv + anons;
        let hi = sec_end(surv[surv.len() - 1]) as int;
        assert(merged == sort_by_start(cc));
        lemma_sort_multiset(cc);
        lemma_sort_sorted(cc);
        assert(1 <= hi) by {
            assert(range_ok(cc[surv.len() - 1], 1, hi));
        }
        lemma_tiling_transfer(cc, merged, 1, hi);
        assert(merged.len() > 0);
        lemma_sorted_tiling_contiguous(merged, hi);
        assert(sec_start(out[0]) == sec_start(merged[0]));
        assert forall|i: int| 0 <= i < out.len() - 1 implies sec_start(#[trigger] out[i + 1])
            == sec_end(out[i]) + 1 by {
            assert(sec_start(merged[i + 1]) == sec_end(merged[i]) + 1);
        }
        assert(contiguous_from_1(out));
    }
}

} // verus!
