//! The document assembler and the reconciliation engine.
//!
//! A `DotFile` is either a list of sections that partition the file's
//! lines (comment-based tracking) or a wrapper around a sidecar metafile.
//! Assembly turns raw lines into that partition; reconciliation copies
//! sections or content from a source document into a target document when
//! it is safe to do so.

use vstd::prelude::*;
use vstd::pervasive::VecAdditionalExecFns;

use crate::comment::{opt_marker_view, parse_marker, MarkerModel, Specialcomment, CommentType};
use crate::commentmap::{
    map_get_kind, map_push, remove_incomplete_spec, section_names, unique_keys, CommentMap,
    MapEntry,
};
use crate::metafile::{MetaFile, MetaModel};
use crate::section::{
    finalized_sec, sec_data, sec_end, sec_start, section_from_map, NamedSectionData, Section,
    SectionData, SectionDataModel, SectionModel,
};
use crate::strutil::{clone_opt_string, opt_str_view, parse_u32, parse_u32_spec};

verus! {

/// Outcome of applying a document to its target.
pub enum ApplyResult {
    Changed,
    Unchanged,
    Error,
}

/// One raw line that is not a marker, tagged with its line number.
pub struct ContentLine {
    pub linenumber: u32,
    pub content: String,
}

impl View for ContentLine {
    type V = (u32, Seq<char>);

    open spec fn view(&self) -> (u32, Seq<char>) {
        (self.linenumber, self.content@)
    }
}

impl DeepView for ContentLine {
    type V = (u32, Seq<char>);

    open spec fn deep_view(&self) -> (u32, Seq<char>) {
        self@
    }
}

/// The markers of the lines, in file order; line `i` has number `i + 1`.
pub open spec fn scan_markers(lines: Seq<Seq<char>>, prefix: Seq<char>) -> Seq<MarkerModel>
    decreases lines.len(),
{
    if lines.len() == 0 {
        Seq::empty()
    } else {
        let rest = scan_markers(lines.drop_last(), prefix);
        match parse_marker(lines.last(), prefix, lines.len() as u32) {
            Some(m) => rest.push(m),
            None => rest,
        }
    }
}

/// The non-marker lines with their numbers, in file order.
pub open spec fn scan_content(lines: Seq<Seq<char>>, prefix: Seq<char>) -> Seq<(u32, Seq<char>)>
    decreases lines.len(),
{
    if lines.len() == 0 {
        Seq::empty()
    } else {
        let rest = scan_content(lines.drop_last(), prefix);
        if parse_marker(lines.last(), prefix, lines.len() as u32) is None {
            rest.push((lines.len() as u32, lines.last()))
        } else {
            rest
        }
    }
}

/// The comment map after pushing every marker in order.
pub open spec fn map_of_markers(ms: Seq<MarkerModel>) -> Seq<MapEntry>
    decreases ms.len(),
{
    if ms.len() == 0 {
        Seq::empty()
    } else {
        map_push(map_of_markers(ms.drop_last()), ms.last())
    }
}

/// The validated comment map of a file.
pub open spec fn doc_map(lines: Seq<Seq<char>>, prefix: Seq<char>) -> Seq<MapEntry> {
    remove_incomplete_spec(map_of_markers(scan_markers(lines, prefix)))
}

/// The document's target path: the argument of the `all target` marker.
pub open spec fn doc_target(lines: Seq<Seq<char>>, prefix: Seq<char>) -> Option<Seq<char>> {
    match map_get_kind(doc_map(lines, prefix), "all"@, CommentType::TargetInfo) {
        Some(c) => c.argument,
        None => None,
    }
}

/// The permission value: the `all permissions` argument with its first
/// three characters stripped, read as a decimal number.
pub open spec fn spec_permissions_arg(a: Seq<char>) -> Option<u32> {
    if a.len() >= 3 {
        parse_u32_spec(a.skip(3))
    } else {
        None
    }
}

pub open spec fn doc_permissions(lines: Seq<Seq<char>>, prefix: Seq<char>) -> Option<u32> {
    match map_get_kind(doc_map(lines, prefix), "all"@, CommentType::PermissionInfo) {
        Some(c) => match c.argument {
            Some(a) => spec_permissions_arg(a),
            None => None,
        },
        None => None,
    }
}

/// One named section per surviving name, in map order.
pub open spec fn sections_of_names(names: Seq<Seq<char>>, m: Seq<MapEntry>) -> Seq<SectionModel>
    decreases names.len(),
{
    if names.len() == 0 {
        Seq::empty()
    } else {
        let rest = sections_of_names(names.drop_last(), m);
        match section_from_map(names.last(), m) {
            Some(s) => rest.push(s),
            None => rest,
        }
    }
}

pub open spec fn sorted_by_start(ss: Seq<SectionModel>) -> bool {
    forall|i: int, j: int| 0 <= i < j < ss.len() ==> sec_start(#[trigger] ss[i]) <= sec_start(
        #[trigger] ss[j],
    )
}

/// Stable insertion: `s` goes after every element whose start is not
/// greater than its own.
pub open spec fn insert_by_start(s: SectionModel, sorted: Seq<SectionModel>) -> Seq<SectionModel>
    decreases sorted.len(),
{
    if sorted.len() == 0 {
        seq![s]
    } else if sec_start(sorted.last()) <= sec_start(s) {
        sorted.push(s)
    } else {
        insert_by_start(s, sorted.drop_last()).push(sorted.last())
    }
}

/// Stable sort by start line.
pub open spec fn sort_by_start(ss: Seq<SectionModel>) -> Seq<SectionModel>
    decreases ss.len(),
{
    if ss.len() == 0 {
        Seq::empty()
    } else {
        insert_by_start(ss.last(), sort_by_start(ss.drop_last()))
    }
}

/// The conservative overlap policy: when two adjacent sorted sections
/// overlap, both are discarded and the scan continues after the pair.
pub open spec fn resolve_overlaps(ss: Seq<SectionModel>) -> Seq<SectionModel>
    decreases ss.len(),
{
    if ss.len() == 0 {
        Seq::empty()
    } else if ss.len() == 1 {
        ss
    } else if sec_start(ss[1]) < sec_end(ss[0]) {
        resolve_overlaps(ss.skip(2))
    } else {
        seq![ss[0]] + resolve_overlaps(ss.skip(1))
    }
}

pub open spec fn anon_model(start: u32, end: u32) -> SectionModel {
    SectionModel::Anonymous(SectionDataModel { startline: start, content: Seq::empty(), endline: end })
}

/// The anonymous sections that fill the gaps before each named section,
/// walking a line cursor from `cursor` on.
pub open spec fn gap_anons(ss: Seq<SectionModel>, cursor: int) -> Seq<SectionModel>
    decreases ss.len(),
{
    if ss.len() == 0 {
        Seq::empty()
    } else {
        let rest = gap_anons(ss.skip(1), sec_end(ss[0]) + 1);
        if cursor < sec_start(ss[0]) as int {
            seq![anon_model(cursor as u32, (sec_start(ss[0]) - 1) as u32)] + rest
        } else {
            rest
        }
    }
}

/// The section list before content is filled in: gap fill plus re-sort,
/// or one anonymous section over the whole file when nothing survived.
pub open spec fn merged_sections(survivors: Seq<SectionModel>, nlines: u32) -> Seq<SectionModel> {
    if survivors.len() == 0 {
        seq![anon_model(1, nlines)]
    } else {
        sort_by_start(survivors + gap_anons(survivors, 1))
    }
}

/// The content a section with range `[start, end]` collects: every
/// content line in range, each followed by a newline.
pub open spec fn range_content(cls: Seq<(u32, Seq<char>)>, start: u32, end: u32) -> Seq<char>
    decreases cls.len(),
{
    if cls.len() == 0 {
        Seq::empty()
    } else {
        range_content(cls.drop_last(), start, end) + (if start <= cls.last().0 && cls.last().0
            <= end {
            cls.last().1 + "\n"@
        } else {
            Seq::<char>::empty()
        })
    }
}

/// A section with its content filled in from the content lines.
pub open spec fn fill_sec(s: SectionModel, cls: Seq<(u32, Seq<char>)>) -> SectionModel {
    match s {
        SectionModel::Named(d, nd) => SectionModel::Named(
            SectionDataModel {
                startline: d.startline,
                content: d.content + range_content(cls, d.startline, d.endline),
                endline: d.endline,
            },
            nd,
        ),
        SectionModel::Anonymous(d) => SectionModel::Anonymous(
            SectionDataModel {
                startline: d.startline,
                content: d.content + range_content(cls, d.startline, d.endline),
                endline: d.endline,
            },
        ),
    }
}

/// The named sections parsed out of the lines, before sorting.
pub open spec fn doc_named_sections(lines: Seq<Seq<char>>, prefix: Seq<char>) -> Seq<SectionModel> {
    sections_of_names(section_names(doc_map(lines, prefix)), doc_map(lines, prefix))
}

/// The survivors of the overlap policy.
pub open spec fn doc_survivors(lines: Seq<Seq<char>>, prefix: Seq<char>) -> Seq<SectionModel> {
    resolve_overlaps(sort_by_start(doc_named_sections(lines, prefix)))
}

/// The fully assembled sections of a file: partitioned, filled, hashed.
pub open spec fn assembled_sections(lines: Seq<Seq<char>>, prefix: Seq<char>) -> Seq<SectionModel> {
    let cls = scan_content(lines, prefix);
    merged_sections(doc_survivors(lines, prefix), lines.len() as u32).map_values(
        |s: SectionModel| finalized_sec(fill_sec(s, cls)),
    )
}

/// Mathematical model of a document.
#[verifier::ext_equal]
pub struct DocModel {
    pub comments: Seq<MarkerModel>,
    pub sections: Seq<SectionModel>,
    pub filename: Seq<char>,
    pub targetfile: Option<Seq<char>>,
    pub metafile: Option<MetaModel>,
    pub commentsign: Seq<char>,
    pub permissions: Option<u32>,
}

/// What parsing a comment-based file yields.
pub open spec fn spec_doc_of_lines(
    lines: Seq<Seq<char>>,
    prefix: Seq<char>,
    filename: Seq<char>,
) -> DocModel {
    DocModel {
        comments: scan_markers(lines, prefix),
        sections: assembled_sections(lines, prefix),
        filename: filename,
        targetfile: doc_target(lines, prefix),
        metafile: None,
        commentsign: prefix,
        permissions: doc_permissions(lines, prefix),
    }
}

/// A parsed file: its partition into sections, or its metafile.
pub struct DotFile {
    specialcomments: Vec<Specialcomment>,
    pub sections: Vec<Section>,
    pub filename: String,
    pub targetfile: Option<String>,
    pub metafile: Option<MetaFile>,
    pub commentsign: String,
    pub permissions: Option<u32>,
}

impl View for DotFile {
    type V = DocModel;

    closed spec fn view(&self) -> DocModel {
        DocModel {
            comments: self.specialcomments.deep_view(),
            sections: self.sections.deep_view(),
            filename: self.filename@,
            targetfile: opt_str_view(self.targetfile),
            metafile: match self.metafile {
                Some(m) => Some(m@),
                None => None,
            },
            commentsign: self.commentsign@,
            permissions: self.permissions,
        }
    }
}

// ---- length bounds through the pipeline ----

proof fn lemma_map_push_len(m: Seq<MapEntry>, c: MarkerModel)
    ensures
        map_push(m, c).len() <= m.len() + 1,
{
    if crate::commentmap::map_has_key(m, c.section) {
        crate::commentmap::lemma_map_key_index(m, c.section);
        let i = crate::commentmap::map_key_index(m, c.section);
        assert(map_push(m, c) == m.update(i, (c.section, m[i].1.push(c))));
        assert(m.update(i, (c.section, m[i].1.push(c))).len() == m.len());
    } else {
        assert(map_push(m, c).len() == m.len() + 1);
    }
}

proof fn lemma_map_of_markers_len(ms: Seq<MarkerModel>)
    ensures
        map_of_markers(ms).len() <= ms.len(),
    decreases ms.len(),
{
    if ms.len() > 0 {
        lemma_map_of_markers_len(ms.drop_last());
        lemma_map_push_len(map_of_markers(ms.drop_last()), ms.last());
    }
}

proof fn lemma_scan_markers_len(lines: Seq<Seq<char>>, prefix: Seq<char>)
    ensures
        scan_markers(lines, prefix).len() <= lines.len(),
    decreases lines.len(),
{
    if lines.len() > 0 {
        lemma_scan_markers_len(lines.drop_last(), prefix);
    }
}

proof fn lemma_remove_incomplete_len(m: Seq<MapEntry>)
    ensures
        remove_incomplete_spec(m).len() <= m.len(),
    decreases m.len(),
{
    if m.len() > 0 {
        lemma_remove_incomplete_len(m.drop_last());
    }
}

proof fn lemma_section_names_len(m: Seq<MapEntry>)
    ensures
        section_names(m).len() <= m.len(),
    decreases m.len(),
{
    if m.len() > 0 {
        lemma_section_names_len(m.drop_last());
    }
}

proof fn lemma_sections_of_names_len(names: Seq<Seq<char>>, m: Seq<MapEntry>)
    ensures
        sections_of_names(names, m).len() <= names.len(),
    decreases names.len(),
{
    if names.len() > 0 {
        lemma_sections_of_names_len(names.drop_last(), m);
    }
}

pub proof fn lemma_insert_by_start_len(s: SectionModel, sorted: Seq<SectionModel>)
    ensures
        insert_by_start(s, sorted).len() == sorted.len() + 1,
    decreases sorted.len(),
{
    if sorted.len() > 0 && !(sec_start(sorted.last()) <= sec_start(s)) {
        lemma_insert_by_start_len(s, sorted.drop_last());
    }
}

pub proof fn lemma_sort_by_start_len(ss: Seq<SectionModel>)
    ensures
        sort_by_start(ss).len() == ss.len(),
    decreases ss.len(),
{
    if ss.len() > 0 {
        lemma_sort_by_start_len(ss.drop_last());
        lemma_insert_by_start_len(ss.last(), sort_by_start(ss.drop_last()));
    }
}

proof fn lemma_resolve_overlaps_len(ss: Seq<SectionModel>)
    ensures
        resolve_overlaps(ss).len() <= ss.len(),
    decreases ss.len(),
{
    if ss.len() >= 2 {
        if sec_start(ss[1]) < sec_end(ss[0]) {
            lemma_resolve_overlaps_len(ss.skip(2));
        } else {
            lemma_resolve_overlaps_len(ss.skip(1));
        }
    }
}

proof fn lemma_gap_anons_len(ss: Seq<SectionModel>, cursor: int)
    ensures
        gap_anons(ss, cursor).len() <= ss.len(),
    decreases ss.len(),
{
    if ss.len() > 0 {
        lemma_gap_anons_len(ss.skip(1), sec_end(ss[0]) + 1);
    }
}

// ---- exec phases ----

fn clone_sections(v: &Vec<Section>) -> (r: Vec<Section>)
    ensures
        r@ == v@,
{
    let mut out: Vec<Section> = Vec::new();
    let n = v.len();
    let mut i: usize = 0;
    while i < n
        invariant
            0 <= i <= n,
            n == v@.len(),
            out@ == v@.subrange(0, i as int),
        decreases n - i,
    {
        out.push(v[i].clone());
        proof {
            assert(out@ =~= v@.subrange(0, i + 1));
        }
        i = i + 1;
    }
    proof {
        assert(v@.subrange(0, n as int) =~= v@);
    }
    out
}

/// `insert_by_start` lands `s` at the position the scan finds.
proof fn lemma_insert_at(s: SectionModel, sorted: Seq<SectionModel>, j: int)
    requires
        0 <= j <= sorted.len(),
        forall|k: int| j <= k < sorted.len() ==> sec_start(#[trigger] sorted[k]) > sec_start(s),
        j > 0 ==> sec_start(sorted[j - 1]) <= sec_start(s),
    ensures
        insert_by_start(s, sorted) == sorted.insert(j, s),
    decreases sorted.len(),
{
    if sorted.len() == 0 {
        assert(insert_by_start(s, sorted) =~= sorted.insert(0, s));
    } else if sec_start(sorted.last()) <= sec_start(s) {
        assert(j == sorted.len());
        assert(insert_by_start(s, sorted) =~= sorted.insert(j, s));
    } else {
        assert(j < sorted.len());
        let d = sorted.drop_last();
        assert forall|k: int| j <= k < d.len() implies sec_start(#[trigger] d[k]) > sec_start(s) by {
            assert(d[k] == sorted[k]);
        }
        if j > 0 {
            assert(d[j - 1] == sorted[j - 1]);
        }
        lemma_insert_at(s, d, j);
        assert(insert_by_start(s, sorted) == d.insert(j, s).push(sorted.last()));
        assert(d.insert(j, s).push(sorted.last()) =~= sorted.insert(j, s));
    }
}

/// Stable insertion sort by start line.
fn sort_sections(v: Vec<Section>) -> (r: Vec<Section>)
    ensures
        r.deep_view() == sort_by_start(v.deep_view()),
{
    let n = v.len();
    let mut out: Vec<Section> = Vec::new();
    let mut i: usize = 0;
    proof {
        assert(v.deep_view().subrange(0, 0) =~= Seq::<SectionModel>::empty());
    }
    while i < n
        invariant
            0 <= i <= n,
            n == v@.len(),
            v@.len() == v.deep_view().len(),
            out.deep_view() == sort_by_start(v.deep_view().subrange(0, i as int)),
            out@.len() == i,
        decreases n - i,
    {
        let s = v[i].clone();
        proof {
            assert(s@ == v.deep_view()[i as int]);
        }
        let mut j: usize = out.len();
        while j > 0 && out[j - 1].get_data().startline > s.get_data().startline
            invariant
                0 <= j <= out@.len(),
                out@.len() == out.deep_view().len(),
                forall|k: int| j <= k < out@.len() ==> sec_start(#[trigger] out.deep_view()[k])
                    > sec_start(s@),
            decreases j,
        {
            proof {
                assert(out.deep_view()[j - 1] == out@[j - 1]@);
            }
            j = j - 1;
        }
        proof {
            if j > 0 {
                assert(out.deep_view()[j - 1] == out@[j - 1]@);
            }
        }
        let ghost prev = out.deep_view();
        proof {
            lemma_insert_at(s@, prev, j as int);
        }
        out.insert(j, s);
        proof {
            assert(out.deep_view() =~= prev.insert(j as int, s@));
            let sub1 = v.deep_view().subrange(0, i + 1);
            assert(sub1.drop_last() =~= v.deep_view().subrange(0, i as int));
            assert(sub1.last() == v.deep_view()[i as int]);
        }
        i = i + 1;
    }
    proof {
        assert(v.deep_view().subrange(0, n as int) =~= v.deep_view());
    }
    out
}

/// Drops both sections of every overlapping adjacent pair.
fn resolve_overlaps_exec(v: &Vec<Section>) -> (r: Vec<Section>)
    ensures
        r.deep_view() == resolve_overlaps(v.deep_view()),
{
    let n = v.len();
    let mut out: Vec<Section> = Vec::new();
    let mut i: usize = 0;
    proof {
        assert(v.deep_view().skip(0) =~= v.deep_view());
        assert(out.deep_view() + resolve_overlaps(v.deep_view()) =~= resolve_overlaps(
            v.deep_view(),
        ));
    }
    while i < n
        invariant
            0 <= i <= n,
            n == v@.len(),
            v@.len() == v.deep_view().len(),
            resolve_overlaps(v.deep_view()) == out.deep_view() + resolve_overlaps(
                v.deep_view().skip(i as int),
            ),
        decreases n - i,
    {
        let ghost dv = v.deep_view();
        let ghost tail = dv.skip(i as int);
        if i + 1 < n && v[i + 1].get_data().startline < v[i].get_data().endline {
            proof {
                assert(tail[0] == dv[i as int]);
                assert(tail[1] == dv[i + 1]);
                assert(dv[i as int] == v@[i as int]@);
                assert(dv[i + 1] == v@[i + 1]@);
                assert(sec_start(tail[1]) < sec_end(tail[0]));
                assert(resolve_overlaps(tail) == resolve_overlaps(tail.skip(2)));
                assert(tail.skip(2) =~= dv.skip(i + 2));
            }
            i = i + 2;
        } else {
            let ghost prev = out.deep_view();
            out.push(v[i].clone());
            proof {
                assert(out.deep_view() =~= prev.push(dv[i as int]));
                assert(tail[0] == dv[i as int]);
                if i + 1 < n {
                    assert(tail[1] == dv[i + 1]);
                    assert(dv[i as int] == v@[i as int]@);
                    assert(dv[i + 1] == v@[i + 1]@);
                    assert(!(sec_start(tail[1]) < sec_end(tail[0])));
                    assert(resolve_overlaps(tail) == seq![tail[0]] + resolve_overlaps(
                        tail.skip(1),
                    ));
                } else {
                    assert(tail.len() == 1);
                    assert(resolve_overlaps(tail) =~= seq![tail[0]] + resolve_overlaps(
                        tail.skip(1),
                    ));
                }
                assert(tail.skip(1) =~= dv.skip(i + 1));
                assert(out.deep_view() + resolve_overlaps(dv.skip(i + 1)) =~= prev + (seq![
                    tail[0],
                ] + resolve_overlaps(tail.skip(1))));
            }
            i = i + 1;
        }
    }
    proof {
        assert(v.deep_view().skip(n as int) =~= Seq::<SectionModel>::empty());
        assert(out.deep_view() + resolve_overlaps(Seq::<SectionModel>::empty()) =~= out.deep_view());
    }
    out
}

/// Synthesizes the anonymous sections that fill the gaps.
fn gap_anons_exec(v: &Vec<Section>) -> (r: Vec<Section>)
    ensures
        r.deep_view() == gap_anons(v.deep_view(), 1),
{
    let n = v.len();
    let mut out: Vec<Section> = Vec::new();
    let mut cursor: u64 = 1;
    let mut i: usize = 0;
    proof {
        assert(v.deep_view().skip(0) =~= v.deep_view());
        assert(out.deep_view() + gap_anons(v.deep_view(), 1) =~= gap_anons(v.deep_view(), 1));
    }
    while i < n
        invariant
            0 <= i <= n,
            n == v@.len(),
            v@.len() == v.deep_view().len(),
            1 <= cursor <= 0x1_0000_0000u64,
            gap_anons(v.deep_view(), 1) == out.deep_view() + gap_anons(
                v.deep_view().skip(i as int),
                cursor as int,
            ),
        decreases n - i,
    {
        let ghost dv = v.deep_view();
        let ghost tail = dv.skip(i as int);
        let start = v[i].get_data().startline;
        let end = v[i].get_data().endline;
        proof {
            assert(tail[0] == dv[i as int]);
            assert(dv[i as int] == v@[i as int]@);
            assert(sec_start(tail[0]) == start);
            assert(sec_end(tail[0]) == end);
        }
        let ghost prev = out.deep_view();
        if cursor < start as u64 {
            out.push(Section::new_anonymous(cursor as u32, start - 1));
            proof {
                assert(out.deep_view() =~= prev.push(anon_model(cursor as u32, (start - 1) as u32)));
                assert(out.deep_view() =~= prev + seq![
                    anon_model(cursor as u32, (start - 1) as u32),
                ]);
            }
        }
        proof {
            assert(tail.skip(1) =~= dv.skip(i + 1));
        }
        cursor = end as u64 + 1;
        i = i + 1;
    }
    proof {
        assert(v.deep_view().skip(n as int) =~= Seq::<SectionModel>::empty());
        assert(out.deep_view() + gap_anons(Seq::<SectionModel>::empty(), cursor as int)
            =~= out.deep_view());
    }
    out
}

/// Fills one section with its content lines and hashes it.
fn filled_section(sec: Section, cls: &Vec<ContentLine>) -> (r: Section)
    ensures
        r@ == finalized_sec(fill_sec(sec@, cls.deep_view())),
{
    let mut sec = sec;
    let ghost s0 = sec@;
    let start = sec.get_data().startline;
    let end = sec.get_data().endline;
    let n = cls.len();
    let mut j: usize = 0;
    proof {
        assert(cls.deep_view().subrange(0, 0) =~= Seq::<(u32, Seq<char>)>::empty());
        assert(sec_data(sec@).content =~= sec_data(s0).content + range_content(
            cls.deep_view().subrange(0, 0),
            start,
            end,
        ));
    }
    while j < n
        invariant
            0 <= j <= n,
            n == cls@.len(),
            cls@.len() == cls.deep_view().len(),
            sec_data(sec@).startline == start,
            sec_data(sec@).endline == end,
            sec_data(sec@).content == sec_data(s0).content + range_content(
                cls.deep_view().subrange(0, j as int),
                start,
                end,
            ),
            sec@ is Named == s0 is Named,
            sec@ matches SectionModel::Named(_, nd) ==> s0 matches SectionModel::Named(_, nd0)
                && nd == nd0,
            sec_data(s0).startline == start,
            sec_data(s0).endline == end,
        decreases n - j,
    {
        let num = cls[j].linenumber;
        proof {
            assert(cls.deep_view()[j as int] == cls@[j as int]@);
            let sub1 = cls.deep_view().subrange(0, j + 1);
            assert(sub1.drop_last() =~= cls.deep_view().subrange(0, j as int));
            assert(sub1.last() == cls.deep_view()[j as int]);
        }
        if start <= num && num <= end {
            sec.push_line(cls[j].content.as_str());
        } else {
            proof {
                assert(sec_data(sec@).content + Seq::<char>::empty() =~= sec_data(sec@).content);
            }
        }
        j = j + 1;
    }
    proof {
        assert(cls.deep_view().subrange(0, n as int) =~= cls.deep_view());
    }
    sec.finalize();
    proof {
        assert(sec@ =~= finalized_sec(fill_sec(s0, cls.deep_view())));
    }
    sec
}

impl DotFile {
    /// A comment-based document always holds at least one section, and a
    /// document never has more sections than line numbers can count.
    pub open spec fn wf(&self) -> bool {
        &&& (self@.metafile is None ==> self@.sections.len() >= 1)
        &&& self@.sections.len() <= 0xffff_ffff
    }

    /// The document assembler: turns the raw lines of a file into a
    /// partition of sections, gathering markers, validating them,
    /// resolving overlaps, filling gaps and hashing every section.
    pub fn from_lines(lines: &Vec<String>, commentsign: &str, filename: &str) -> (r: DotFile)
        requires
            lines@.len() < 0x4000_0000,
        ensures
            r@ == spec_doc_of_lines(lines.deep_view(), commentsign@, filename@),
            r.wf(),
    {
        let nlines = lines.len();
        let ghost lv = lines.deep_view();
        let ghost prefix = commentsign@;
        let mut comment_map = CommentMap::new();
        let mut comments: Vec<Specialcomment> = Vec::new();
        let mut content_lines: Vec<ContentLine> = Vec::new();
        let mut i: usize = 0;
        proof {
            assert(lv.subrange(0, 0) =~= Seq::<Seq<char>>::empty());
            assert(comments.deep_view() =~= scan_markers(lv.subrange(0, 0), prefix));
            assert(content_lines.deep_view() =~= scan_content(lv.subrange(0, 0), prefix));
            assert(comment_map@ =~= map_of_markers(scan_markers(lv.subrange(0, 0), prefix)));
        }
        while i < nlines
            invariant
                0 <= i <= nlines,
                nlines == lines@.len(),
                nlines < 0x4000_0000,
                lv == lines.deep_view(),
                prefix == commentsign@,
                lv.len() == nlines,
                comment_map.wf(),
                comment_map@ == map_of_markers(scan_markers(lv.subrange(0, i as int), prefix)),
                comments.deep_view() == scan_markers(lv.subrange(0, i as int), prefix),
                content_lines.deep_view() == scan_content(lv.subrange(0, i as int), prefix),
            decreases nlines - i,
        {
            let line_number: u32 = (i + 1) as u32;
            let ghost ms_prev = scan_markers(lv.subrange(0, i as int), prefix);
            let ghost cls_prev = scan_content(lv.subrange(0, i as int), prefix);
            proof {
                let sub1 = lv.subrange(0, i + 1);
                assert(sub1.drop_last() =~= lv.subrange(0, i as int));
                assert(sub1.last() == lv[i as int]);
                assert(lv[i as int] == lines@[i as int]@);
            }
            match Specialcomment::from_line(lines[i].as_str(), commentsign, line_number) {
                Some(comment) => {
                    let ghost mm = comment@;
                    comment_map.push_comment(comment.clone());
                    comments.push(comment);
                    proof {
                        assert(comments.deep_view() =~= ms_prev.push(mm));
                        assert(ms_prev.push(mm).drop_last() =~= ms_prev);
                        assert(scan_markers(lv.subrange(0, i + 1), prefix) == ms_prev.push(mm));
                        assert(scan_content(lv.subrange(0, i + 1), prefix) == cls_prev);
                    }
                },
                None => {
                    content_lines.push(
                        ContentLine { linenumber: line_number, content: lines[i].clone() },
                    );
                    proof {
                        assert(content_lines.deep_view() =~= cls_prev.push(
                            (line_number, lv[i as int]),
                        ));
                        assert(scan_content(lv.subrange(0, i + 1), prefix) == cls_prev.push(
                            (line_number, lv[i as int]),
                        ));
                        assert(scan_markers(lv.subrange(0, i + 1), prefix) == ms_prev);
                    }
                },
            }
            i = i + 1;
        }
        proof {
            assert(lv.subrange(0, nlines as int) =~= lv);
        }
        comment_map.remove_incomplete();
        let ghost vmap = comment_map@;
        proof {
            assert(vmap == doc_map(lv, prefix));
        }
        let target_file: Option<String> = match comment_map.get_comment(
            "all",
            CommentType::TargetInfo,
        ) {
            Some(c) => {
                proof {
                    assert(map_get_kind(vmap, "all"@, CommentType::TargetInfo) == Some(c@));
                }
                clone_opt_string(&c.argument)
            },
            None => None,
        };
        proof {
            assert(opt_str_view(target_file) == doc_target(lv, prefix));
        }
        let permissions: Option<u32> = match comment_map.get_comment(
            "all",
            CommentType::PermissionInfo,
        ) {
            Some(c) => {
                proof {
                    assert(map_get_kind(vmap, "all"@, CommentType::PermissionInfo) == Some(c@));
                }
                match &c.argument {
                    Some(arg) => {
                        let alen = arg.as_str().unicode_len();
                        if alen >= 3 {
                            let tail = arg.as_str().substring_char(3, alen);
                            proof {
                                assert(tail@ =~= arg@.skip(3));
                            }
                            parse_u32(tail)
                        } else {
                            None
                        }
                    },
                    None => None,
                }
            },
            None => None,
        };
        proof {
            assert(permissions == doc_permissions(lv, prefix));
        }
        let names = comment_map.get_sections();
        let ghost namesv = names.deep_view();
        let nn = names.len();
        let mut named_secs: Vec<Section> = Vec::new();
        let mut k: usize = 0;
        proof {
            assert(namesv == section_names(vmap));
            assert(namesv.subrange(0, 0) =~= Seq::<Seq<char>>::empty());
            assert(named_secs.deep_view() =~= sections_of_names(namesv.subrange(0, 0), vmap));
        }
        while k < nn
            invariant
                0 <= k <= nn,
                nn == names@.len(),
                namesv == names.deep_view(),
                namesv.len() == nn,
                comment_map.wf(),
                comment_map@ == vmap,
                named_secs.deep_view() == sections_of_names(namesv.subrange(0, k as int), vmap),
            decreases nn - k,
        {
            let ghost prev = named_secs.deep_view();
            proof {
                let sub1 = namesv.subrange(0, k + 1);
                assert(sub1.drop_last() =~= namesv.subrange(0, k as int));
                assert(sub1.last() == namesv[k as int]);
                assert(namesv[k as int] == names@[k as int]@);
            }
            match Section::from_comment_map(names[k].as_str(), &comment_map) {
                Some(section) => {
                    let ghost sv = section@;
                    named_secs.push(section);
                    proof {
                        assert(named_secs.deep_view() =~= prev.push(sv));
                    }
                },
                None => (),
            }
            k = k + 1;
        }
        proof {
            assert(namesv.subrange(0, nn as int) =~= namesv);
            assert(named_secs.deep_view() == doc_named_sections(lv, prefix));
        }
        let sorted = sort_sections(named_secs);
        let survivors = resolve_overlaps_exec(&sorted);
        let ghost survv = survivors.deep_view();
        proof {
            assert(survv == doc_survivors(lv, prefix));
            assert(survivors@.len() == survv.len());
        }
        let merged: Vec<Section> = if survivors.len() == 0 {
            let mut m: Vec<Section> = Vec::new();
            m.push(Section::new_anonymous(1, nlines as u32));
            proof {
                assert(m.deep_view() =~= seq![anon_model(1, nlines as u32)]);
                assert(m.deep_view() == merged_sections(survv, lv.len() as u32));
            }
            m
        } else {
            let mut anons = gap_anons_exec(&survivors);
            let ghost av = anons.deep_view();
            let mut all = survivors;
            all.append(&mut anons);
            proof {
                assert(all.deep_view() =~= survv + av);
            }
            let m = sort_sections(all);
            proof {
                assert(m.deep_view() == merged_sections(survv, lv.len() as u32));
            }
            m
        };
        let ghost mv = merged.deep_view();
        let ghost clsv = content_lines.deep_view();
        let nm = merged.len();
        let mut sections: Vec<Section> = Vec::new();
        let mut t: usize = 0;
        proof {
            assert(mv.subrange(0, 0) =~= Seq::<SectionModel>::empty());
            assert(sections.deep_view() =~= mv.subrange(0, 0).map_values(
                |s: SectionModel| finalized_sec(fill_sec(s, clsv)),
            ));
        }
        while t < nm
            invariant
                0 <= t <= nm,
                nm == merged@.len(),
                mv == merged.deep_view(),
                mv.len() == nm,
                clsv == content_lines.deep_view(),
                content_lines@.len() == clsv.len(),
                sections.deep_view() == mv.subrange(0, t as int).map_values(
                    |s: SectionModel| finalized_sec(fill_sec(s, clsv)),
                ),
                sections@.len() == t,
            decreases nm - t,
        {
            let ghost prev = sections.deep_view();
            let sec = filled_section(merged[t].clone(), &content_lines);
            sections.push(sec);
            proof {
                assert(merged@[t as int]@ == mv[t as int]);
                assert(sections.deep_view() =~= prev.push(
                    finalized_sec(fill_sec(mv[t as int], clsv)),
                ));
                assert(mv.subrange(0, t + 1).map_values(
                    |s: SectionModel| finalized_sec(fill_sec(s, clsv)),
                ) =~= prev.push(finalized_sec(fill_sec(mv[t as int], clsv))));
            }
            t = t + 1;
        }
        proof {
            assert(mv.subrange(0, nm as int) =~= mv);
            assert(sections.deep_view() == assembled_sections(lv, prefix));
        }
        let retfile = DotFile {
            specialcomments: comments,
            sections,
            filename: filename.to_owned(),
            targetfile: target_file,
            metafile: None,
            commentsign: commentsign.to_owned(),
            permissions,
        };
        proof {
            assert(retfile@ =~= spec_doc_of_lines(lv, prefix, filename@));
            lemma_scan_markers_len(lv, prefix);
            lemma_map_of_markers_len(scan_markers(lv, prefix));
            lemma_remove_incomplete_len(map_of_markers(scan_markers(lv, prefix)));
            lemma_section_names_len(vmap);
            lemma_sections_of_names_len(section_names(vmap), vmap);
            lemma_sort_by_start_len(doc_named_sections(lv, prefix));
            lemma_resolve_overlaps_len(sort_by_start(doc_named_sections(lv, prefix)));
            if survv.len() > 0 {
                lemma_gap_anons_len(survv, 1);
                lemma_sort_by_start_len(survv + gap_anons(survv, 1));
            }
            assert(retfile@.sections.len() >= 1);
            assert(retfile@.sections.len() <= 0xffff_ffff);
        }
        retfile
    }

    /// Wraps a metafile as a document; such a document has no sections of
    /// its own, and its target and permissions come from the metafile.
    pub fn with_metafile(metafile: MetaFile, filename: String) -> (r: DotFile)
        ensures
            r@.metafile == Some(metafile@),
            r@.sections == Seq::<SectionModel>::empty(),
            r@.comments == Seq::<MarkerModel>::empty(),
            r@.filename == filename@,
            r@.targetfile == metafile@.targetfile,
            r@.commentsign == Seq::<char>::empty(),
            r@.permissions == metafile@.permissions,
            r.wf(),
    {
        let targetfile = clone_opt_string(&metafile.targetfile);
        let permissions = metafile.permissions;
        let r = DotFile {
            specialcomments: Vec::new(),
            sections: Vec::new(),
            filename,
            targetfile,
            metafile: Some(metafile),
            commentsign: String::new(),
            permissions,
        };
        proof {
            assert(r@.sections =~= Seq::<SectionModel>::empty());
            assert(r@.comments =~= Seq::<MarkerModel>::empty());
        }
        r
    }
}

// ---- queries over sections ----

pub open spec fn is_named_with(s: SectionModel, name: Seq<char>) -> bool {
    s matches SectionModel::Named(_, nd) && nd.name == name
}

pub open spec fn has_named(ss: Seq<SectionModel>, name: Seq<char>) -> bool {
    exists|i: int| 0 <= i < ss.len() && is_named_with(ss[i], name)
}

/// Index of the first named section with the given name; meaningful only
/// when one exists.
pub open spec fn find_named_index(ss: Seq<SectionModel>, name: Seq<char>) -> int
    decreases ss.len(),
{
    if ss.len() == 0 {
        0
    } else if is_named_with(ss[0], name) {
        0
    } else {
        1 + find_named_index(ss.subrange(1, ss.len() as int), name)
    }
}

pub proof fn lemma_find_named_at(ss: Seq<SectionModel>, name: Seq<char>, i: int)
    requires
        0 <= i < ss.len(),
        is_named_with(ss[i], name),
        forall|j: int| 0 <= j < i ==> !is_named_with(ss[j], name),
    ensures
        has_named(ss, name),
        find_named_index(ss, name) == i,
    decreases ss.len(),
{
    assert(has_named(ss, name));
    if i > 0 {
        let t = ss.subrange(1, ss.len() as int);
        assert(t[i - 1] == ss[i]);
        assert forall|j: int| 0 <= j < i - 1 implies !is_named_with(t[j], name) by {
            assert(t[j] == ss[j + 1]);
        }
        lemma_find_named_at(t, name, i - 1);
    }
}

pub open spec fn count_named(ss: Seq<SectionModel>) -> int
    decreases ss.len(),
{
    if ss.len() == 0 {
        0
    } else {
        count_named(ss.drop_last()) + (if ss.last() is Named {
            1int
        } else {
            0int
        })
    }
}

/// Every named section of `a` is present by name in `b`.
pub open spec fn sections_subset(a: Seq<SectionModel>, b: Seq<SectionModel>) -> bool {
    forall|i: int| 0 <= i < a.len() && (#[trigger] a[i]) is Named ==> has_named(b, a[i]->Named_1.name)
}

/// Whether a document counts as modified: the metafile's flag, or any
/// modified named section.
pub open spec fn doc_modified(d: DocModel) -> bool {
    match d.metafile {
        Some(m) => m.modified,
        None => exists|i: int| 0 <= i < d.sections.len() && crate::section::sec_modified(
            #[trigger] d.sections[i],
        ),
    }
}

/// The eligibility gate: a metafile-backed target only receives from a
/// metafile-backed source; a comment-based target only from a
/// comment-based source; an unmanaged side (no named sections) never
/// takes part on the comment path.
pub open spec fn can_apply_spec(t: DocModel, s: DocModel) -> bool {
    if t.metafile is Some {
        s.metafile is Some
    } else {
        &&& count_named(t.sections) > 0
        &&& s.metafile is None
        &&& count_named(s.sections) > 0
    }
}

/// Effect of applying one named candidate section: replaced wholesale
/// when it is compiled and a same-named target section exists.
pub open spec fn apply_one(ts: Seq<SectionModel>, d: SectionDataModel, nd: crate::section::NamedDataModel)
    -> (Seq<SectionModel>, bool) {
    if nd.hash == nd.targethash && has_named(ts, nd.name) {
        (ts.update(find_named_index(ts, nd.name), SectionModel::Named(d, nd)), true)
    } else {
        (ts, false)
    }
}

/// Effect of applying every named section of a source, in order.
pub open spec fn apply_from(ts: Seq<SectionModel>, src: Seq<SectionModel>) -> (
    Seq<SectionModel>,
    bool,
)
    decreases src.len(),
{
    if src.len() == 0 {
        (ts, false)
    } else {
        let (t1, b1) = apply_from(ts, src.drop_last());
        match src.last() {
            SectionModel::Named(d, nd) => {
                let (t2, b2) = apply_one(t1, d, nd);
                (t2, b1 || b2)
            },
            SectionModel::Anonymous(_) => (t1, b1),
        }
    }
}

/// The whole reconciliation step: what `applyfile` does to the target.
pub open spec fn applyfile_spec(t: DocModel, s: DocModel) -> (DocModel, bool) {
    if !can_apply_spec(t, s) {
        (t, false)
    } else if t.metafile is None {
        if !doc_modified(t) && sections_subset(t.sections, s.sections) {
            (DocModel { sections: s.sections, comments: s.comments, ..t }, true)
        } else {
            let (ss2, b) = apply_from(t.sections, s.sections);
            (DocModel { sections: ss2, ..t }, b)
        }
    } else {
        let m = t.metafile->Some_0;
        match s.metafile {
            Some(am) => if m.modified || am.modified || m.hash == am.hash {
                (t, false)
            } else {
                (
                    DocModel {
                        metafile: Some(MetaModel { content: am.content, hash: am.hash, ..m }),
                        ..t
                    },
                    true,
                )
            },
            None => (t, false),
        }
    }
}

/// Effect of `compile` on a whole document.
pub open spec fn compile_doc(d: DocModel) -> (DocModel, bool) {
    match d.metafile {
        None => (
            DocModel {
                sections: d.sections.map_values(|s: SectionModel| crate::section::compiled_sec(s)),
                ..d
            },
            doc_modified(d),
        ),
        Some(m) => (
            DocModel { metafile: Some(crate::metafile::compiled_meta(m)), ..d },
            crate::metafile::meta_modified(m),
        ),
    }
}

/// Effect of deleting a section by name.
pub open spec fn delete_section_spec(ss: Seq<SectionModel>, name: Seq<char>) -> (
    Seq<SectionModel>,
    bool,
) {
    if has_named(ss, name) {
        (ss.remove(find_named_index(ss, name)), true)
    } else {
        (ss, false)
    }
}

// ---- serialization ----

/// The first line of a content string.
pub open spec fn first_line(c: Seq<char>) -> Seq<char> {
    crate::strutil::split_on(c, '\n')[0]
}

pub proof fn lemma_first_line(c: Seq<char>)
    ensures
        first_line(c).len() <= c.len(),
        first_line(c) == c.subrange(0, first_line(c).len() as int),
        c.len() > first_line(c).len() ==> c[first_line(c).len() as int] == '\n',
{
    if exists|j: int| 0 <= j < c.len() && c[j] == '\n' {
        crate::strutil::lemma_first_index_of(c, '\n');
        let k = crate::strutil::first_index_of(c, '\n');
        crate::strutil::lemma_split_on_step(c, '\n', k);
        assert(first_line(c) == c.subrange(0, k));
    } else {
        crate::strutil::lemma_split_on_whole(c, '\n');
        assert(first_line(c) == c);
        assert(c.subrange(0, c.len() as int) =~= c);
    }
}

/// The hashbang line of a document: the first line of a leading anonymous
/// section, when it starts with `#!/`.
pub open spec fn doc_hashbang(d: DocModel) -> Option<Seq<char>> {
    if d.sections.len() > 0 && d.sections[0] is Anonymous && crate::strutil::spec_starts_with(
        first_line(sec_data(d.sections[0]).content),
        "#!/"@,
    ) {
        Some(first_line(sec_data(d.sections[0]).content))
    } else {
        None
    }
}

/// The file-level property markers that serialization prepends: the
/// `all target` marker (argument-less, as the on-disk format writes it)
/// when a target path is set.
pub open spec fn property_comments(d: DocModel) -> Seq<char> {
    if d.targetfile is Some {
        Specialcomment::spec_marker_line(d.commentsign, CommentType::TargetInfo, "all"@, None)
            + "\n"@
    } else {
        Seq::<char>::empty()
    }
}

/// Concatenated serialized sections.
pub open spec fn outputs_concat(ss: Seq<SectionModel>, prefix: Seq<char>) -> Seq<char>
    decreases ss.len(),
{
    if ss.len() == 0 {
        Seq::empty()
    } else {
        outputs_concat(ss.drop_last(), prefix) + crate::section::sec_output(ss.last(), prefix)
    }
}

/// The serialized document: the metafile content verbatim, or the
/// property markers and sections, with the hashbang line kept first.
pub open spec fn doc_to_string_spec(d: DocModel) -> Seq<char> {
    match d.metafile {
        Some(m) => m.content,
        None => match doc_hashbang(d) {
            Some(hb) => {
                let c0 = sec_data(d.sections[0]).content;
                let rest = if c0.len() > hb.len() {
                    c0.skip(hb.len() as int + 1)
                } else {
                    Seq::<char>::empty()
                };
                hb + "\n"@ + property_comments(d) + rest + outputs_concat(
                    d.sections.skip(1),
                    d.commentsign,
                )
            },
            None => property_comments(d) + outputs_concat(d.sections, d.commentsign),
        },
    }
}

// ---- report ----

/// The per-section report lines: one line per named section.
pub open spec fn sections_pretty(ss: Seq<SectionModel>) -> Seq<char>
    decreases ss.len(),
{
    if ss.len() == 0 {
        Seq::empty()
    } else {
        sections_pretty(ss.drop_last()) + (match crate::section::sec_pretty_info(ss.last()) {
            Some(line) => line + "\n"@,
            None => Seq::<char>::empty(),
        })
    }
}

/// The whole report for a document.
pub open spec fn doc_pretty_spec(d: DocModel) -> Seq<char> {
    (match d.metafile {
        Some(m) => "metafile hash: "@ + m.hash + "\n"@ + (if m.modified {
            "modified"@
        } else {
            "unmodified"@
        }),
        None => "comment syntax: "@ + d.commentsign + "\n"@ + sections_pretty(d.sections),
    }) + (match d.permissions {
        Some(p) => "target permissions: "@ + crate::strutil::dec_str(p as int) + "\n"@,
        None => Seq::<char>::empty(),
    }) + (match d.targetfile {
        Some(t) => "target : "@ + t + "\n"@,
        None => Seq::<char>::empty(),
    })
}

impl DotFile {
    /// Number of named (tracked) sections.
    pub fn count_named_sections(&self) -> (r: u32)
        requires
            self.wf(),
        ensures
            r == count_named(self@.sections),
    {
        let n = self.sections.len();
        let mut counter: u32 = 0;
        let mut i: usize = 0;
        proof {
            assert(self@.sections.subrange(0, 0) =~= Seq::<SectionModel>::empty());
        }
        while i < n
            invariant
                0 <= i <= n,
                n == self.sections@.len(),
                self.sections@.len() == self@.sections.len(),
                self@.sections.len() <= 0xffff_ffff,
                counter == count_named(self@.sections.subrange(0, i as int)),
                counter <= i,
            decreases n - i,
    {
            proof {
                let sub1 = self@.sections.subrange(0, i + 1);
                assert(sub1.drop_last() =~= self@.sections.subrange(0, i as int));
                assert(sub1.last() == self@.sections[i as int]);
                assert(self@.sections[i as int] == self.sections@[i as int]@);
            }
            match &self.sections[i] {
                Section::Named(_, _) => {
                    counter = counter + 1;
                },
                Section::Anonymous(_) => (),
            }
            i = i + 1;
        }
        proof {
            assert(self@.sections.subrange(0, n as int) =~= self@.sections);
        }
        counter
    }

    /// True when the file carries no tracked sections at all.
    pub fn is_anonymous(&self) -> (r: bool)
        requires
            self.wf(),
        ensures
            r == (count_named(self@.sections) == 0),
    {
        self.count_named_sections() == 0
    }

    /// A file is managed when a metafile backs it or it has named sections.
    pub fn is_managed(&self) -> (r: bool)
        requires
            self.wf(),
        ensures
            r == (self@.metafile is Some || count_named(self@.sections) > 0),
    {
        if self.metafile.is_some() {
            return true;
        }
        if !self.is_anonymous() {
            proof {
                lemma_count_named_nonneg(self@.sections);
            }
            return true;
        }
        false
    }

    /// Whether the document counts as modified.
    pub fn is_modified(&self) -> (r: bool)
        ensures
            r == doc_modified(self@),
    {
        match &self.metafile {
            Some(m) => m.modified,
            None => {
                let n = self.sections.len();
                let mut i: usize = 0;
                while i < n
                    invariant
                        0 <= i <= n,
                        n == self.sections@.len(),
                        self@.metafile is None,
                        self@.sections.len() == n,
                        forall|j: int| 0 <= j < i ==> !crate::section::sec_modified(
                            #[trigger] self@.sections[j],
                        ),
                    decreases n - i,
                {
                    proof {
                        assert(self@.sections[i as int] == self.sections@[i as int]@);
                    }
                    match &self.sections[i] {
                        Section::Named(_, nd) => {
                            if !(nd.hash == nd.targethash) {
                                proof {
                                    assert(crate::section::sec_modified(self@.sections[i as int]));
                                }
                                return true;
                            }
                        },
                        Section::Anonymous(_) => (),
                    }
                    i = i + 1;
                }
                false
            },
        }
    }

    /// Whether this document holds a named section called `name`.
    pub fn has_section(&self, name: &str) -> (r: bool)
        ensures
            r == has_named(self@.sections, name@),
    {
        let n = self.sections.len();
        let mut i: usize = 0;
        while i < n
            invariant
                0 <= i <= n,
                n == self.sections@.len(),
                self@.sections.len() == n,
                forall|j: int| 0 <= j < i ==> !is_named_with(#[trigger] self@.sections[j], name@),
            decreases n - i,
        {
            proof {
                assert(self@.sections[i as int] == self.sections@[i as int]@);
            }
            match &self.sections[i] {
                Section::Named(_, nd) => {
                    if crate::strutil::str_eq(nd.name.as_str(), name) {
                        proof {
                            assert(is_named_with(self@.sections[i as int], name@));
                        }
                        return true;
                    }
                },
                Section::Anonymous(_) => (),
            }
            i = i + 1;
        }
        false
    }

    /// The first named section called `name`, cloned out of the document.
    pub fn get_section(&self, name: &str) -> (r: Option<Section>)
        ensures
            match r {
                Some(s) => has_named(self@.sections, name@) && s@ == self@.sections[
                    find_named_index(self@.sections, name@)
                ],
                None => !has_named(self@.sections, name@),
            },
    {
        let n = self.sections.len();
        let mut i: usize = 0;
        while i < n
            invariant
                0 <= i <= n,
                n == self.sections@.len(),
                self@.sections.len() == n,
                forall|j: int| 0 <= j < i ==> !is_named_with(#[trigger] self@.sections[j], name@),
            decreases n - i,
        {
            proof {
                assert(self@.sections[i as int] == self.sections@[i as int]@);
            }
            match &self.sections[i] {
                Section::Named(_, nd) => {
                    if crate::strutil::str_eq(nd.name.as_str(), name) {
                        proof {
                            assert(is_named_with(self@.sections[i as int], name@));
                            lemma_find_named_at(self@.sections, name@, i as int);
                        }
                        return Some(self.sections[i].clone());
                    }
                },
                Section::Anonymous(_) => (),
            }
            i = i + 1;
        }
        None
    }

    /// Whether every named section of this document also exists, by name,
    /// in `other` — the condition for the whole-document fast path.
    pub fn has_same_sections(&self, other: &DotFile) -> (r: bool)
        ensures
            r == sections_subset(self@.sections, other@.sections),
    {
        let n = self.sections.len();
        let mut i: usize = 0;
        while i < n
            invariant
                0 <= i <= n,
                n == self.sections@.len(),
                self@.sections.len() == n,
                forall|j: int| 0 <= j < i && (#[trigger] self@.sections[j]) is Named
                    ==> has_named(other@.sections, self@.sections[j]->Named_1.name),
            decreases n - i,
        {
            proof {
                assert(self@.sections[i as int] == self.sections@[i as int]@);
            }
            match &self.sections[i] {
                Section::Named(_, nd) => {
                    if !other.has_section(nd.name.as_str()) {
                        proof {
                            assert((self@.sections[i as int]) is Named);
                            assert(!has_named(
                                other@.sections,
                                self@.sections[i as int]->Named_1.name,
                            ));
                        }
                        return false;
                    }
                },
                Section::Anonymous(_) => (),
            }
            i = i + 1;
        }
        true
    }

    /// The `(name, source path)` pairs of the named sections that carry a
    /// source, in document order.
    pub fn sourced_sections(&self) -> (r: Vec<(String, String)>)
        ensures
            Seq::new(r@.len(), |i: int| (r@[i].0@, r@[i].1@)) == sourced_pairs(self@.sections),
    {
        let n = self.sections.len();
        let mut out: Vec<(String, String)> = Vec::new();
        let mut i: usize = 0;
        proof {
            assert(self@.sections.subrange(0, 0) =~= Seq::<SectionModel>::empty());
            assert(Seq::new(out@.len(), |k: int| (out@[k].0@, out@[k].1@)) =~= sourced_pairs(
                self@.sections.subrange(0, 0),
            ));
        }
        while i < n
            invariant
                0 <= i <= n,
                n == self.sections@.len(),
                self@.sections.len() == n,
                Seq::new(out@.len(), |k: int| (out@[k].0@, out@[k].1@)) == sourced_pairs(
                    self@.sections.subrange(0, i as int),
                ),
            decreases n - i,
        {
            let ghost prev = Seq::new(out@.len(), |k: int| (out@[k].0@, out@[k].1@));
            proof {
                let sub1 = self@.sections.subrange(0, i + 1);
                assert(sub1.drop_last() =~= self@.sections.subrange(0, i as int));
                assert(sub1.last() == self@.sections[i as int]);
                assert(self@.sections[i as int] == self.sections@[i as int]@);
            }
            match &self.sections[i] {
                Section::Named(_, nd) => match &nd.source {
                    Some(src) => {
                        out.push((nd.name.clone(), src.clone()));
                        proof {
                            assert(Seq::new(out@.len(), |k: int| (out@[k].0@, out@[k].1@))
                                =~= prev.push((nd.name@, src@)));
                        }
                    },
                    None => (),
                },
                Section::Anonymous(_) => (),
            }
            i = i + 1;
        }
        proof {
            assert(self@.sections.subrange(0, n as int) =~= self@.sections);
        }
        out
    }

    /// The eligibility gate for reconciliation.
    pub fn can_apply(&self, other: &DotFile) -> (r: bool)
        requires
            self.wf(),
            other.wf(),
        ensures
            r == can_apply_spec(self@, other@),
    {
        if self.metafile.is_some() {
            other.metafile.is_some()
        } else {
            if self.is_anonymous() {
                return false;
            }
            if other.metafile.is_some() {
                return false;
            }
            if other.is_anonymous() {
                return false;
            }
            proof {
                lemma_count_named_nonneg(self@.sections);
                lemma_count_named_nonneg(other@.sections);
            }
            true
        }
    }

    /// Applies one candidate section: refused for metafile-backed
    /// targets, for uncompiled candidates (hash differs from target
    /// hash), and when no same-named target section exists; otherwise the
    /// target section is replaced wholesale.
    pub fn applysection(&mut self, sectiondata: SectionData, named_data: NamedSectionData) -> (r:
        bool)
        ensures
            r == (old(self)@.metafile is None && named_data@.hash == named_data@.targethash
                && has_named(old(self)@.sections, named_data@.name)),
            old(self)@.metafile is None ==> (final(self)@.sections, r) == apply_one(
                old(self)@.sections,
                sectiondata@,
                named_data@,
            ),
            final(self)@.comments == old(self)@.comments,
            final(self)@.filename == old(self)@.filename,
            final(self)@.targetfile == old(self)@.targetfile,
            final(self)@.metafile == old(self)@.metafile,
            final(self)@.commentsign == old(self)@.commentsign,
            final(self)@.permissions == old(self)@.permissions,
            final(self)@.sections.len() == old(self)@.sections.len(),
    {
        if self.metafile.is_some() {
            return false;
        }
        if !(named_data.hash == named_data.targethash) {
            return false;
        }
        let ghost name = named_data@.name;
        let n = self.sections.len();
        let mut i: usize = 0;
        while i < n
            invariant
                0 <= i <= n,
                n == self.sections@.len(),
                *self == *old(self),
                old(self)@.metafile is None,
                named_data@.hash == named_data@.targethash,
                forall|j: int| 0 <= j < i ==> !is_named_with(#[trigger] self@.sections[j], name),
                name == named_data@.name,
            decreases n - i,
        {
            proof {
                assert(self@.sections[i as int] == self.sections@[i as int]@);
            }
            let found = match &self.sections[i] {
                Section::Named(_, nd) => crate::strutil::str_eq(
                    nd.name.as_str(),
                    named_data.name.as_str(),
                ),
                Section::Anonymous(_) => false,
            };
            if found {
                proof {
                    assert(is_named_with(self@.sections[i as int], name));
                    lemma_find_named_at(self@.sections, name, i as int);
                }
                self.sections.set(i, Section::Named(sectiondata, named_data));
                proof {
                    assert(self@.sections =~= old(self)@.sections.update(
                        i as int,
                        SectionModel::Named(sectiondata@, named_data@),
                    ));
                }
                return true;
            }
            i = i + 1;
        }
        proof {
            assert(!has_named(self@.sections, name));
        }
        false
    }

    /// Reconciliation: applies `inputfile` to this document.  The fast
    /// path replaces every section when the target is unmodified and its
    /// named sections are a subset of the source's; otherwise sections
    /// are applied one by one.  On the metafile path content is copied
    /// exactly when both sides are unmodified and the hashes differ.
    pub fn applyfile(&mut self, inputfile: &DotFile) -> (r: bool)
        requires
            old(self).wf(),
            inputfile.wf(),
        ensures
            (final(self)@, r) == applyfile_spec(old(self)@, inputfile@),
            final(self).wf(),
    {
        if !self.can_apply(inputfile) {
            return false;
        }
        if self.metafile.is_none() {
            let allsections = self.has_same_sections(inputfile);
            if !self.is_modified() && allsections {
                self.sections = clone_sections(&inputfile.sections);
                self.specialcomments = clone_comments_vec(&inputfile.specialcomments);
                proof {
                    assert(self@ =~= applyfile_spec(old(self)@, inputfile@).0);
                }
                return true;
            }
            let ghost ss0 = self@.sections;
            let ghost srcv = inputfile@.sections;
            let mut modified = false;
            let n = inputfile.sections.len();
            let mut i: usize = 0;
            proof {
                assert(srcv.subrange(0, 0) =~= Seq::<SectionModel>::empty());
            }
            while i < n
                invariant
                    0 <= i <= n,
                    n == inputfile.sections@.len(),
                    srcv == inputfile@.sections,
                    srcv.len() == n,
                    self@.metafile is None,
                    (self@.sections, modified) == apply_from(ss0, srcv.subrange(0, i as int)),
                    self@.sections.len() == ss0.len(),
                    self@.comments == old(self)@.comments,
                    self@.metafile == old(self)@.metafile,
                    old(self)@.metafile is None,
                    old(self).wf(),
                    final_fields_eq(self@, old(self)@),
                    ss0 == old(self)@.sections,
                decreases n - i,
            {
                proof {
                    let sub1 = srcv.subrange(0, i + 1);
                    assert(sub1.drop_last() =~= srcv.subrange(0, i as int));
                    assert(sub1.last() == srcv[i as int]);
                    assert(srcv[i as int] == inputfile.sections@[i as int]@);
                }
                match &inputfile.sections[i] {
                    Section::Named(d, nd) => {
                        proof {
                            assert(srcv[i as int] == SectionModel::Named(d@, nd@));
                        }
                        let r = self.applysection(d.clone(), nd.clone());
                        modified = r || modified;
                    },
                    Section::Anonymous(_) => (),
                }
                i = i + 1;
            }
            proof {
                assert(srcv.subrange(0, n as int) =~= srcv);
                assert(self@ =~= applyfile_spec(old(self)@, inputfile@).0);
            }
            return modified;
        }
        let mut result = false;
        match &mut self.metafile {
            Some(metafile) => {
                if !metafile.modified {
                    match &inputfile.metafile {
                        Some(applymetafile) => {
                            if applymetafile.modified {
                                result = false;
                            } else if metafile.hash == applymetafile.hash {
                                result = false;
                            } else {
                                metafile.content = applymetafile.content.clone();
                                metafile.hash = applymetafile.hash.clone();
                                result = true;
                            }
                        },
                        None => {
                            result = false;
                        },
                    }
                } else {
                    result = false;
                }
            },
            None => (),
        }
        proof {
            assert(self@ =~= applyfile_spec(old(self)@, inputfile@).0);
        }
        result
    }

    /// Accepts every section's (or the metafile's) current content as the
    /// new baseline; true when anything actually changed.
    pub fn compile(&mut self) -> (r: bool)
        requires
            old(self).wf(),
        ensures
            (final(self)@, r) == compile_doc(old(self)@),
            final(self).wf(),
    {
        let mut didsomething = false;
        match &mut self.metafile {
            None => (),
            Some(metafile) => {
                let state = metafile.compile();
                didsomething = match state {
                    crate::hashable::ChangeState::Changed => true,
                    crate::hashable::ChangeState::Unchanged => false,
                };
                proof {
                    assert(self@ =~= compile_doc(old(self)@).0);
                }
                return didsomething;
            },
        }
        let ghost ss0 = self@.sections;
        let n = self.sections.len();
        let mut i: usize = 0;
        while i < n
            invariant
                0 <= i <= n,
                n == self.sections@.len(),
                self@.sections.len() == n,
                ss0.len() == n,
                self@.metafile is None,
                old(self)@.metafile is None,
                ss0 == old(self)@.sections,
                self@.comments == old(self)@.comments,
                final_fields_eq(self@, old(self)@),
                forall|j: int| 0 <= j < i ==> self@.sections[j] == crate::section::compiled_sec(
                    #[trigger] ss0[j],
                ),
                forall|j: int| i <= j < n ==> #[trigger] self@.sections[j] == ss0[j],
                didsomething == exists|j: int| 0 <= j < i && crate::section::sec_modified(
                    #[trigger] ss0[j],
                ),
            decreases n - i,
        {
            proof {
                assert(self@.sections[i as int] == self.sections@[i as int]@);
            }
            let mut sec = self.sections[i].clone();
            proof {
                assert(sec@ == ss0[i as int]);
            }
            let state = sec.compile();
            let changed = match state {
                crate::hashable::ChangeState::Changed => true,
                crate::hashable::ChangeState::Unchanged => false,
            };
            let ghost prev = self@.sections;
            let ghost was = didsomething;
            self.sections.set(i, sec);
            didsomething = changed || didsomething;
            proof {
                assert(self@.sections =~= prev.update(
                    i as int,
                    crate::section::compiled_sec(ss0[i as int]),
                ));
                assert(didsomething == exists|j: int| 0 <= j < i + 1
                    && crate::section::sec_modified(#[trigger] ss0[j])) by {
                    if didsomething {
                        if changed {
                            assert(crate::section::sec_modified(ss0[i as int]));
                        } else {
                            let j = choose|j: int| 0 <= j < i && crate::section::sec_modified(
                                #[trigger] ss0[j],
                            );
                            assert(crate::section::sec_modified(ss0[j]));
                        }
                    } else {
                        assert(!crate::section::sec_modified(ss0[i as int]));
                        assert(forall|j: int| 0 <= j < i ==> !crate::section::sec_modified(
                            #[trigger] ss0[j],
                        ));
                    }
                }
            }
            i = i + 1;
        }
        proof {
            assert(self@.sections =~= ss0.map_values(
                |s: SectionModel| crate::section::compiled_sec(s),
            ));
            assert(self@ =~= compile_doc(old(self)@).0);
            if didsomething {
                assert(doc_modified(old(self)@));
            }
            if doc_modified(old(self)@) {
                let j = choose|j: int| 0 <= j < old(self)@.sections.len()
                    && crate::section::sec_modified(#[trigger] old(self)@.sections[j]);
                assert(crate::section::sec_modified(ss0[j]));
            }
        }
        didsomething
    }

    /// The hashbang line, when the file starts with an anonymous section
    /// whose first line is one.
    pub fn get_hashbang(&self) -> (r: Option<String>)
        requires
            self@.sections.len() >= 1,
        ensures
            match r {
                Some(hb) => doc_hashbang(self@) == Some(hb@),
                None => doc_hashbang(self@) is None,
            },
    {
        proof {
            assert(self@.sections[0] == self.sections@[0]@);
        }
        match &self.sections[0] {
            Section::Anonymous(d) => {
                let c = d.content.as_str();
                let n = c.unicode_len();
                let mut k: usize = 0;
                while k < n && c.get_char(k) != '\n'
                    invariant
                        0 <= k <= n,
                        n == c@.len(),
                        forall|j: int| 0 <= j < k ==> c@[j] != '\n',
                    decreases n - k,
                {
                    k = k + 1;
                }
                let fl = c.substring_char(0, k);
                proof {
                    if k < n {
                        crate::strutil::lemma_split_on_step(c@, '\n', k as int);
                        assert(first_line(c@) == c@.subrange(0, k as int));
                    } else {
                        crate::strutil::lemma_split_on_whole(c@, '\n');
                        assert(first_line(c@) == c@);
                        assert(c@.subrange(0, n as int) =~= c@);
                    }
                    assert(fl@ == first_line(c@));
                }
                if crate::strutil::str_starts_with(fl, "#!/") {
                    Some(fl.to_owned())
                } else {
                    None
                }
            },
            Section::Named(_, _) => None,
        }
    }

    /// The file-level property markers serialization prepends.
    fn get_property_comments(&self) -> (r: String)
        ensures
            r@ == property_comments(self@),
    {
        match &self.targetfile {
            Some(_) => {
                let mut s = Specialcomment::new_string(
                    self.commentsign.as_str(),
                    CommentType::TargetInfo,
                    "all",
                    None,
                );
                s.append("\n");
                s
            },
            None => String::new(),
        }
    }

    /// The whole document as text, ready to be written back to disk.
    pub fn to_string(&self) -> (r: String)
        requires
            self.wf(),
        ensures
            r@ == doc_to_string_spec(self@),
    {
        match &self.metafile {
            Some(metafile) => metafile.content.clone(),
            None => {
                let ghost mv = self@.sections;
                let prefix = self.commentsign.as_str();
                let mut retstr = String::new();
                let start_index: usize;
                match self.get_hashbang() {
                    Some(hashbang) => {
                        retstr.append(hashbang.as_str());
                        retstr.append("\n");
                        let props = self.get_property_comments();
                        retstr.append(props.as_str());
                        let c = self.sections[0].get_data().content.as_str();
                        let clen = c.unicode_len();
                        let hlen = hashbang.unicode_len();
                        proof {
                            assert(self@.sections[0] == self.sections@[0]@);
                            lemma_first_line(c@);
                            assert(hashbang@ == first_line(c@));
                        }
                        if clen > hlen {
                            let rest = c.substring_char(hlen + 1, clen);
                            retstr.append(rest);
                            proof {
                                assert(rest@ =~= c@.skip(hlen as int + 1));
                            }
                        }
                        start_index = 1;
                        proof {
                            assert(mv.subrange(1, 1) =~= Seq::<SectionModel>::empty());
                            assert(retstr@ =~= retstr@ + outputs_concat(
                                mv.subrange(1, 1),
                                prefix@,
                            ));
                        }
                    },
                    None => {
                        let props = self.get_property_comments();
                        retstr.append(props.as_str());
                        start_index = 0;
                        proof {
                            assert(mv.subrange(0, 0) =~= Seq::<SectionModel>::empty());
                            assert(retstr@ =~= retstr@ + outputs_concat(
                                mv.subrange(0, 0),
                                prefix@,
                            ));
                        }
                    },
                }
                let ghost base = retstr@;
                let n = self.sections.len();
                let mut idx: usize = start_index;
                while idx < n
                    invariant
                        start_index <= idx <= n,
                        n == self.sections@.len(),
                        mv == self@.sections,
                        mv.len() == n,
                        prefix@ == self@.commentsign,
                        retstr@ == base + outputs_concat(
                            mv.subrange(start_index as int, idx as int),
                            prefix@,
                        ),
                    decreases n - idx,
                {
                    proof {
                        assert(self@.sections[idx as int] == self.sections@[idx as int]@);
                        let sub1 = mv.subrange(start_index as int, idx + 1);
                        assert(sub1.drop_last() =~= mv.subrange(start_index as int, idx as int));
                        assert(sub1.last() == mv[idx as int]);
                    }
                    let piece = self.sections[idx].output(prefix);
                    retstr.append(piece.as_str());
                    idx = idx + 1;
                }
                proof {
                    if start_index == 1 {
                        assert(mv.subrange(1, n as int) =~= mv.skip(1));
                    } else {
                        assert(mv.subrange(0, n as int) =~= mv);
                    }
                    assert(retstr@ =~= doc_to_string_spec(self@));
                }
                retstr
            },
        }
    }

    /// The human-readable report: per-section status lines, permissions
    /// and target path.
    pub fn pretty_info(&self) -> (r: String)
        ensures
            r@ == doc_pretty_spec(self@),
    {
        let mut retstring = String::new();
        match &self.metafile {
            Some(metafile) => {
                let info = metafile.pretty_info();
                retstring.append(info.as_str());
            },
            None => {
                retstring.append("comment syntax: ");
                retstring.append(self.commentsign.as_str());
                retstring.append("\n");
                let ghost mv = self@.sections;
                let ghost head = "comment syntax: "@ + self@.commentsign + "\n"@;
                proof {
                    assert(mv.subrange(0, 0) =~= Seq::<SectionModel>::empty());
                    assert(retstring@ =~= head + sections_pretty(mv.subrange(0, 0)));
                }
                let n = self.sections.len();
                let mut i: usize = 0;
                while i < n
                    invariant
                        0 <= i <= n,
                        n == self.sections@.len(),
                        mv == self@.sections,
                        mv.len() == n,
                        retstring@ == head + sections_pretty(mv.subrange(0, i as int)),
                    decreases n - i,
                {
                    proof {
                        assert(self@.sections[i as int] == self.sections@[i as int]@);
                        let sub1 = mv.subrange(0, i + 1);
                        assert(sub1.drop_last() =~= mv.subrange(0, i as int));
                        assert(sub1.last() == mv[i as int]);
                    }
                    match self.sections[i].pretty_info() {
                        Some(section_info) => {
                            retstring.append(section_info.as_str());
                            retstring.append("\n");
                        },
                        None => (),
                    }
                    i = i + 1;
                }
                proof {
                    assert(mv.subrange(0, n as int) =~= mv);
                }
            },
        }
        match self.permissions {
            Some(permissions) => {
                retstring.append("target permissions: ");
                crate::strutil::push_dec_u64(&mut retstring, permissions as u64);
                retstring.append("\n");
            },
            None => (),
        }
        match &self.targetfile {
            Some(targetfile) => {
                retstring.append("target : ");
                retstring.append(targetfile.as_str());
                retstring.append("\n");
            },
            None => (),
        }
        proof {
            assert(retstring@ =~= doc_pretty_spec(self@));
        }
        retstring
    }

    /// Deletes the first named section called `sectionname`; false when
    /// there is none.
    pub fn deletesection(&mut self, sectionname: &str) -> (r: bool)
        ensures
            (final(self)@.sections, r) == delete_section_spec(old(self)@.sections, sectionname@),
            r == has_named(old(self)@.sections, sectionname@),
            final_fields_eq(final(self)@, old(self)@),
            final(self)@.comments == old(self)@.comments,
            final(self)@.metafile == old(self)@.metafile,
    {
        let n = self.sections.len();
        let mut i: usize = 0;
        while i < n
            invariant
                0 <= i <= n,
                n == self.sections@.len(),
                *self == *old(self),
                forall|j: int| 0 <= j < i ==> !is_named_with(
                    #[trigger] self@.sections[j],
                    sectionname@,
                ),
            decreases n - i,
        {
            proof {
                assert(self@.sections[i as int] == self.sections@[i as int]@);
            }
            let found = match &self.sections[i] {
                Section::Named(_, nd) => crate::strutil::str_eq(nd.name.as_str(), sectionname),
                Section::Anonymous(_) => false,
            };
            if found {
                proof {
                    assert(is_named_with(self@.sections[i as int], sectionname@));
                    lemma_find_named_at(self@.sections, sectionname@, i as int);
                }
                self.sections.remove(i);
                return true;
            }
            i = i + 1;
        }
        proof {
            assert(!has_named(self@.sections, sectionname@));
        }
        false
    }
}

/// The named sections with sources, as `(name, source)` pairs.
pub open spec fn sourced_pairs(ss: Seq<SectionModel>) -> Seq<(Seq<char>, Seq<char>)>
    decreases ss.len(),
{
    if ss.len() == 0 {
        Seq::empty()
    } else {
        let rest = sourced_pairs(ss.drop_last());
        match ss.last() {
            SectionModel::Named(_, nd) => match nd.source {
                Some(src) => rest.push((nd.name, src)),
                None => rest,
            },
            SectionModel::Anonymous(_) => rest,
        }
    }
}

/// All document fields except sections, comments and metafile agree.
pub open spec fn final_fields_eq(a: DocModel, b: DocModel) -> bool {
    &&& a.filename == b.filename
    &&& a.targetfile == b.targetfile
    &&& a.commentsign == b.commentsign
    &&& a.permissions == b.permissions
}

pub proof fn lemma_count_named_nonneg(ss: Seq<SectionModel>)
    ensures
        count_named(ss) >= 0,
    decreases ss.len(),
{
    if ss.len() > 0 {
        lemma_count_named_nonneg(ss.drop_last());
    }
}

fn clone_comments_vec(v: &Vec<Specialcomment>) -> (r: Vec<Specialcomment>)
    ensures
        r@ == v@,
{
    let mut out: Vec<Specialcomment> = Vec::new();
    let n = v.len();
    let mut i: usize = 0;
    while i < n
        invariant
            0 <= i <= n,
            n == v@.len(),
            out@ == v@.subrange(0, i as int),
        decreases n - i,
    {
        out.push(v[i].clone());
        proof {
            assert(out@ =~= v@.subrange(0, i + 1));
        }
        i = i + 1;
    }
    proof {
        assert(v@.subrange(0, n as int) =~= v@);
    }
    out
}

} // verus!
