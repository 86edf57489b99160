//! The section model: a contiguous line range of a file, either Named
//! (tracked, with a content hash and an accepted target hash) or Anonymous
//! (untracked content between tracked sections).

use vstd::prelude::*;

use crate::comment::{CommentType, MarkerModel, Specialcomment};
use crate::commentmap::{map_get_kind, CommentMap, MapEntry};
use crate::digest::{content_digest, hexdigest};
use crate::hashable::{ChangeState, Hashable};
use crate::strutil::{clone_opt_string, push_dec_u64};

verus! {

/// Model of the fields every section has.
#[verifier::ext_equal]
pub struct SectionDataModel {
    pub startline: u32,
    pub content: Seq<char>,
    pub endline: u32,
}

/// Model of the fields only named sections have.
#[verifier::ext_equal]
pub struct NamedDataModel {
    pub name: Seq<char>,
    pub source: Option<Seq<char>>,
    pub hash: Seq<char>,
    pub targethash: Seq<char>,
}

/// Mathematical model of a section.
#[verifier::ext_equal]
pub enum SectionModel {
    Named(SectionDataModel, NamedDataModel),
    Anonymous(SectionDataModel),
}

/// The fields every section has.
pub struct SectionData {
    /// line number the section starts at in the file
    pub startline: u32,
    pub content: String,
    /// line number the section ends at in the file
    pub endline: u32,
}

/// The fields only named sections have.
pub struct NamedSectionData {
    /// section name
    pub name: String,
    /// optional path to update the section from
    pub source: Option<String>,
    /// hash of the current content
    pub hash: String,
    /// hash the section should have if unmodified
    pub targethash: String,
}

/// A section of a file.
pub enum Section {
    Named(SectionData, NamedSectionData),
    /// anonymous sections are sections without marker comments,
    /// the parts of a file that are not tracked
    Anonymous(SectionData),
}

impl View for SectionData {
    type V = SectionDataModel;

    open spec fn view(&self) -> SectionDataModel {
        SectionDataModel { startline: self.startline, content: self.content@, endline: self.endline }
    }
}

impl View for NamedSectionData {
    type V = NamedDataModel;

    open spec fn view(&self) -> NamedDataModel {
        NamedDataModel {
            name: self.name@,
            source: match self.source {
                Some(s) => Some(s@),
                None => None,
            },
            hash: self.hash@,
            targethash: self.targethash@,
        }
    }
}

impl View for Section {
    type V = SectionModel;

    open spec fn view(&self) -> SectionModel {
        match self {
            Section::Named(d, nd) => SectionModel::Named(d@, nd@),
            Section::Anonymous(d) => SectionModel::Anonymous(d@),
        }
    }
}

impl DeepView for Section {
    type V = SectionModel;

    open spec fn deep_view(&self) -> SectionModel {
        self@
    }
}

impl Clone for SectionData {
    fn clone(&self) -> (r: Self)
        ensures
            r == *self,
    {
        SectionData {
            startline: self.startline,
            content: self.content.clone(),
            endline: self.endline,
        }
    }
}

impl Clone for NamedSectionData {
    fn clone(&self) -> (r: Self)
        ensures
            r == *self,
    {
        NamedSectionData {
            name: self.name.clone(),
            source: clone_opt_string(&self.source),
            hash: self.hash.clone(),
            targethash: self.targethash.clone(),
        }
    }
}

impl Clone for Section {
    fn clone(&self) -> (r: Self)
        ensures
            r == *self,
    {
        match self {
            Section::Named(d, nd) => Section::Named(d.clone(), nd.clone()),
            Section::Anonymous(d) => Section::Anonymous(d.clone()),
        }
    }
}

/// The common data of a section model.
pub open spec fn sec_data(s: SectionModel) -> SectionDataModel {
    match s {
        SectionModel::Named(d, _) => d,
        SectionModel::Anonymous(d) => d,
    }
}

pub open spec fn sec_start(s: SectionModel) -> u32 {
    sec_data(s).startline
}

pub open spec fn sec_end(s: SectionModel) -> u32 {
    sec_data(s).endline
}

pub open spec fn sec_content(s: SectionModel) -> Seq<char> {
    sec_data(s).content
}

/// A named section counts as modified when its current hash differs from
/// the accepted target hash.
pub open spec fn sec_modified(s: SectionModel) -> bool {
    match s {
        SectionModel::Named(_, nd) => nd.hash != nd.targethash,
        SectionModel::Anonymous(_) => false,
    }
}

/// Effect of `compile`: the current hash becomes the target hash.
pub open spec fn compiled_sec(s: SectionModel) -> SectionModel {
    match s {
        SectionModel::Named(d, nd) => SectionModel::Named(
            d,
            NamedDataModel { name: nd.name, source: nd.source, hash: nd.hash, targethash: nd.hash },
        ),
        SectionModel::Anonymous(_) => s,
    }
}

/// Effect of `finalize`: the stored hash becomes the digest of the content.
pub open spec fn finalized_sec(s: SectionModel) -> SectionModel {
    match s {
        SectionModel::Named(d, nd) => SectionModel::Named(
            d,
            NamedDataModel {
                name: nd.name,
                source: nd.source,
                hash: content_digest(d.content),
                targethash: nd.targethash,
            },
        ),
        SectionModel::Anonymous(_) => s,
    }
}

/// What `Section::from_comment_map` yields: a named section built from the
/// first Begin, End, Hash and Source markers of the section, or `None` when
/// Begin, End or Hash (with its argument) is missing.
pub open spec fn section_from_map(name: Seq<char>, m: Seq<MapEntry>) -> Option<SectionModel> {
    match map_get_kind(m, name, CommentType::SectionBegin) {
        None => None,
        Some(b) => match map_get_kind(m, name, CommentType::SectionEnd) {
            None => None,
            Some(e) => match map_get_kind(m, name, CommentType::HashInfo) {
                None => None,
                Some(h) => match h.argument {
                    None => None,
                    Some(th) => Some(
                        SectionModel::Named(
                            SectionDataModel {
                                startline: b.line,
                                content: Seq::empty(),
                                endline: e.line,
                            },
                            NamedDataModel {
                                name: name,
                                source: match map_get_kind(m, name, CommentType::SourceInfo) {
                                    Some(src) => src.argument,
                                    None => None,
                                },
                                hash: Seq::empty(),
                                targethash: th,
                            },
                        ),
                    ),
                },
            },
        },
    }
}

/// Serialized form of a section: markers around the raw content for a
/// named section (the Hash marker carries the target hash, so an
/// uncompiled edit keeps serializing as modified), bare content for an
/// anonymous one.
pub open spec fn sec_output(s: SectionModel, prefix: Seq<char>) -> Seq<char> {
    match s {
        SectionModel::Anonymous(d) => d.content,
        SectionModel::Named(d, nd) => Specialcomment::spec_marker_line(
            prefix,
            CommentType::SectionBegin,
            nd.name,
            None,
        ) + Specialcomment::spec_marker_line(
            prefix,
            CommentType::HashInfo,
            nd.name,
            Some(nd.targethash),
        ) + (match nd.source {
            Some(src) => Specialcomment::spec_marker_line(
                prefix,
                CommentType::SourceInfo,
                nd.name,
                Some(src),
            ),
            None => Seq::<char>::empty(),
        }) + d.content + Specialcomment::spec_marker_line(
            prefix,
            CommentType::SectionEnd,
            nd.name,
            None,
        ),
    }
}

/// The info line for a named section: range, name, status, source.
pub open spec fn sec_pretty_info(s: SectionModel) -> Option<Seq<char>> {
    match s {
        SectionModel::Anonymous(_) => None,
        SectionModel::Named(d, nd) => Some(
            crate::strutil::dec_str(d.startline as int) + "-"@ + crate::strutil::dec_str(
                d.endline as int,
            ) + ": "@ + nd.name + " | "@ + (if nd.targethash == nd.hash {
                "ok"@
            } else {
                "modified"@
            }) + (match nd.source {
                Some(src) => " | source "@ + src,
                None => Seq::<char>::empty(),
            }),
        ),
    }
}

impl Section {
    /// A fresh named section with empty content and no hash yet.
    pub fn new(start: u32, end: u32, name: String, source: Option<String>, targethash: String)
        -> (r: Section)
        ensures
            r@ == SectionModel::Named(
                SectionDataModel { startline: start, content: Seq::empty(), endline: end },
                NamedDataModel {
                    name: name@,
                    source: match source {
                        Some(s) => Some(s@),
                        None => None,
                    },
                    hash: Seq::empty(),
                    targethash: targethash@,
                },
            ),
    {
        Section::Named(
            SectionData { startline: start, content: String::new(), endline: end },
            NamedSectionData { name, source, hash: String::new(), targethash },
        )
    }

    /// A named section assembled from a validated comment map.
    pub fn from_comment_map(name: &str, map: &CommentMap) -> (r: Option<Section>)
        requires
            map.wf(),
        ensures
            match r {
                Some(s) => section_from_map(name@, map@) == Some(s@),
                None => section_from_map(name@, map@) is None,
            },
    {
        let begin = match map.get_comment(name, CommentType::SectionBegin) {
            Some(c) => c.line,
            None => {
                return None;
            },
        };
        let end = match map.get_comment(name, CommentType::SectionEnd) {
            Some(c) => c.line,
            None => {
                return None;
            },
        };
        let source: Option<String> = match map.get_comment(name, CommentType::SourceInfo) {
            Some(c) => clone_opt_string(&c.argument),
            None => None,
        };
        let targethash = match map.get_comment(name, CommentType::HashInfo) {
            Some(c) => match &c.argument {
                Some(a) => a.clone(),
                None => {
                    return None;
                },
            },
            None => {
                return None;
            },
        };
        Some(Section::new(begin, end, name.to_owned(), source, targethash))
    }

    /// A fresh anonymous section with empty content.
    pub fn new_anonymous(start: u32, end: u32) -> (r: Section)
        ensures
            r@ == SectionModel::Anonymous(
                SectionDataModel { startline: start, content: Seq::empty(), endline: end },
            ),
    {
        Section::Anonymous(SectionData { startline: start, content: String::new(), endline: end })
    }

    /// Appends one line (and its newline) to the content.
    pub fn push_line(&mut self, line: &str)
        ensures
            sec_data(final(self)@).content == sec_data(old(self)@).content + line@ + "\n"@,
            sec_data(final(self)@).startline == sec_data(old(self)@).startline,
            sec_data(final(self)@).endline == sec_data(old(self)@).endline,
            final(self)@ is Named == old(self)@ is Named,
            final(self)@ matches SectionModel::Named(_, nd) ==> old(self)@ matches
                SectionModel::Named(_, old_nd) && nd == old_nd,
    {
        match self {
            Section::Named(data, _) => {
                data.content.append(line);
                data.content.append("\n");
            },
            Section::Anonymous(data) => {
                data.content.append(line);
                data.content.append("\n");
            },
        }
    }

    /// The whole section as text: formatted marker comments around the
    /// content for a named section, bare content otherwise.
    pub fn output(&self, commentsign: &str) -> (r: String)
        ensures
            r@ == sec_output(self@, commentsign@),
    {
        match self {
            Section::Named(data, named_data) => {
                let mut outstr = Specialcomment::new_string(
                    commentsign,
                    CommentType::SectionBegin,
                    named_data.name.as_str(),
                    None,
                );
                let hash_line = Specialcomment::new_string(
                    commentsign,
                    CommentType::HashInfo,
                    named_data.name.as_str(),
                    Some(named_data.targethash.as_str()),
                );
                outstr.append(hash_line.as_str());
                match &named_data.source {
                    Some(source) => {
                        let source_line = Specialcomment::new_string(
                            commentsign,
                            CommentType::SourceInfo,
                            named_data.name.as_str(),
                            Some(source.as_str()),
                        );
                        outstr.append(source_line.as_str());
                    },
                    None => (),
                }
                outstr.append(data.content.as_str());
                let end_line = Specialcomment::new_string(
                    commentsign,
                    CommentType::SectionEnd,
                    named_data.name.as_str(),
                    None,
                );
                outstr.append(end_line.as_str());
                outstr
            },
            Section::Anonymous(data) => data.content.clone(),
        }
    }

    /// The common data of the section.
    pub fn get_data(&self) -> (r: &SectionData)
        ensures
            r@ == sec_data(self@),
    {
        match self {
            Section::Named(data, _) => data,
            Section::Anonymous(data) => data,
        }
    }

    /// One report line for a named section; `None` for an anonymous one.
    pub fn pretty_info(&self) -> (r: Option<String>)
        ensures
            match r {
                Some(s) => sec_pretty_info(self@) == Some(s@),
                None => sec_pretty_info(self@) is None,
            },
    {
        match self {
            Section::Anonymous(_) => None,
            Section::Named(data, named_data) => {
                let mut out = String::new();
                push_dec_u64(&mut out, data.startline as u64);
                out.append("-");
                push_dec_u64(&mut out, data.endline as u64);
                out.append(": ");
                out.append(named_data.name.as_str());
                out.append(" | ");
                if named_data.targethash == named_data.hash {
                    out.append("ok");
                } else {
                    out.append("modified");
                }
                match &named_data.source {
                    Some(source) => {
                        out.append(" | source ");
                        out.append(source.as_str());
                    },
                    None => (),
                }
                Some(out)
            },
        }
    }

    /// Accepts the current hash as the new target hash, marking the
    /// section as unmodified; reports whether anything changed.
    pub fn compile(&mut self) -> (r: ChangeState)
        ensures
            final(self)@ == compiled_sec(old(self)@),
            r is Changed <==> sec_modified(old(self)@),
    {
        match self {
            Section::Named(_, named_data) => {
                if named_data.targethash == named_data.hash {
                    ChangeState::Unchanged
                } else {
                    named_data.targethash = named_data.hash.clone();
                    ChangeState::Changed
                }
            },
            Section::Anonymous(_) => ChangeState::Unchanged,
        }
    }

    /// Recomputes the stored hash from the content.
    pub fn finalize(&mut self)
        ensures
            final(self)@ == finalized_sec(old(self)@),
    {
        match self {
            Section::Named(data, named_data) => {
                named_data.hash = hexdigest(data.content.as_str());
            },
            Section::Anonymous(_) => (),
        }
    }
}

impl Hashable for Section {
    fn finalize(&mut self) {
        self.finalize();
    }

    fn compile(&mut self) -> ChangeState {
        self.compile()
    }
}

} // verus!
