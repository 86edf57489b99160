//! The marker-comment grammar: one line either is a marker
//! (`<prefix><ws>*...<ws>*<section> <keyword> [<argument>]`) or is plain
//! content.  Parsing never fails; a malformed marker simply yields `None`.

use vstd::prelude::*;

use crate::strutil::{
    count_spaces_from, parse_u32, parse_u32_spec, skip_spaces, spec_starts_with, split_on,
    split_str, str_eq, str_starts_with,
};

verus! {

/// The kinds of marker comments.
#[derive(Clone, Copy, Debug, PartialEq, Eq, Hash, Structural)]
pub enum CommentType {
    SectionBegin,
    SectionEnd,
    SourceInfo,
    TargetInfo,
    HashInfo,
    PermissionInfo,
}

/// The keyword table of the grammar.
pub open spec fn keyword_kind(kw: Seq<char>) -> Option<CommentType> {
    if kw == "begin"@ || kw == "start"@ {
        Some(CommentType::SectionBegin)
    } else if kw == "end"@ || kw == "stop"@ {
        Some(CommentType::SectionEnd)
    } else if kw == "hash"@ {
        Some(CommentType::HashInfo)
    } else if kw == "source"@ {
        Some(CommentType::SourceInfo)
    } else if kw == "permissions"@ {
        Some(CommentType::PermissionInfo)
    } else if kw == "target"@ {
        Some(CommentType::TargetInfo)
    } else {
        None
    }
}

/// The canonical keyword a kind serializes to.
pub open spec fn kw_str(kind: CommentType) -> Seq<char> {
    match kind {
        CommentType::SectionBegin => "begin"@,
        CommentType::SectionEnd => "end"@,
        CommentType::SourceInfo => "source"@,
        CommentType::TargetInfo => "target"@,
        CommentType::HashInfo => "hash"@,
        CommentType::PermissionInfo => "permissions"@,
    }
}

impl CommentType {
    pub fn from_keyword(keyword: &str) -> (r: Option<CommentType>)
        ensures
            r == keyword_kind(keyword@),
    {
        if str_eq(keyword, "begin") || str_eq(keyword, "start") {
            Some(CommentType::SectionBegin)
        } else if str_eq(keyword, "end") || str_eq(keyword, "stop") {
            Some(CommentType::SectionEnd)
        } else if str_eq(keyword, "hash") {
            Some(CommentType::HashInfo)
        } else if str_eq(keyword, "source") {
            Some(CommentType::SourceInfo)
        } else if str_eq(keyword, "permissions") {
            Some(CommentType::PermissionInfo)
        } else if str_eq(keyword, "target") {
            Some(CommentType::TargetInfo)
        } else {
            None
        }
    }

    /// The keyword this kind serializes to; exec mirror of `kw_str`.
    pub fn keyword_str(&self) -> (r: &'static str)
        ensures
            r@ == kw_str(*self),
    {
        match self {
            CommentType::SectionBegin => "begin",
            CommentType::SectionEnd => "end",
            CommentType::SourceInfo => "source",
            CommentType::TargetInfo => "target",
            CommentType::HashInfo => "hash",
            CommentType::PermissionInfo => "permissions",
        }
    }
}

/// Mathematical model of a marker: the section name and argument as
/// character sequences.
#[verifier::ext_equal]
pub struct MarkerModel {
    pub line: u32,
    pub section: Seq<char>,
    pub kind: CommentType,
    pub argument: Option<Seq<char>>,
}

/// A line recognized as section metadata.
pub struct Specialcomment {
    /// line number the comment is at in the file
    pub line: u32,
    /// section name the comment belongs to
    pub section: String,
    pub comment_type: CommentType,
    /// optional argument, used for hashes etc.
    pub argument: Option<String>,
}

impl View for Specialcomment {
    type V = MarkerModel;

    open spec fn view(&self) -> MarkerModel {
        MarkerModel {
            line: self.line,
            section: self.section@,
            kind: self.comment_type,
            argument: match self.argument {
                Some(a) => Some(a@),
                None => None,
            },
        }
    }
}

impl DeepView for Specialcomment {
    type V = MarkerModel;

    open spec fn deep_view(&self) -> MarkerModel {
        self@
    }
}

impl Clone for Specialcomment {
    fn clone(&self) -> (r: Self)
        ensures
            r == *self,
    {
        Specialcomment {
            line: self.line,
            section: self.section.clone(),
            comment_type: self.comment_type,
            argument: crate::strutil::clone_opt_string(&self.argument),
        }
    }
}

/// What comes after `<prefix><ws>*...<ws>*` on a marker line, or `None`
/// when the line does not carry the sentinel.
pub open spec fn marker_rest(line: Seq<char>, prefix: Seq<char>) -> Option<Seq<char>> {
    if !spec_starts_with(line, prefix) {
        None
    } else {
        let i = prefix.len() as int + count_spaces_from(line, prefix.len() as int);
        if i + 3 <= line.len() && line[i] == '.' && line[i + 1] == '.' && line[i + 2] == '.' {
            let j = i + 3 + count_spaces_from(line, i + 3);
            Some(line.subrange(j, line.len() as int))
        } else {
            None
        }
    }
}

/// Per-kind validity: the invariants of the marker data model.
pub open spec fn marker_valid(kind: CommentType, section: Seq<char>, arg: Option<Seq<char>>) -> bool {
    match kind {
        CommentType::SectionBegin => true,
        CommentType::SectionEnd => true,
        CommentType::HashInfo => arg is Some,
        CommentType::SourceInfo => arg is Some,
        CommentType::PermissionInfo => section == "all"@ && arg is Some && parse_u32_spec(
            arg->Some_0,
        ) is Some,
        CommentType::TargetInfo => section == "all"@ && arg is Some,
    }
}

/// The whole grammar: what `Specialcomment::from_line` yields on a line.
pub open spec fn parse_marker(line: Seq<char>, prefix: Seq<char>, n: u32) -> Option<MarkerModel> {
    match marker_rest(line, prefix) {
        None => None,
        Some(rest) => {
            let toks = split_on(rest, ' ');
            if toks.len() < 2 {
                None
            } else {
                let section = toks[0];
                let arg: Option<Seq<char>> = if toks.len() > 2 {
                    Some(toks[2])
                } else {
                    None
                };
                match keyword_kind(toks[1]) {
                    None => None,
                    Some(kind) => if marker_valid(kind, section, arg) {
                        Some(MarkerModel { line: n, section, kind, argument: arg })
                    } else {
                        None
                    },
                }
            }
        },
    }
}

/// View of an optional comment, for stating parser contracts.
pub open spec fn opt_marker_view(r: Option<Specialcomment>) -> Option<MarkerModel> {
    match r {
        Some(c) => Some(c@),
        None => None,
    }
}

impl Specialcomment {
    /// Renders a marker line: `<prefix>... <section> <keyword>[ <argument>]\n`.
    pub open spec fn spec_marker_line(
        prefix: Seq<char>,
        kind: CommentType,
        section: Seq<char>,
        arg: Option<Seq<char>>,
    ) -> Seq<char> {
        prefix + "... "@ + section + " "@ + kw_str(kind) + (match arg {
            Some(a) => " "@ + a,
            None => Seq::<char>::empty(),
        }) + "\n"@
    }

    /// Builds one marker line, ready to be written into a file.
    pub fn new_string(
        commentsymbol: &str,
        ctype: CommentType,
        section_name: &str,
        argument: Option<&str>,
    ) -> (r: String)
        ensures
            r@ == Self::spec_marker_line(commentsymbol@, ctype, section_name@, match argument {
                Some(a) => Some(a@),
                None => None,
            }),
    {
        let mut out = String::new();
        out.append(commentsymbol);
        out.append("... ");
        out.append(section_name);
        out.append(" ");
        out.append(ctype.keyword_str());
        match argument {
            Some(a) => {
                out.append(" ");
                out.append(a);
            },
            None => (),
        }
        out.append("\n");
        out
    }

    /// Attempts to read one line as a marker; `None` means the line is
    /// plain content.
    pub fn from_line(line: &str, commentsymbol: &str, linenumber: u32) -> (r: Option<
        Specialcomment,
    >)
        ensures
            opt_marker_view(r) == parse_marker(line@, commentsymbol@, linenumber),
    {
        if !str_starts_with(line, commentsymbol) {
            return None;
        }
        let len = line.unicode_len();
        let plen = commentsymbol.unicode_len();
        let i = skip_spaces(line, plen);
        if len - i < 3 {
            return None;
        }
        if !(line.get_char(i) == '.' && line.get_char(i + 1) == '.' && line.get_char(i + 2)
            == '.') {
            return None;
        }
        let j = skip_spaces(line, i + 3);
        let rest = line.substring_char(j, len);
        let toks = split_str(rest, ' ');
        proof {
            assert(marker_rest(line@, commentsymbol@) == Some(rest@));
            assert(toks.deep_view().len() == toks@.len());
        }
        if toks.len() < 2 {
            return None;
        }
        proof {
            assert(toks.deep_view()[0] == toks@[0]@);
            assert(toks.deep_view()[1] == toks@[1]@);
            if toks@.len() > 2 {
                assert(toks.deep_view()[2] == toks@[2]@);
            }
        }
        let arg: Option<String> = if toks.len() > 2 {
            Some(toks[2].clone())
        } else {
            None
        };
        let kind = match CommentType::from_keyword(toks[1].as_str()) {
            None => {
                return None;
            },
            Some(k) => k,
        };
        let valid: bool = match kind {
            CommentType::SectionBegin => true,
            CommentType::SectionEnd => true,
            CommentType::HashInfo => arg.is_some(),
            CommentType::SourceInfo => arg.is_some(),
            CommentType::PermissionInfo => str_eq(toks[0].as_str(), "all") && (match &arg {
                Some(a) => parse_u32(a.as_str()).is_some(),
                None => false,
            }),
            CommentType::TargetInfo => str_eq(toks[0].as_str(), "all") && arg.is_some(),
        };
        if !valid {
            return None;
        }
        Some(
            Specialcomment {
                line: linenumber,
                section: toks[0].clone(),
                comment_type: kind,
                argument: arg,
            },
        )
    }
}

} // verus!
