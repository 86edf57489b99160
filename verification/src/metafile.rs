//! The sidecar metafile: tracking metadata for file types that have no
//! comments.  Instead of per-section hashes it carries one hash of the
//! whole content.

use vstd::prelude::*;

use crate::digest::{content_digest, hexdigest};
use crate::hashable::{ChangeState, Hashable};
use crate::strutil::{clone_opt_string, opt_str_view, push_dec_i64, dec_str_signed};

verus! {

/// The string value at a top-level key of a TOML document; a function of
/// the document text alone.  `None` when the document does not parse, the
/// key is missing, or the value is not a string.
pub uninterp spec fn toml_str_key(doc: Seq<char>, key: Seq<char>) -> Option<Seq<char>>;

/// The integer value at a top-level key of a TOML document; as above.
pub uninterp spec fn toml_int_key(doc: Seq<char>, key: Seq<char>) -> Option<i64>;

/// The text toml renders for a flat table holding the metafile keys
/// `hash`, `parent`, optional `target` and `source`, `imosidversion` and
/// `syntaxversion` (the last two as strings); a function of those values
/// alone.
pub uninterp spec fn toml_meta_render(
    hash: Seq<char>,
    parent: Seq<char>,
    target: Option<Seq<char>>,
    source: Option<Seq<char>>,
    imosidversion: Seq<char>,
    syntaxversion: Seq<char>,
) -> Seq<char>;

/// The normalized rendering of a valid semantic version; `None` when the
/// input is not one.  A function of the input alone.
pub uninterp spec fn semver_norm(s: Seq<char>) -> Option<Seq<char>>;

/// Relies on toml's parser (`str::parse::<toml::Table>`, `Map::get`,
/// `Value::as_str`): reads the string at a top-level key.
#[verifier::external_body]
fn toml_get_str(doc: &str, key: &str) -> (r: Option<String>)
    ensures
        (r is Some) == (toml_str_key(doc@, key@) is Some),
        r matches Some(s) ==> toml_str_key(doc@, key@) == Some(s@),
{
    match doc.parse::<toml::Table>() {
        Ok(t) => t.get(key).and_then(|x| x.as_str()).map(|s| s.to_string()),
        Err(_) => None,
    }
}

/// Relies on toml's parser (`str::parse::<toml::Table>`, `Map::get`,
/// `Value::as_integer`): reads the integer at a top-level key.
#[verifier::external_body]
fn toml_get_int(doc: &str, key: &str) -> (r: Option<i64>)
    ensures
        r == toml_int_key(doc@, key@),
{
    match doc.parse::<toml::Table>() {
        Ok(t) => t.get(key).and_then(|x| x.as_integer()),
        Err(_) => None,
    }
}

/// Relies on toml's serializer (`toml::map::Map::insert` and the
/// document rendering of `toml::Table`): renders the metafile table from
/// its values.
#[verifier::external_body]
fn render_meta_toml(
    hash: &str,
    parent: &str,
    target: &Option<String>,
    source: &Option<String>,
    imosidversion: &str,
    syntaxversion: &str,
) -> (r: String)
    ensures
        r@ == toml_meta_render(hash@, parent@, opt_str_view(*target), opt_str_view(*source),
            imosidversion@, syntaxversion@),
{
    let mut m = toml::map::Map::new();
    m.insert("hash".to_string(), toml::Value::String(hash.to_string()));
    m.insert("parent".to_string(), toml::Value::String(parent.to_string()));
    if let Some(t) = target {
        m.insert("target".to_string(), toml::Value::String(t.clone()));
    }
    if let Some(s) = source {
        m.insert("source".to_string(), toml::Value::String(s.clone()));
    }
    m.insert("imosidversion".to_string(), toml::Value::String(imosidversion.to_string()));
    m.insert("syntaxversion".to_string(), toml::Value::String(syntaxversion.to_string()));
    m.to_string()
}

/// Relies on `semver::Version::parse` and its `Display`: the normalized
/// form of a valid semantic version.
#[verifier::external_body]
fn semver_normalize(s: &str) -> (r: Option<String>)
    ensures
        (r is Some) == (semver_norm(s@) is Some),
        r matches Some(v) ==> semver_norm(s@) == Some(v@),
{
    match semver::Version::parse(s) {
        Ok(v) => Some(v.to_string()),
        Err(_) => None,
    }
}

/// Mathematical model of a metafile.
#[verifier::ext_equal]
pub struct MetaModel {
    pub currenthash: Seq<char>,
    pub hash: Seq<char>,
    pub parentfile: Seq<char>,
    pub targetfile: Option<Seq<char>>,
    pub sourcefile: Option<Seq<char>>,
    pub modified: bool,
    pub imosidversion: Seq<char>,
    pub syntaxversion: i64,
    pub content: Seq<char>,
    pub path: Seq<char>,
    pub permissions: Option<u32>,
}

/// A file carrying tracking metadata for another file whose format does
/// not support comments.
pub struct MetaFile {
    pub currenthash: String,
    pub hash: String,
    pub parentfile: String,
    pub targetfile: Option<String>,
    pub sourcefile: Option<String>,
    pub modified: bool,
    pub imosidversion: String,
    pub syntaxversion: i64,
    pub content: String,
    pub path: String,
    pub permissions: Option<u32>,
}

impl View for MetaFile {
    type V = MetaModel;

    open spec fn view(&self) -> MetaModel {
        MetaModel {
            currenthash: self.currenthash@,
            hash: self.hash@,
            parentfile: self.parentfile@,
            targetfile: opt_str_view(self.targetfile),
            sourcefile: opt_str_view(self.sourcefile),
            modified: self.modified,
            imosidversion: self.imosidversion@,
            syntaxversion: self.syntaxversion,
            content: self.content@,
            path: self.path@,
            permissions: self.permissions,
        }
    }
}

/// The version stored when the metafile names none.
pub open spec fn default_version() -> Seq<char> {
    "0.0.0"@
}

/// What `MetaFile::new` builds from the metafile text: mandatory `hash`
/// and `parent`, optional `target`, `source` and `permissions` (low 32
/// bits of the stored integer), a normalized `imosidversion` and a
/// `syntaxversion` defaulting to 1.
pub open spec fn meta_from_doc(
    doc: Seq<char>,
    content: Seq<char>,
    path: Seq<char>,
) -> Option<MetaModel> {
    match toml_str_key(doc, "hash"@) {
        None => None,
        Some(hash) => match toml_str_key(doc, "parent"@) {
            None => None,
            Some(parent) => Some(
                MetaModel {
                    currenthash: Seq::empty(),
                    hash: hash,
                    parentfile: parent,
                    targetfile: toml_str_key(doc, "target"@),
                    sourcefile: toml_str_key(doc, "source"@),
                    modified: false,
                    imosidversion: match toml_str_key(doc, "imosidversion"@) {
                        Some(v) => match semver_norm(v) {
                            Some(n) => n,
                            None => default_version(),
                        },
                        None => default_version(),
                    },
                    syntaxversion: match toml_int_key(doc, "syntaxversion"@) {
                        Some(v) => v,
                        None => 1,
                    },
                    content: content,
                    path: path,
                    permissions: match toml_int_key(doc, "permissions"@) {
                        Some(p) => Some((p & 0xffff_ffff) as u32),
                        None => None,
                    },
                },
            ),
        },
    }
}

/// A metafile counts as modified when the stored hash is not the digest
/// of the current content.
pub open spec fn meta_modified(m: MetaModel) -> bool {
    m.hash != content_digest(m.content)
}

/// Effect of `finalize`.
pub open spec fn finalized_meta(m: MetaModel) -> MetaModel {
    MetaModel {
        currenthash: content_digest(m.content),
        modified: m.hash != content_digest(m.content),
        ..m
    }
}

/// Effect of `compile`.
pub open spec fn compiled_meta(m: MetaModel) -> MetaModel {
    MetaModel { hash: content_digest(m.content), modified: false, ..m }
}

impl MetaFile {
    /// Builds a metafile from the sidecar document text, the parent
    /// file's content, and the sidecar's own path.  Fails exactly when
    /// the document has no `hash` or no `parent` string (a document that
    /// does not parse has neither).
    pub fn new(path: String, metacontent: &str, content: &str) -> (r: Option<MetaFile>)
        ensures
            match r {
                Some(m) => meta_from_doc(metacontent@, content@, path@) == Some(m@),
                None => meta_from_doc(metacontent@, content@, path@) is None,
            },
    {
        let hash = match toml_get_str(metacontent, "hash") {
            Some(h) => h,
            None => {
                return None;
            },
        };
        let parentfile = match toml_get_str(metacontent, "parent") {
            Some(p) => p,
            None => {
                return None;
            },
        };
        let targetfile = toml_get_str(metacontent, "target");
        let sourcefile = toml_get_str(metacontent, "source");
        let permissions: Option<u32> = match toml_get_int(metacontent, "permissions") {
            Some(p) => Some((p & 0xffff_ffff) as u32),
            None => None,
        };
        let syntaxversion: i64 = match toml_get_int(metacontent, "syntaxversion") {
            Some(v) => v,
            None => 1,
        };
        let imosidversion: String = match toml_get_str(metacontent, "imosidversion") {
            Some(v) => match semver_normalize(v.as_str()) {
                Some(n) => n,
                None => "0.0.0".to_owned(),
            },
            None => "0.0.0".to_owned(),
        };
        Some(
            MetaFile {
                currenthash: String::new(),
                hash,
                parentfile,
                targetfile,
                sourcefile,
                modified: false,
                imosidversion,
                syntaxversion,
                content: content.to_owned(),
                path,
                permissions,
            },
        )
    }

    /// A fresh metafile for a parent file that has none yet; `version` is
    /// the version this library records as having written it.
    pub fn from_content(parentname: String, filecontent: String, path: String, version: &str)
        -> (r: MetaFile)
        ensures
            r@ == (MetaModel {
                currenthash: Seq::empty(),
                hash: Seq::empty(),
                parentfile: parentname@,
                targetfile: None,
                sourcefile: None,
                modified: false,
                imosidversion: match semver_norm(version@) {
                    Some(n) => n,
                    None => default_version(),
                },
                syntaxversion: 0,
                content: filecontent@,
                path: path@,
                permissions: None,
            }),
    {
        let imosidversion: String = match semver_normalize(version) {
            Some(n) => n,
            None => "0.0.0".to_owned(),
        };
        MetaFile {
            currenthash: String::new(),
            hash: String::new(),
            parentfile: parentname,
            targetfile: None,
            sourcefile: None,
            modified: false,
            imosidversion,
            syntaxversion: 0,
            content: filecontent,
            path,
            permissions: None,
        }
    }

    /// Recomputes the current digest and the modified flag.
    pub fn finalize(&mut self)
        ensures
            final(self)@ == finalized_meta(old(self)@),
    {
        self.currenthash = hexdigest(self.content.as_str());
        self.modified = !(self.hash == self.currenthash);
    }

    /// Accepts the current content: the stored hash becomes the digest of
    /// the content and the modified flag is cleared.
    pub fn compile(&mut self) -> (r: ChangeState)
        ensures
            final(self)@ == compiled_meta(old(self)@),
            r is Changed <==> meta_modified(old(self)@),
    {
        let contenthash = hexdigest(self.content.as_str());
        self.modified = false;
        if self.hash == contenthash {
            ChangeState::Unchanged
        } else {
            self.hash = contenthash;
            ChangeState::Changed
        }
    }

    /// The serialized sidecar document.
    pub fn output(&mut self) -> (r: String)
        ensures
            *final(self) == *old(self),
            r@ == toml_meta_render(
                old(self)@.hash,
                old(self)@.parentfile,
                old(self)@.targetfile,
                old(self)@.sourcefile,
                old(self)@.imosidversion,
                dec_str_signed(old(self)@.syntaxversion as int),
            ),
    {
        let mut sv = String::new();
        push_dec_i64(&mut sv, self.syntaxversion);
        render_meta_toml(
            &self.hash,
            &self.parentfile,
            &self.targetfile,
            &self.sourcefile,
            self.imosidversion.as_str(),
            sv.as_str(),
        )
    }

    /// The report lines for a metafile-backed file.
    pub fn pretty_info(&self) -> (r: String)
        ensures
            r@ == "metafile hash: "@ + self@.hash + "\n"@ + (if self@.modified {
                "modified"@
            } else {
                "unmodified"@
            }),
    {
        let mut ret = String::new();
        ret.append("metafile hash: ");
        ret.append(self.hash.as_str());
        ret.append("\n");
        if self.modified {
            ret.append("modified");
        } else {
            ret.append("unmodified");
        }
        ret
    }
}

impl Clone for MetaFile {
    fn clone(&self) -> (r: Self)
        ensures
            r == *self,
    {
        MetaFile {
            currenthash: self.currenthash.clone(),
            hash: self.hash.clone(),
            parentfile: self.parentfile.clone(),
            targetfile: clone_opt_string(&self.targetfile),
            sourcefile: clone_opt_string(&self.sourcefile),
            modified: self.modified,
            imosidversion: self.imosidversion.clone(),
            syntaxversion: self.syntaxversion,
            content: self.content.clone(),
            path: self.path.clone(),
            permissions: self.permissions,
        }
    }
}

impl Hashable for MetaFile {
    fn finalize(&mut self) {
        self.finalize();
    }

    fn compile(&mut self) -> ChangeState {
        self.compile()
    }
}

} // verus!
