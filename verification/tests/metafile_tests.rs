use imosid::files::DotFile;
use imosid::metafile::MetaFile;

fn meta(doc: &str, content: &str) -> Option<MetaFile> {
    MetaFile::new("f.imosid.toml".to_string(), doc, content)
}

#[test]
fn metafile_mandatory_keys() {
    assert!(meta("hash = \"ABC\"\nparent = \"f\"\n", "body").is_some());
    assert!(meta("hash = \"ABC\"\n", "body").is_none());
    assert!(meta("parent = \"f\"\n", "body").is_none());
    assert!(meta("not toml at all [[", "body").is_none());
}

#[test]
fn metafile_fields() {
    let m = meta(
        "hash = \"ABC\"\nparent = \"f\"\ntarget = \"~/.config/f\"\nsource = \"/src/f\"\npermissions = 644\n",
        "body",
    )
    .unwrap();
    assert_eq!(m.hash.as_str(), "ABC");
    assert_eq!(m.parentfile.as_str(), "f");
    assert_eq!(m.targetfile.as_deref(), Some("~/.config/f"));
    assert_eq!(m.sourcefile.as_deref(), Some("/src/f"));
    assert_eq!(m.permissions, Some(644));
    assert!(!m.modified);
}

#[test]
fn metafile_finalize_and_compile() {
    let mut m = meta("hash = \"ABC\"\nparent = \"f\"\n", "body").unwrap();
    m.finalize();
    assert!(m.modified);
    let state = m.compile();
    assert!(bool::from(state));
    assert_eq!(m.hash, sha256::digest("body").to_uppercase());
    assert!(!m.modified);
    let again = m.compile();
    assert!(!bool::from(again));
}

#[test]
fn metafile_output_round_trip() {
    let mut m = meta(
        "hash = \"ABC\"\nparent = \"f\"\ntarget = \"/tmp/t\"\nimosidversion = \"1.2.3\"\n",
        "body",
    )
    .unwrap();
    let out = m.output();
    assert!(out.contains("1.2.3"));
    let back = MetaFile::new("f.imosid.toml".to_string(), out.as_str(), "body").unwrap();
    assert_eq!(back.hash, m.hash);
    assert_eq!(back.parentfile, m.parentfile);
    assert_eq!(back.targetfile, m.targetfile);
    assert_eq!(back.imosidversion, m.imosidversion);
}

#[test]
fn metafile_bad_version_falls_back() {
    let mut m = meta(
        "hash = \"ABC\"\nparent = \"f\"\nimosidversion = \"not-a-version\"\n",
        "body",
    )
    .unwrap();
    assert_eq!(m.imosidversion.as_str(), "0.0.0");
    let out = m.output();
    assert!(out.contains("0.0.0"));
}

#[test]
fn metafile_reconciliation() {
    let ha = sha256::digest("aaa").to_uppercase();
    let hb = sha256::digest("bbb").to_uppercase();
    let tdoc = format!("hash = \"{}\"\nparent = \"f\"\n", ha);
    let sdoc = format!("hash = \"{}\"\nparent = \"f\"\n", hb);
    let mut tmeta = meta(tdoc.as_str(), "aaa").unwrap();
    tmeta.finalize();
    let mut smeta = meta(sdoc.as_str(), "bbb").unwrap();
    smeta.finalize();
    let mut target = DotFile::with_metafile(tmeta, "t".to_string());
    let source = DotFile::with_metafile(smeta, "s".to_string());
    assert!(target.applyfile(&source));
    let m = target.metafile.as_ref().unwrap();
    assert_eq!(m.content.as_str(), "bbb");
    assert_eq!(m.hash, hb);
    // already up to date: a second apply does nothing
    assert!(!target.applyfile(&source));
}

#[test]
fn metafile_dirty_side_blocks() {
    let hb = sha256::digest("bbb").to_uppercase();
    let sdoc = format!("hash = \"{}\"\nparent = \"f\"\n", hb);
    // dirty target blocks
    let mut tmeta = meta("hash = \"STALE\"\nparent = \"f\"\n", "aaa").unwrap();
    tmeta.finalize();
    assert!(tmeta.modified);
    let mut smeta = meta(sdoc.as_str(), "bbb").unwrap();
    smeta.finalize();
    let mut target = DotFile::with_metafile(tmeta, "t".to_string());
    let source = DotFile::with_metafile(smeta, "s".to_string());
    assert!(!target.applyfile(&source));
    assert_eq!(target.metafile.as_ref().unwrap().content.as_str(), "aaa");
    // dirty source blocks
    let ha = sha256::digest("aaa").to_uppercase();
    let tdoc = format!("hash = \"{}\"\nparent = \"f\"\n", ha);
    let mut tmeta = meta(tdoc.as_str(), "aaa").unwrap();
    tmeta.finalize();
    let mut smeta = meta("hash = \"STALE\"\nparent = \"f\"\n", "bbb").unwrap();
    smeta.finalize();
    let mut target = DotFile::with_metafile(tmeta, "t".to_string());
    let source = DotFile::with_metafile(smeta, "s".to_string());
    assert!(!target.applyfile(&source));
    assert_eq!(target.metafile.as_ref().unwrap().content.as_str(), "aaa");
}

#[test]
fn metafile_and_comment_files_never_mix() {
    let ha = sha256::digest("aaa").to_uppercase();
    let tdoc = format!("hash = \"{}\"\nparent = \"f\"\n", ha);
    let mut tmeta = meta(tdoc.as_str(), "aaa").unwrap();
    tmeta.finalize();
    let mut metatarget = DotFile::with_metafile(tmeta, "t".to_string());
    let hl = format!("#...a hash {}", sha256::digest("one\n").to_uppercase());
    let lines: Vec<String> = ["#...a begin", hl.as_str(), "one", "#...a end"]
        .iter()
        .map(|l| l.to_string())
        .collect();
    let commentdoc = DotFile::from_lines(&lines, "#", "c");
    assert!(!metatarget.applyfile(&commentdoc));
    let mut commenttarget = DotFile::from_lines(&lines, "#", "c");
    let mut smeta = meta(tdoc.as_str(), "aaa").unwrap();
    smeta.finalize();
    let metasource = DotFile::with_metafile(smeta, "s".to_string());
    assert!(!commenttarget.applyfile(&metasource));
}

#[test]
fn metafile_pretty_info() {
    let ha = sha256::digest("aaa").to_uppercase();
    let tdoc = format!("hash = \"{}\"\nparent = \"f\"\n", ha);
    let mut m = meta(tdoc.as_str(), "aaa").unwrap();
    m.finalize();
    assert_eq!(
        m.pretty_info(),
        format!("metafile hash: {}\nunmodified", ha)
    );
}

#[test]
fn metafile_permission_bits_truncated() {
    // the stored integer is reduced to its low 32 bits
    let m = meta(
        "hash = \"A\"\nparent = \"f\"\npermissions = 8589934597\n",
        "body",
    )
    .unwrap();
    assert_eq!(m.permissions, Some(5));
}
