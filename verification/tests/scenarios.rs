use imosid::files::DotFile;
use imosid::section::Section;

fn doc(lines: &[&str]) -> DotFile {
    let owned: Vec<String> = lines.iter().map(|l| l.to_string()).collect();
    DotFile::from_lines(&owned, "#", "testfile")
}

#[test]
fn single_named_section() {
    let d = doc(&["#...s begin", "#...s hash ABC", "hello", "#...s end"]);
    assert_eq!(d.sections.len(), 1);
    match &d.sections[0] {
        Section::Named(data, nd) => {
            assert_eq!(data.startline, 1);
            assert_eq!(data.endline, 4);
            assert_eq!(data.content.as_str(), "hello\n");
            assert_eq!(nd.name.as_str(), "s");
            let expected = sha256::digest("hello\n").to_uppercase();
            assert_eq!(nd.hash, expected);
            assert_eq!(nd.targethash.as_str(), "ABC");
            assert_ne!(nd.hash, nd.targethash);
        }
        Section::Anonymous(_) => panic!("expected a named section"),
    }
    assert!(d.is_modified());
}

#[test]
fn overlapping_sections_discarded() {
    let d = doc(&[
        "#...a hash X",
        "#...a begin",
        "#...b begin",
        "#...a end",
        "#...b hash Y",
        "#...b end",
    ]);
    assert_eq!(d.count_named_sections(), 0);
    assert_eq!(d.sections.len(), 1);
    match &d.sections[0] {
        Section::Anonymous(data) => {
            assert_eq!(data.startline, 1);
            assert_eq!(data.endline, 6);
        }
        Section::Named(_, _) => panic!("expected one anonymous section"),
    }
}

#[test]
fn compile_section_unchanged_and_changed() {
    let clean_hash = sha256::digest("hi\n").to_uppercase();
    let mut clean = Section::new(1, 3, "x".to_string(), None, clean_hash.clone());
    clean.push_line("hi");
    clean.finalize();
    let state = clean.compile();
    assert!(!bool::from(state));
    if let Section::Named(_, nd) = &clean {
        assert_eq!(nd.targethash, clean_hash);
    }

    let mut dirty = Section::new(1, 3, "x".to_string(), None, "AAA".to_string());
    dirty.push_line("hi");
    dirty.finalize();
    let state = dirty.compile();
    assert!(bool::from(state));
    if let Section::Named(_, nd) = &dirty {
        assert_eq!(nd.targethash, clean_hash);
        assert_eq!(nd.hash, nd.targethash);
    }
    let again = dirty.compile();
    assert!(!bool::from(again));
}

#[test]
fn compile_document_idempotent() {
    let mut d = doc(&["#...s begin", "#...s hash ABC", "hello", "#...s end"]);
    assert!(d.is_modified());
    assert!(d.compile());
    assert!(!d.is_modified());
    assert!(!d.compile());
}

#[test]
fn whole_document_replace() {
    let hx = format!("#...x hash {}", sha256::digest("xval\n").to_uppercase());
    let hy = format!("#...y hash {}", sha256::digest("yval\n").to_uppercase());
    let mut target = doc(&["#...x begin", hx.as_str(), "xval", "#...x end"]);
    let source = doc(&[
        "#...x begin",
        hx.as_str(),
        "xval",
        "#...x end",
        "#...y begin",
        hy.as_str(),
        "yval",
        "#...y end",
    ]);
    assert!(!target.is_modified());
    assert!(target.has_section("x"));
    assert!(!target.has_section("y"));
    assert!(target.applyfile(&source));
    assert!(target.has_section("x"));
    assert!(target.has_section("y"));
    assert_eq!(target.count_named_sections(), 2);
}

#[test]
fn apply_section_refusals() {
    let hx = format!("#...x hash {}", sha256::digest("xval\n").to_uppercase());
    let mut target = doc(&["#...x begin", hx.as_str(), "xval", "#...x end"]);
    // an uncompiled candidate (hash != targethash) is refused
    let mut uncompiled = Section::new(1, 4, "x".to_string(), None, "STALE".to_string());
    uncompiled.push_line("new content");
    uncompiled.finalize();
    if let Section::Named(d, nd) = uncompiled {
        assert!(!target.applysection(d, nd));
    } else {
        panic!("expected a named section");
    }
    // a candidate without a same-named target section is refused
    let mut other = Section::new(1, 4, "nosuch".to_string(), None, String::new());
    other.push_line("body");
    other.finalize();
    other.compile();
    if let Section::Named(d, nd) = other {
        assert!(!target.applysection(d, nd));
    } else {
        panic!("expected a named section");
    }
    // a compiled candidate with a matching name succeeds
    let mut good = Section::new(1, 4, "x".to_string(), None, String::new());
    good.push_line("fresh");
    good.finalize();
    good.compile();
    if let Section::Named(d, nd) = good {
        assert!(target.applysection(d, nd));
    } else {
        panic!("expected a named section");
    }
    match &target.sections[0] {
        Section::Named(d, _) => assert_eq!(d.content.as_str(), "fresh\n"),
        Section::Anonymous(_) => panic!("expected the named section first"),
    }
}

#[test]
fn incomplete_sections_removed() {
    // missing End
    let d = doc(&["#...q begin", "#...q hash AAA", "body"]);
    assert_eq!(d.count_named_sections(), 0);
    // duplicate Begin
    let d = doc(&[
        "#...q begin",
        "#...q begin",
        "#...q hash AAA",
        "body",
        "#...q end",
    ]);
    assert_eq!(d.count_named_sections(), 0);
    // complete section stays
    let d = doc(&["#...q begin", "#...q hash AAA", "body", "#...q end"]);
    assert_eq!(d.count_named_sections(), 1);
}

#[test]
fn document_round_trip() {
    let l1 = format!("#...a hash {}", sha256::digest("one\n").to_uppercase());
    let l2 = format!("#...b hash {}", sha256::digest("two\n").to_uppercase());
    let original = doc(&[
        "plain prefix",
        "#...a begin",
        l1.as_str(),
        "one",
        "#...a end",
        "between",
        "#...b begin",
        l2.as_str(),
        "two",
        "#...b end",
    ]);
    let text = original.to_string();
    let lines: Vec<String> = text.lines().map(|l| l.to_string()).collect();
    let reparsed = DotFile::from_lines(&lines, "#", "testfile");
    assert_eq!(original.sections.len(), reparsed.sections.len());
    for (a, b) in original.sections.iter().zip(reparsed.sections.iter()) {
        match (a, b) {
            (Section::Named(da, na), Section::Named(db, nb)) => {
                assert_eq!(na.name, nb.name);
                assert_eq!(da.startline, db.startline);
                assert_eq!(da.endline, db.endline);
                assert_eq!(na.hash, nb.hash);
                assert_eq!(na.targethash, nb.targethash);
            }
            (Section::Anonymous(da), Section::Anonymous(db)) => {
                assert_eq!(da.content, db.content);
            }
            _ => panic!("section kinds differ after round trip"),
        }
    }
}

#[test]
fn hashbang_stays_first() {
    let h = sha256::digest("echo hi\n").to_uppercase();
    let hl = format!("#...s hash {}", h);
    let d = doc(&[
        "#!/bin/bash",
        "#...s begin",
        hl.as_str(),
        "echo hi",
        "#...s end",
    ]);
    let text = d.to_string();
    assert!(text.starts_with("#!/bin/bash\n"));
    assert_eq!(
        text,
        format!(
            "#!/bin/bash\n#... s begin\n#... s hash {}\necho hi\n#... s end\n",
            h
        )
    );
}

#[test]
fn file_properties_parsed() {
    let d = doc(&[
        "#...all target /tmp/somewhere",
        "#...all permissions 000755",
        "just content",
    ]);
    assert_eq!(d.targetfile.as_deref(), Some("/tmp/somewhere"));
    assert_eq!(d.permissions, Some(755));
    // a permissions argument that does not survive the three-digit strip
    let d = doc(&["#...all permissions 755", "content"]);
    assert_eq!(d.permissions, None);
}

#[test]
fn pretty_info_report() {
    let d = doc(&["#...s begin", "#...s hash ABC", "hello", "#...s end"]);
    assert_eq!(d.pretty_info(), "comment syntax: #\n1-4: s | modified\n");
    let hl = format!("#...s hash {}", sha256::digest("ok\n").to_uppercase());
    let d = doc(&["#...s begin", hl.as_str(), "ok", "#...s end"]);
    assert_eq!(d.pretty_info(), "comment syntax: #\n1-4: s | ok\n");
}

#[test]
fn delete_section() {
    let hl = format!("#...a hash {}", sha256::digest("one\n").to_uppercase());
    let mut d = doc(&["#...a begin", hl.as_str(), "one", "#...a end"]);
    assert!(!d.deletesection("nosuch"));
    assert!(d.deletesection("a"));
    assert_eq!(d.count_named_sections(), 0);
}

#[test]
fn source_marker_parsed() {
    let hl = format!("#...a hash {}", sha256::digest("one\n").to_uppercase());
    let d = doc(&[
        "#...a begin",
        hl.as_str(),
        "#...a source /tmp/src",
        "one",
        "#...a end",
    ]);
    match &d.sections[0] {
        Section::Named(_, nd) => assert_eq!(nd.source.as_deref(), Some("/tmp/src")),
        Section::Anonymous(_) => panic!("expected a named section"),
    }
    let pairs = d.sourced_sections();
    assert_eq!(pairs.len(), 1);
    assert_eq!(pairs[0].0.as_str(), "a");
    assert_eq!(pairs[0].1.as_str(), "/tmp/src");
}

#[test]
fn unmanaged_files_not_eligible() {
    let hl = format!("#...a hash {}", sha256::digest("one\n").to_uppercase());
    let managed = doc(&["#...a begin", hl.as_str(), "one", "#...a end"]);
    let mut unmanaged = doc(&["nothing", "tracked", "here"]);
    assert!(!unmanaged.applyfile(&managed));
    let mut target = doc(&["#...a begin", hl.as_str(), "one", "#...a end"]);
    let source_unmanaged = doc(&["nothing"]);
    assert!(!target.applyfile(&source_unmanaged));
}

#[test]
fn empty_and_plain_files() {
    let d = doc(&[]);
    assert_eq!(d.sections.len(), 1);
    match &d.sections[0] {
        Section::Anonymous(data) => {
            assert_eq!(data.startline, 1);
            assert_eq!(data.endline, 0);
            assert_eq!(data.content.as_str(), "");
        }
        Section::Named(_, _) => panic!("expected an anonymous section"),
    }
    assert_eq!(d.to_string(), "");
    let d = doc(&["just", "plain", "text"]);
    assert_eq!(d.sections.len(), 1);
    assert_eq!(d.to_string(), "just\nplain\ntext\n");
    assert!(!d.is_managed());
}

#[test]
fn extra_marker_tokens_ignored() {
    let c =
        imosid::comment::Specialcomment::from_line("#...s hash ABC extra tokens", "#", 2).unwrap();
    assert_eq!(c.section.as_str(), "s");
    assert_eq!(c.argument.as_deref(), Some("ABC"));
}
