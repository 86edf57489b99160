use imosid::comment::{CommentType, Specialcomment};
use imosid::strutil::parse_u32;

#[test]
fn keyword_table() {
    assert_eq!(
        CommentType::from_keyword("begin"),
        Some(CommentType::SectionBegin)
    );
    assert_eq!(
        CommentType::from_keyword("start"),
        Some(CommentType::SectionBegin)
    );
    assert_eq!(
        CommentType::from_keyword("end"),
        Some(CommentType::SectionEnd)
    );
    assert_eq!(
        CommentType::from_keyword("stop"),
        Some(CommentType::SectionEnd)
    );
    assert_eq!(
        CommentType::from_keyword("hash"),
        Some(CommentType::HashInfo)
    );
    assert_eq!(
        CommentType::from_keyword("source"),
        Some(CommentType::SourceInfo)
    );
    assert_eq!(
        CommentType::from_keyword("permissions"),
        Some(CommentType::PermissionInfo)
    );
    assert_eq!(
        CommentType::from_keyword("target"),
        Some(CommentType::TargetInfo)
    );
    assert_eq!(CommentType::from_keyword("whatever"), None);
}

#[test]
fn marker_line_round_trip() {
    // serializing a marker and parsing the line gives the marker back
    let cases: Vec<(CommentType, &str, Option<&str>)> = vec![
        (CommentType::SectionBegin, "sec", None),
        (CommentType::SectionEnd, "sec", None),
        (CommentType::HashInfo, "sec", Some("ABCDEF")),
        (CommentType::SourceInfo, "sec", Some("/tmp/path")),
        (CommentType::TargetInfo, "all", Some("/tmp/t")),
        (CommentType::PermissionInfo, "all", Some("000755")),
    ];
    for (kind, section, arg) in cases {
        let line = Specialcomment::new_string("#", kind, section, arg);
        let stripped = line.strip_suffix('\n').unwrap();
        let parsed = Specialcomment::from_line(stripped, "#", 7).unwrap();
        assert_eq!(parsed.line, 7);
        assert_eq!(parsed.section.as_str(), section);
        assert_eq!(parsed.comment_type, kind);
        assert_eq!(parsed.argument.as_deref(), arg);
    }
}

#[test]
fn malformed_markers_rejected() {
    // wrong prefix
    assert!(Specialcomment::from_line("//...x begin", "#", 1).is_none());
    // unknown keyword
    assert!(Specialcomment::from_line("#...x unknown", "#", 1).is_none());
    // hash without its value
    assert!(Specialcomment::from_line("#...x hash", "#", 1).is_none());
    // source without its file
    assert!(Specialcomment::from_line("#...x source", "#", 1).is_none());
    // target outside the whole-file section
    assert!(Specialcomment::from_line("#...x target /tmp/t", "#", 1).is_none());
    // target without a value
    assert!(Specialcomment::from_line("#...all target", "#", 1).is_none());
    // permissions outside the whole-file section
    assert!(Specialcomment::from_line("#...x permissions 000755", "#", 1).is_none());
    // permissions that are not a number
    assert!(Specialcomment::from_line("#...all permissions rwx", "#", 1).is_none());
    // a double space splits off an empty keyword token
    assert!(Specialcomment::from_line("#...a  begin", "#", 1).is_none());
    // fewer than two tokens
    assert!(Specialcomment::from_line("#...a", "#", 1).is_none());
    // no sentinel at all
    assert!(Specialcomment::from_line("# plain comment", "#", 1).is_none());
}

#[test]
fn spaces_around_sentinel() {
    let c = Specialcomment::from_line("#  ...  tester begin", "#", 3).unwrap();
    assert_eq!(c.section.as_str(), "tester");
    assert_eq!(c.comment_type, CommentType::SectionBegin);
    let c = Specialcomment::from_line("#... tester begin", "#", 3).unwrap();
    assert_eq!(c.section.as_str(), "tester");
}

#[test]
fn parse_u32_grammar() {
    assert_eq!(parse_u32("0"), Some(0));
    assert_eq!(parse_u32("755"), Some(755));
    assert_eq!(parse_u32("+12"), Some(12));
    assert_eq!(parse_u32("4294967295"), Some(4294967295));
    assert_eq!(parse_u32("4294967296"), None);
    assert_eq!(parse_u32("99999999999999999999"), None);
    assert_eq!(parse_u32(""), None);
    assert_eq!(parse_u32("+"), None);
    assert_eq!(parse_u32("-1"), None);
    assert_eq!(parse_u32("12a"), None);
}
