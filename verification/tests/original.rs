use imosid::comment::{CommentType, Specialcomment};
use imosid::section::Section;

#[test]
fn it_works() {
    assert_eq!(2 + 2, 4);
}

#[test]
fn test_comment() {
    let comment = Specialcomment::from_line("#...tester begin", "#", 20).unwrap();
    assert_eq!(comment.line, 20);
    assert_eq!(comment.section.as_str(), "tester");
}

#[test]
fn test_comment_argument() {
    let comment = Specialcomment::from_line("#...helloworold hash abcdefghijk", "#", 21).unwrap();
    assert_eq!(comment.line, 21);
    assert_eq!(comment.comment_type, CommentType::HashInfo);
    assert_eq!(comment.section.as_str(), "helloworold");
    assert_eq!(comment.argument.unwrap().as_str(), "abcdefghijk");
}

#[test]
fn test_section() {
    let sectiontarget = "#... test begin
#... test hash 0DD9C99DCB5D37FB872A7FC801D8EE38922E477AE4C65F6486B02AE31981C28E
hello world
testing123
#... test end
";

    let mut testsection = Section::new(1, 10, "test".to_string(), None, "adsasd".to_string());
    testsection.push_line("hello world");
    testsection.push_line("testing123");
    testsection.finalize();
    testsection.compile();
    if let Section::Named(_, named_data) = &testsection {
        assert_eq!(named_data.name.as_str(), "test");
    }
    assert_eq!(testsection.output("#").as_str(), sectiontarget);
}
