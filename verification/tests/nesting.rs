use ccc::pp::files::FileIdentity;
use ccc::pp::nesting::{check_include_entry, ActiveInclude};
use ccc::pp::token::Span;

fn active(path: &str, identity: &str) -> ActiveInclude {
    ActiveInclude { path: path.to_owned(), identity: FileIdentity(identity.to_owned()) }
}

#[test]
fn files_below_the_depth_limit_are_entered() {
    let stack = vec![active("main.c", "1"), active("a.h", "2")];
    assert!(check_include_entry(&stack, 3, "a.h", &FileIdentity("2".to_owned()), None).is_ok());
}

#[test]
fn a_cycle_at_the_depth_limit_is_reported_with_its_path() {
    let stack = vec![active("main.c", "1"), active("a.h", "2"), active("b.h", "3"), active("a.h", "2")];
    let site = Some(Span { file: 4, start: 0, end: 16 });
    let (diagnostic, note) =
        check_include_entry(&stack, 4, "b.h", &FileIdentity("3".to_owned()), site).unwrap_err();
    assert_eq!(diagnostic.code, "CCC1335");
    assert_eq!(diagnostic.message, "include cycle reached the depth limit while entering 'b.h'");
    assert_eq!(diagnostic.span, site);
    assert_eq!(note.as_deref(), Some("include cycle: b.h -> a.h -> b.h"));
}

#[test]
fn depth_without_a_cycle_is_reported_as_too_deep() {
    let stack = vec![active("main.c", "1"), active("a.h", "2")];
    let (diagnostic, note) =
        check_include_entry(&stack, 2, "c.h", &FileIdentity("9".to_owned()), None).unwrap_err();
    assert_eq!(diagnostic.code, "CCC1303");
    assert_eq!(diagnostic.message, "include depth limit exceeded while entering 'c.h'");
    assert_eq!(diagnostic.span, None);
    assert!(note.is_none());
    let (_, note) = check_include_entry(&[], 0, "m.c", &FileIdentity("1".to_owned()), None).unwrap_err();
    assert!(note.is_none());
}
