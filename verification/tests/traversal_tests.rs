use duplicate_finder::traversal::{DirectoryWalk, Listing};

#[test]
fn walk_is_breadth_first_and_collects_files() {
    let mut walk = DirectoryWalk::new("root");
    assert_eq!(walk.next_directory(), Some("root"));
    assert_eq!(walk.record::<()>(Listing::Entries(vec![("root/a", true), ("root/f1", false), ("root/b", true)])), Ok(()));
    assert!(walk.is_start_listed());
    assert_eq!(walk.next_directory(), Some("root/a"));
    assert_eq!(walk.record::<()>(Listing::Entries(vec![("root/a/c", true), ("root/a/f2", false)])), Ok(()));
    assert_eq!(walk.next_directory(), Some("root/b"));
    assert_eq!(walk.record::<()>(Listing::Entries(vec![("root/b/f3", false)])), Ok(()));
    assert_eq!(walk.next_directory(), Some("root/a/c"));
    assert_eq!(walk.record::<()>(Listing::Entries(vec![])), Ok(()));
    assert_eq!(walk.next_directory(), None);
    assert_eq!(walk.into_files(), vec!["root/f1", "root/a/f2", "root/b/f3"]);
}

#[test]
fn unreadable_start_directory_fails() {
    let mut walk = DirectoryWalk::new("root");
    walk.next_directory();
    assert_eq!(walk.record(Listing::Unreadable("denied")), Err("denied"));
}

#[test]
fn unreadable_subdirectory_is_skipped() {
    let mut walk = DirectoryWalk::new("root");
    walk.next_directory();
    walk.record::<&str>(Listing::Entries(vec![("root/a", true), ("root/f", false)])).unwrap();
    assert_eq!(walk.next_directory(), Some("root/a"));
    assert_eq!(walk.record(Listing::Unreadable("denied")), Ok(()));
    assert_eq!(walk.next_directory(), None);
    assert_eq!(walk.into_files(), vec!["root/f"]);
}

#[test]
fn failing_entry_fails_the_walk() {
    let mut walk = DirectoryWalk::new("root");
    walk.next_directory();
    walk.record::<&str>(Listing::Entries(vec![("root/a", true)])).unwrap();
    walk.next_directory();
    assert_eq!(walk.record(Listing::EntryFailed("io")), Err("io"));
}
