use sidewire::transfer::{EntryKind, PathPart};
use sidewire::walk::{
    PullAction, PullEvent, PullWalk, PushWalk, TreeEntry, WalkAction, WalkEvent,
};

fn entry(kind: EntryKind, names: &[&str]) -> WalkEvent {
    WalkEvent::Entry(TreeEntry {
        kind,
        relative: names.iter().map(|n| PathPart::Name(n.to_string())).collect(),
        shown: names.join("/"),
        shown_whole: format!("/local/{}", names.join("/")),
    })
}

fn step(walk: &mut PushWalk, event: WalkEvent) -> WalkAction {
    assert!(walk.takes(&event));
    walk.step(event).unwrap()
}

#[test]
fn a_tree_is_pushed_whole() {
    let mut walk = PushWalk::new("/sdcard/t/".to_string(), 1);
    assert!(!walk.takes(&WalkEvent::End));
    assert!(!walk.takes(&WalkEvent::Moved(1)));
    assert!(matches!(step(&mut walk, WalkEvent::Ready), WalkAction::Open(0)));
    assert!(matches!(step(&mut walk, WalkEvent::Ready), WalkAction::Next));
    match step(&mut walk, entry(EntryKind::Directory, &["a"])) {
        WalkAction::Make(path) => assert_eq!(path, "/sdcard/t/a"),
        other => panic!("{other:?}"),
    }
    assert!(matches!(step(&mut walk, WalkEvent::Ready), WalkAction::Next));
    match step(&mut walk, entry(EntryKind::File, &["x"])) {
        WalkAction::Send(path) => assert_eq!(path, "/sdcard/t/x"),
        other => panic!("{other:?}"),
    }
    assert!(matches!(step(&mut walk, WalkEvent::Ready), WalkAction::Next));
    assert!(matches!(step(&mut walk, entry(EntryKind::Other, &["p"])), WalkAction::Next));
    assert!(matches!(step(&mut walk, entry(EntryKind::Directory, &["b"])), WalkAction::Make(_)));
    assert!(matches!(step(&mut walk, WalkEvent::Ready), WalkAction::Next));
    assert!(matches!(step(&mut walk, WalkEvent::End), WalkAction::Open(2)));
    assert!(matches!(step(&mut walk, WalkEvent::Ready), WalkAction::Next));
    assert!(matches!(step(&mut walk, WalkEvent::End), WalkAction::Open(1)));
    assert!(matches!(step(&mut walk, WalkEvent::Ready), WalkAction::Next));
    assert!(matches!(step(&mut walk, entry(EntryKind::File, &["a", "y"])), WalkAction::Wait));
    assert!(!walk.takes(&WalkEvent::End));
    match step(&mut walk, WalkEvent::Moved(7)) {
        WalkAction::Send(path) => assert_eq!(path, "/sdcard/t/a/y"),
        other => panic!("{other:?}"),
    }
    assert!(matches!(step(&mut walk, WalkEvent::Ready), WalkAction::Next));
    assert!(matches!(step(&mut walk, WalkEvent::End), WalkAction::Wait));
    assert!(matches!(step(&mut walk, WalkEvent::Moved(3)), WalkAction::Done));
    assert_eq!((walk.totals().files, walk.totals().bytes, walk.directories()), (2, 10, 3));
}

#[test]
fn a_push_ends_at_a_link() {
    let mut walk = PushWalk::new("/t".to_string(), 0);
    step(&mut walk, WalkEvent::Ready);
    step(&mut walk, WalkEvent::Ready);
    assert_eq!(
        walk.step(entry(EntryKind::Symlink, &["l"])).unwrap_err(),
        "recursive push does not follow symlink /local/l"
    );
    let odd = WalkEvent::Entry(TreeEntry {
        kind: EntryKind::Symlink,
        relative: vec![PathPart::Other],
        shown: "../l".to_string(),
        shown_whole: "/l".to_string(),
    });
    assert_eq!(walk.step(odd).unwrap_err(), "unsupported local path component in ../l");
}

#[test]
fn pushed_bytes_are_counted_up_to_a_limit() {
    let mut walk = PushWalk::new("/t".to_string(), 2);
    step(&mut walk, WalkEvent::Ready);
    step(&mut walk, WalkEvent::Ready);
    assert!(matches!(step(&mut walk, entry(EntryKind::File, &["a"])), WalkAction::Send(_)));
    step(&mut walk, WalkEvent::Ready);
    assert!(matches!(step(&mut walk, entry(EntryKind::File, &["b"])), WalkAction::Send(_)));
    step(&mut walk, WalkEvent::Ready);
    assert!(matches!(step(&mut walk, entry(EntryKind::File, &["c"])), WalkAction::Wait));
    step(&mut walk, WalkEvent::Moved(u64::MAX));
    assert_eq!(
        walk.step(WalkEvent::Moved(1)).unwrap_err(),
        "transfer byte count overflow"
    );
    assert_eq!(walk.totals().files, 2);
}

#[test]
fn a_tree_is_pulled_whole() {
    let files = vec!["/r/a/x".to_string(), "/r/y".to_string()];
    let mut walk = PullWalk::new("/r".to_string(), files, 1, false);
    assert!(!walk.takes(PullEvent::Moved(1)));
    match walk.step(PullEvent::Ready).unwrap() {
        PullAction::Prepare(names) => assert_eq!(names, ["a", "x"]),
        other => panic!("{other:?}"),
    }
    match walk.step(PullEvent::Ready).unwrap() {
        PullAction::Fetch(remote, names) => {
            assert_eq!(remote, "/r/a/x");
            assert_eq!(names, ["a", "x"]);
        }
        other => panic!("{other:?}"),
    }
    assert!(matches!(walk.step(PullEvent::Ready).unwrap(), PullAction::Prepare(_)));
    assert!(matches!(walk.step(PullEvent::Ready).unwrap(), PullAction::Wait));
    match walk.step(PullEvent::Moved(4)).unwrap() {
        PullAction::Fetch(remote, names) => {
            assert_eq!(remote, "/r/y");
            assert_eq!(names, ["y"]);
        }
        other => panic!("{other:?}"),
    }
    assert!(matches!(walk.step(PullEvent::Ready).unwrap(), PullAction::Wait));
    assert!(matches!(walk.step(PullEvent::Moved(5)).unwrap(), PullAction::Done));
    assert_eq!((walk.totals().files, walk.totals().bytes), (2, 9));
}

#[test]
fn a_pull_ends_at_an_unsafe_path() {
    for (path, windows, message) in [
        ("/q/x", false, "'/q/x' is outside '/r'"),
        ("/r/../x", false, "unsafe remote path '/r/../x'"),
        ("/r/c:x", true, "unsafe remote path '/r/c:x'"),
    ] {
        let mut walk = PullWalk::new("/r".to_string(), vec![path.to_string()], 4, windows);
        assert_eq!(walk.step(PullEvent::Ready).unwrap_err(), message);
    }
    let mut empty = PullWalk::new("/r".to_string(), Vec::new(), 4, false);
    assert!(matches!(empty.step(PullEvent::Ready).unwrap(), PullAction::Done));
}
