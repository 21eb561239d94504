use iris::mover::{digests_match, ContentHasher, MoveAction, MoveEvent, MoveStage, MoveState};

fn digest(parts: &[&[u8]]) -> Vec<u8> {
    let mut h = ContentHasher::new();
    for p in parts {
        h.update(p);
    }
    h.digest()
}

#[test]
fn digest_is_blake3_of_the_concatenation() {
    let whole = digest(&[b"hello world"]);
    assert_eq!(whole.len(), 32);
    assert_eq!(whole, digest(&[b"hello ", b"world"]));
    assert_ne!(whole, digest(&[b"hello world!"]));
    assert_eq!(whole, blake3::hash(b"hello world").as_bytes().to_vec());
}

#[test]
fn rename_success_finishes() {
    let s = MoveState::new(false);
    let (s2, a) = s.step(MoveEvent::Renamed(true));
    assert_eq!(s2.stage, MoveStage::Done);
    assert!(matches!(a, MoveAction::Finish(Ok(()))));
}

#[test]
fn verified_copy_removes_source() {
    let s = MoveState::new(false);
    let (s, a) = s.step(MoveEvent::Renamed(false));
    assert!(matches!(a, MoveAction::CopyFile));
    let (s, a) = s.step(MoveEvent::Copied(Ok(())));
    assert!(matches!(a, MoveAction::ReadSizes));
    let (s, a) = s.step(MoveEvent::Sizes(Ok((5, 5))));
    assert!(matches!(a, MoveAction::HashBoth));
    let (s, a) = s.step(MoveEvent::Digests(Ok((digest(&[b"abcde"]), digest(&[b"abcde"])))));
    assert!(matches!(a, MoveAction::RemoveSource));
    let (_, a) = s.step(MoveEvent::SourceRemoved(Ok(())));
    assert!(matches!(a, MoveAction::Finish(Ok(()))));
}

#[test]
fn corrupted_copy_is_discarded_and_source_kept() {
    let s = MoveState { is_dir: false, stage: MoveStage::CheckingDigests };
    let (s, a) = s.step(MoveEvent::Digests(Ok((digest(&[b"abcde"]), digest(&[b"abcdX"])))));
    assert!(matches!(a, MoveAction::RemoveDestination));
    let (s, a) = s.step(MoveEvent::DestinationRemoved);
    assert_eq!(s.stage, MoveStage::Done);
    match a {
        MoveAction::Finish(Err(e)) => assert_eq!(e, "hash mismatch after copy"),
        _ => panic!("expected a failure"),
    }
}

#[test]
fn size_mismatch_is_discarded() {
    let s = MoveState { is_dir: false, stage: MoveStage::CheckingSizes };
    let (s, a) = s.step(MoveEvent::Sizes(Ok((5, 4))));
    assert!(matches!(a, MoveAction::RemoveDestination));
    let (_, a) = s.step(MoveEvent::DestinationRemoved);
    match a {
        MoveAction::Finish(Err(e)) => assert_eq!(e, "size mismatch after copy"),
        _ => panic!("expected a failure"),
    }
}

#[test]
fn copy_and_removal_errors_are_prefixed() {
    let s = MoveState { is_dir: false, stage: MoveStage::Copying };
    match s.step(MoveEvent::Copied(Err("disk full".to_string()))).1 {
        MoveAction::Finish(Err(e)) => assert_eq!(e, "copy failed: disk full"),
        _ => panic!("expected a failure"),
    }
    let s = MoveState { is_dir: false, stage: MoveStage::RemovingSource };
    match s.step(MoveEvent::SourceRemoved(Err("busy".to_string()))).1 {
        MoveAction::Finish(Err(e)) => assert_eq!(e, "remove src failed: busy"),
        _ => panic!("expected a failure"),
    }
}

#[test]
fn directory_fallback_copies_tree_then_removes_it() {
    let s = MoveState::new(true);
    let (s, a) = s.step(MoveEvent::Renamed(false));
    assert!(matches!(a, MoveAction::CopyTree));
    let (s, a) = s.step(MoveEvent::Copied(Ok(())));
    assert!(matches!(a, MoveAction::RemoveSourceTree));
    let (_, a) = s.step(MoveEvent::SourceRemoved(Ok(())));
    assert!(matches!(a, MoveAction::Finish(Ok(()))));
}

#[test]
fn digest_comparison() {
    assert!(digests_match(&vec![1, 2, 3], &vec![1, 2, 3]));
    assert!(!digests_match(&vec![1, 2, 3], &vec![1, 2]));
    assert!(!digests_match(&vec![1, 2, 3], &vec![1, 2, 4]));
}
