//! The decisions of a failure-safe move: rename first, and when that fails,
//! copy, check size and content digest, and only then remove the source.
//! The caller performs each action and reports what happened as an event.

use vstd::prelude::*;
use crate::text::{copy_str, push_str_chars};

verus! {

/// The BLAKE3 digest of a byte sequence.
pub uninterp spec fn blake3_digest(data: Seq<u8>) -> Seq<u8>;

/// The bytes a BLAKE3 hasher has absorbed so far.
pub uninterp spec fn hasher_input(h: blake3::Hasher) -> Seq<u8>;

/// `blake3::Hasher`, carried as an opaque value.
#[verifier::external_type_specification]
#[verifier::external_body]
pub struct ExHasher(blake3::Hasher);

/// Relies on `blake3::Hasher::new`: a hasher that has absorbed nothing.
#[verifier::external_body]
fn hasher_new() -> (r: blake3::Hasher)
    ensures
        hasher_input(r) == Seq::<u8>::empty(),
{
    blake3::Hasher::new()
}

/// Relies on `blake3::Hasher::update`: input given in pieces is absorbed as their concatenation.
#[verifier::external_body]
fn hasher_update(h: &mut blake3::Hasher, data: &[u8])
    ensures
        hasher_input(*final(h)) == hasher_input(*old(h)) + data@,
{
    h.update(data);
}

/// Relies on `blake3::Hasher::finalize`: the 32-byte digest of everything absorbed.
#[verifier::external_body]
fn hasher_finalize(h: &blake3::Hasher) -> (r: Vec<u8>)
    ensures
        r@ == blake3_digest(hasher_input(*h)),
        r@.len() == 32,
{
    h.finalize().as_bytes().to_vec()
}

/// A streaming BLAKE3 digest of content that arrives in chunks.
pub struct ContentHasher {
    inner: blake3::Hasher,
}

impl ContentHasher {
    /// The bytes absorbed so far.
    pub closed spec fn absorbed(&self) -> Seq<u8> {
        hasher_input(self.inner)
    }

    /// A hasher that has absorbed nothing.
    pub fn new() -> (r: ContentHasher)
        ensures
            r.absorbed() == Seq::<u8>::empty(),
    {
        ContentHasher { inner: hasher_new() }
    }

    /// Absorbs `chunk` after what came before.
    pub fn update(&mut self, chunk: &[u8])
        ensures
            final(self).absorbed() == old(self).absorbed() + chunk@,
    {
        hasher_update(&mut self.inner, chunk);
    }

    /// The digest of everything absorbed.
    pub fn digest(&self) -> (r: Vec<u8>)
        ensures
            r@ == blake3_digest(self.absorbed()),
            r@.len() == 32,
    {
        hasher_finalize(&self.inner)
    }
}

/// Whether two digests are equal.
pub fn digests_match(a: &Vec<u8>, b: &Vec<u8>) -> (r: bool)
    ensures
        r == (a@ == b@),
{
    if a.len() != b.len() {
        return false;
    }
    let mut i: usize = 0;
    while i < a.len()
        invariant
            a@.len() == b@.len(),
            i <= a@.len(),
            forall|k: int| 0 <= k < i ==> a@[k] == b@[k],
        decreases a@.len() - i,
    {
        if a[i] != b[i] {
            return false;
        }
        i = i + 1;
    }
    assert(a@ =~= b@);
    true
}

/// Where a move stands.
#[derive(Clone, Debug, PartialEq, Eq)]
pub enum MoveStage {
    /// The rename has been asked for.
    Renaming,
    /// The copy fallback (of a file, or of a whole directory tree) has been asked for.
    Copying,
    /// The sizes of source and copy have been asked for.
    CheckingSizes,
    /// The digests of source and copy have been asked for.
    CheckingDigests,
    /// The copy is verified and the source's removal has been asked for.
    RemovingSource,
    /// The copy failed verification for the given reason and its removal has been asked for.
    Discarding(String),
    /// The move is over.
    Done,
}

/// What the caller reports after performing an action.
pub enum MoveEvent {
    Renamed(bool),
    Copied(Result<(), String>),
    Sizes(Result<(u64, u64), String>),
    Digests(Result<(Vec<u8>, Vec<u8>), String>),
    SourceRemoved(Result<(), String>),
    DestinationRemoved,
}

/// What the caller is to do next.
pub enum MoveAction {
    CopyFile,
    CopyTree,
    ReadSizes,
    HashBoth,
    RemoveSource,
    RemoveSourceTree,
    RemoveDestination,
    Finish(Result<(), String>),
}

/// A move of one source to one destination; the caller first asks for a rename.
pub struct MoveState {
    pub is_dir: bool,
    pub stage: MoveStage,
}

/// `event` is a report on the action that `stage` asked for.
pub open spec fn answers(stage: MoveStage, event: MoveEvent) -> bool {
    match stage {
        MoveStage::Renaming => event is Renamed,
        MoveStage::Copying => event is Copied,
        MoveStage::CheckingSizes => event is Sizes,
        MoveStage::CheckingDigests => event is Digests,
        MoveStage::RemovingSource => event is SourceRemoved,
        MoveStage::Discarding(_) => event is DestinationRemoved,
        MoveStage::Done => false,
    }
}

/// The error reported when a step fails: `prefix` followed by the cause.
pub open spec fn failure(prefix: Seq<char>, cause: Seq<char>) -> Seq<char> {
    prefix + cause
}

fn prefixed(prefix: &str, cause: &String) -> (r: String)
    ensures
        r@ == failure(prefix@, cause@),
{
    let mut s = copy_str(prefix);
    push_str_chars(&mut s, cause.as_str());
    s
}

fn finish_err(e: String) -> (r: (MoveState, MoveAction))
    ensures
        r.0.stage == MoveStage::Done,
        r.1 matches MoveAction::Finish(Err(m)) && m@ == e@,
{
    (MoveState { is_dir: false, stage: MoveStage::Done }, MoveAction::Finish(Err(e)))
}

impl MoveState {
    /// A move that begins by asking for a rename.
    pub fn new(is_dir: bool) -> (r: MoveState)
        ensures
            r.is_dir == is_dir,
            r.stage == MoveStage::Renaming,
    {
        MoveState { is_dir, stage: MoveStage::Renaming }
    }

    /// The next state and action after `event`. A rename that succeeds ends the move; a file is
    /// otherwise copied, its size and digest compared, and its source removed only when both
    /// match; a copy that does not match is removed and the move fails with the source intact.
    pub fn step(&self, event: MoveEvent) -> (r: (MoveState, MoveAction))
        requires
            answers(self.stage, event),
        ensures
            r.0.is_dir == self.is_dir || r.0.stage == MoveStage::Done,
            r.1 is RemoveSource ==> (self.stage == MoveStage::CheckingDigests
                && (event matches MoveEvent::Digests(Ok((x, y))) && x@ == y@)),
            r.1 is RemoveDestination ==> r.0.stage is Discarding,
            match (self.stage, event) {
                (MoveStage::Renaming, MoveEvent::Renamed(ok)) =>
                    if ok {
                        r.0.stage == MoveStage::Done && r.1 matches MoveAction::Finish(Ok(()))
                    } else if self.is_dir {
                        r.0.stage == MoveStage::Copying && r.1 is CopyTree
                    } else {
                        r.0.stage == MoveStage::Copying && r.1 is CopyFile
                    },
                (MoveStage::Copying, MoveEvent::Copied(res)) => match res {
                    Err(e) => r.1 matches MoveAction::Finish(Err(m)) && r.0.stage == MoveStage::Done
                        && m@ == (if self.is_dir { e@ } else { failure("copy failed: "@, e@) }),
                    Ok(()) => if self.is_dir {
                        r.0.stage == MoveStage::RemovingSource && r.1 is RemoveSourceTree
                    } else {
                        r.0.stage == MoveStage::CheckingSizes && r.1 is ReadSizes
                    },
                },
                (MoveStage::CheckingSizes, MoveEvent::Sizes(res)) => match res {
                    Err(e) => r.1 matches MoveAction::Finish(Err(m)) && r.0.stage == MoveStage::Done && m@ == e@,
                    Ok((a, b)) => if a == b {
                        r.0.stage == MoveStage::CheckingDigests && r.1 is HashBoth
                    } else {
                        r.0.stage matches MoveStage::Discarding(why) && why@ == "size mismatch after copy"@
                            && r.1 is RemoveDestination
                    },
                },
                (MoveStage::CheckingDigests, MoveEvent::Digests(res)) => match res {
                    Err(e) => r.1 matches MoveAction::Finish(Err(m)) && r.0.stage == MoveStage::Done && m@ == e@,
                    Ok((x, y)) => if x@ == y@ {
                        r.0.stage == MoveStage::RemovingSource && r.1 is RemoveSource
                    } else {
                        r.0.stage matches MoveStage::Discarding(why) && why@ == "hash mismatch after copy"@
                            && r.1 is RemoveDestination
                    },
                },
                (MoveStage::RemovingSource, MoveEvent::SourceRemoved(res)) => match res {
                    Ok(()) => r.0.stage == MoveStage::Done && r.1 matches MoveAction::Finish(Ok(())),
                    Err(e) => r.1 matches MoveAction::Finish(Err(m)) && r.0.stage == MoveStage::Done
                        && m@ == (if self.is_dir { e@ } else { failure("remove src failed: "@, e@) }),
                },
                (MoveStage::Discarding(why), MoveEvent::DestinationRemoved) =>
                    r.1 matches MoveAction::Finish(Err(m)) && r.0.stage == MoveStage::Done && m@ == why@,
                _ => false,
            },
    {
        let is_dir = self.is_dir;
        match (&self.stage, event) {
            (MoveStage::Renaming, MoveEvent::Renamed(ok)) => {
                if ok {
                    (MoveState { is_dir, stage: MoveStage::Done }, MoveAction::Finish(Ok(())))
                } else if is_dir {
                    (MoveState { is_dir, stage: MoveStage::Copying }, MoveAction::CopyTree)
                } else {
                    (MoveState { is_dir, stage: MoveStage::Copying }, MoveAction::CopyFile)
                }
            },
            (MoveStage::Copying, MoveEvent::Copied(res)) => match res {
                Err(e) => if is_dir {
                    finish_err(e)
                } else {
                    finish_err(prefixed("copy failed: ", &e))
                },
                Ok(()) => if is_dir {
                    (MoveState { is_dir, stage: MoveStage::RemovingSource }, MoveAction::RemoveSourceTree)
                } else {
                    (MoveState { is_dir, stage: MoveStage::CheckingSizes }, MoveAction::ReadSizes)
                },
            },
            (MoveStage::CheckingSizes, MoveEvent::Sizes(res)) => match res {
                Err(e) => finish_err(e),
                Ok((a, b)) => if a == b {
                    (MoveState { is_dir, stage: MoveStage::CheckingDigests }, MoveAction::HashBoth)
                } else {
                    let why = copy_str("size mismatch after copy");
                    (MoveState { is_dir, stage: MoveStage::Discarding(why) }, MoveAction::RemoveDestination)
                },
            },
            (MoveStage::CheckingDigests, MoveEvent::Digests(res)) => match res {
                Err(e) => finish_err(e),
                Ok((x, y)) => if digests_match(&x, &y) {
                    (MoveState { is_dir, stage: MoveStage::RemovingSource }, MoveAction::RemoveSource)
                } else {
                    let why = copy_str("hash mismatch after copy");
                    (MoveState { is_dir, stage: MoveStage::Discarding(why) }, MoveAction::RemoveDestination)
                },
            },
            (MoveStage::RemovingSource, MoveEvent::SourceRemoved(res)) => match res {
                Ok(()) => (MoveState { is_dir, stage: MoveStage::Done }, MoveAction::Finish(Ok(()))),
                Err(e) => if is_dir {
                    finish_err(e)
                } else {
                    finish_err(prefixed("remove src failed: ", &e))
                },
            },
            (MoveStage::Discarding(why), MoveEvent::DestinationRemoved) => {
                finish_err(copy_str(why.as_str()))
            },
            _ => {
                proof {
                    assert(false);
                }
                finish_err(String::new())
            },
        }
    }
}

} // verus!
