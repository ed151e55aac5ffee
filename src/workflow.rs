//! Staging files into a store before they are removed, and restoring them from it.
//!
//! The functions here decide; the caller performs what they decide on the file
//! system (reading contents beforehand, removing or writing files afterwards).

use crate::cache::{after_stores, lookup, Cache, Entries};
use crate::codec::{decode_key, decodes_as, encode_file_path, key_of, CodecError};
use vstd::prelude::*;

verus! {

/// What a path names on the file system.
#[derive(Debug, Clone, Copy, PartialEq, Eq, Structural)]
pub enum EntryKind {
    File,
    EmptyDirectory,
    /// A directory with entries in it.
    Directory,
}

/// The flags of a removal.
#[derive(Debug, Clone, Copy, PartialEq, Eq, Structural)]
pub struct RemoveOptions {
    /// Stage each file's contents in the store before removing it.
    pub use_cache: bool,
    /// Directories may be removed.
    pub include_dirs: bool,
    /// Directories with entries may be removed, with everything under them.
    pub recursive: bool,
}

/// One path to remove, as found on the file system.
pub struct StageItem {
    /// The canonical path.
    pub path: String,
    pub kind: EntryKind,
    /// The file's bytes, or `None` when they could not be read.
    pub content: Option<Vec<u8>>,
}

/// Why a path is left in place without an error.
#[derive(Debug, Clone, Copy, PartialEq, Eq, Structural)]
pub enum SkipReason {
    /// A directory, and directories were not asked for.
    DirectoryNotIncluded,
    /// A directory with entries, and removal is not recursive.
    DirectoryNotEmpty,
}

/// Why a path is left in place with an error.
#[derive(Debug, Clone, Copy, PartialEq, Eq, Structural)]
pub enum StageError {
    /// The file's contents could not be read, so they cannot be staged.
    Unreadable,
    /// A directory has no contents that the store can hold.
    DirectoryNotCacheable,
}

/// What becomes of one path.
#[derive(Debug, Clone, Copy, PartialEq, Eq, Structural)]
pub enum Decision {
    Skip(SkipReason),
    Fail(StageError),
    /// Remove without staging.
    Remove,
    /// Store the contents under the path's key; remove only once that succeeded.
    CacheThenRemove,
}

/// The decision for one path, with the key to store under where there is one.
#[derive(Debug)]
pub struct StagePlan {
    pub decision: Decision,
    pub key: Option<String>,
}

/// The rule that decides what becomes of a path.
pub open spec fn decide(kind: EntryKind, readable: bool, opts: RemoveOptions) -> Decision {
    if kind != EntryKind::File && !opts.include_dirs {
        Decision::Skip(SkipReason::DirectoryNotIncluded)
    } else if kind == EntryKind::Directory && !opts.recursive {
        Decision::Skip(SkipReason::DirectoryNotEmpty)
    } else if !opts.use_cache {
        Decision::Remove
    } else if kind != EntryKind::File {
        Decision::Fail(StageError::DirectoryNotCacheable)
    } else if !readable {
        Decision::Fail(StageError::Unreadable)
    } else {
        Decision::CacheThenRemove
    }
}

/// `plan` is the plan for `item`.
pub open spec fn plans(item: StageItem, opts: RemoveOptions, plan: StagePlan) -> bool {
    &&& plan.decision == decide(item.kind, item.content is Some, opts)
    &&& plan.key is Some <==> plan.decision == Decision::CacheThenRemove
    &&& plan.key is Some ==> plan.key->Some_0@ == key_of(item.path@)
}

/// The writes into the store that staging `items` makes, in order.
pub open spec fn staged_writes(items: Seq<StageItem>, opts: RemoveOptions) -> Seq<
    (Seq<char>, Seq<u8>),
>
    decreases items.len(),
{
    if items.len() == 0 {
        Seq::empty()
    } else {
        let last = items.last();
        let before = staged_writes(items.drop_last(), opts);
        if decide(last.kind, last.content is Some, opts) == Decision::CacheThenRemove {
            before.push((key_of(last.path@), last.content->Some_0@))
        } else {
            before
        }
    }
}

/// Decides what becomes of one path.
pub fn plan_staging(item: &StageItem, opts: RemoveOptions) -> (r: StagePlan)
    ensures
        plans(*item, opts, r),
{
    let is_file = match item.kind {
        EntryKind::File => true,
        _ => false,
    };
    let decision = if !is_file && !opts.include_dirs {
        Decision::Skip(SkipReason::DirectoryNotIncluded)
    } else if item.kind == EntryKind::Directory && !opts.recursive {
        Decision::Skip(SkipReason::DirectoryNotEmpty)
    } else if !opts.use_cache {
        Decision::Remove
    } else if !is_file {
        Decision::Fail(StageError::DirectoryNotCacheable)
    } else if item.content.is_none() {
        Decision::Fail(StageError::Unreadable)
    } else {
        Decision::CacheThenRemove
    };
    if decision == Decision::CacheThenRemove {
        let key = encode_file_path(Some(item.path.as_str()));
        match key {
            Ok(k) => StagePlan { decision, key: Some(k) },
            Err(_) => StagePlan { decision, key: None },
        }
    } else {
        StagePlan { decision, key: None }
    }
}

/// Stages and plans the removal of each of `items` in order, storing the contents
/// of each file that is to be cached. A path that is skipped or fails does not
/// stop the ones after it.
pub fn stage_and_remove<C: Cache>(cache: &mut C, items: &Vec<StageItem>, opts: RemoveOptions) -> (r:
    Vec<StagePlan>)
    requires
        old(cache).inv(),
    ensures
        final(cache).inv(),
        r@.len() == items@.len(),
        forall|i: int| 0 <= i < items@.len() ==> plans(#[trigger] items@[i], opts, r@[i]),
        final(cache).contents() == after_stores(old(cache).contents(), staged_writes(items@, opts)),
{
    let ghost start = cache.contents();
    let mut out: Vec<StagePlan> = Vec::new();
    let mut i: usize = 0;
    while i < items.len()
        invariant
            cache.inv(),
            i <= items@.len(),
            out@.len() == i,
            forall|j: int| 0 <= j < i ==> plans(#[trigger] items@[j], opts, out@[j]),
            cache.contents() == after_stores(start, staged_writes(items@.take(i as int), opts)),
        decreases items@.len() - i,
    {
        let item = &items[i];
        let plan = plan_staging(item, opts);
        assert(items@.take(i + 1).drop_last() == items@.take(i as int));
        assert(items@.take(i + 1).last() == items@[i as int]);
        let ghost prev = staged_writes(items@.take(i as int), opts);
        match (&plan.key, &item.content) {
            (Some(k), Some(bytes)) => {
                let b = bytes.clone();
                cache.store(k.as_str(), b);
                let ghost w = (key_of(item.path@), bytes@);
                assert(staged_writes(items@.take(i + 1), opts) == prev.push(w));
                assert(prev.push(w).drop_last() == prev);
            },
            _ => {
                assert(staged_writes(items@.take(i + 1), opts) == prev);
            },
        }
        out.push(plan);
        i += 1;
    }
    assert(items@.take(i as int) == items@);
    out
}

/// What restoring one key leads to.
#[derive(Debug)]
pub enum RestoreOutcome {
    /// Write `content` to the file at `path`, creating missing parent directories.
    Write { path: String, content: Vec<u8> },
    /// Nothing is stored under the key; nothing is written.
    NotFound,
    /// Something is stored under the key, but it is the key of no path; nothing is written.
    Malformed,
}

/// `o` is what restoring `key` from a store holding `m` leads to.
pub open spec fn restores(m: Entries, key: Seq<char>, o: RestoreOutcome) -> bool {
    match lookup(m, key) {
        None => o is NotFound,
        Some(bytes) => match o {
            RestoreOutcome::Write { path, content } => decodes_as(
                key,
                Ok::<String, CodecError>(path),
            ) && content@ == bytes,
            RestoreOutcome::Malformed => decodes_as(
                key,
                Err::<String, CodecError>(CodecError::Malformed),
            ),
            RestoreOutcome::NotFound => false,
        },
    }
}

/// Restores each of `keys` in order from the store. The store is only read, so
/// its entries stay for later restores.
pub fn restore<C: Cache>(cache: &C, keys: &Vec<String>) -> (r: Vec<RestoreOutcome>)
    requires
        cache.inv(),
    ensures
        r@.len() == keys@.len(),
        forall|i: int| 0 <= i < keys@.len() ==> restores(cache.contents(), keys@[i]@, #[trigger] r@[i]),
{
    let mut out: Vec<RestoreOutcome> = Vec::new();
    let mut i: usize = 0;
    while i < keys.len()
        invariant
            cache.inv(),
            i <= keys@.len(),
            out@.len() == i,
            forall|j: int| 0 <= j < i ==> restores(cache.contents(), keys@[j]@, #[trigger] out@[j]),
        decreases keys@.len() - i,
    {
        let key = keys[i].as_str();
        let outcome = match cache.load(key) {
            None => RestoreOutcome::NotFound,
            Some(content) => match decode_key(key) {
                Ok(path) => RestoreOutcome::Write { path, content },
                Err(_) => RestoreOutcome::Malformed,
            },
        };
        out.push(outcome);
        i += 1;
    }
    out
}

/// A file system's regular files, viewed as a map from path to contents.
pub type Files = Map<Seq<char>, Seq<u8>>;

/// The files that `outcomes` write, the later write winning on one path.
pub open spec fn restore_writes(outcomes: Seq<RestoreOutcome>) -> Files
    decreases outcomes.len(),
{
    if outcomes.len() == 0 {
        Map::empty()
    } else {
        let before = restore_writes(outcomes.drop_last());
        match outcomes.last() {
            RestoreOutcome::Write { path, content } => before.insert(path@, content@),
            _ => before,
        }
    }
}

/// The files after carrying out `outcomes` on `fs`.
pub open spec fn after_restore(fs: Files, outcomes: Seq<RestoreOutcome>) -> Files {
    fs.union_prefer_right(restore_writes(outcomes))
}

/// Two restores of the same keys from the same store write the same files.
proof fn lemma_same_writes(m: Entries, keys: Seq<Seq<char>>, a: Seq<RestoreOutcome>, b: Seq<RestoreOutcome>)
    requires
        a.len() == keys.len(),
        b.len() == keys.len(),
        forall|i: int| 0 <= i < keys.len() ==> restores(m, keys[i], #[trigger] a[i]),
        forall|i: int| 0 <= i < keys.len() ==> restores(m, keys[i], #[trigger] b[i]),
    ensures
        restore_writes(a) == restore_writes(b),
    decreases keys.len(),
{
    if keys.len() > 0 {
        let n = keys.len() - 1;
        let ka = keys.drop_last();
        assert forall|i: int| 0 <= i < ka.len() implies restores(m, ka[i], #[trigger] a.drop_last()[i]) by {
            assert(restores(m, keys[i], a[i]));
        }
        assert forall|i: int| 0 <= i < ka.len() implies restores(m, ka[i], #[trigger] b.drop_last()[i]) by {
            assert(restores(m, keys[i], b[i]));
        }
        lemma_same_writes(m, ka, a.drop_last(), b.drop_last());
        assert(restores(m, keys[n], a[n]));
        assert(restores(m, keys[n], b[n]));
        match (a[n], b[n]) {
            (RestoreOutcome::Write { path: p, content: c }, RestoreOutcome::Write { path: q, content: d }) => {
                assert(p@ == q@);
            },
            _ => {},
        }
    }
}

/// Restoring a key that the store does not hold reports it as not found and leaves
/// every file as it was.
pub proof fn lemma_restore_unknown_key(m: Entries, key: Seq<char>, outcome: RestoreOutcome, fs: Files)
    requires
        !m.contains_key(key),
        restores(m, key, outcome),
    ensures
        outcome is NotFound,
        after_restore(fs, seq![outcome]) == fs,
{
    assert(seq![outcome].drop_last() == Seq::<RestoreOutcome>::empty());
    assert(restore_writes(seq![outcome]) == restore_writes(Seq::<RestoreOutcome>::empty()));
    assert(after_restore(fs, seq![outcome]) =~= fs);
}

/// Restoring the same keys from the same store a second time writes the same
/// contents as the first time and changes no file: restore is repeatable. The
/// store itself is only read by `restore`.
pub proof fn lemma_restore_repeatable(
    m: Entries,
    keys: Seq<Seq<char>>,
    first: Seq<RestoreOutcome>,
    second: Seq<RestoreOutcome>,
    fs: Files,
)
    requires
        first.len() == keys.len(),
        second.len() == keys.len(),
        forall|i: int| 0 <= i < keys.len() ==> restores(m, keys[i], #[trigger] first[i]),
        forall|i: int| 0 <= i < keys.len() ==> restores(m, keys[i], #[trigger] second[i]),
    ensures
        restore_writes(first) == restore_writes(second),
        after_restore(after_restore(fs, first), second) == after_restore(fs, first),
{
    lemma_same_writes(m, keys, first, second);
    assert(after_restore(after_restore(fs, first), second) =~= after_restore(fs, first));
}

} // verus!
