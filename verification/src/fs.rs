//! A plain-value model of the directory trees the collector walks.
//!
//! Listing directories is operating-system work and stays outside this
//! crate; what comes back in is a snapshot: for each collection source, the
//! tree of entries that was found under it, with each file's permission
//! bits, canonical path and parsed provider declarations. The collector's
//! walk over such a snapshot is ordinary verified code.

use vstd::prelude::*;

use crate::providers::{spec_known_provider, ProviderDecl};

verus! {

/// A candidate file found during collection.
pub struct FileEntry {
    /// The path as enumerated, used to derive the hook's display name.
    pub path: String,
    /// The canonicalized absolute path of the executable.
    pub canonical: String,
    /// The unix permission bits of the file.
    pub mode: u32,
    /// The provider declarations parsed out of the file's leading comments.
    pub decls: Vec<ProviderDecl>,
}

/// One entry of a directory listing.
pub enum FsEntry {
    /// A subdirectory that could be listed, with its own listing.
    Dir(DirListing),
    /// A subdirectory whose listing failed: the error's description.
    DirUnreadable(String),
    /// A regular file.
    File(FileEntry),
    /// A file whose metadata could not be read: the error's description.
    FileUnreadable(String),
    /// A file whose provider declarations could not be parsed: the
    /// rejected input's description.
    FileInvalid(String),
}

/// The entries of one directory, in enumeration order.
pub struct DirListing {
    pub entries: Vec<FsEntry>,
}

/// One collection source: the directory's path, and its listing, or
/// `None` when the directory itself could not be listed.
pub struct FsRoot {
    pub path: String,
    pub listing: Option<DirListing>,
}

/// The directory trees of every collection source, taken at one instant.
pub struct FsSnapshot {
    pub roots: Vec<FsRoot>,
}

/// A file qualifies as a hook when it is executable and readable by
/// someone.
pub open spec fn spec_qualifies(mode: u32) -> bool {
    mode & 0o111 != 0 && mode & 0o444 != 0
}

/// A file qualifies as a hook when it is executable and readable by
/// someone.
pub fn qualifies(mode: u32) -> (r: bool)
    ensures
        r == spec_qualifies(mode),
{
    mode & 0o111 != 0 && mode & 0o444 != 0
}

/// The name of the first declared provider without an implementation.
pub open spec fn spec_first_unknown(decls: Seq<ProviderDecl>) -> Option<String>
    decreases decls.len(),
{
    if decls.len() == 0 {
        None
    } else if !spec_known_provider(decls[0].name@) {
        Some(decls[0].name)
    } else {
        spec_first_unknown(decls.drop_first())
    }
}

/// What stopped a collection walk.
pub enum CollectFailure {
    /// A directory or file could not be read: the error's description.
    Io(String),
    /// A file's provider declarations were malformed: the rejected
    /// input's description.
    Invalid(String),
    /// A declared provider name has no implementation.
    UnknownProvider(String),
}

/// The weight of a listing: one per entry, counted through subtrees.
pub open spec fn spec_entries_size(s: Seq<FsEntry>) -> nat
    decreases s,
{
    if s.len() == 0 {
        0
    } else {
        (match s[0] {
            FsEntry::Dir(l) => 1 + spec_entries_size(l.entries@),
            _ => 1nat,
        }) + spec_entries_size(s.drop_first())
    }
}

/// The combined weight of the listings still queued.
pub open spec fn spec_queue_size(q: Seq<Seq<FsEntry>>) -> nat
    decreases q,
{
    if q.len() == 0 {
        0
    } else {
        spec_entries_size(q[0]) + spec_queue_size(q.drop_first())
    }
}

pub proof fn lemma_queue_size_first(q: Seq<Seq<FsEntry>>)
    requires
        q.len() > 0,
    ensures
        spec_queue_size(q) == spec_entries_size(q[0]) + spec_queue_size(q.drop_first()),
{
}

pub proof fn lemma_queue_size_update_first(q: Seq<Seq<FsEntry>>, s: Seq<FsEntry>)
    requires
        q.len() > 0,
    ensures
        spec_queue_size(q.update(0, s)) == spec_entries_size(s) + spec_queue_size(q.drop_first()),
{
    let q2 = q.update(0, s);
    assert(q2.drop_first() =~= q.drop_first());
    lemma_queue_size_first(q2);
}

pub proof fn lemma_queue_size_push(q: Seq<Seq<FsEntry>>, s: Seq<FsEntry>)
    ensures
        spec_queue_size(q.push(s)) == spec_queue_size(q) + spec_entries_size(s),
    decreases q,
{
    if q.len() == 0 {
        assert(q.push(s).drop_first() =~= Seq::<Seq<FsEntry>>::empty());
        assert(q.push(s)[0] == s);
        assert(spec_queue_size(Seq::<Seq<FsEntry>>::empty()) == 0);
        lemma_queue_size_first(q.push(s));
    } else {
        assert(q.push(s).drop_first() =~= q.drop_first().push(s));
        lemma_queue_size_push(q.drop_first(), s);
        assert(q.push(s)[0] == q[0]);
        lemma_queue_size_first(q.push(s));
        lemma_queue_size_first(q);
    }
}

/// One walk step's effect on the queue: the first entry of the first
/// listing is consumed; a subdirectory's listing, when recursion is on,
/// is appended at the back.
pub open spec fn spec_step_queue(q: Seq<Seq<FsEntry>>, recursive: bool) -> Seq<Seq<FsEntry>>
    recommends
        q.len() > 0,
        q[0].len() > 0,
{
    let q2 = q.update(0, q[0].drop_first());
    match q[0][0] {
        FsEntry::Dir(l) => if recursive {
            q2.push(l.entries@)
        } else {
            q2
        },
        _ => q2,
    }
}

/// The outcome of walking a queue of listings breadth first: the
/// qualifying files with resolvable declarations, in walk order, up to the
/// first failure, and that failure. Files whose permission bits disqualify
/// them are skipped silently; a subdirectory is descended into only when
/// recursion is on; an unreadable subdirectory is a failure only when the
/// walk would have descended into it.
pub open spec fn spec_collect(q: Seq<Seq<FsEntry>>, recursive: bool) -> (Seq<FileEntry>, Option<
    CollectFailure,
>)
    decreases spec_queue_size(q), q.len(),
    via spec_collect_decreases
{
    if q.len() == 0 {
        (Seq::empty(), None)
    } else if q[0].len() == 0 {
        spec_collect(q.drop_first(), recursive)
    } else {
        let rest = spec_collect(spec_step_queue(q, recursive), recursive);
        match q[0][0] {
            FsEntry::File(f) => {
                if !spec_qualifies(f.mode) {
                    rest
                } else {
                    match spec_first_unknown(f.decls@) {
                        Some(name) => (
                            Seq::empty(),
                            Some(CollectFailure::UnknownProvider(name)),
                        ),
                        None => (seq![f] + rest.0, rest.1),
                    }
                }
            },
            FsEntry::FileUnreadable(msg) => (Seq::empty(), Some(CollectFailure::Io(msg))),
            FsEntry::FileInvalid(detail) => (
                Seq::empty(),
                Some(CollectFailure::Invalid(detail)),
            ),
            FsEntry::Dir(_) => rest,
            FsEntry::DirUnreadable(msg) => {
                if recursive {
                    (Seq::empty(), Some(CollectFailure::Io(msg)))
                } else {
                    rest
                }
            },
        }
    }
}

#[via_fn]
proof fn spec_collect_decreases(q: Seq<Seq<FsEntry>>, recursive: bool) {
    if q.len() > 0 {
        lemma_queue_size_first(q);
        if q[0].len() > 0 {
            let first = q[0];
            let q2 = q.update(0, first.drop_first());
            lemma_queue_size_update_first(q, first.drop_first());
            assert(spec_entries_size(first) == (match first[0] {
                FsEntry::Dir(l) => 1 + spec_entries_size(l.entries@),
                _ => 1nat,
            }) + spec_entries_size(first.drop_first()));
            if let FsEntry::Dir(l) = first[0] {
                lemma_queue_size_push(q2, l.entries@);
            }
        }
    }
}

/// A walk collects at most one file per queued entry: the number of
/// collected files is bounded by the queue's weight.
pub proof fn lemma_collect_files_bound(q: Seq<Seq<FsEntry>>, recursive: bool)
    ensures
        spec_collect(q, recursive).0.len() <= spec_queue_size(q),
    decreases spec_queue_size(q), q.len(),
{
    if q.len() == 0 {
    } else if q[0].len() == 0 {
        lemma_queue_size_first(q);
        lemma_collect_files_bound(q.drop_first(), recursive);
    } else {
        let first = q[0];
        let q2 = q.update(0, first.drop_first());
        lemma_queue_size_first(q);
        lemma_queue_size_update_first(q, first.drop_first());
        assert(spec_entries_size(first) == (match first[0] {
            FsEntry::Dir(l) => 1 + spec_entries_size(l.entries@),
            _ => 1nat,
        }) + spec_entries_size(first.drop_first()));
        match first[0] {
            FsEntry::Dir(l) => {
                if recursive {
                    lemma_queue_size_push(q2, l.entries@);
                    lemma_collect_files_bound(q2.push(l.entries@), recursive);
                } else {
                    lemma_collect_files_bound(q2, recursive);
                }
            },
            _ => {
                lemma_collect_files_bound(q2, recursive);
            },
        }
    }
}

/// Validity of a whole listing tree: every entry, to any depth, is a
/// regular file whose declared providers all resolve, or a listable
/// subdirectory whose own tree is valid; nothing is unreadable or
/// malformed.
pub open spec fn spec_tree_valid(s: Seq<FsEntry>) -> bool
    decreases s,
{
    if s.len() == 0 {
        true
    } else {
        (match s[0] {
            FsEntry::File(f) => spec_first_unknown(f.decls@) is None,
            FsEntry::Dir(l) => spec_tree_valid(l.entries@),
            _ => false,
        }) && spec_tree_valid(s.drop_first())
    }
}

/// Collecting a directory tree in which every entry, to any depth, is a
/// regular file with resolvable declarations or a listable subdirectory
/// never fails, whether or not the walk recurses: it yields exactly the
/// qualifying files of the walk, one per file, and no error.
pub proof fn lemma_collect_valid_tree_no_failure(q: Seq<Seq<FsEntry>>, recursive: bool)
    requires
        forall|i: int| 0 <= i < q.len() ==> spec_tree_valid(#[trigger] q[i]),
    ensures
        spec_collect(q, recursive).1 is None,
    decreases spec_queue_size(q), q.len(),
{
    if q.len() == 0 {
    } else if q[0].len() == 0 {
        lemma_queue_size_first(q);
        let q2 = q.drop_first();
        assert(forall|i: int| 0 <= i < q2.len() ==> spec_tree_valid(#[trigger] q2[i])) by {
            assert(forall|i: int| 0 <= i < q2.len() ==> q2[i] == q[i + 1]);
        }
        lemma_collect_valid_tree_no_failure(q2, recursive);
    } else {
        let first = q[0];
        let q2 = q.update(0, first.drop_first());
        lemma_queue_size_first(q);
        lemma_queue_size_update_first(q, first.drop_first());
        assert(spec_entries_size(first) == (match first[0] {
            FsEntry::Dir(l) => 1 + spec_entries_size(l.entries@),
            _ => 1nat,
        }) + spec_entries_size(first.drop_first()));
        assert(spec_tree_valid(first));
        assert(forall|i: int| 0 <= i < q2.len() ==> spec_tree_valid(#[trigger] q2[i])) by {
            assert(forall|i: int| 1 <= i < q2.len() ==> q2[i] == q[i]);
            assert(q2[0] == first.drop_first());
        }
        match first[0] {
            FsEntry::Dir(l) => {
                if recursive {
                    let q3 = q2.push(l.entries@);
                    lemma_queue_size_push(q2, l.entries@);
                    assert(forall|i: int| 0 <= i < q3.len() ==> spec_tree_valid(#[trigger] q3[i]))
                        by {
                        assert(forall|i: int| 0 <= i < q2.len() ==> q3[i] == q2[i]);
                        assert(q3[q2.len() as int] == l.entries@);
                        assert(spec_tree_valid(l.entries@));
                    }
                    lemma_collect_valid_tree_no_failure(q3, recursive);
                } else {
                    lemma_collect_valid_tree_no_failure(q2, recursive);
                }
            },
            FsEntry::File(f) => {
                lemma_collect_valid_tree_no_failure(q2, recursive);
                assert(spec_first_unknown(f.decls@) is None);
            },
            _ => {
                assert(false);
            },
        }
    }
}

/// A readable file entry whose declared providers all resolve.
pub open spec fn spec_valid_file(e: FsEntry) -> bool {
    e matches FsEntry::File(f) && spec_first_unknown(f.decls@) is None
}

/// The qualifying files of a flat listing, in enumeration order.
pub open spec fn spec_flat_files(entries: Seq<FsEntry>) -> Seq<FileEntry>
    decreases entries.len(),
{
    if entries.len() == 0 {
        Seq::empty()
    } else {
        (if entries[0] matches FsEntry::File(f) && spec_qualifies(f.mode) {
            seq![entries[0]->File_0]
        } else {
            Seq::empty()
        }) + spec_flat_files(entries.drop_first())
    }
}

/// Collecting a flat directory whose files all carry valid provider
/// declarations yields exactly one file per executable-and-readable entry,
/// in enumeration order, zero for the others, and no failure.
pub proof fn lemma_collect_flat_exact(entries: Seq<FsEntry>)
    requires
        forall|i: int| 0 <= i < entries.len() ==> spec_valid_file(#[trigger] entries[i]),
    ensures
        spec_collect(seq![entries], false).1 is None,
        spec_collect(seq![entries], false).0 == spec_flat_files(entries),
    decreases entries.len(),
{
    let q = seq![entries];
    if entries.len() == 0 {
        assert(q[0].len() == 0);
        assert(q.drop_first() =~= Seq::<Seq<FsEntry>>::empty());
        assert(spec_collect(Seq::<Seq<FsEntry>>::empty(), false) == (
            Seq::<FileEntry>::empty(),
            None::<CollectFailure>,
        ));
        assert(spec_collect(q, false).0 =~= spec_flat_files(entries));
    } else {
        let tail = entries.drop_first();
        assert(forall|i: int| 0 <= i < tail.len() ==> spec_valid_file(#[trigger] tail[i])) by {
            assert(forall|i: int| 0 <= i < tail.len() ==> tail[i] == entries[i + 1]);
        }
        lemma_collect_flat_exact(tail);
        assert(spec_step_queue(q, false) =~= seq![tail]);
        assert(entries[0] matches FsEntry::File(_));
        let f = entries[0]->File_0;
        if spec_qualifies(f.mode) {
            assert(spec_collect(q, false).0 == seq![f] + spec_collect(seq![tail], false).0);
            assert(spec_flat_files(entries) == seq![f] + spec_flat_files(tail));
        } else {
            assert(spec_collect(q, false).0 == spec_collect(seq![tail], false).0);
            assert(spec_flat_files(entries) =~= spec_flat_files(tail));
        }
    }
}

} // verus!
