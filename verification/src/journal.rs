//! The toggle journal: the list of file moves of one toggle, each marked when it is done,
//! so that an interrupted toggle can be recovered.
use vstd::prelude::*;

verus! {

/// A single file move tracked in the journal. `done` becomes true once the file has moved.
#[derive(Debug, Clone, PartialEq)]
pub struct FilePair {
    pub src: String,
    pub dst: String,
    pub done: bool,
}

/// A journal entry whose toggle did not finish.
#[derive(Debug, Clone)]
pub struct IncompleteJournalEntry {
    pub id: i64,
    pub mod_id: i64,
    pub operation: String,
    pub files: Vec<FilePair>,
}

/// A journal move as text: where the file is, where it goes, and whether it moved.
pub struct PairView {
    pub src: Seq<char>,
    pub dst: Seq<char>,
    pub done: bool,
}

impl View for FilePair {
    type V = PairView;

    open spec fn view(&self) -> PairView {
        PairView { src: self.src@, dst: self.dst@, done: self.done }
    }
}

impl FilePair {
    /// A field-by-field copy.
    pub fn duplicate(&self) -> (r: Self)
        ensures
            r == *self,
    {
        FilePair { src: self.src.clone(), dst: self.dst.clone(), done: self.done }
    }
}

/// The moves of `files` that are not done yet, in journal order.
pub open spec fn pending(files: Seq<FilePair>) -> Seq<FilePair>
    decreases files.len(),
{
    if files.len() == 0 {
        Seq::empty()
    } else if files.last().done {
        pending(files.drop_last())
    } else {
        pending(files.drop_last()).push(files.last())
    }
}

/// Recovery: given the moves of an interrupted journal, returns those still to be
/// processed (`done == false`), in journal order.
pub fn pending_files(files: &[FilePair]) -> (r: Vec<&FilePair>)
    ensures
        r@.map_values(|p: &FilePair| *p) == pending(files@),
{
    let mut r: Vec<&FilePair> = Vec::new();
    let n = files.len();
    for i in 0..n
        invariant
            n == files@.len(),
            r@.map_values(|p: &FilePair| *p) == pending(files@.take(i as int)),
    {
        assert(files@.take(i + 1).drop_last() =~= files@.take(i as int));
        if !files[i].done {
            r.push(&files[i]);
        }
        assert(r@.map_values(|p: &FilePair| *p) =~= pending(files@.take(i + 1)));
    }
    assert(files@.take(n as int) =~= files@);
    r
}

/// Records in a journal's move list that the move at `index` is done.
pub fn mark_file_done(files: &mut Vec<FilePair>, index: usize)
    requires
        index < old(files)@.len(),
    ensures
        final(files)@ == old(files)@.update(index as int, FilePair { done: true, ..old(files)@[index as int] }),
{
    let mut p = files[index].duplicate();
    p.done = true;
    files.set(index, p);
}

/// The move list of a fresh journal after its first `k` moves were marked done.
pub open spec fn marked_upto(files: Seq<FilePair>, k: int) -> Seq<FilePair> {
    Seq::new(files.len(), |i: int| if i < k { FilePair { done: true, ..files[i] } } else { files[i] })
}

/// No move of the list is done yet (a journal as it begins).
pub open spec fn none_done(files: Seq<FilePair>) -> bool {
    forall|i: int| 0 <= i < files.len() ==> !files[i].done
}

/// Every move of the list is done.
pub open spec fn all_done(files: Seq<FilePair>) -> bool {
    forall|i: int| 0 <= i < files.len() ==> files[i].done
}

/// A move list has nothing pending exactly when every move in it is done.
pub proof fn lemma_nothing_pending_iff_all_done(files: Seq<FilePair>)
    ensures
        pending(files).len() == 0 <==> all_done(files),
    decreases files.len(),
{
    if files.len() > 0 {
        lemma_nothing_pending_iff_all_done(files.drop_last());
        if all_done(files.drop_last()) && files.last().done {
            assert forall|i: int| 0 <= i < files.len() implies files[i].done by {
                if i < files.len() - 1 {
                    assert(files.drop_last()[i] == files[i]);
                }
            }
        }
        if all_done(files) {
            assert forall|i: int| 0 <= i < files.drop_last().len() implies files.drop_last()[i].done by {
                assert(files.drop_last()[i] == files[i]);
            }
        }
    }
}

proof fn lemma_pending_of_done_prefix(files: Seq<FilePair>, k: int)
    requires
        0 <= k <= files.len(),
        forall|i: int| 0 <= i < k ==> files[i].done,
        forall|i: int| k <= i < files.len() ==> !files[i].done,
    ensures
        pending(files) == files.skip(k),
    decreases files.len(),
{
    if files.len() == 0 {
        assert(files.skip(k) =~= Seq::<FilePair>::empty());
    } else if files.len() == k {
        lemma_nothing_pending_iff_all_done(files);
        assert(files.skip(k) =~= Seq::<FilePair>::empty());
    } else {
        let d = files.drop_last();
        assert forall|i: int| 0 <= i < k implies d[i].done by {
            assert(d[i] == files[i]);
        }
        assert forall|i: int| k <= i < d.len() implies !d[i].done by {
            assert(d[i] == files[i]);
        }
        lemma_pending_of_done_prefix(d, k);
        assert(files.skip(k) =~= d.skip(k).push(files.last()));
    }
}

/// Marking the move at `k` of a list whose first `k` moves are marked yields the list whose
/// first `k + 1` moves are marked.
pub proof fn lemma_mark_next(files: Seq<FilePair>, k: int)
    requires
        0 <= k < files.len(),
    ensures
        marked_upto(files, k).update(k, FilePair { done: true, ..marked_upto(files, k)[k] })
            == marked_upto(files, k + 1),
{
    assert(marked_upto(files, k).update(k, FilePair { done: true, ..marked_upto(files, k)[k] })
        =~= marked_upto(files, k + 1));
}

/// Crash recovery resumes exactly where a toggle stopped: if a journal began with no move
/// done and its first `k` moves were then marked done, the moves still pending are exactly
/// the moves from index `k` on, in order.
pub proof fn lemma_recovery_resumes_after_done_prefix(files: Seq<FilePair>, k: int)
    requires
        0 <= k <= files.len(),
        none_done(files),
    ensures
        pending(marked_upto(files, k)) == files.skip(k),
{
    let m = marked_upto(files, k);
    lemma_pending_of_done_prefix(m, k);
    assert(m.skip(k) =~= files.skip(k));
}

} // verus!
