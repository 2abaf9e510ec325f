//! Changes of the source tree, and the change set that a round starts from.
use vstd::prelude::*;
use crate::db::repositories::{is_listed, listed};

verus! {

/// A change of the source tree.
#[derive(Debug, Clone, PartialEq, Eq)]
pub enum FilesChange {
    RootChanged { root_files: Vec<String> },
    ArticlesChanged { files: Vec<String> },
    PagesChanged { files: Vec<String> },
    ArticlesDeleted { files: Vec<String> },
    PagesDeleted { files: Vec<String> },
}

/// The paths to compile and the paths to forget, for one round.
#[derive(Debug, Clone, PartialEq, Eq)]
pub struct ChangeSet {
    /// Whether `changed` is the whole corpus, as a scan found it.
    pub cold_start: bool,
    pub changed: Vec<String>,
    pub deleted: Vec<String>,
}

/// The paths of the articles that `changes` says have changed, in order.
pub open spec fn changed_in(changes: Seq<FilesChange>) -> Seq<String>
    decreases changes.len(),
{
    if changes.len() == 0 {
        Seq::empty()
    } else {
        changed_in(changes.drop_last()) + (match changes.last() {
            FilesChange::ArticlesChanged { files } => files@,
            _ => Seq::empty(),
        })
    }
}

/// The paths of the articles that `changes` says are gone, in order.
pub open spec fn deleted_in(changes: Seq<FilesChange>) -> Seq<String>
    decreases changes.len(),
{
    if changes.len() == 0 {
        Seq::empty()
    } else {
        deleted_in(changes.drop_last()) + (match changes.last() {
            FilesChange::ArticlesDeleted { files } => files@,
            _ => Seq::empty(),
        })
    }
}

/// `paths` without the repetitions: each path where it stands first.
pub open spec fn deduped(paths: Seq<String>) -> Seq<String>
    decreases paths.len(),
{
    if paths.len() == 0 {
        Seq::empty()
    } else {
        let front = deduped(paths.drop_last());
        if listed(front, paths.last()@) {
            front
        } else {
            front.push(paths.last())
        }
    }
}

/// Whether no two of `paths` are the same.
pub open spec fn all_distinct(paths: Seq<String>) -> bool {
    forall|a: int, b: int|
        0 <= a < b < paths.len() ==> (#[trigger] paths[a])@ != (#[trigger] paths[b])@
}

/// Without its repetitions, a list holds no path twice and no path that it
/// did not hold before.
pub proof fn lemma_deduped(paths: Seq<String>)
    ensures
        all_distinct(deduped(paths)),
        forall|a: int|
            0 <= a < deduped(paths).len() ==> listed(paths, (#[trigger] deduped(paths)[a])@),
        forall|a: int| 0 <= a < paths.len() ==> listed(deduped(paths), (#[trigger] paths[a])@),
    decreases paths.len(),
{
    if paths.len() > 0 {
        let front = paths.drop_last();
        lemma_deduped(front);
        let d = deduped(paths);
        let df = deduped(front);
        assert forall|a: int| 0 <= a < d.len() implies listed(paths, (#[trigger] d[a])@) by {
            if a < df.len() {
                assert(d[a] == df[a]);
                let k = choose|k: int| 0 <= k < front.len() && (#[trigger] front[k])@ == df[a]@;
                assert(paths[k] == front[k]);
            } else {
                assert(paths[paths.len() - 1]@ == d[a]@);
            }
        }
        assert forall|a: int| 0 <= a < paths.len() implies listed(d, (#[trigger] paths[a])@) by {
            if a < front.len() {
                assert(front[a] == paths[a]);
                let k = choose|k: int| 0 <= k < df.len() && (#[trigger] df[k])@ == front[a]@;
                assert(d[k] == df[k]);
            } else if listed(df, paths.last()@) {
                let k = choose|k: int| 0 <= k < df.len() && (#[trigger] df[k])@ == paths.last()@;
                assert(d[k] == df[k]);
            } else {
                assert(d[d.len() - 1] == paths.last());
            }
        }
        assert forall|a: int, b: int| 0 <= a < b < d.len() implies (#[trigger] d[a])@ != (
        #[trigger] d[b])@ by {
            if b < df.len() {
                assert(d[a] == df[a] && d[b] == df[b]);
            } else {
                assert(d[a] == df[a]);
            }
        }
    }
}

/// Appends copies of `more` to `out`.
pub fn extend_cloned(out: &mut Vec<String>, more: &Vec<String>)
    ensures
        final(out)@ == old(out)@ + more@,
{
    let mut i: usize = 0;
    proof {
        assert(out@ =~= old(out)@ + more@.take(0));
    }
    while i < more.len()
        invariant
            i <= more.len(),
            out@ == old(out)@ + more@.take(i as int),
        decreases more.len() - i,
    {
        out.push(more[i].clone());
        proof {
            assert(out@ =~= old(out)@ + more@.take(i + 1));
        }
        i = i + 1;
    }
    proof {
        assert(more@.take(more.len() as int) =~= more@);
    }
}

/// `paths` without the repetitions.
pub fn distinct(paths: &Vec<String>) -> (out: Vec<String>)
    ensures
        out@ == deduped(paths@),
{
    let mut out: Vec<String> = Vec::new();
    let mut i: usize = 0;
    proof {
        assert(paths@.take(0) =~= Seq::<String>::empty());
    }
    while i < paths.len()
        invariant
            i <= paths.len(),
            out@ == deduped(paths@.take(i as int)),
        decreases paths.len() - i,
    {
        proof {
            assert(paths@.take(i + 1).drop_last() =~= paths@.take(i as int));
            assert(paths@.take(i + 1).last() == paths@[i as int]);
        }
        if !is_listed(&out, &paths[i]) {
            out.push(paths[i].clone());
        }
        i = i + 1;
    }
    proof {
        assert(paths@.take(paths.len() as int) =~= paths@);
    }
    out
}

impl ChangeSet {
    /// The change set of a list of changes: the articles that changed are to
    /// be compiled, those that are gone are to be forgotten. Changes of
    /// pages and of the root do not count.
    pub fn from_changes(changes: &Vec<FilesChange>) -> (res: ChangeSet)
        ensures
            !res.cold_start,
            res.changed@ == changed_in(changes@),
            res.deleted@ == deleted_in(changes@),
    {
        let mut changed: Vec<String> = Vec::new();
        let mut deleted: Vec<String> = Vec::new();
        let mut i: usize = 0;
        proof {
            assert(changes@.take(0) =~= Seq::<FilesChange>::empty());
        }
        while i < changes.len()
            invariant
                i <= changes.len(),
                changed@ == changed_in(changes@.take(i as int)),
                deleted@ == deleted_in(changes@.take(i as int)),
            decreases changes.len() - i,
        {
            proof {
                assert(changes@.take(i + 1).drop_last() =~= changes@.take(i as int));
                assert(changes@.take(i + 1).last() == changes@[i as int]);
            }
            match &changes[i] {
                FilesChange::ArticlesChanged { files } => {
                    extend_cloned(&mut changed, files);
                    proof {
                        assert(deleted@ + Seq::<String>::empty() =~= deleted@);
                    }
                },
                FilesChange::ArticlesDeleted { files } => {
                    extend_cloned(&mut deleted, files);
                    proof {
                        assert(changed@ + Seq::<String>::empty() =~= changed@);
                    }
                },
                _ => {
                    proof {
                        assert(changed@ + Seq::<String>::empty() =~= changed@);
                        assert(deleted@ + Seq::<String>::empty() =~= deleted@);
                    }
                },
            }
            i = i + 1;
        }
        proof {
            assert(changes@.take(changes.len() as int) =~= changes@);
        }
        ChangeSet { cold_start: false, changed, deleted }
    }

    /// The change set of a scan: every article that was found is to be
    /// compiled, and the records of all others are to go.
    pub fn from_scan(article_files: Vec<String>) -> (res: ChangeSet)
        ensures
            res.cold_start,
            res.changed == article_files,
            res.deleted@.len() == 0,
    {
        ChangeSet { cold_start: true, changed: article_files, deleted: Vec::new() }
    }
}

} // verus!
