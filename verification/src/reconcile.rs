//! Reconciliation: what a round has compiled goes into the cache, and what
//! is gone from the source tree leaves it. This is the only place where the
//! cache of the orchestrator is written.
use vstd::prelude::*;
use crate::db;
use crate::db::models::{Article, ArticleView};
use crate::db::repositories::{
    conflicts, existing_only, holds_id, holds_path, lemma_filter_well_keyed, listed,
    listed_removed, server_path_taken, upserted, well_keyed, Cache,
};
use crate::generate_db::{Draft, Error};

verus! {

/// A document that did not make it into the cache, and why.
#[derive(Debug, Clone, PartialEq, Eq)]
pub struct Failure {
    pub path: String,
    pub error: Error,
}

/// What a reconciliation did.
#[derive(Debug, Clone, PartialEq, Eq)]
pub struct Reconciled {
    /// The records that were stored, in the order of the drafts.
    pub saved: Vec<Article>,
    /// The drafts that the cache did not take.
    pub failures: Vec<Failure>,
    /// The number of records that were removed.
    pub removed: usize,
}

/// Whether `record` is the record of the document at `path` with the content
/// of `draft`.
pub open spec fn holds_draft(record: ArticleView, path: Seq<char>, draft: Draft) -> bool {
    &&& record.local_path == path
    &&& record.server_path == draft.server_path@
    &&& record.title == draft.title@
    &&& record.html == draft.html@
    &&& record.published == draft.published
    &&& record.modified == draft.modified
    &&& record.modified_on_disk == draft.modified_on_disk
}

/// Whether some draft among `drafts` is for the document at `path`.
pub open spec fn drafted(drafts: Seq<(String, Draft)>, path: Seq<char>) -> bool {
    exists|j: int| 0 <= j < drafts.len() && (#[trigger] drafts[j]).0@ == path
}

/// Whether no two drafts are for the same document.
pub open spec fn one_draft_each(drafts: Seq<(String, Draft)>) -> bool {
    forall|i: int, j: int|
        0 <= i < j < drafts.len() ==> (#[trigger] drafts[i]).0@ != (#[trigger] drafts[j]).0@
}

/// Whether a record with the source path `path` may stay in the cache after
/// the cleaning of a round: in a round over the whole corpus, a record whose
/// path is among the paths that were found; else, a record whose path is not
/// among those that are gone.
pub open spec fn may_stay(cold_start: bool, known: Seq<String>, gone: Seq<String>, path: Seq<char>) -> bool {
    if cold_start {
        listed(known, path)
    } else {
        !listed(gone, path)
    }
}

/// The cache after the cleaning of a round.
pub open spec fn cleaned(
    records: Seq<ArticleView>,
    cold_start: bool,
    known: Seq<String>,
    gone: Seq<String>,
) -> Seq<ArticleView> {
    if cold_start {
        existing_only(records, known)
    } else {
        listed_removed(records, gone)
    }
}

/// Whether `res` is what storing the draft of the document at `path` gives,
/// where `before` and `after` are the records of the cache.
///
///  - Where another document is served under the server path of the draft,
///    the draft is refused with `ServerPathTaken` and the cache is unchanged.
///  - Else, a document that the cache holds keeps its identifier, and the
///    record is stored under it.
///  - Else, where the cache holds the identifier that the draft proposes,
///    the draft is refused with `DbError` and the cache is unchanged.
///  - Else the record is stored under the proposed identifier.
pub open spec fn stored_as(
    before: Seq<ArticleView>,
    path: Seq<char>,
    draft: Draft,
    after: Seq<ArticleView>,
    res: Result<Article, Failure>,
) -> bool {
    match res {
        Ok(article) => {
            &&& holds_draft(article@, path, draft)
            &&& !server_path_taken(before, path, draft.server_path@)
            &&& holds_path(before, path) ==> exists|k: int|
                0 <= k < before.len() && (#[trigger] before[k]).local_path == path && before[k].id
                    == article@.id
            &&& !holds_path(before, path) ==> article@.id == draft.id@ && !holds_id(
                before,
                draft.id@,
            )
            &&& after == upserted(before, article@)
        },
        Err(failure) => {
            &&& after == before
            &&& failure.path@ == path
            &&& match failure.error {
                Error::ServerPathTaken(taken) => taken@ == draft.server_path@ && server_path_taken(
                    before,
                    path,
                    draft.server_path@,
                ),
                Error::DbError(db::Error::OtherDbError(_)) => !server_path_taken(
                    before,
                    path,
                    draft.server_path@,
                ) && !holds_path(before, path) && holds_id(before, draft.id@),
                _ => false,
            }
        },
    }
}

/// What storing a draft leaves of the cache: the new record is there, every
/// record of another document is as before, and nothing else is there.
pub proof fn lemma_stored(
    before: Seq<ArticleView>,
    path: Seq<char>,
    draft: Draft,
    after: Seq<ArticleView>,
    article: Article,
)
    requires
        well_keyed(before),
        stored_as(before, path, draft, after, Ok(article)),
    ensures
        after.contains(article@),
        forall|r: ArticleView|
            before.contains(r) && r.local_path != path ==> #[trigger] after.contains(r),
        forall|r: ArticleView| #[trigger]
            after.contains(r) ==> r == article@ || (before.contains(r) && r.local_path != path),
{
    let a = article@;
    if holds_id(before, a.id) {
        let k = choose|k: int| 0 <= k < before.len() && (#[trigger] before[k]).id == a.id;
        assert(holds_path(before, path)) by {
            if !holds_path(before, path) {
                assert(!holds_id(before, a.id));
            }
        }
        let p = choose|p: int|
            0 <= p < before.len() && (#[trigger] before[p]).local_path == path && before[p].id
                == a.id;
        assert(after[p] == a);
        assert forall|r: ArticleView| before.contains(r) && r.local_path != path implies #[trigger]
            after.contains(r) by {
            let m = choose|m: int| 0 <= m < before.len() && before[m] == r;
            if m != p {
                if m < p {
                    assert(before[m].id != before[p].id);
                } else {
                    assert(before[p].id != before[m].id);
                }
            }
            assert(after[m] == r);
        }
        assert forall|r: ArticleView| #[trigger] after.contains(r) implies r == a || (
        before.contains(r) && r.local_path != path) by {
            let m = choose|m: int| 0 <= m < after.len() && after[m] == r;
            if before[m].id != a.id {
                assert(after[m] == before[m]);
                if m < p {
                    assert(before[m].local_path != before[p].local_path);
                } else if m > p {
                    assert(before[p].local_path != before[m].local_path);
                }
            }
        }
    } else {
        assert(after == before.push(a));
        assert(after[after.len() - 1] == a);
        assert forall|r: ArticleView| before.contains(r) && r.local_path != path implies #[trigger]
            after.contains(r) by {
            let m = choose|m: int| 0 <= m < before.len() && before[m] == r;
            assert(after[m] == r);
        }
        assert forall|r: ArticleView| #[trigger] after.contains(r) implies r == a || (
        before.contains(r) && r.local_path != path) by {
            let m = choose|m: int| 0 <= m < after.len() && after[m] == r;
            if m < before.len() {
                assert(before[m] == r);
                if r.local_path == path {
                    // a document that the cache held would have kept its identifier
                    assert(holds_path(before, path));
                    let p = choose|p: int|
                        0 <= p < before.len() && (#[trigger] before[p]).local_path == path
                            && before[p].id == a.id;
                    assert(holds_id(before, a.id));
                }
            }
        }
    }
}

/// Stores the draft of the document at `path`.
pub fn store_draft(cache: &mut Cache, path: &String, draft: &Draft) -> (res: Result<Article, Failure>)
    requires
        old(cache).wf(),
    ensures
        final(cache).wf(),
        stored_as(old(cache)@, path@, *draft, final(cache)@, res),
{
    if cache.serves_other(path, &draft.server_path) {
        return Err(
            Failure { path: path.clone(), error: Error::ServerPathTaken(draft.server_path.clone()) },
        );
    }
    let id = match cache.find_path(path) {
        Some(k) => cache.get(k).id.duplicate(),
        None => {
            if cache.find_id(&draft.id).is_some() {
                return Err(
                    Failure {
                        path: path.clone(),
                        error: Error::DbError(
                            db::Error::OtherDbError("identifier taken".to_owned()),
                        ),
                    },
                );
            }
            draft.id.duplicate()
        },
    };
    let article = Article {
        id,
        published: draft.published,
        modified: draft.modified,
        modified_on_disk: draft.modified_on_disk,
        local_path: path.clone(),
        server_path: draft.server_path.clone(),
        title: draft.title.clone(),
        html: draft.html.clone(),
    };
    proof {
        let before = cache@;
        let a = article@;
        assert(!conflicts(before, a)) by {
            if conflicts(before, a) {
                let k = choose|k: int|
                    0 <= k < before.len() && (#[trigger] before[k]).id != a.id && (
                    before[k].local_path == a.local_path || before[k].server_path
                        == a.server_path);
                if before[k].local_path == a.local_path {
                    assert(holds_path(before, path@));
                    let p = choose|p: int|
                        0 <= p < before.len() && (#[trigger] before[p]).local_path == path@
                            && before[p].id == a.id;
                    if p < k {
                        assert(before[p].local_path != before[k].local_path);
                    } else if k < p {
                        assert(before[k].local_path != before[p].local_path);
                    }
                } else {
                    assert(server_path_taken(before, path@, draft.server_path@));
                }
            }
        }
    }
    match article.save(cache) {
        Ok(()) => Ok(article),
        Err(e) => Err(Failure { path: path.clone(), error: Error::DbError(e) }),
    }
}

/// Whether `record` is the record of one of `drafts`.
pub open spec fn from_drafts(drafts: Seq<(String, Draft)>, record: ArticleView) -> bool {
    exists|j: int|
        0 <= j < drafts.len() && holds_draft(record, (#[trigger] drafts[j]).0@, drafts[j].1)
}

/// Whether `failures` holds a failure of the document at `path`.
pub open spec fn failed(failures: Seq<Failure>, path: Seq<char>) -> bool {
    exists|f: int| 0 <= f < failures.len() && (#[trigger] failures[f]).path@ == path
}

/// Whether `saved` holds the record `record`.
pub open spec fn stored(saved: Seq<Article>, record: ArticleView) -> bool {
    exists|i: int| 0 <= i < saved.len() && (#[trigger] saved[i])@ == record
}

/// Whether `saved` holds the record of the document at `path`.
pub open spec fn saved_for(saved: Seq<Article>, path: Seq<char>) -> bool {
    exists|i: int| 0 <= i < saved.len() && (#[trigger] saved[i])@.local_path == path
}

/// The records that were stored, among the outcomes of storing drafts, in
/// their order.
pub open spec fn successes(outcomes: Seq<Result<Article, Failure>>) -> Seq<Article>
    decreases outcomes.len(),
{
    if outcomes.len() == 0 {
        Seq::empty()
    } else {
        match outcomes.last() {
            Ok(article) => successes(outcomes.drop_last()).push(article),
            Err(_) => successes(outcomes.drop_last()),
        }
    }
}

/// The failures, among the outcomes of storing drafts, in their order.
pub open spec fn refusals(outcomes: Seq<Result<Article, Failure>>) -> Seq<Failure>
    decreases outcomes.len(),
{
    if outcomes.len() == 0 {
        Seq::empty()
    } else {
        match outcomes.last() {
            Ok(_) => refusals(outcomes.drop_last()),
            Err(failure) => refusals(outcomes.drop_last()).push(failure),
        }
    }
}

/// Whether the drafts were stored one after the other, from the cache
/// `start` on: `caches[j]` is the cache before draft `j` is stored,
/// `caches[j + 1]` the cache after it, and `outcomes[j]` what storing it gave.
pub open spec fn stored_in_turn(
    start: Seq<ArticleView>,
    drafts: Seq<(String, Draft)>,
    caches: Seq<Seq<ArticleView>>,
    outcomes: Seq<Result<Article, Failure>>,
) -> bool {
    &&& caches.len() == drafts.len() + 1
    &&& outcomes.len() == drafts.len()
    &&& caches[0] == start
    &&& forall|j: int| 0 <= j < caches.len() ==> well_keyed(#[trigger] caches[j])
    &&& forall|j: int|
        0 <= j < drafts.len() ==> stored_as(
            caches[j],
            drafts[j].0@,
            drafts[j].1,
            caches[j + 1],
            #[trigger] outcomes[j],
        )
}

/// Whether `after` and `res` are what storing the drafts one after the
/// other, from the cache `start` on, gives: the last cache is `after`, and
/// `res` holds the records that were stored and the failures, each in the
/// order of the drafts.
pub open spec fn all_stored_as(
    start: Seq<ArticleView>,
    drafts: Seq<(String, Draft)>,
    after: Seq<ArticleView>,
    res: Reconciled,
) -> bool {
    exists|caches: Seq<Seq<ArticleView>>, outcomes: Seq<Result<Article, Failure>>|
        {
            &&& #[trigger] stored_in_turn(start, drafts, caches, outcomes)
            &&& caches[drafts.len() as int] == after
            &&& res.saved@ == successes(outcomes)
            &&& res.failures@ == refusals(outcomes)
        }
}

/// Whether `after` and `res` are what reconciling a round gives, where
/// `before` holds the records of the cache at the end of the round.
///
///  - The cache is cleaned first; `res.removed` counts what that removed.
///  - The drafts are then stored one after the other, each as `stored_as`
///    says: a draft is stored unless another document is served under its
///    server path, or the document is new and its identifier is held.
///
/// What follows from that is stated with it:
///  - Every draft is stored or a failure.
///  - Every record is one that the cleaning let stay, or one of a document
///    that has a draft.
///  - What was stored is in the cache, each with the content of its draft.
///  - The records that the cleaning let stay are as before, but for those of
///    documents that have a draft.
pub open spec fn reconciled_as(
    before: Seq<ArticleView>,
    cold_start: bool,
    known: Seq<String>,
    gone: Seq<String>,
    drafts: Seq<(String, Draft)>,
    after: Seq<ArticleView>,
    res: Reconciled,
) -> bool {
    &&& res.removed == before.len() - cleaned(before, cold_start, known, gone).len()
    &&& all_stored_as(cleaned(before, cold_start, known, gone), drafts, after, res)
    &&& res.saved@.len() + res.failures@.len() == drafts.len()
    &&& forall|k: int|
        0 <= k < after.len() ==> may_stay(cold_start, known, gone, (#[trigger] after[k]).local_path)
            || drafted(drafts, after[k].local_path)
    &&& forall|i: int|
        0 <= i < res.saved@.len() ==> after.contains((#[trigger] res.saved@[i])@) && from_drafts(
            drafts,
            res.saved@[i]@,
        )
    &&& forall|j: int|
        0 <= j < drafts.len() ==> saved_for(res.saved@, (#[trigger] drafts[j]).0@) || failed(
            res.failures@,
            drafts[j].0@,
        )
    &&& forall|r: ArticleView|
        cleaned(before, cold_start, known, gone).contains(r) && !drafted(drafts, r.local_path)
            ==> #[trigger] after.contains(r)
    &&& forall|r: ArticleView| #[trigger]
        after.contains(r) ==> cleaned(before, cold_start, known, gone).contains(r) || stored(
            res.saved@,
            r,
        )
}

/// Whether `records` holds the record of the document at `path` with the
/// content of `draft`.
pub open spec fn record_of(records: Seq<ArticleView>, path: Seq<char>, draft: Draft) -> bool {
    exists|k: int| 0 <= k < records.len() && holds_draft(#[trigger] records[k], path, draft)
}

/// Whether some draft among `drafts` proposes the identifier `id`.
pub open spec fn proposed(drafts: Seq<(String, Draft)>, id: Seq<char>) -> bool {
    exists|j: int| 0 <= j < drafts.len() && (#[trigger] drafts[j]).1.id@ == id
}

/// Whether nothing stands in the way of storing `drafts` into `start`:
///  - no record of another document has the server path of a draft,
///  - no two drafts have the same server path,
///  - no record has the identifier that a draft proposes,
///  - no two drafts propose the same identifier.
pub open spec fn free_of_clashes(start: Seq<ArticleView>, drafts: Seq<(String, Draft)>) -> bool {
    &&& forall|k: int, j: int|
        0 <= k < start.len() && 0 <= j < drafts.len() && (#[trigger] start[k]).local_path != (
        #[trigger] drafts[j]).0@ ==> start[k].server_path != drafts[j].1.server_path@
    &&& forall|i: int, j: int|
        0 <= i < j < drafts.len() ==> (#[trigger] drafts[i]).1.server_path@ != (
        #[trigger] drafts[j]).1.server_path@
    &&& forall|k: int, j: int|
        0 <= k < start.len() && 0 <= j < drafts.len() ==> (#[trigger] start[k]).id != (
        #[trigger] drafts[j]).1.id@
    &&& forall|i: int, j: int|
        0 <= i < j < drafts.len() ==> (#[trigger] drafts[i]).1.id@ != (#[trigger] drafts[j]).1.id@
}

/// Where every outcome is a success, there is a record for each and no
/// failure.
proof fn lemma_all_successes(outcomes: Seq<Result<Article, Failure>>)
    requires
        forall|j: int| 0 <= j < outcomes.len() ==> (#[trigger] outcomes[j]) is Ok,
    ensures
        refusals(outcomes).len() == 0,
        successes(outcomes).len() == outcomes.len(),
    decreases outcomes.len(),
{
    if outcomes.len() > 0 {
        let front = outcomes.drop_last();
        assert forall|j: int| 0 <= j < front.len() implies (#[trigger] front[j]) is Ok by {
            assert(front[j] == outcomes[j]);
        }
        lemma_all_successes(front);
        assert(outcomes.last() == outcomes[outcomes.len() - 1]);
    }
}

/// Along a chain of storing that is free of clashes, every draft is stored:
/// after the first `n` drafts, each of them has its record in the cache, and
/// every record is one of the start or one of these drafts.
proof fn lemma_chain_stores(
    start: Seq<ArticleView>,
    drafts: Seq<(String, Draft)>,
    caches: Seq<Seq<ArticleView>>,
    outcomes: Seq<Result<Article, Failure>>,
    n: int,
)
    requires
        one_draft_each(drafts),
        free_of_clashes(start, drafts),
        stored_in_turn(start, drafts, caches, outcomes),
        0 <= n <= drafts.len(),
    ensures
        forall|j: int| 0 <= j < n ==> (#[trigger] outcomes[j]) is Ok,
        forall|r: ArticleView| #[trigger]
            caches[n].contains(r) ==> start.contains(r) || from_drafts(drafts.take(n), r),
        forall|r: ArticleView| #[trigger]
            caches[n].contains(r) ==> holds_id(start, r.id) || proposed(drafts.take(n), r.id),
        forall|i: int|
            0 <= i < n ==> record_of(caches[n], (#[trigger] drafts[i]).0@, drafts[i].1),
    decreases n,
{
    if n == 0 {
        assert forall|r: ArticleView| #[trigger] caches[0].contains(r) implies holds_id(
            start,
            r.id,
        ) by {
            let k = choose|k: int| 0 <= k < start.len() && start[k] == r;
            assert(start[k].id == r.id);
        }
    } else {
        let m = n - 1;
        lemma_chain_stores(start, drafts, caches, outcomes, m);
        let before = caches[m];
        let after = caches[n];
        let path = drafts[m].0@;
        let draft = drafts[m].1;
        let shorter = drafts.take(m);
        let longer = drafts.take(n);
        assert(well_keyed(before));
        assert(stored_as(before, path, draft, after, outcomes[m]));
        assert forall|j: int| 0 <= j < shorter.len() implies (#[trigger] longer[j]) == shorter[j]
            && longer[j] == drafts[j] by {}
        assert(longer[m] == drafts[m]);
        // no other document is served under the server path of the draft
        if server_path_taken(before, path, draft.server_path@) {
            let k = choose|k: int|
                0 <= k < before.len() && (#[trigger] before[k]).local_path != path
                    && before[k].server_path == draft.server_path@;
            let r = before[k];
            assert(before.contains(r));
            if start.contains(r) {
                let x = choose|x: int| 0 <= x < start.len() && start[x] == r;
                assert(start[x].local_path != drafts[m].0@);
                assert(false);
            } else {
                let i = choose|i: int|
                    0 <= i < shorter.len() && holds_draft(
                        r,
                        (#[trigger] shorter[i]).0@,
                        shorter[i].1,
                    );
                assert(shorter[i] == drafts[i]);
                assert(drafts[i].1.server_path@ != drafts[m].1.server_path@);
                assert(false);
            }
        }
        // the identifier that the draft proposes is not held
        if holds_id(before, draft.id@) {
            let k = choose|k: int| 0 <= k < before.len() && (#[trigger] before[k]).id == draft.id@;
            let r = before[k];
            assert(before.contains(r));
            if holds_id(start, r.id) {
                let x = choose|x: int| 0 <= x < start.len() && (#[trigger] start[x]).id == r.id;
                assert(start[x].id != drafts[m].1.id@);
                assert(false);
            } else {
                let i = choose|i: int|
                    0 <= i < shorter.len() && (#[trigger] shorter[i]).1.id@ == r.id;
                assert(shorter[i] == drafts[i]);
                assert(drafts[i].1.id@ != drafts[m].1.id@);
                assert(false);
            }
        }
        assert(outcomes[m] is Ok);
        let article = outcomes[m]->Ok_0;
        lemma_stored(before, path, draft, after, article);
        assert forall|r: ArticleView| #[trigger] after.contains(r) implies start.contains(r)
            || from_drafts(longer, r) by {
            if r == article@ {
                assert(holds_draft(r, longer[m].0@, longer[m].1));
            } else {
                assert(before.contains(r));
                if !start.contains(r) {
                    let i = choose|i: int|
                        0 <= i < shorter.len() && holds_draft(
                            r,
                            (#[trigger] shorter[i]).0@,
                            shorter[i].1,
                        );
                    assert(holds_draft(r, longer[i].0@, longer[i].1));
                }
            }
        }
        assert forall|r: ArticleView| #[trigger] after.contains(r) implies holds_id(start, r.id)
            || proposed(longer, r.id) by {
            if r == article@ {
                if holds_path(before, path) {
                    let k = choose|k: int|
                        0 <= k < before.len() && (#[trigger] before[k]).local_path == path
                            && before[k].id == article@.id;
                    assert(before.contains(before[k]));
                    if !holds_id(start, before[k].id) {
                        let i = choose|i: int|
                            0 <= i < shorter.len() && (#[trigger] shorter[i]).1.id@
                                == before[k].id;
                        assert(longer[i].1.id@ == r.id);
                    }
                } else {
                    assert(longer[m].1.id@ == r.id);
                }
            } else {
                assert(before.contains(r));
                if !holds_id(start, r.id) {
                    let i = choose|i: int|
                        0 <= i < shorter.len() && (#[trigger] shorter[i]).1.id@ == r.id;
                    assert(longer[i].1.id@ == r.id);
                }
            }
        }
        assert forall|i: int| 0 <= i < n implies record_of(
            after,
            (#[trigger] drafts[i]).0@,
            drafts[i].1,
        ) by {
            if i < m {
                let k = choose|k: int|
                    0 <= k < before.len() && holds_draft(
                        #[trigger] before[k],
                        drafts[i].0@,
                        drafts[i].1,
                    );
                let r = before[k];
                assert(before.contains(r));
                assert(drafts[i].0@ != drafts[m].0@);
                assert(after.contains(r));
                let x = choose|x: int| 0 <= x < after.len() && after[x] == r;
                assert(holds_draft(after[x], drafts[i].0@, drafts[i].1));
            } else {
                let x = choose|x: int| 0 <= x < after.len() && after[x] == article@;
                assert(holds_draft(after[x], drafts[i].0@, drafts[i].1));
            }
        }
    }
}

/// Where nothing stands in the way, every draft is stored: storing drafts
/// that are free of clashes gives no failure, one record for each draft, and
/// a cache that holds the record of each, with the content of the draft.
pub proof fn lemma_free_drafts_are_stored(
    start: Seq<ArticleView>,
    drafts: Seq<(String, Draft)>,
    after: Seq<ArticleView>,
    res: Reconciled,
)
    requires
        one_draft_each(drafts),
        free_of_clashes(start, drafts),
        all_stored_as(start, drafts, after, res),
    ensures
        res.failures@.len() == 0,
        res.saved@.len() == drafts.len(),
        well_keyed(after),
        forall|j: int|
            0 <= j < drafts.len() ==> record_of(after, (#[trigger] drafts[j]).0@, drafts[j].1),
        forall|r: ArticleView| #[trigger]
            after.contains(r) ==> start.contains(r) || from_drafts(drafts, r),
{
    let (caches, outcomes) = choose|
        caches: Seq<Seq<ArticleView>>,
        outcomes: Seq<Result<Article, Failure>>,
    |
        {
            &&& #[trigger] stored_in_turn(start, drafts, caches, outcomes)
            &&& caches[drafts.len() as int] == after
            &&& res.saved@ == successes(outcomes)
            &&& res.failures@ == refusals(outcomes)
        };
    lemma_chain_stores(start, drafts, caches, outcomes, drafts.len() as int);
    lemma_all_successes(outcomes);
    assert(drafts.take(drafts.len() as int) =~= drafts);
    assert(well_keyed(caches[drafts.len() as int]));
}

/// After a round over the whole corpus, the cache holds no record of a
/// document outside the corpus, and holds the record of each document whose
/// draft was stored, with the content of the draft. Where every document of
/// the corpus has a draft and none was refused, the cache holds a record of
/// every document of the corpus: it holds the corpus exactly.
pub proof fn lemma_cold_start_round(
    before: Seq<ArticleView>,
    known: Seq<String>,
    gone: Seq<String>,
    drafts: Seq<(String, Draft)>,
    after: Seq<ArticleView>,
    res: Reconciled,
)
    requires
        reconciled_as(before, true, known, gone, drafts, after, res),
        forall|j: int| 0 <= j < drafts.len() ==> listed(known, (#[trigger] drafts[j]).0@),
    ensures
        forall|k: int| 0 <= k < after.len() ==> listed(known, (#[trigger] after[k]).local_path),
        forall|i: int|
            0 <= i < res.saved@.len() ==> after.contains((#[trigger] res.saved@[i])@) && from_drafts(
                drafts,
                res.saved@[i]@,
            ),
        (res.failures@.len() == 0 && forall|p: int|
            0 <= p < known.len() ==> drafted(drafts, (#[trigger] known[p])@)) ==> forall|p: int|
            0 <= p < known.len() ==> holds_path(after, (#[trigger] known[p])@),
{
    assert forall|k: int| 0 <= k < after.len() implies listed(
        known,
        (#[trigger] after[k]).local_path,
    ) by {
        if !may_stay(true, known, gone, after[k].local_path) {
            let j = choose|j: int|
                0 <= j < drafts.len() && (#[trigger] drafts[j]).0@ == after[k].local_path;
            assert(listed(known, drafts[j].0@));
        }
    }
    if res.failures@.len() == 0 && forall|p: int|
        0 <= p < known.len() ==> drafted(drafts, (#[trigger] known[p])@) {
        assert forall|p: int| 0 <= p < known.len() implies holds_path(
            after,
            (#[trigger] known[p])@,
        ) by {
            let path = known[p]@;
            let j = choose|j: int| 0 <= j < drafts.len() && (#[trigger] drafts[j]).0@ == path;
            assert(saved_for(res.saved@, drafts[j].0@));
            let i = choose|i: int|
                0 <= i < res.saved@.len() && (#[trigger] res.saved@[i])@.local_path == path;
            assert(after.contains(res.saved@[i]@));
            let k = choose|k: int| 0 <= k < after.len() && after[k] == res.saved@[i]@;
            assert(after[k].local_path == path);
        }
    }
}

/// After a round over the whole corpus in which every document compiled and
/// nothing stands in the way of storing, the cache holds the corpus exactly:
/// no record of a document outside it, for each document the record with
/// the content of its draft, no two records of one document, and no record
/// that is not the record of a draft.
pub proof fn lemma_cold_round_holds_the_corpus(
    before: Seq<ArticleView>,
    known: Seq<String>,
    gone: Seq<String>,
    drafts: Seq<(String, Draft)>,
    after: Seq<ArticleView>,
    res: Reconciled,
)
    requires
        well_keyed(before),
        one_draft_each(drafts),
        reconciled_as(before, true, known, gone, drafts, after, res),
        free_of_clashes(cleaned(before, true, known, gone), drafts),
        forall|j: int| 0 <= j < drafts.len() ==> listed(known, (#[trigger] drafts[j]).0@),
        forall|p: int| 0 <= p < known.len() ==> drafted(drafts, (#[trigger] known[p])@),
    ensures
        res.failures@.len() == 0,
        well_keyed(after),
        forall|k: int| 0 <= k < after.len() ==> listed(known, (#[trigger] after[k]).local_path),
        forall|j: int|
            0 <= j < drafts.len() ==> record_of(after, (#[trigger] drafts[j]).0@, drafts[j].1),
        forall|k: int| 0 <= k < after.len() ==> from_drafts(drafts, #[trigger] after[k]),
{
    let start = cleaned(before, true, known, gone);
    lemma_filter_well_keyed(before, |record: ArticleView| listed(known, record.local_path));
    lemma_free_drafts_are_stored(start, drafts, after, res);
    lemma_cold_start_round(before, known, gone, drafts, after, res);
    assert forall|k: int| 0 <= k < after.len() implies from_drafts(drafts, #[trigger] after[k]) by {
        let r = after[k];
        assert(after.contains(r));
        if !from_drafts(drafts, r) {
            assert(start.contains(r));
            let p = choose|p: int| 0 <= p < known.len() && (#[trigger] known[p])@ == r.local_path;
            assert(drafted(drafts, known[p]@));
            let j = choose|j: int| 0 <= j < drafts.len() && (#[trigger] drafts[j]).0@ == r.local_path;
            assert(record_of(after, drafts[j].0@, drafts[j].1));
            let x = choose|x: int|
                0 <= x < after.len() && holds_draft(#[trigger] after[x], drafts[j].0@, drafts[j].1);
            if x < k {
                assert(after[x].local_path != after[k].local_path);
            } else if k < x {
                assert(after[k].local_path != after[x].local_path);
            }
            assert(x == k);
        }
    }
}

/// Reconciles a round into the cache.
///
/// First the cache is cleaned: after a round over the whole corpus
/// (`cold_start`), the records whose source path is not among `known` are
/// removed; after any other round, those whose source path is among `gone`.
/// Then the drafts are stored, in their order; a draft that the cache does
/// not take is a failure of its document and leaves the cache as it was.
pub fn reconcile(
    cache: &mut Cache,
    cold_start: bool,
    known: &Vec<String>,
    gone: &Vec<String>,
    drafts: &Vec<(String, Draft)>,
) -> (res: Reconciled)
    requires
        old(cache).wf(),
        one_draft_each(drafts@),
    ensures
        final(cache).wf(),
        reconciled_as(old(cache)@, cold_start, known@, gone@, drafts@, final(cache)@, res),
{
    let ghost start = cache@;
    let removed = if cold_start {
        Article::clean_non_existing(cache, known)
    } else {
        Article::delete_listed(cache, gone)
    };
    let ghost clean = cache@;
    proof {
        assert(clean == cleaned(start, cold_start, known@, gone@));
        if cold_start {
            lemma_filter_well_keyed(
                start,
                |record: ArticleView| listed(known@, record.local_path),
            );
        } else {
            lemma_filter_well_keyed(
                start,
                |record: ArticleView| !listed(gone@, record.local_path),
            );
        }
        assert forall|k: int| 0 <= k < clean.len() implies may_stay(
            cold_start,
            known@,
            gone@,
            (#[trigger] clean[k]).local_path,
        ) by {}
    }
    let mut saved: Vec<Article> = Vec::new();
    let mut failures: Vec<Failure> = Vec::new();
    let mut i: usize = 0;
    let ghost mut caches: Seq<Seq<ArticleView>> = seq![clean];
    let ghost mut outcomes: Seq<Result<Article, Failure>> = Seq::empty();
    proof {
        assert(drafts@.take(0).len() == 0);
        assert(saved@ =~= successes(outcomes));
        assert(failures@ =~= refusals(outcomes));
    }
    while i < drafts.len()
        invariant
            i <= drafts.len(),
            cache.wf(),
            stored_in_turn(clean, drafts@.take(i as int), caches, outcomes),
            caches[i as int] == cache@,
            saved@ == successes(outcomes),
            failures@ == refusals(outcomes),
            one_draft_each(drafts@),
            saved@.len() + failures@.len() == i,
            forall|k: int|
                0 <= k < cache@.len() ==> may_stay(
                    cold_start,
                    known@,
                    gone@,
                    (#[trigger] cache@[k]).local_path,
                ) || drafted(drafts@, cache@[k].local_path),
            forall|s: int|
                0 <= s < saved@.len() ==> cache@.contains((#[trigger] saved@[s])@) && from_drafts(
                    drafts@.take(i as int),
                    saved@[s]@,
                ),
            forall|j: int|
                0 <= j < i ==> saved_for(saved@, (#[trigger] drafts@[j]).0@) || failed(
                    failures@,
                    drafts@[j].0@,
                ),
            forall|r: ArticleView|
                clean.contains(r) && !drafted(drafts@, r.local_path) ==> #[trigger] cache@.contains(
                    r,
                ),
            forall|r: ArticleView| #[trigger]
                cache@.contains(r) ==> clean.contains(r) || stored(saved@, r),
        decreases drafts.len() - i,
    {
        let entry = &drafts[i];
        let ghost before = cache@;
        let ghost saved_before = saved@;
        let ghost failures_before = failures@;
        let outcome = store_draft(cache, &entry.0, &entry.1);
        proof {
            let longer = caches.push(cache@);
            let more = outcomes.push(outcome);
            assert(more.drop_last() =~= outcomes);
            assert(more.last() == outcome);
            assert forall|j: int| 0 <= j < longer.len() implies well_keyed(
                #[trigger] longer[j],
            ) by {
                if j <= i {
                    assert(longer[j] == caches[j]);
                }
            }
            assert forall|j: int| 0 <= j < i + 1 implies stored_as(
                longer[j],
                drafts@.take(i + 1)[j].0@,
                drafts@.take(i + 1)[j].1,
                longer[j + 1],
                #[trigger] more[j],
            ) by {
                if j < i {
                    assert(more[j] == outcomes[j]);
                    assert(drafts@.take(i + 1)[j] == drafts@.take(i as int)[j]);
                    assert(longer[j] == caches[j] && longer[j + 1] == caches[j + 1]);
                } else {
                    assert(drafts@.take(i + 1)[j] == *entry);
                }
            }
            assert(longer[0] == caches[0]);
            assert(drafts@.take(i + 1).len() == i + 1);
            assert(stored_in_turn(clean, drafts@.take(i + 1), longer, more));
            assert(longer[i + 1] == cache@);
            caches = longer;
            outcomes = more;
        }
        match outcome {
            Ok(article) => {
                proof {
                    lemma_stored(before, entry.0@, entry.1, cache@, article);
                    assert(drafts@[i as int] == *entry);
                    assert(drafted(drafts@, entry.0@));
                }
                saved.push(article);
                proof {
                    let after = cache@;
                    assert forall|k: int| 0 <= k < after.len() implies may_stay(
                        cold_start,
                        known@,
                        gone@,
                        (#[trigger] after[k]).local_path,
                    ) || drafted(drafts@, after[k].local_path) by {
                        let r = after[k];
                        assert(after.contains(r));
                        if r != article@ {
                            let m = choose|m: int| 0 <= m < before.len() && before[m] == r;
                            assert(may_stay(cold_start, known@, gone@, before[m].local_path)
                                || drafted(drafts@, before[m].local_path));
                        }
                    }
                    assert forall|s: int| 0 <= s < saved@.len() implies after.contains(
                        (#[trigger] saved@[s])@,
                    ) && from_drafts(drafts@.take(i + 1), saved@[s]@) by {
                        if s < saved_before.len() {
                            let r = saved_before[s]@;
                            assert(saved@[s] == saved_before[s]);
                            assert(from_drafts(drafts@.take(i as int), r));
                            let j = choose|j: int|
                                0 <= j < drafts@.take(i as int).len() && holds_draft(
                                    r,
                                    (#[trigger] drafts@.take(i as int)[j]).0@,
                                    drafts@.take(i as int)[j].1,
                                );
                            assert(drafts@.take(i as int)[j] == drafts@[j]);
                            assert(drafts@[j].0@ != drafts@[i as int].0@);
                            assert(drafts@.take(i + 1)[j] == drafts@[j]);
                            assert(before.contains(r));
                        } else {
                            assert(saved@[s] == article);
                            assert(drafts@.take(i + 1)[i as int] == drafts@[i as int]);
                        }
                    }
                    assert forall|j: int| 0 <= j < i + 1 implies saved_for(
                        saved@,
                        (#[trigger] drafts@[j]).0@,
                    ) || failed(failures@, drafts@[j].0@) by {
                        if j < i {
                            if saved_for(saved_before, drafts@[j].0@) {
                                let x = choose|x: int|
                                    0 <= x < saved_before.len() && (#[trigger] saved_before[x])@.local_path
                                        == drafts@[j].0@;
                                assert(saved@[x] == saved_before[x]);
                            }
                        } else {
                            assert(saved@[saved@.len() - 1] == article);
                        }
                    }
                    assert forall|r: ArticleView|
                        clean.contains(r) && !drafted(drafts@, r.local_path) implies #[trigger]
                        after.contains(r) by {
                        assert(before.contains(r));
                    }
                    assert forall|r: ArticleView| #[trigger] after.contains(r) implies clean.contains(
                        r,
                    ) || stored(saved@, r) by {
                        if r == article@ {
                            assert(saved@[saved@.len() - 1]@ == r);
                        } else {
                            assert(before.contains(r));
                            if !clean.contains(r) {
                                let x = choose|x: int|
                                    0 <= x < saved_before.len() && (#[trigger] saved_before[x])@
                                        == r;
                                assert(saved@[x] == saved_before[x]);
                            }
                        }
                    }
                }
            },
            Err(failure) => {
                failures.push(failure);
                proof {
                    assert(drafts@[i as int] == *entry);
                    assert forall|s: int| 0 <= s < saved@.len() implies cache@.contains(
                        (#[trigger] saved@[s])@,
                    ) && from_drafts(drafts@.take(i + 1), saved@[s]@) by {
                        let r = saved@[s]@;
                        let j = choose|j: int|
                            0 <= j < drafts@.take(i as int).len() && holds_draft(
                                r,
                                (#[trigger] drafts@.take(i as int)[j]).0@,
                                drafts@.take(i as int)[j].1,
                            );
                        assert(drafts@.take(i as int)[j] == drafts@[j]);
                        assert(drafts@.take(i + 1)[j] == drafts@[j]);
                    }
                    assert forall|j: int| 0 <= j < i + 1 implies saved_for(
                        saved@,
                        (#[trigger] drafts@[j]).0@,
                    ) || failed(failures@, drafts@[j].0@) by {
                        if j < i {
                            if failed(failures_before, drafts@[j].0@) {
                                let x = choose|x: int|
                                    0 <= x < failures_before.len() && (#[trigger] failures_before[x]).path@
                                        == drafts@[j].0@;
                                assert(failures@[x] == failures_before[x]);
                            }
                        } else {
                            assert(failures@[failures@.len() - 1] == failure);
                        }
                    }
                }
            },
        }
        i = i + 1;
    }
    proof {
        assert(drafts@.take(i as int) =~= drafts@);
    }
    let res = Reconciled { saved, failures, removed };
    proof {
        assert(stored_in_turn(clean, drafts@, caches, outcomes));
        assert(all_stored_as(clean, drafts@, cache@, res));
    }
    res
}

} // verus!
