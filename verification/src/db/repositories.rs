//! The store of compiled documents.
//!
//! The store is keyed: no two records share an identifier, a source path or
//! a server path. It is modelled by the sequence of its records.
use vstd::prelude::*;
use crate::db::models::{Article, ArticleView};
use crate::db::uuid::UUID;
use crate::db::Error;

verus! {

/// The records of a sequence of articles, as mathematical values.
pub open spec fn records_of(articles: Seq<Article>) -> Seq<ArticleView> {
    Seq::new(articles.len(), |i: int| articles[i]@)
}

/// Whether no two records share an identifier, a source path or a server path.
pub open spec fn well_keyed(records: Seq<ArticleView>) -> bool {
    forall|i: int, j: int|
        0 <= i < j < records.len() ==> {
            &&& (#[trigger] records[i]).id != (#[trigger] records[j]).id
            &&& records[i].local_path != records[j].local_path
            &&& records[i].server_path != records[j].server_path
        }
}

/// Whether some record has the identifier `id`.
pub open spec fn holds_id(records: Seq<ArticleView>, id: Seq<char>) -> bool {
    exists|k: int| 0 <= k < records.len() && (#[trigger] records[k]).id == id
}

/// Whether some record has the source path `path`.
pub open spec fn holds_path(records: Seq<ArticleView>, path: Seq<char>) -> bool {
    exists|k: int| 0 <= k < records.len() && (#[trigger] records[k]).local_path == path
}

/// Whether a record other than the one with the identifier of `record` has
/// its source path or its server path.
pub open spec fn conflicts(records: Seq<ArticleView>, record: ArticleView) -> bool {
    exists|k: int|
        0 <= k < records.len() && (#[trigger] records[k]).id != record.id && (records[k].local_path
            == record.local_path || records[k].server_path == record.server_path)
}

/// `records` with each record that has the identifier of `record` replaced by
/// `record`.
pub open spec fn replaced(records: Seq<ArticleView>, record: ArticleView) -> Seq<ArticleView> {
    Seq::new(
        records.len(),
        |k: int|
            if records[k].id == record.id {
                record
            } else {
                records[k]
            },
    )
}

/// `records` once `record` has been stored under its identifier: in the place
/// of the record that had the identifier, else at the end.
pub open spec fn upserted(records: Seq<ArticleView>, record: ArticleView) -> Seq<ArticleView> {
    if holds_id(records, record.id) {
        replaced(records, record)
    } else {
        records.push(record)
    }
}

/// Whether `path` is among `paths`.
pub open spec fn listed(paths: Seq<String>, path: Seq<char>) -> bool {
    exists|k: int| 0 <= k < paths.len() && (#[trigger] paths[k])@ == path
}

/// The records whose source path is among `paths`, in their order.
pub open spec fn existing_only(records: Seq<ArticleView>, paths: Seq<String>) -> Seq<ArticleView> {
    records.filter(|record: ArticleView| listed(paths, record.local_path))
}

/// The records whose source path is not among `paths`, in their order.
pub open spec fn listed_removed(records: Seq<ArticleView>, paths: Seq<String>) -> Seq<
    ArticleView,
> {
    records.filter(|record: ArticleView| !listed(paths, record.local_path))
}

/// Whether a record with another source path than `path` has the server path
/// `server_path`.
pub open spec fn server_path_taken(
    records: Seq<ArticleView>,
    path: Seq<char>,
    server_path: Seq<char>,
) -> bool {
    exists|k: int|
        0 <= k < records.len() && (#[trigger] records[k]).local_path != path
            && records[k].server_path == server_path
}

/// The records whose identifier is not `id`, in their order.
pub open spec fn without_id(records: Seq<ArticleView>, id: Seq<char>) -> Seq<ArticleView> {
    records.filter(|record: ArticleView| record.id != id)
}

/// What is left of keyed records is keyed, and holds no record that was not
/// there before.
pub proof fn lemma_filter_well_keyed(records: Seq<ArticleView>, keep: spec_fn(ArticleView) -> bool)
    requires
        well_keyed(records),
    ensures
        well_keyed(records.filter(keep)),
        forall|i: int|
            0 <= i < records.filter(keep).len() ==> records.contains(
                #[trigger] records.filter(keep)[i],
            ) && keep(records.filter(keep)[i]),
        forall|k: int|
            0 <= k < records.len() && keep(records[k]) ==> records.filter(keep).contains(
                #[trigger] records[k],
            ),
    decreases records.len(),
{
    reveal(Seq::filter);
    if records.len() > 0 {
        let front = records.drop_last();
        let kept = front.filter(keep);
        assert forall|i: int, j: int| 0 <= i < j < front.len() implies {
            &&& (#[trigger] front[i]).id != (#[trigger] front[j]).id
            &&& front[i].local_path != front[j].local_path
            &&& front[i].server_path != front[j].server_path
        } by {
            assert(front[i] == records[i] && front[j] == records[j]);
        }
        lemma_filter_well_keyed(front, keep);
        let last = records.last();
        assert forall|i: int| 0 <= i < kept.len() implies records.contains(#[trigger] kept[i])
            && kept[i].id != last.id && kept[i].local_path != last.local_path
            && kept[i].server_path != last.server_path by {
            assert(front.contains(kept[i]));
            let k = choose|k: int| 0 <= k < front.len() && front[k] == kept[i];
            assert(records[k] == kept[i]);
            assert(records[records.len() - 1] == last);
        }
        let all = records.filter(keep);
        if keep(last) {
            assert(all == kept.push(last));
            assert(records[records.len() - 1] == last);
            assert forall|i: int, j: int| 0 <= i < j < all.len() implies {
                &&& (#[trigger] all[i]).id != (#[trigger] all[j]).id
                &&& all[i].local_path != all[j].local_path
                &&& all[i].server_path != all[j].server_path
            } by {
                if j < kept.len() {
                    assert(all[i] == kept[i] && all[j] == kept[j]);
                } else {
                    assert(all[i] == kept[i] && all[j] == last);
                }
            }
            assert forall|i: int| 0 <= i < all.len() implies records.contains(#[trigger] all[i])
                && keep(all[i]) by {
                if i < kept.len() {
                    assert(all[i] == kept[i]);
                }
            }
        } else {
            assert(all == kept);
        }
        assert forall|k: int| 0 <= k < records.len() && keep(records[k]) implies all.contains(
            #[trigger] records[k],
        ) by {
            if k < front.len() {
                assert(front[k] == records[k]);
                assert(kept.contains(front[k]));
                let i = choose|i: int| 0 <= i < kept.len() && kept[i] == front[k];
                assert(all[i] == records[k]);
            } else {
                assert(all[all.len() - 1] == records[k]);
            }
        }
    }
}

/// One more record, kept or not, at the end of what was filtered so far.
proof fn lemma_filter_step(records: Seq<ArticleView>, keep: spec_fn(ArticleView) -> bool, j: int)
    requires
        0 <= j < records.len(),
    ensures
        records.take(j + 1).filter(keep) == if keep(records[j]) {
            records.take(j).filter(keep).push(records[j])
        } else {
            records.take(j).filter(keep)
        },
{
    reveal(Seq::filter);
    assert(records.take(j + 1).drop_last() == records.take(j));
    assert(records.take(j + 1).last() == records[j]);
}

/// The store of compiled documents.
pub struct Cache {
    articles: Vec<Article>,
}

impl View for Cache {
    type V = Seq<ArticleView>;

    closed spec fn view(&self) -> Seq<ArticleView> {
        records_of(self.articles@)
    }
}

impl Cache {
    /// Whether the store is keyed.
    pub open spec fn wf(&self) -> bool {
        well_keyed(self@)
    }

    /// An empty store.
    pub fn new() -> (res: Cache)
        ensures
            res@ == Seq::<ArticleView>::empty(),
            res.wf(),
    {
        let res = Cache { articles: Vec::new() };
        proof {
            assert(res@ =~= Seq::<ArticleView>::empty());
        }
        res
    }

    /// The number of records.
    pub fn len(&self) -> (n: usize)
        ensures
            n == self@.len(),
    {
        self.articles.len()
    }

    /// The record at `index`.
    pub fn get(&self, index: usize) -> (res: &Article)
        requires
            index < self@.len(),
        ensures
            res@ == self@[index as int],
    {
        &self.articles[index]
    }

    /// The index of the record with the identifier `id`.
    pub fn find_id(&self, id: &UUID) -> (res: Option<usize>)
        ensures
            res is Some <==> holds_id(self@, id@),
            res matches Some(k) ==> k < self@.len() && self@[k as int].id == id@,
    {
        let mut k: usize = 0;
        while k < self.articles.len()
            invariant
                k <= self.articles.len(),
                forall|j: int| 0 <= j < k ==> (#[trigger] self@[j]).id != id@,
            decreases self.articles.len() - k,
        {
            if self.articles[k].id.same(id) {
                assert(self@[k as int].id == id@);
                return Some(k);
            }
            k = k + 1;
        }
        None
    }

    /// The index of the record with the source path `path`.
    pub fn find_path(&self, path: &String) -> (res: Option<usize>)
        ensures
            res is Some <==> holds_path(self@, path@),
            res matches Some(k) ==> k < self@.len() && self@[k as int].local_path == path@,
    {
        let mut k: usize = 0;
        while k < self.articles.len()
            invariant
                k <= self.articles.len(),
                forall|j: int| 0 <= j < k ==> (#[trigger] self@[j]).local_path != path@,
            decreases self.articles.len() - k,
        {
            if self.articles[k].local_path == *path {
                assert(self@[k as int].local_path == path@);
                return Some(k);
            }
            k = k + 1;
        }
        None
    }

    /// Whether a record other than the one with the identifier of `article`
    /// has its source path or its server path.
    fn has_conflict(&self, article: &Article) -> (b: bool)
        ensures
            b == conflicts(self@, article@),
    {
        let mut k: usize = 0;
        while k < self.articles.len()
            invariant
                k <= self.articles.len(),
                forall|j: int|
                    0 <= j < k ==> !((#[trigger] self@[j]).id != article@.id && (self@[j].local_path
                        == article@.local_path || self@[j].server_path == article@.server_path)),
            decreases self.articles.len() - k,
        {
            let other = &self.articles[k];
            if !other.id.same(&article.id) && (other.local_path == article.local_path
                || other.server_path == article.server_path) {
                assert(self@[k as int].id != article@.id);
                return true;
            }
            k = k + 1;
        }
        false
    }

    /// Whether a record with another source path than `path` is served
    /// under `server_path`.
    pub fn serves_other(&self, path: &String, server_path: &String) -> (b: bool)
        ensures
            b == server_path_taken(self@, path@, server_path@),
    {
        let mut k: usize = 0;
        while k < self.articles.len()
            invariant
                k <= self.articles.len(),
                forall|j: int|
                    0 <= j < k ==> !((#[trigger] self@[j]).local_path != path@
                        && self@[j].server_path == server_path@),
            decreases self.articles.len() - k,
        {
            let other = &self.articles[k];
            if other.local_path != *path && other.server_path == *server_path {
                assert(self@[k as int].local_path != path@);
                return true;
            }
            k = k + 1;
        }
        false
    }

    /// Removes the records whose source path is among `paths`, or those
    /// whose source path is not, and says how many were removed.
    fn prune(&mut self, paths: &Vec<String>, keep_listed: bool) -> (removed: usize)
        requires
            old(self).wf(),
        ensures
            final(self).wf(),
            final(self)@ == old(self)@.filter(
                |record: ArticleView| listed(paths@, record.local_path) == keep_listed,
            ),
            removed == old(self)@.len() - final(self)@.len(),
    {
        let ghost before = self@;
        let ghost keep = |record: ArticleView| listed(paths@, record.local_path) == keep_listed;
        let total = self.articles.len();
        let mut i: usize = 0;
        let mut removed: usize = 0;
        let ghost mut j: int = 0;
        proof {
            reveal(Seq::filter);
            assert(before.take(0).filter(keep) =~= Seq::<ArticleView>::empty());
            assert(self@ =~= before.take(0).filter(keep) + before.skip(0));
        }
        while i < self.articles.len()
            invariant
                0 <= j <= before.len(),
                i == before.take(j).filter(keep).len(),
                removed == j - i,
                before.len() == total,
                self@ == before.take(j).filter(keep) + before.skip(j),
                keep == |record: ArticleView| listed(paths@, record.local_path) == keep_listed,
            decreases before.len() - j,
        {
            proof {
                assert(self@[i as int] == before.skip(j)[0]);
                lemma_filter_step(before, keep, j);
            }
            if is_listed(paths, &self.articles[i].local_path) == keep_listed {
                proof {
                    assert(self@ =~= before.take(j + 1).filter(keep) + before.skip(j + 1));
                    j = j + 1;
                }
                i = i + 1;
            } else {
                let ghost held = self@;
                proof {
                    assert(self@.len() == i + before.skip(j).len());
                }
                self.articles.remove(i);
                removed = removed + 1;
                proof {
                    assert(self@ =~= held.remove(i as int));
                    assert(self@ =~= before.take(j + 1).filter(keep) + before.skip(j + 1));
                    j = j + 1;
                }
            }
        }
        proof {
            assert(j == before.len()) by {
                before.take(j).lemma_filter_len(keep);
            }
            assert(before.take(j) =~= before);
            assert(self@ =~= before.filter(keep));
            lemma_filter_well_keyed(before, keep);
        }
        removed
    }
}

/// Whether `path` is among `paths`.
pub fn is_listed(paths: &Vec<String>, path: &String) -> (b: bool)
    ensures
        b == listed(paths@, path@),
{
    let mut k: usize = 0;
    while k < paths.len()
        invariant
            k <= paths.len(),
            forall|j: int| 0 <= j < k ==> (#[trigger] paths@[j])@ != path@,
        decreases paths.len() - k,
    {
        if paths[k] == *path {
            return true;
        }
        k = k + 1;
    }
    false
}

impl Article {
    /// All records of the store, in its order.
    pub fn get_all(cache: &Cache) -> (res: Vec<Article>)
        ensures
            records_of(res@) == cache@,
    {
        let mut res: Vec<Article> = Vec::new();
        let mut k: usize = 0;
        while k < cache.articles.len()
            invariant
                k <= cache.articles.len(),
                res@.len() == k,
                forall|j: int| 0 <= j < k ==> (#[trigger] res@[j])@ == cache@[j],
            decreases cache.articles.len() - k,
        {
            res.push(cache.articles[k].duplicate());
            k = k + 1;
        }
        proof {
            assert(records_of(res@) =~= cache@);
        }
        res
    }

    /// Stores the record under its identifier: in the place of the record
    /// that has the identifier, else as a new record.
    ///
    /// The store refuses a record whose source path or server path belongs
    /// to a record with another identifier, and is then unchanged.
    pub fn save(&self, cache: &mut Cache) -> (res: Result<(), Error>)
        requires
            old(cache).wf(),
        ensures
            final(cache).wf(),
            conflicts(old(cache)@, self@) ==> (res matches Err(Error::OtherDbError(_)))
                && final(cache)@ == old(cache)@,
            !conflicts(old(cache)@, self@) ==> res is Ok
                && final(cache)@ == upserted(old(cache)@, self@),
    {
        if cache.has_conflict(self) {
            return Err(Error::OtherDbError("UNIQUE constraint failed".to_owned()));
        }
        let ghost before = cache@;
        match cache.find_id(&self.id) {
            Some(k) => {
                cache.articles.set(k, self.duplicate());
                proof {
                    let after = cache@;
                    assert forall|j: int| 0 <= j < before.len() implies after[j] == replaced(
                        before,
                        self@,
                    )[j] by {
                        if j != k {
                            assert(before[j].id != before[k as int].id);
                        }
                    }
                    assert(after =~= replaced(before, self@));
                    assert forall|i: int, j: int| 0 <= i < j < after.len() implies {
                        &&& (#[trigger] after[i]).id != (#[trigger] after[j]).id
                        &&& after[i].local_path != after[j].local_path
                        &&& after[i].server_path != after[j].server_path
                    } by {
                        assert(before[i].id != before[j].id);
                    }
                }
            },
            None => {
                cache.articles.push(self.duplicate());
                proof {
                    let after = cache@;
                    assert(after =~= before.push(self@));
                    assert forall|i: int, j: int| 0 <= i < j < after.len() implies {
                        &&& (#[trigger] after[i]).id != (#[trigger] after[j]).id
                        &&& after[i].local_path != after[j].local_path
                        &&& after[i].server_path != after[j].server_path
                    } by {
                        if j < before.len() {
                            assert(before[i].id != before[j].id);
                        } else {
                            assert(before[i].id != self@.id);
                        }
                    }
                }
            },
        }
        Ok(())
    }

    /// Removes the record that has the identifier of this one, if there is
    /// one.
    pub fn delete(&self, cache: &mut Cache)
        requires
            old(cache).wf(),
        ensures
            final(cache).wf(),
            final(cache)@ == without_id(old(cache)@, self@.id),
    {
        let ghost before = cache@;
        let ghost keep = |record: ArticleView| record.id != self@.id;
        let mut i: usize = 0;
        let ghost mut j: int = 0;
        proof {
            reveal(Seq::filter);
            assert(before.take(0).filter(keep) =~= Seq::<ArticleView>::empty());
            assert(cache@ =~= before.take(0).filter(keep) + before.skip(0));
        }
        while i < cache.articles.len()
            invariant
                0 <= j <= before.len(),
                i == before.take(j).filter(keep).len(),
                cache@ == before.take(j).filter(keep) + before.skip(j),
                keep == |record: ArticleView| record.id != self@.id,
            decreases before.len() - j,
        {
            proof {
                assert(cache@[i as int] == before.skip(j)[0]);
                lemma_filter_step(before, keep, j);
            }
            if cache.articles[i].id.same(&self.id) {
                let ghost held = cache@;
                cache.articles.remove(i);
                proof {
                    assert(cache@ =~= held.remove(i as int));
                    assert(cache@ =~= before.take(j + 1).filter(keep) + before.skip(j + 1));
                    j = j + 1;
                }
            } else {
                proof {
                    assert(cache@ =~= before.take(j + 1).filter(keep) + before.skip(j + 1));
                    j = j + 1;
                }
                i = i + 1;
            }
        }
        proof {
            assert(j == before.len()) by {
                before.take(j).lemma_filter_len(keep);
            }
            assert(before.take(j) =~= before);
            assert(cache@ =~= before.filter(keep));
            lemma_filter_well_keyed(before, keep);
        }
    }

    /// Removes the records whose source path is not among `existing`, and
    /// says how many were removed.
    pub fn clean_non_existing(cache: &mut Cache, existing: &Vec<String>) -> (removed: usize)
        requires
            old(cache).wf(),
        ensures
            final(cache).wf(),
            final(cache)@ == existing_only(old(cache)@, existing@),
            removed == old(cache)@.len() - final(cache)@.len(),
    {
        let ghost before = cache@;
        let removed = cache.prune(existing, true);
        proof {
            let kept = |record: ArticleView| listed(existing@, record.local_path) == true;
            let wanted = |record: ArticleView| listed(existing@, record.local_path);
            assert(kept =~= wanted);
        }
        removed
    }

    /// Removes the records whose source path is among `gone`, and says how
    /// many were removed.
    pub fn delete_listed(cache: &mut Cache, gone: &Vec<String>) -> (removed: usize)
        requires
            old(cache).wf(),
        ensures
            final(cache).wf(),
            final(cache)@ == listed_removed(old(cache)@, gone@),
            removed == old(cache)@.len() - final(cache)@.len(),
    {
        let removed = cache.prune(gone, false);
        proof {
            let kept = |record: ArticleView| listed(gone@, record.local_path) == false;
            let wanted = |record: ArticleView| !listed(gone@, record.local_path);
            assert(kept =~= wanted);
        }
        removed
    }
}

} // verus!
