//! The build orchestrator.
//!
//! A round starts from a change set: one compilation is handed out for each
//! path, and the round is building. The results are collected until every
//! path has reported; then the round is reconciled into the cache, a
//! completion is announced, and the orchestrator is idle again. A change set
//! that arrives while a round is building supersedes it: what the old round
//! reported is dropped, and what it reports later is ignored.
//!
//! The orchestrator decides and its surroundings act: each step takes a
//! message and hands back what is to be done. Reconciling a round is part of
//! the step that takes its last report, and superseding a round is part of
//! the step that takes the newer change set, so that between two steps the
//! orchestrator is either idle or building.
use vstd::prelude::*;
use crate::changes::{
    all_distinct, changed_in, deduped, deleted_in, distinct, extend_cloned, lemma_deduped,
    ChangeSet, FilesChange,
};
use crate::db::models::{Article, ArticleView};
use crate::db::repositories::{lemma_filter_well_keyed, listed, well_keyed, Cache};
use crate::generate_db::{Draft, Error};
use crate::reconcile::{
    cleaned, drafted, free_of_clashes, from_drafts, lemma_cold_round_holds_the_corpus,
    lemma_cold_start_round, lemma_free_drafts_are_stored, one_draft_each, reconcile,
    reconciled_as, record_of, Failure, Reconciled,
};
use crate::urls::Reference;

verus! {

/// Where the sources lie and where the output goes.
#[derive(Debug, Clone, PartialEq, Eq)]
pub struct GenerateParams {
    pub article_dir: String,
    pub pages_dir: String,
    pub output_dir: String,
    pub root_dir: String,
    pub db_file: String,
    pub clean_output: bool,
}

/// What the orchestrator is told, and what it announces.
#[derive(Debug, Clone, PartialEq, Eq)]
pub enum Message {
    /// A scan of the source directories found these files: build them all.
    Sync { article_files: Vec<String>, page_files: Vec<String> },
    /// The source tree changed.
    Changes(Vec<FilesChange>),
    /// The compilation of `path`, handed out in `round`, failed.
    DbArticleError { round: u64, path: String, error: Error },
    /// The compilation of `path`, handed out in `round`, gave `article`,
    /// which refers to `urls`.
    DbArticleCreated { round: u64, path: String, article: Draft, urls: Vec<Reference> },
    /// A round is complete: so many documents were stored, so many records
    /// removed, and these documents failed.
    DbGenerated { compiled: usize, deleted: usize, failures: Vec<Failure> },
}

/// What the orchestrator asks of its surroundings.
#[derive(Debug, Clone, PartialEq, Eq)]
pub enum Action {
    /// Stop waiting for the compilations of `round`.
    Cancel { round: u64 },
    /// Compile the document at `path` and report the result under `round`.
    Compile { round: u64, path: String },
    /// Remove from the durable cache the records whose source path is not
    /// among `existing`.
    CleanNonExisting { existing: Vec<String> },
    /// Remove from the durable cache the records whose source path is among
    /// `gone`.
    DeleteListed { gone: Vec<String> },
    /// Store the record in the durable cache.
    Save(Article),
    /// Announce the message.
    Emit(Message),
}

/// Whether a round is in flight.
#[derive(Debug, Clone, Copy, PartialEq, Eq, Structural)]
pub enum Phase {
    /// No round is in flight.
    Idle,
    /// Compilations have been handed out and not all have reported.
    Building,
}

/// The build orchestrator.
///
/// It holds the cache and, while a round is building, what the round has
/// reported so far. Reconciliation, which writes the cache, is part of the
/// step that takes the last report of a round.
pub struct Orchestrator {
    cache: Cache,
    phase: Phase,
    round: u64,
    cold_start: bool,
    known: Vec<String>,
    gone: Vec<String>,
    pending: Vec<String>,
    drafts: Vec<(String, Draft)>,
    failures: Vec<Failure>,
}

/// The state of the orchestrator.
pub struct OrchestratorView {
    /// The records of the cache.
    pub cache: Seq<ArticleView>,
    pub phase: Phase,
    /// The number of the round in flight, or of the last round.
    pub round: u64,
    /// Whether the round is over the whole corpus.
    pub cold_start: bool,
    /// The paths of the round's change set that are to be compiled.
    pub known: Seq<String>,
    /// The paths of the round's change set that are to be forgotten.
    pub gone: Seq<String>,
    /// The paths whose compilation has not reported yet.
    pub pending: Seq<String>,
    /// The documents that compiled, in the order of their reports.
    pub drafts: Seq<(String, Draft)>,
    /// The documents that did not compile, in the order of their reports.
    pub failures: Seq<Failure>,
}

impl View for Orchestrator {
    type V = OrchestratorView;

    closed spec fn view(&self) -> OrchestratorView {
        OrchestratorView {
            cache: self.cache@,
            phase: self.phase,
            round: self.round,
            cold_start: self.cold_start,
            known: self.known@,
            gone: self.gone@,
            pending: self.pending@,
            drafts: self.drafts@,
            failures: self.failures@,
        }
    }
}

/// The invariant of the orchestrator: the cache is keyed; no document is
/// waited for twice, or waited for and reported; a round is building exactly
/// while some document is waited for, and nothing is held between rounds; in
/// a round over the whole corpus, every document of the round is of the
/// corpus.
pub open spec fn well_formed(v: OrchestratorView) -> bool {
    &&& well_keyed(v.cache)
    &&& all_distinct(v.pending)
    &&& one_draft_each(v.drafts)
    &&& forall|a: int, j: int|
        0 <= a < v.pending.len() && 0 <= j < v.drafts.len() ==> (#[trigger] v.pending[a])@ != (
        #[trigger] v.drafts[j]).0@
    &&& v.phase == Phase::Building <==> v.pending.len() > 0
    &&& v.phase == Phase::Idle ==> v.drafts.len() == 0 && v.failures.len() == 0
    &&& v.cold_start ==> (forall|a: int|
        0 <= a < v.pending.len() ==> listed(v.known, (#[trigger] v.pending[a])@)) && (forall|j: int|
        0 <= j < v.drafts.len() ==> listed(v.known, (#[trigger] v.drafts[j]).0@))
}

/// The invariant at the moment when the last report of a round has been
/// taken and the round is not yet completed: nothing is waited for, while the
/// phase is still that of a round in flight.
pub open spec fn well_formed_but_for_phase(v: OrchestratorView) -> bool {
    &&& well_keyed(v.cache)
    &&& one_draft_each(v.drafts)
    &&& v.cold_start ==> (forall|j: int|
        0 <= j < v.drafts.len() ==> listed(v.known, (#[trigger] v.drafts[j]).0@))
}

/// The number of the round after `round`.
pub open spec fn next_round(round: u64) -> u64 {
    if round == u64::MAX {
        0
    } else {
        (round + 1) as u64
    }
}

/// The index of the first of `paths` that is `path`, or `paths.len()`.
pub open spec fn position_of(paths: Seq<String>, path: Seq<char>) -> int
    decreases paths.len(),
{
    if paths.len() == 0 || paths[0]@ == path {
        0
    } else {
        1 + position_of(paths.drop_first(), path)
    }
}

proof fn lemma_position_is(paths: Seq<String>, path: Seq<char>, k: int)
    requires
        0 <= k <= paths.len(),
        forall|j: int| 0 <= j < k ==> (#[trigger] paths[j])@ != path,
        k == paths.len() || paths[k]@ == path,
    ensures
        position_of(paths, path) == k,
    decreases k,
{
    if k > 0 {
        let t = paths.drop_first();
        assert forall|j: int| 0 <= j < k - 1 implies (#[trigger] t[j])@ != path by {
            assert(t[j] == paths[j + 1]);
        }
        if k < paths.len() {
            assert(t[k - 1] == paths[k]);
        }
        lemma_position_is(t, path, k - 1);
    }
}

/// Whether the round of `before` has been completed: it was reconciled into
/// the cache, the orchestrator is idle and holds nothing of the round, and
/// `actions` ask for the same to be done to the durable cache, and announce
/// the outcome:
///  - the cleaning,
///  - one `Save` for each record that was stored,
///  - `DbGenerated`, with the number of records stored, the number of records
///    removed, and the failures of the round: those of the compilations,
///    then those of the reconciliation.
pub open spec fn completed(
    before: OrchestratorView,
    after: OrchestratorView,
    actions: Seq<Action>,
) -> bool {
    exists|res: Reconciled|
        {
            &&& #[trigger] reconciled_as(
                before.cache,
                before.cold_start,
                before.known,
                before.gone,
                before.drafts,
                after.cache,
                res,
            )
            &&& after.phase == Phase::Idle
            &&& after.round == before.round
            &&& after.pending.len() == 0
            &&& after.drafts.len() == 0
            &&& after.failures.len() == 0
            &&& actions.len() == res.saved@.len() + 2
            &&& if before.cold_start {
                actions[0] matches Action::CleanNonExisting { existing } && existing@
                    == before.known
            } else {
                actions[0] matches Action::DeleteListed { gone } && gone@ == before.gone
            }
            &&& forall|i: int|
                0 <= i < res.saved@.len() ==> (#[trigger] actions[i + 1] matches Action::Save(
                    article,
                ) && article@ == res.saved@[i]@)
            &&& actions[actions.len() - 1] matches Action::Emit(
                Message::DbGenerated { compiled, deleted, failures },
            ) && compiled == res.saved@.len() && deleted == res.removed && failures@
                == before.failures + res.failures@
        }
}

/// The state in which the round of `changes` starts.
pub open spec fn started(before: OrchestratorView, changes: ChangeSet) -> OrchestratorView {
    OrchestratorView {
        cache: before.cache,
        phase: Phase::Building,
        round: next_round(before.round),
        cold_start: changes.cold_start,
        known: changes.changed@,
        gone: changes.deleted@,
        pending: deduped(changes.changed@),
        drafts: Seq::empty(),
        failures: Seq::empty(),
    }
}

/// Whether `after` and `actions` are what submitting `changes` gives.
///
/// A round that is building is superseded: the first action cancels it, and
/// what it had reported is dropped. Then a new round starts, with the next
/// number, over the paths of `changes` that are to be compiled, each once:
/// one `Compile` for each. A round without such paths is completed at once.
pub open spec fn submitted(
    before: OrchestratorView,
    changes: ChangeSet,
    after: OrchestratorView,
    actions: Seq<Action>,
) -> bool {
    let offset: int = if before.phase == Phase::Building {
        1
    } else {
        0
    };
    let fresh = started(before, changes);
    &&& actions.len() >= offset
    &&& before.phase == Phase::Building ==> actions[0] == (Action::Cancel { round: before.round })
    &&& if fresh.pending.len() > 0 {
        &&& after == fresh
        &&& actions.len() == offset + fresh.pending.len()
        &&& forall|i: int|
            0 <= i < fresh.pending.len() ==> (#[trigger] actions[offset + i] matches Action::Compile {
                round,
                path,
            } && round == fresh.round && path@ == fresh.pending[i]@)
    } else {
        completed(fresh, after, actions.skip(offset))
    }
}

/// The state once the report of `path` has been taken.
pub open spec fn collected(
    before: OrchestratorView,
    path: String,
    outcome: Result<Draft, Error>,
) -> OrchestratorView {
    OrchestratorView {
        pending: before.pending.remove(position_of(before.pending, path@)),
        drafts: match outcome {
            Ok(draft) => before.drafts.push((path, draft)),
            Err(_) => before.drafts,
        },
        failures: match outcome {
            Ok(_) => before.failures,
            Err(error) => before.failures.push(Failure { path, error }),
        },
        ..before
    }
}

/// Whether a report for `round` and `path` counts: the round is the one in
/// flight, and the path is waited for.
pub open spec fn awaited(before: OrchestratorView, round: u64, path: Seq<char>) -> bool {
    before.phase == Phase::Building && round == before.round && listed(before.pending, path)
}

/// Whether `after` and `actions` are what the report `outcome` of the
/// compilation of `path`, handed out in `round`, gives.
///
/// A report that does not count changes nothing. One that counts is taken;
/// where it was the last that the round waited for, the round is completed.
pub open spec fn reported(
    before: OrchestratorView,
    round: u64,
    path: String,
    outcome: Result<Draft, Error>,
    after: OrchestratorView,
    actions: Seq<Action>,
) -> bool {
    if !awaited(before, round, path@) {
        after == before && actions.len() == 0
    } else if collected(before, path, outcome).pending.len() > 0 {
        after == collected(before, path, outcome) && actions.len() == 0
    } else {
        completed(collected(before, path, outcome), after, actions)
    }
}

/// The index of `path` in `paths`.
fn position(paths: &Vec<String>, path: &String) -> (res: Option<usize>)
    ensures
        res is Some <==> listed(paths@, path@),
        res matches Some(k) ==> k == position_of(paths@, path@) && k < paths.len() && paths@[k as int]@
            == path@,
{
    let mut k: usize = 0;
    while k < paths.len()
        invariant
            k <= paths.len(),
            forall|j: int| 0 <= j < k ==> (#[trigger] paths@[j])@ != path@,
        decreases paths.len() - k,
    {
        if paths[k] == *path {
            proof {
                lemma_position_is(paths@, path@, k as int);
            }
            return Some(k);
        }
        k = k + 1;
    }
    None
}

impl Orchestrator {
    /// Whether the invariant holds.
    pub open spec fn wf(&self) -> bool {
        well_formed(self@)
    }

    /// An idle orchestrator over `cache`.
    pub fn new(cache: Cache) -> (res: Orchestrator)
        requires
            cache.wf(),
        ensures
            res.wf(),
            res@.cache == cache@,
            res@.phase == Phase::Idle,
            res@.round == 0,
            res@.pending.len() == 0,
    {
        Orchestrator {
            cache,
            phase: Phase::Idle,
            round: 0,
            cold_start: false,
            known: Vec::new(),
            gone: Vec::new(),
            pending: Vec::new(),
            drafts: Vec::new(),
            failures: Vec::new(),
        }
    }

    /// Whether a round is in flight.
    pub fn phase(&self) -> (res: Phase)
        ensures
            res == self@.phase,
    {
        self.phase
    }

    /// The number of the round in flight, or of the last round.
    pub fn round(&self) -> (res: u64)
        ensures
            res == self@.round,
    {
        self.round
    }

    /// The cache.
    pub fn cache(&self) -> (res: &Cache)
        ensures
            res@ == self@.cache,
    {
        &self.cache
    }

    /// Completes the round: reconciles it into the cache, and appends to
    /// `actions` what is to be done to the durable cache and the
    /// announcement of the outcome.
    fn complete(&mut self, actions: &mut Vec<Action>)
        requires
            well_keyed(old(self)@.cache),
            one_draft_each(old(self)@.drafts),
        ensures
            final(self).wf(),
            final(actions)@.len() >= old(actions)@.len(),
            final(actions)@.take(old(actions)@.len() as int) == old(actions)@,
            completed(old(self)@, final(self)@, final(actions)@.skip(old(actions)@.len() as int)),
    {
        let ghost before = self@;
        let ghost given = actions@;
        let mut done = reconcile(
            &mut self.cache,
            self.cold_start,
            &self.known,
            &self.gone,
            &self.drafts,
        );
        let ghost res = done;
        let mut listing: Vec<String> = Vec::new();
        if self.cold_start {
            extend_cloned(&mut listing, &self.known);
            proof {
                assert(listing@ =~= before.known);
            }
            actions.push(Action::CleanNonExisting { existing: listing });
        } else {
            extend_cloned(&mut listing, &self.gone);
            proof {
                assert(listing@ =~= before.gone);
            }
            actions.push(Action::DeleteListed { gone: listing });
        }
        let compiled = done.saved.len();
        let mut i: usize = 0;
        while i < done.saved.len()
            invariant
                i <= done.saved.len(),
                done == res,
                actions@.len() == given.len() + 1 + i,
                actions@.take(given.len() as int) == given,
                if before.cold_start {
                    actions@[given.len() as int] matches Action::CleanNonExisting { existing }
                        && existing@ == before.known
                } else {
                    actions@[given.len() as int] matches Action::DeleteListed { gone } && gone@
                        == before.gone
                },
                forall|s: int|
                    0 <= s < i ==> (#[trigger] actions@[given.len() + 1 + s] matches Action::Save(
                        article,
                    ) && article@ == res.saved@[s]@),
            decreases done.saved.len() - i,
        {
            let ghost held = actions@;
            actions.push(Action::Save(done.saved[i].duplicate()));
            proof {
                assert(actions@.take(given.len() as int) =~= held.take(given.len() as int));
                assert forall|s: int| 0 <= s < i + 1 implies (
                #[trigger] actions@[given.len() + 1 + s] matches Action::Save(article) && article@
                    == res.saved@[s]@) by {
                    if s < i {
                        assert(actions@[given.len() + 1 + s] == held[given.len() + 1 + s]);
                    }
                }
                assert(actions@[given.len() as int] == held[given.len() as int]);
            }
            i = i + 1;
        }
        let mut failures: Vec<Failure> = Vec::new();
        core::mem::swap(&mut failures, &mut self.failures);
        failures.append(&mut done.failures);
        let ghost held = actions@;
        actions.push(
            Action::Emit(Message::DbGenerated { compiled, deleted: done.removed, failures }),
        );
        self.drafts = Vec::new();
        self.pending = Vec::new();
        self.phase = Phase::Idle;
        proof {
            let tail = actions@.skip(given.len() as int);
            assert(actions@.take(given.len() as int) =~= held.take(given.len() as int));
            assert(tail.len() == res.saved@.len() + 2);
            assert(tail[0] == held[given.len() as int]);
            assert forall|s: int| 0 <= s < res.saved@.len() implies (
            #[trigger] tail[s + 1] matches Action::Save(article) && article@ == res.saved@[s]@) by {
                assert(tail[s + 1] == held[given.len() + 1 + s]);
            }
            assert(tail[tail.len() - 1] == actions@[actions@.len() - 1]);
            assert(reconciled_as(
                before.cache,
                before.cold_start,
                before.known,
                before.gone,
                before.drafts,
                self@.cache,
                res,
            ));
            assert(completed(before, self@, tail));
        }
    }

    /// Starts a round over `changes`; a round that is building is superseded.
    pub fn submit(&mut self, changes: ChangeSet) -> (actions: Vec<Action>)
        requires
            old(self).wf(),
        ensures
            final(self).wf(),
            submitted(old(self)@, changes, final(self)@, actions@),
    {
        let ghost before = self@;
        let mut actions: Vec<Action> = Vec::new();
        if self.phase == Phase::Building {
            actions.push(Action::Cancel { round: self.round });
        }
        let ghost offset = actions@.len() as int;
        self.round = if self.round == u64::MAX {
            0
        } else {
            self.round + 1
        };
        let pending = distinct(&changes.changed);
        proof {
            lemma_deduped(changes.changed@);
        }
        self.cold_start = changes.cold_start;
        self.known = changes.changed;
        self.gone = changes.deleted;
        self.drafts = Vec::new();
        self.failures = Vec::new();
        if pending.len() == 0 {
            self.pending = pending;
            self.phase = Phase::Building;
            proof {
                assert(self@ == started(before, changes));
            }
            let ghost given = actions@;
            self.complete(&mut actions);
            proof {
                if before.phase == Phase::Building {
                    assert(actions@[0] == actions@.take(given.len() as int)[0]);
                }
            }
        } else {
            let mut i: usize = 0;
            while i < pending.len()
                invariant
                    i <= pending.len(),
                    actions@.len() == offset + i,
                    offset <= 1,
                    before.phase == Phase::Building ==> offset == 1 && actions@[0] == (Action::Cancel {
                        round: before.round,
                    }),
                    before.phase != Phase::Building ==> offset == 0,
                    self.round == next_round(before.round),
                    forall|s: int|
                        0 <= s < i ==> (#[trigger] actions@[offset + s] matches Action::Compile {
                            round,
                            path,
                        } && round == self.round && path@ == pending@[s]@),
                decreases pending.len() - i,
            {
                let ghost held = actions@;
                actions.push(Action::Compile { round: self.round, path: pending[i].clone() });
                proof {
                    assert forall|s: int| 0 <= s < i + 1 implies (
                    #[trigger] actions@[offset + s] matches Action::Compile { round, path } && round
                        == self.round && path@ == pending@[s]@) by {
                        if s < i {
                            assert(actions@[offset + s] == held[offset + s]);
                        }
                    }
                    if before.phase == Phase::Building {
                        assert(actions@[0] == held[0]);
                    }
                }
                i = i + 1;
            }
            self.pending = pending;
            self.phase = Phase::Building;
            proof {
                assert(self@ == started(before, changes));
            }
        }
        actions
    }

    /// Takes the report of the compilation of `path` that was handed out in
    /// `round`. A report of another round than the one in flight, or of a
    /// path that is not waited for, is ignored.
    pub fn report(&mut self, round: u64, path: String, outcome: Result<Draft, Error>) -> (actions:
        Vec<Action>)
        requires
            old(self).wf(),
        ensures
            final(self).wf(),
            reported(old(self)@, round, path, outcome, final(self)@, actions@),
    {
        let ghost before = self@;
        let mut actions: Vec<Action> = Vec::new();
        if self.phase != Phase::Building || round != self.round {
            return actions;
        }
        let index = match position(&self.pending, &path) {
            Some(index) => index,
            None => {
                return actions;
            },
        };
        self.pending.remove(index);
        proof {
            let rest = self@.pending;
            assert forall|a: int, b: int| 0 <= a < b < rest.len() implies (#[trigger] rest[a])@ != (
            #[trigger] rest[b])@ by {
                let x = if a < index { a } else { a + 1 };
                let y = if b < index { b } else { b + 1 };
                assert(rest[a] == before.pending[x] && rest[b] == before.pending[y]);
            }
            assert forall|a: int| 0 <= a < rest.len() implies (#[trigger] rest[a])@ != path@
                && listed(before.pending, rest[a]@) by {
                let x = if a < index { a } else { a + 1 };
                assert(rest[a] == before.pending[x]);
                if x < index {
                    assert(before.pending[x]@ != before.pending[index as int]@);
                } else {
                    assert(before.pending[index as int]@ != before.pending[x]@);
                }
            }
        }
        match outcome {
            Ok(draft) => {
                self.drafts.push((path, draft));
                proof {
                    let drafts = self@.drafts;
                    assert forall|i: int, j: int| 0 <= i < j < drafts.len() implies (
                    #[trigger] drafts[i]).0@ != (#[trigger] drafts[j]).0@ by {
                        if j < before.drafts.len() {
                            assert(drafts[i] == before.drafts[i] && drafts[j] == before.drafts[j]);
                        } else {
                            assert(drafts[i] == before.drafts[i]);
                            assert(before.pending[index as int]@ != before.drafts[i].0@);
                        }
                    }
                }
            },
            Err(error) => {
                self.failures.push(Failure { path, error });
            },
        }
        proof {
            assert(self@ == collected(before, path, outcome));
            let now = self@;
            assert forall|a: int, j: int|
                0 <= a < now.pending.len() && 0 <= j < now.drafts.len() implies (
            #[trigger] now.pending[a])@ != (#[trigger] now.drafts[j]).0@ by {
                let x = if a < index { a } else { a + 1 };
                assert(now.pending[a] == before.pending[x]);
                if j < before.drafts.len() {
                    assert(now.drafts[j] == before.drafts[j]);
                }
            }
            if now.cold_start {
                assert forall|a: int| 0 <= a < now.pending.len() implies listed(
                    now.known,
                    (#[trigger] now.pending[a])@,
                ) by {
                    let x = if a < index { a } else { a + 1 };
                    assert(now.pending[a] == before.pending[x]);
                }
                assert forall|j: int| 0 <= j < now.drafts.len() implies listed(
                    now.known,
                    (#[trigger] now.drafts[j]).0@,
                ) by {
                    if j < before.drafts.len() {
                        assert(now.drafts[j] == before.drafts[j]);
                    } else {
                        assert(listed(now.known, before.pending[index as int]@));
                    }
                }
            }
        }
        if self.pending.len() == 0 {
            self.complete(&mut actions);
            proof {
                assert(actions@.skip(0) =~= actions@);
            }
        }
        actions
    }

    /// Takes a message: a scan or a list of changes starts a round, the
    /// report of a compilation is taken, and an announcement is not for the
    /// orchestrator.
    pub fn generate(&mut self, message: Message) -> (actions: Vec<Action>)
        requires
            old(self).wf(),
        ensures
            final(self).wf(),
            match message {
                Message::Sync { article_files, page_files } => exists|changes: ChangeSet|
                    {
                        &&& changes.cold_start
                        &&& changes.changed == article_files
                        &&& changes.deleted@.len() == 0
                        &&& #[trigger] submitted(old(self)@, changes, final(self)@, actions@)
                    },
                Message::Changes(list) => exists|changes: ChangeSet|
                    {
                        &&& !changes.cold_start
                        &&& changes.changed@ == changed_in(list@)
                        &&& changes.deleted@ == deleted_in(list@)
                        &&& #[trigger] submitted(old(self)@, changes, final(self)@, actions@)
                    },
                Message::DbArticleCreated { round, path, article, urls } => reported(
                    old(self)@,
                    round,
                    path,
                    Ok(article),
                    final(self)@,
                    actions@,
                ),
                Message::DbArticleError { round, path, error } => reported(
                    old(self)@,
                    round,
                    path,
                    Err(error),
                    final(self)@,
                    actions@,
                ),
                Message::DbGenerated { .. } => final(self)@ == old(self)@ && actions@.len() == 0,
            },
    {
        match message {
            Message::Sync { article_files, page_files } => {
                let changes = ChangeSet::from_scan(article_files);
                let ghost handed = changes;
                let actions = self.submit(changes);
                proof {
                    assert(submitted(old(self)@, handed, self@, actions@));
                }
                actions
            },
            Message::Changes(list) => {
                let changes = ChangeSet::from_changes(&list);
                let ghost handed = changes;
                let actions = self.submit(changes);
                proof {
                    assert(submitted(old(self)@, handed, self@, actions@));
                }
                actions
            },
            Message::DbArticleCreated { round, path, article, urls } => self.report(
                round,
                path,
                Ok(article),
            ),
            Message::DbArticleError { round, path, error } => self.report(round, path, Err(error)),
            Message::DbGenerated { .. } => Vec::new(),
        }
    }
}

/// A round that is superseded leaves no trace. Where `changes` is submitted
/// while a round is building: the round is cancelled, what it had reported
/// is dropped, and the cache holds no record that it did not hold before;
/// and a report of the old round that arrives later changes nothing.
pub proof fn lemma_superseded_round_leaves_no_trace(
    building: OrchestratorView,
    changes: ChangeSet,
    superseded: OrchestratorView,
    first: Seq<Action>,
    path: String,
    outcome: Result<Draft, Error>,
    later: OrchestratorView,
    second: Seq<Action>,
)
    requires
        well_formed(building),
        building.phase == Phase::Building,
        submitted(building, changes, superseded, first),
        reported(superseded, building.round, path, outcome, later, second),
    ensures
        first[0] == (Action::Cancel { round: building.round }),
        superseded.round != building.round,
        superseded.drafts.len() == 0,
        forall|r: ArticleView| #[trigger]
            superseded.cache.contains(r) ==> building.cache.contains(r),
        later == superseded,
        second.len() == 0,
{
    let fresh = started(building, changes);
    if fresh.pending.len() == 0 {
        let res = choose|res: Reconciled| #[trigger]
            reconciled_as(
                fresh.cache,
                fresh.cold_start,
                fresh.known,
                fresh.gone,
                fresh.drafts,
                superseded.cache,
                res,
            ) && res.saved@.len() + 2 == first.skip(1).len();
        assert(res.saved@.len() == 0);
        let clean = cleaned(fresh.cache, fresh.cold_start, fresh.known, fresh.gone);
        if fresh.cold_start {
            lemma_filter_well_keyed(
                fresh.cache,
                |record: ArticleView| listed(fresh.known, record.local_path),
            );
        } else {
            lemma_filter_well_keyed(
                fresh.cache,
                |record: ArticleView| !listed(fresh.gone, record.local_path),
            );
        }
        assert forall|r: ArticleView| #[trigger] superseded.cache.contains(r) implies building.cache.contains(
            r,
        ) by {
            assert(clean.contains(r));
            let x = choose|x: int| 0 <= x < clean.len() && clean[x] == r;
            assert(fresh.cache.contains(clean[x]));
        }
    }
}

/// A failure of one document does not keep the others out of the cache.
/// Where a round is completed and nothing stands in the way of storing what
/// compiled, every document that compiled has its record in the cache, with
/// the content of its draft, and the announcement counts them all and names
/// the documents that did not compile, and no other.
pub proof fn lemma_round_stores_what_compiled(
    before: OrchestratorView,
    after: OrchestratorView,
    actions: Seq<Action>,
)
    requires
        well_formed_but_for_phase(before),
        completed(before, after, actions),
        free_of_clashes(
            cleaned(before.cache, before.cold_start, before.known, before.gone),
            before.drafts,
        ),
    ensures
        forall|j: int|
            0 <= j < before.drafts.len() ==> record_of(
                after.cache,
                (#[trigger] before.drafts[j]).0@,
                before.drafts[j].1,
            ),
        actions.len() == before.drafts.len() + 2,
        actions[actions.len() - 1] matches Action::Emit(
            Message::DbGenerated { compiled, deleted, failures },
        ) && compiled == before.drafts.len() && failures@ == before.failures,
{
    let res = choose|res: Reconciled|
        {
            &&& #[trigger] reconciled_as(
                before.cache,
                before.cold_start,
                before.known,
                before.gone,
                before.drafts,
                after.cache,
                res,
            )
            &&& actions.len() == res.saved@.len() + 2
            &&& actions[actions.len() - 1] matches Action::Emit(
                Message::DbGenerated { compiled, deleted, failures },
            ) && compiled == res.saved@.len() && deleted == res.removed && failures@
                == before.failures + res.failures@
        };
    lemma_free_drafts_are_stored(
        cleaned(before.cache, before.cold_start, before.known, before.gone),
        before.drafts,
        after.cache,
        res,
    );
    assert(before.failures + res.failures@ =~= before.failures);
}

/// After a round over the whole corpus in which every document compiled and
/// nothing stands in the way of storing, the cache holds the corpus exactly:
/// no record of a document outside it, one record for each document of it,
/// with the content of its draft, and nothing else.
pub proof fn lemma_completed_round_holds_the_corpus(
    before: OrchestratorView,
    after: OrchestratorView,
    actions: Seq<Action>,
)
    requires
        well_formed_but_for_phase(before),
        before.cold_start,
        completed(before, after, actions),
        free_of_clashes(
            cleaned(before.cache, before.cold_start, before.known, before.gone),
            before.drafts,
        ),
        forall|p: int|
            0 <= p < before.known.len() ==> drafted(before.drafts, (#[trigger] before.known[p])@),
    ensures
        well_keyed(after.cache),
        forall|k: int|
            0 <= k < after.cache.len() ==> listed(
                before.known,
                (#[trigger] after.cache[k]).local_path,
            ),
        forall|j: int|
            0 <= j < before.drafts.len() ==> record_of(
                after.cache,
                (#[trigger] before.drafts[j]).0@,
                before.drafts[j].1,
            ),
        forall|k: int|
            0 <= k < after.cache.len() ==> from_drafts(before.drafts, #[trigger] after.cache[k]),
{
    let res = choose|res: Reconciled| #[trigger]
        reconciled_as(
            before.cache,
            before.cold_start,
            before.known,
            before.gone,
            before.drafts,
            after.cache,
            res,
        );
    lemma_cold_round_holds_the_corpus(
        before.cache,
        before.known,
        before.gone,
        before.drafts,
        after.cache,
        res,
    );
}

/// After a round over the whole corpus has been completed, the cache holds
/// no record of a document outside the corpus.
pub proof fn lemma_completed_round_over_corpus(
    before: OrchestratorView,
    after: OrchestratorView,
    actions: Seq<Action>,
)
    requires
        well_formed_but_for_phase(before),
        before.cold_start,
        completed(before, after, actions),
    ensures
        forall|k: int|
            0 <= k < after.cache.len() ==> listed(
                before.known,
                (#[trigger] after.cache[k]).local_path,
            ),
{
    let res = choose|res: Reconciled| #[trigger]
        reconciled_as(
            before.cache,
            before.cold_start,
            before.known,
            before.gone,
            before.drafts,
            after.cache,
            res,
        );
    lemma_cold_start_round(before.cache, before.known, before.gone, before.drafts, after.cache, res);
}

} // verus!
