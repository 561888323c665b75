//! The synchronization engine and the target repository.
//!
//! `SyncRepo` wraps the target repository. It enforces the fresh-history
//! precondition, appends empty-tree commits one by one, and keeps the
//! parent chain strictly linear: the first appended commit has no parent,
//! every later one has exactly the previously appended commit as its
//! parent. A ghost history records every append, so the contracts can say
//! which commits the target holds after a run.

use crate::author::Author;
use crate::commit::{CommitMeta, CommitTime};
use crate::error::RepoError;
use crate::gitio::{head_exists, init_repository, no_interior_nul, open_repository, write_empty_commit};
use crate::interleave::{interleave, lemma_round_robin_len, round_robin, sum_len, vecs_view};
use crate::source::{email_matches, SourceRepo};
use vstd::prelude::*;

verus! {

/// What one appended commit looked like: its id, the parent ids it was
/// written with, the signature it carries and its message.
pub struct CommitRecord {
    pub id: git2::Oid,
    pub parents: Seq<git2::Oid>,
    pub author_name: Seq<char>,
    pub author_email: Seq<char>,
    pub when: CommitTime,
    pub message: Seq<char>,
}

/// The parents the `i`-th appended commit must carry: none for the first,
/// exactly the previous commit otherwise.
pub open spec fn parents_before(h: Seq<CommitRecord>, i: int) -> Seq<git2::Oid> {
    if i == 0 {
        Seq::empty()
    } else {
        seq![h[i - 1].id]
    }
}

/// The history is strictly linear: every commit's parent list is exactly
/// `parents_before` its position.
pub open spec fn chain_linked(h: Seq<CommitRecord>) -> bool {
    forall|i: int| 0 <= i < h.len() ==> (#[trigger] h[i]).parents == parents_before(h, i)
}

/// The parent list for the next append: empty at the start, the last
/// appended commit afterwards.
pub open spec fn tip_parents(h: Seq<CommitRecord>) -> Seq<git2::Oid> {
    if h.len() == 0 {
        Seq::empty()
    } else {
        seq![h.last().id]
    }
}

/// The records from `base` on replay `metas`: re-signed with the author's
/// name and signature email, keeping each source commit's time and
/// message.
pub open spec fn records_replay(
    author: Author,
    h: Seq<CommitRecord>,
    metas: Seq<CommitMeta>,
    base: int,
) -> bool {
    forall|k: int|
        0 <= k < metas.len() ==> {
            let rec = #[trigger] h[base + k];
            &&& rec.author_name == author.name@
            &&& rec.author_email == author.emails@[0]@
            &&& rec.when == metas[k].when
            &&& metas[k].message matches Some(msg) && rec.message == msg@
        }
}

/// `new_h` extends `old_h` by exactly the replay of `metas`, in order.
pub open spec fn replay_extends(
    author: Author,
    old_h: Seq<CommitRecord>,
    new_h: Seq<CommitRecord>,
    metas: Seq<CommitMeta>,
) -> bool {
    &&& new_h.len() == old_h.len() + metas.len()
    &&& new_h.subrange(0, old_h.len() as int) == old_h
    &&& records_replay(author, new_h, metas, old_h.len() as int)
}

/// The n-th appended commit (1-indexed) has no parent when it is the
/// first and exactly one parent otherwise, and that parent is the
/// (n-1)-th appended commit: the target history is strictly linear.
pub proof fn lemma_parent_chain(h: Seq<CommitRecord>, n: int)
    requires
        chain_linked(h),
        1 <= n <= h.len(),
    ensures
        n == 1 ==> h[n - 1].parents.len() == 0,
        n > 1 ==> h[n - 1].parents.len() == 1 && h[n - 1].parents == seq![h[n - 2].id],
{
    assert(h[n - 1].parents == parents_before(h, n - 1));
}

proof fn lemma_chain_push(h: Seq<CommitRecord>, rec: CommitRecord)
    requires
        chain_linked(h),
        rec.parents == tip_parents(h),
    ensures
        chain_linked(h.push(rec)),
{
    let ext = h.push(rec);
    assert forall|i: int| 0 <= i < ext.len() implies (#[trigger] ext[i]).parents
        == parents_before(ext, i) by {
        if i < h.len() {
            assert(ext[i] == h[i]);
            if i > 0 {
                assert(ext[i - 1] == h[i - 1]);
            }
        } else {
            assert(ext[i] == rec);
            if h.len() > 0 {
                assert(ext[i - 1] == h[h.len() - 1]);
            }
        }
    }
}

proof fn lemma_extends_snoc(
    author: Author,
    h0: Seq<CommitRecord>,
    h1: Seq<CommitRecord>,
    h2: Seq<CommitRecord>,
    metas: Seq<CommitMeta>,
    m: CommitMeta,
)
    requires
        replay_extends(author, h0, h1, metas),
        replay_extends(author, h1, h2, seq![m]),
    ensures
        replay_extends(author, h0, h2, metas.push(m)),
{
    assert(h2.subrange(0, h1.len() as int) == h1);
    assert forall|j: int| 0 <= j < h1.len() implies h2[j] == h1[j] by {
        assert(h2.subrange(0, h1.len() as int)[j] == h2[j]);
    }
    assert(h2.subrange(0, h0.len() as int) =~= h0);
    assert forall|k: int|
        0 <= k < metas.push(m).len() implies {
        let rec = #[trigger] h2[h0.len() + k];
        &&& rec.author_name == author.name@
        &&& rec.author_email == author.emails@[0]@
        &&& rec.when == metas.push(m)[k].when
        &&& metas.push(m)[k].message matches Some(msg) && rec.message == msg@
    } by {
        if k < metas.len() {
            assert(metas.push(m)[k] == metas[k]);
            assert(h1[h0.len() + k] == h2[h0.len() + k]);
            assert(records_replay(author, h1, metas, h0.len() as int));
            assert(h1[h0.len() + k].author_name == author.name@);
        } else {
            assert(k == metas.len());
            assert(metas.push(m)[k] == m);
            assert(records_replay(author, h2, seq![m], h1.len() as int));
            assert(seq![m][0] == m);
            let rec1 = h2[h1.len() as int + 0];
            assert(rec1.author_name == author.name@ && rec1.author_email == author.emails@[0]@
                && rec1.when == seq![m][0].when && (seq![m][0].message matches Some(msg)
                && rec1.message == msg@));
            assert(h0.len() + k == h1.len() as int + 0);
        }
    }
}

/// One source's harvested commits, named for reporting.
pub struct SourceBatch {
    pub name: String,
    pub commits: Vec<CommitMeta>,
}

/// What the engine reports per source: its name and how many commits were
/// replayed from it.
pub struct SourceSummary {
    pub name: String,
    pub count: usize,
}

/// The per-source commit sequences of a run, in source order.
pub open spec fn batch_seqs(batches: Seq<SourceBatch>) -> Seq<Seq<CommitMeta>> {
    batches.map_values(|b: SourceBatch| b.commits@)
}

/// The target repository, with the rolling tip and the ghost history of
/// every commit appended in this run.
pub struct SyncRepo {
    repo: git2::Repository,
    author: Author,
    parents: Vec<git2::Oid>,
    history: Ghost<Seq<CommitRecord>>,
}

impl SyncRepo {
    /// The identity that signs every replayed commit.
    pub closed spec fn spec_author(&self) -> Author {
        self.author
    }

    /// Every commit appended in this run, in append order.
    pub closed spec fn spec_history(&self) -> Seq<CommitRecord> {
        self.history@
    }

    /// The author is usable and the recorded history is linear, with the
    /// rolling parent list pointing at its end.
    pub closed spec fn wf(&self) -> bool {
        &&& self.author.wf()
        &&& chain_linked(self.history@)
        &&& self.parents@ == tip_parents(self.history@)
    }

    /// The bridge out of the opaque invariant: a well-formed engine's
    /// recorded history is strictly linear, so `lemma_parent_chain`
    /// applies to it.
    pub proof fn lemma_wf_chain(&self)
        requires
            self.wf(),
        ensures
            chain_linked(self.spec_history()),
    {
    }

    /// The fresh-target precondition: a target whose head already
    /// resolves (any number of existing commits) is refused, always with a
    /// validation error; an empty target is accepted. Replaying into
    /// existing history is not supported.
    pub fn require_fresh(has_head: bool) -> (r: Result<(), RepoError>)
        ensures
            r is Ok <==> !has_head,
            r matches Err(e) ==> e is Validation,
    {
        if has_head {
            Err(
                RepoError::Validation(
                    "cannot handle existing target repository history yet".to_owned(),
                ),
            )
        } else {
            Ok(())
        }
    }

    /// Opens the target repository at `repo_path`, or initializes a fresh
    /// one (initial branch `main`) when none can be opened. Fails, through
    /// `require_fresh`, when the existing repository already has a
    /// resolvable head.
    pub fn read_or_create(repo_path: &String, author: Author) -> (r: Result<SyncRepo, RepoError>)
        requires
            author.wf(),
        ensures
            r matches Ok(sync) ==> sync.wf() && sync.spec_history() == Seq::<
                CommitRecord,
            >::empty() && sync.spec_author() == author,
    {
        match open_repository(repo_path.as_str()) {
            Ok(existing) => {
                match Self::require_fresh(head_exists(&existing)) {
                    Ok(u) => Ok(
                        SyncRepo {
                            repo: existing,
                            author,
                            parents: Vec::new(),
                            history: Ghost(Seq::empty()),
                        },
                    ),
                    Err(e) => Err(e),
                }
            },
            Err(_) => {
                proof {
                    assert(no_interior_nul("main"@)) by {
                        reveal_strlit("main");
                        assert("main"@ =~= seq!['m', 'a', 'i', 'n']);
                    }
                }
                match init_repository(repo_path.as_str(), "main") {
                    Ok(repo) => Ok(
                        SyncRepo {
                            repo,
                            author,
                            parents: Vec::new(),
                            history: Ghost(Seq::empty()),
                        },
                    ),
                    Err(e) => Err(RepoError::Git2(e)),
                }
            },
        }
    }

    /// Appends one empty-tree commit for `commit`: signed with the
    /// engine's author name and signature email at the source commit's
    /// time, carrying the source commit's message, with the current tip
    /// as its only parent (none for the first). On success the tip moves
    /// to the new commit; on failure nothing changes. A commit whose
    /// message is unreadable is refused.
    fn copy_author_commit(&mut self, commit: &CommitMeta) -> (r: Result<(), RepoError>)
        requires
            old(self).wf(),
        ensures
            final(self).wf(),
            final(self).spec_author() == old(self).spec_author(),
            r matches Ok(u) ==> replay_extends(
                old(self).spec_author(),
                old(self).spec_history(),
                final(self).spec_history(),
                seq![*commit],
            ),
            r is Err ==> *final(self) == *old(self),
            commit.message is None ==> r is Err,
            r matches Err(e) && e is Validation ==> commit.message is None,
    {
        let msg = match &commit.message {
            Some(msg) => msg,
            None => {
                return Err(
                    RepoError::Validation(
                        "cannot replay a commit whose message is missing or not readable".to_owned(),
                    ),
                );
            },
        };
        let id_result = write_empty_commit(
            &self.repo,
            self.author.name.as_str(),
            self.author.emails[0].0.as_str(),
            &commit.when,
            msg.as_str(),
            &self.parents,
        );
        match id_result {
            Ok(id) => {
                self.parents.clear();
                self.parents.push(id);
                proof {
                    let rec = CommitRecord {
                        id,
                        parents: tip_parents(old(self).spec_history()),
                        author_name: old(self).author.name@,
                        author_email: old(self).author.emails@[0]@,
                        when: commit.when,
                        message: msg@,
                    };
                    lemma_chain_push(self.history@, rec);
                    self.history@ = self.history@.push(rec);
                    assert(self.history@.subrange(0, old(self).history@.len() as int)
                        =~= old(self).history@);
                    assert(self.parents@ =~= tip_parents(self.history@));
                }
                Ok(())
            },
            Err(e) => Err(RepoError::Git2(e)),
        }
    }

    /// Replays the harvested batches in round-robin order, one commit per
    /// non-exhausted source per round, appending each to the target. On
    /// success the history grows by exactly the round-robin merge of the
    /// batches, and the summaries report every source's name and commit
    /// count in source order. On failure the history keeps the prefix
    /// replayed so far; nothing is rolled back.
    #[verifier::loop_isolation(false)]
    pub fn replay_interleaved(&mut self, batches: Vec<SourceBatch>) -> (r: Result<
        Vec<SourceSummary>,
        RepoError,
    >)
        requires
            old(self).wf(),
        ensures
            final(self).wf(),
            final(self).spec_author() == old(self).spec_author(),
            r matches Ok(summaries) ==> {
                &&& replay_extends(
                    old(self).spec_author(),
                    old(self).spec_history(),
                    final(self).spec_history(),
                    round_robin(batch_seqs(batches@)),
                )
                &&& summaries@.len() == batches@.len()
                &&& forall|i: int|
                    0 <= i < batches@.len() ==> (#[trigger] summaries@[i]).name@
                        == batches@[i].name@ && summaries@[i].count == batches@[i].commits@.len()
            },
            r is Err ==> exists|n: int|
                0 <= n <= round_robin(batch_seqs(batches@)).len() && replay_extends(
                    old(self).spec_author(),
                    old(self).spec_history(),
                    final(self).spec_history(),
                    round_robin(batch_seqs(batches@)).take(n),
                ),
            sum_len(batch_seqs(batches@)) == 0 ==> r is Ok,
            (r matches Err(e) && e is Validation) ==> exists|k: int|
                0 <= k < round_robin(batch_seqs(batches@)).len() && (#[trigger] round_robin(
                    batch_seqs(batches@),
                )[k]).message is None,
    {
        let ghost played = round_robin(batch_seqs(batches@));
        proof {
            lemma_round_robin_len(batch_seqs(batches@));
        }
        let mut summaries: Vec<SourceSummary> = Vec::new();
        let mut i: usize = 0;
        while i < batches.len()
            invariant
                i <= batches@.len(),
                summaries@.len() == i,
                forall|j: int|
                    0 <= j < i ==> (#[trigger] summaries@[j]).name@ == batches@[j].name@
                        && summaries@[j].count == batches@[j].commits@.len(),
            decreases batches@.len() - i,
        {
            summaries.push(
                SourceSummary { name: batches[i].name.clone(), count: batches[i].commits.len() },
            );
            i = i + 1;
        }
        let ghost orig = batches@;
        let mut queue: Vec<Vec<CommitMeta>> = Vec::new();
        let mut rest = batches;
        let ghost mut k: int = 0;
        proof {
            assert(rest@ =~= orig.skip(0));
            assert(vecs_view(queue@) =~~= batch_seqs(orig.take(0)));
        }
        while rest.len() > 0
            invariant
                0 <= k <= orig.len(),
                rest@ == orig.skip(k),
                vecs_view(queue@) == batch_seqs(orig.take(k)),
            decreases rest@.len(),
        {
            let ghost q_old = queue@;
            let batch = rest.remove(0);
            queue.push(batch.commits);
            proof {
                assert(batch == orig[k]);
                assert(rest@ =~= orig.skip(k + 1));
                assert(queue@ == q_old.push(batch.commits));
                assert(q_old.len() == k);
                assert forall|i2: int| 0 <= i2 < k + 1 implies vecs_view(queue@)[i2]
                    == batch_seqs(orig.take(k + 1))[i2] by {
                    assert(orig.take(k + 1)[i2] == orig[i2]);
                    if i2 < k {
                        assert(queue@[i2] == q_old[i2]);
                        assert(vecs_view(q_old)[i2] == batch_seqs(orig.take(k))[i2]);
                        assert(vecs_view(q_old)[i2] == q_old[i2]@);
                        assert(batch_seqs(orig.take(k))[i2] == orig.take(k)[i2].commits@);
                        assert(orig.take(k)[i2] == orig[i2]);
                    } else {
                        assert(queue@[i2] == batch.commits);
                    }
                    assert(vecs_view(queue@)[i2] == queue@[i2]@);
                    assert(batch_seqs(orig.take(k + 1))[i2] == orig.take(k + 1)[i2].commits@);
                }
                assert(vecs_view(queue@) =~= batch_seqs(orig.take(k + 1)));
                k = k + 1;
            }
        }
        proof {
            assert(orig.take(k) =~= orig);
        }
        let order = interleave(queue);
        let ghost author0 = old(self).spec_author();
        let ghost h0 = old(self).spec_history();
        let mut n: usize = 0;
        proof {
            assert(order@.take(0) =~= Seq::<CommitMeta>::empty());
            assert(h0.subrange(0, h0.len() as int) =~= h0);
        }
        while n < order.len()
            invariant
                n <= order@.len(),
                order@ == played,
                self.wf(),
                self.spec_author() == author0,
                replay_extends(author0, h0, self.spec_history(), order@.take(n as int)),
            decreases order@.len() - n,
        {
            let ghost h_mid = self.spec_history();
            match self.copy_author_commit(&order[n]) {
                Ok(_) => {},
                Err(e) => {
                    proof {
                        assert(replay_extends(author0, h0, self.spec_history(), played.take(
                            n as int,
                        )));
                        if e is Validation {
                            assert(order@[n as int].message is None);
                            assert(round_robin(batch_seqs(orig))[n as int].message is None);
                        }
                    }
                    return Err(e);
                },
            }
            proof {
                lemma_extends_snoc(
                    author0,
                    h0,
                    h_mid,
                    self.spec_history(),
                    order@.take(n as int),
                    order@[n as int],
                );
                assert(order@.take(n + 1) =~= order@.take(n as int).push(order@[n as int]));
            }
            n = n + 1;
        }
        proof {
            assert(order@.take(order@.len() as int) =~= order@);
        }
        Ok(summaries)
    }

    /// Harvests each source's matching commits and replays them all in
    /// round-robin order. Whatever happens, every commit this call
    /// appends is signed with the engine's author; on failure the target
    /// keeps what was already replayed.
    #[verifier::loop_isolation(false)]
    pub fn copy_matching_commits(&mut self, repos_to_copy: &Vec<SourceRepo>) -> (r: Result<
        Vec<SourceSummary>,
        RepoError,
    >)
        requires
            old(self).wf(),
        ensures
            final(self).wf(),
            final(self).spec_author() == old(self).spec_author(),
            exists|metas: Seq<CommitMeta>|
                replay_extends(
                    old(self).spec_author(),
                    old(self).spec_history(),
                    final(self).spec_history(),
                    metas,
                ),
            r matches Ok(summaries) ==> summaries@.len() == repos_to_copy@.len() && forall|i: int|
                0 <= i < repos_to_copy@.len() ==> (#[trigger] summaries@[i]).name@
                    == repos_to_copy@[i].spec_name(),
            repos_to_copy@.len() == 0 ==> r is Ok,
            r matches Ok(summaries) ==> exists|bs: Seq<Seq<CommitMeta>>|
                {
                    &&& bs.len() == repos_to_copy@.len()
                    &&& forall|i: int|
                        0 <= i < bs.len() ==> (#[trigger] summaries@[i]).count == bs[i].len()
                    &&& forall|i: int, k: int|
                        0 <= i < bs.len() && 0 <= k < bs[i].len() ==> email_matches(
                            #[trigger] bs[i][k],
                            old(self).spec_author().emails@,
                        )
                    &&& replay_extends(
                        old(self).spec_author(),
                        old(self).spec_history(),
                        final(self).spec_history(),
                        round_robin(bs),
                    )
                },
    {
        let mut batches: Vec<SourceBatch> = Vec::new();
        let mut i: usize = 0;
        while i < repos_to_copy.len()
            invariant
                i <= repos_to_copy@.len(),
                batches@.len() == i,
                old(self).wf(),
                *self == *old(self),
                forall|j: int|
                    0 <= j < i ==> (#[trigger] batches@[j]).name@ == repos_to_copy@[j].spec_name(),
                forall|j: int, k: int|
                    0 <= j < i && 0 <= k < batches@[j].commits@.len() ==> email_matches(
                        #[trigger] batches@[j].commits@[k],
                        old(self).spec_author().emails@,
                    ),
            decreases repos_to_copy@.len() - i,
        {
            let commits = match repos_to_copy[i].get_author_commits(&self.author) {
                Ok(commits) => commits,
                Err(e) => {
                    proof {
                        assert(replay_extends(
                            old(self).spec_author(),
                            old(self).spec_history(),
                            self.spec_history(),
                            Seq::<CommitMeta>::empty(),
                        )) by {
                            assert(self.spec_history().subrange(
                                0,
                                self.spec_history().len() as int,
                            ) =~= self.spec_history());
                        }
                    }
                    return Err(e);
                },
            };
            batches.push(SourceBatch { name: repos_to_copy[i].name().clone(), commits });
            i = i + 1;
        }
        let ghost gb = batches@;
        let result = self.replay_interleaved(batches);
        match result {
            Ok(summaries) => {
                proof {
                    let bs = batch_seqs(gb);
                    assert(bs.len() == repos_to_copy@.len());
                    assert forall|i2: int| 0 <= i2 < bs.len() implies (
                    #[trigger] summaries@[i2]).count == bs[i2].len() by {
                        assert(bs[i2] == gb[i2].commits@);
                    }
                    assert forall|i2: int, k2: int|
                        0 <= i2 < bs.len() && 0 <= k2 < bs[i2].len() implies email_matches(
                        #[trigger] bs[i2][k2],
                        old(self).spec_author().emails@,
                    ) by {
                        assert(bs[i2] == gb[i2].commits@);
                    }
                    assert(replay_extends(
                        old(self).spec_author(),
                        old(self).spec_history(),
                        self.spec_history(),
                        round_robin(bs),
                    ));
                }
                Ok(summaries)
            },
            Err(e) => {
                proof {
                    if repos_to_copy@.len() == 0 {
                        assert(batch_seqs(gb).len() == 0);
                        assert(sum_len(batch_seqs(gb)) == 0);
                        assert(false);
                    }
                }
                Err(e)
            },
        }
    }
}

} // verus!
