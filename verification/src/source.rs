//! Discovery of source repositories and harvesting of matching commits.

use crate::author::Author;
use crate::commit::CommitMeta;
use crate::email::EmailAddress;
use crate::error::RepoError;
use crate::gitio::{commit_meta, config_string, head_commit_ids, open_repository, repo_config};
use vstd::prelude::*;

verus! {

/// A directory found while scanning for repositories: its canonicalized
/// path, its directory name, and whether it carries the version-control
/// metadata marker.
pub struct RepoCandidate {
    pub path: String,
    pub name: String,
    pub is_git_repo: bool,
}

/// One source repository: the opened handle, the directory name it was
/// found under, and its `remote.origin.url` when one is configured.
pub struct SourceRepo {
    repo: git2::Repository,
    name: String,
    remote_url: Option<String>,
}

/// What the discovery returns: the repositories to synchronize, and the
/// remote URLs of directories that were dropped as duplicates (the caller
/// may report them; dropping one is not an error).
pub struct Discovery {
    pub repos: Vec<SourceRepo>,
    pub duplicate_urls: Vec<String>,
}

/// A scanned child directory is taken as a source iff it carries the
/// repository marker and is not the target repository itself.
pub open spec fn is_selected(c: RepoCandidate, sync_repo_name: Seq<char>) -> bool {
    c.is_git_repo && c.name@ != sync_repo_name
}

/// The children that the scan keeps, in scan order.
pub open spec fn selected(children: Seq<RepoCandidate>, sync_repo_name: Seq<char>) -> Seq<
    RepoCandidate,
> {
    children.filter(|c: RepoCandidate| is_selected(c, sync_repo_name))
}

/// No two kept repositories share a configured remote URL.
pub open spec fn distinct_remote_urls(repos: Seq<SourceRepo>) -> bool {
    forall|i: int, j: int|
        0 <= i < j < repos.len() && (#[trigger] repos[i].spec_remote_url()) is Some
            ==> repos[i].spec_remote_url() != #[trigger] repos[j].spec_remote_url()
}

/// Some kept repository has `u` as its configured remote URL.
pub open spec fn url_kept(repos: Seq<SourceRepo>, u: Seq<char>) -> bool {
    exists|i: int| 0 <= i < repos.len() && (#[trigger] repos[i].spec_remote_url()) == Some(u)
}

/// Every dropped URL is the remote URL of some kept repository: the first
/// occurrence of a URL wins, later ones are dropped.
pub open spec fn dup_urls_covered(repos: Seq<SourceRepo>, dups: Seq<String>) -> bool {
    forall|k: int| 0 <= k < dups.len() ==> url_kept(repos, (#[trigger] dups[k])@)
}

/// `picks` maps each kept repository, in order, to the scanned child it
/// was opened from: strictly increasing positions, each a selected child
/// whose name the repository carries.
pub open spec fn is_scan_order_witness(
    picks: Seq<int>,
    repos: Seq<SourceRepo>,
    children: Seq<RepoCandidate>,
    sync_repo_name: Seq<char>,
) -> bool {
    &&& picks.len() == repos.len()
    &&& forall|i: int| 0 <= i < picks.len() ==> 0 <= #[trigger] picks[i] < children.len()
    &&& forall|i: int| 0 <= i < picks.len() - 1 ==> #[trigger] picks[i] < picks[i + 1]
    &&& forall|i: int|
        0 <= i < picks.len() ==> is_selected(children[#[trigger] picks[i]], sync_repo_name)
            && repos[i].spec_name() == children[picks[i]].name@
}

/// Some kept repository carries `u` as its remote URL and was opened from
/// a child scanned before position `pos`.
pub open spec fn url_kept_before(
    picks: Seq<int>,
    repos: Seq<SourceRepo>,
    u: Seq<char>,
    pos: int,
) -> bool {
    exists|t: int|
        0 <= t < repos.len() && (#[trigger] repos[t].spec_remote_url()) == Some(u) && picks[t]
            < pos
}

/// `dup_picks` maps each dropped URL, in order, to the selected child it
/// was met on; each such child was scanned strictly *after* the kept
/// repository that carries the same URL. The first occurrence of a URL
/// wins; later ones are the dropped duplicates.
pub open spec fn dups_after_kept(
    picks: Seq<int>,
    dup_picks: Seq<int>,
    repos: Seq<SourceRepo>,
    dups: Seq<String>,
    children: Seq<RepoCandidate>,
    sync_repo_name: Seq<char>,
) -> bool {
    &&& dup_picks.len() == dups.len()
    &&& forall|k: int|
        0 <= k < dup_picks.len() ==> 0 <= #[trigger] dup_picks[k] < children.len()
            && is_selected(children[dup_picks[k]], sync_repo_name)
    &&& forall|k: int|
        0 <= k < dups.len() ==> url_kept_before(picks, repos, (#[trigger] dups[k])@, dup_picks[k])
}

/// The discovery respects scan order: the kept repositories come from a
/// strictly increasing selection of the scanned children, and every
/// dropped duplicate was scanned after the kept repository with its URL.
pub open spec fn discovery_in_scan_order(
    repos: Seq<SourceRepo>,
    dups: Seq<String>,
    children: Seq<RepoCandidate>,
    sync_repo_name: Seq<char>,
) -> bool {
    exists|picks: Seq<int>, dup_picks: Seq<int>|
        is_scan_order_witness(picks, repos, children, sync_repo_name) && dups_after_kept(
            picks,
            dup_picks,
            repos,
            dups,
            children,
            sync_repo_name,
        )
}

/// A commit matches when its author email is present and equals one of the
/// configured aliases, character for character.
pub open spec fn email_matches(m: CommitMeta, emails: Seq<EmailAddress>) -> bool {
    match m.author_email {
        Some(ae) => exists|i: int| 0 <= i < emails.len() && (#[trigger] emails[i])@ == ae@,
        None => false,
    }
}

/// The harvested commits: exactly those whose author email matches, in
/// their original order.
pub open spec fn matching_commits(metas: Seq<CommitMeta>, emails: Seq<EmailAddress>) -> Seq<
    CommitMeta,
> {
    metas.filter(|m: CommitMeta| email_matches(m, emails))
}

fn email_matches_exec(m: &CommitMeta, emails: &Vec<EmailAddress>) -> (r: bool)
    ensures
        r == email_matches(*m, emails@),
{
    match &m.author_email {
        Some(ae) => {
            let mut found = false;
            let mut i: usize = 0;
            while i < emails.len()
                invariant
                    i <= emails@.len(),
                    found <==> exists|j: int| 0 <= j < i && (#[trigger] emails@[j])@ == ae@,
                decreases emails@.len() - i,
            {
                if emails[i].0.eq(ae) {
                    found = true;
                }
                i = i + 1;
            }
            found
        },
        None => false,
    }
}

/// Keeps exactly the commits whose author email matches one of the
/// aliases; order is preserved.
pub fn filter_matching(metas: Vec<CommitMeta>, emails: &Vec<EmailAddress>) -> (r: Vec<CommitMeta>)
    ensures
        r@ == matching_commits(metas@, emails@),
{
    let ghost orig = metas@;
    let ghost pred = |m: CommitMeta| email_matches(m, emails@);
    let mut rest = metas;
    let mut out: Vec<CommitMeta> = Vec::new();
    let ghost mut k: int = 0;
    proof {
        assert(orig.take(0).filter(pred) =~= Seq::<CommitMeta>::empty()) by {
            reveal(Seq::filter);
        }
        assert(rest@ =~= orig.skip(0));
    }
    while rest.len() > 0
        invariant
            0 <= k <= orig.len(),
            rest@ == orig.skip(k),
            out@ == orig.take(k).filter(pred),
            pred == (|m: CommitMeta| email_matches(m, emails@)),
        decreases rest@.len(),
    {
        let m = rest.remove(0);
        let keep = email_matches_exec(&m, emails);
        proof {
            reveal(Seq::filter);
            assert(m == orig[k]);
            assert(orig.take(k + 1).drop_last() =~= orig.take(k));
            assert(orig.take(k + 1).last() == orig[k]);
        }
        if keep {
            out.push(m);
        }
        proof {
            assert(rest@ =~= orig.skip(k + 1));
            k = k + 1;
        }
    }
    proof {
        assert(orig.take(k) =~= orig);
    }
    out
}

impl SourceRepo {
    /// The directory name the repository was found under.
    pub closed spec fn spec_name(&self) -> Seq<char> {
        self.name@
    }

    /// The configured `remote.origin.url`, when present.
    pub closed spec fn spec_remote_url(&self) -> Option<Seq<char>> {
        match self.remote_url {
            Some(u) => Some(u@),
            None => None,
        }
    }

    /// The repository's name.
    pub fn name(&self) -> (r: &String)
        ensures
            r@ == self.spec_name(),
    {
        &self.name
    }

    /// The repository's remote URL, when one is configured.
    pub fn remote_url(&self) -> (r: &Option<String>)
        ensures
            r matches Some(u) ==> self.spec_remote_url() == Some(u@),
            r is None ==> self.spec_remote_url() is None,
    {
        &self.remote_url
    }

    /// Harvests the commits reachable from head whose author email matches
    /// one of `author`'s aliases, ancestors before descendants. A commit
    /// without a readable author email never matches; finding none is not
    /// an error.
    pub fn get_author_commits(&self, author: &Author) -> (r: Result<Vec<CommitMeta>, RepoError>)
        ensures
            r matches Ok(commits) ==> forall|i: int|
                0 <= i < commits@.len() ==> email_matches(#[trigger] commits@[i], author.emails@),
            r matches Err(e) ==> e is Git2,
    {
        let ids = match head_commit_ids(&self.repo) {
            Ok(ids) => ids,
            Err(e) => {
                return Err(RepoError::Git2(e));
            },
        };
        let mut metas: Vec<CommitMeta> = Vec::new();
        let mut i: usize = 0;
        while i < ids.len()
            invariant
                i <= ids@.len(),
            decreases ids@.len() - i,
        {
            match commit_meta(&self.repo, ids[i]) {
                Ok(m) => metas.push(m),
                Err(e) => {
                    return Err(RepoError::Git2(e));
                },
            }
            i = i + 1;
        }
        let commits = filter_matching(metas, &author.emails);
        proof {
            assert forall|j: int| 0 <= j < commits@.len() implies email_matches(
                #[trigger] commits@[j],
                author.emails@,
            ) by {
                metas@.lemma_filter_pred(|m: CommitMeta| email_matches(m, author.emails@), j);
            }
        }
        Ok(commits)
    }
}

/// Opens the repository at `candidate` and reads its remote URL.
fn open_source(candidate: &RepoCandidate) -> (r: Result<SourceRepo, RepoError>)
    ensures
        r matches Ok(repo) ==> repo.spec_name() == candidate.name@,
        r matches Err(e) ==> e is Git2,
{
    let repo = match open_repository(candidate.path.as_str()) {
        Ok(repo) => repo,
        Err(e) => {
            return Err(RepoError::Git2(e));
        },
    };
    let config = match repo_config(&repo) {
        Ok(config) => config,
        Err(e) => {
            return Err(RepoError::Git2(e));
        },
    };
    let remote_url = match config_string(&config, "remote.origin.url") {
        Ok(url) => url,
        Err(e) => {
            return Err(RepoError::Git2(e));
        },
    };
    Ok(SourceRepo { repo, name: candidate.name.clone(), remote_url })
}

proof fn lemma_url_kept_push(repos: Seq<SourceRepo>, src: SourceRepo, u: Seq<char>)
    requires
        url_kept(repos, u),
    ensures
        url_kept(repos.push(src), u),
{
    let i = choose|i: int|
        0 <= i < repos.len() && (#[trigger] repos[i].spec_remote_url()) == Some(u);
    assert(repos.push(src)[i].spec_remote_url() == Some(u));
}

proof fn lemma_covered_push_repo(repos: Seq<SourceRepo>, dups: Seq<String>, src: SourceRepo)
    requires
        dup_urls_covered(repos, dups),
    ensures
        dup_urls_covered(repos.push(src), dups),
{
    assert forall|k: int| 0 <= k < dups.len() implies url_kept(
        repos.push(src),
        (#[trigger] dups[k])@,
    ) by {
        lemma_url_kept_push(repos, src, dups[k]@);
    }
}

proof fn lemma_covered_push_dup(repos: Seq<SourceRepo>, dups: Seq<String>, u: String)
    requires
        dup_urls_covered(repos, dups),
        url_kept(repos, u@),
    ensures
        dup_urls_covered(repos, dups.push(u)),
{
    assert forall|k: int| 0 <= k < dups.push(u).len() implies url_kept(
        repos,
        (#[trigger] dups.push(u)[k])@,
    ) by {
        if k < dups.len() {
            assert(dups.push(u)[k] == dups[k]);
        } else {
            assert(dups.push(u)[k] == u);
        }
    }
}

proof fn lemma_distinct_push(repos: Seq<SourceRepo>, src: SourceRepo)
    requires
        distinct_remote_urls(repos),
        forall|u: Seq<char>| src.spec_remote_url() == Some(u) ==> !url_kept(repos, u),
    ensures
        distinct_remote_urls(repos.push(src)),
{
    let ext = repos.push(src);
    assert forall|i: int, j: int|
        0 <= i < j < ext.len() && (#[trigger] ext[i].spec_remote_url()) is Some implies ext[i].spec_remote_url()
        != #[trigger] ext[j].spec_remote_url() by {
        assert(ext[i] == repos[i]);
        if j < repos.len() {
            assert(ext[j] == repos[j]);
        } else {
            assert(ext[j] == src);
            match src.spec_remote_url() {
                Some(u) => {
                    assert(!url_kept(repos, u));
                    assert(!(repos[i].spec_remote_url() == Some(u)));
                },
                None => {},
            }
        }
    }
}

proof fn lemma_witness_push(
    picks: Seq<int>,
    repos: Seq<SourceRepo>,
    children: Seq<RepoCandidate>,
    sync_repo_name: Seq<char>,
    src: SourceRepo,
    idx: int,
)
    requires
        is_scan_order_witness(picks, repos, children, sync_repo_name),
        0 <= idx < children.len(),
        forall|t: int| 0 <= t < picks.len() ==> #[trigger] picks[t] < idx,
        is_selected(children[idx], sync_repo_name),
        src.spec_name() == children[idx].name@,
    ensures
        is_scan_order_witness(picks.push(idx), repos.push(src), children, sync_repo_name),
{
    let p2 = picks.push(idx);
    let r2 = repos.push(src);
    assert forall|i: int| 0 <= i < p2.len() implies 0 <= #[trigger] p2[i] < children.len() by {
        if i < picks.len() {
            assert(p2[i] == picks[i]);
        } else {
            assert(p2[i] == idx);
        }
    }
    assert forall|i: int| 0 <= i < p2.len() - 1 implies #[trigger] p2[i] < p2[i + 1] by {
        if i < picks.len() - 1 {
            assert(p2[i] == picks[i] && p2[i + 1] == picks[i + 1]);
        } else {
            assert(p2[i] == picks[i] && p2[i + 1] == idx);
        }
    }
    assert forall|i: int|
        0 <= i < p2.len() implies is_selected(children[#[trigger] p2[i]], sync_repo_name)
        && r2[i].spec_name() == children[p2[i]].name@ by {
        if i < picks.len() {
            assert(p2[i] == picks[i] && r2[i] == repos[i]);
        } else {
            assert(p2[i] == idx && r2[i] == src);
        }
    }
}

proof fn lemma_dups_push_repo(
    picks: Seq<int>,
    dup_picks: Seq<int>,
    repos: Seq<SourceRepo>,
    dups: Seq<String>,
    children: Seq<RepoCandidate>,
    sync_repo_name: Seq<char>,
    src: SourceRepo,
    idx: int,
)
    requires
        picks.len() == repos.len(),
        dups_after_kept(picks, dup_picks, repos, dups, children, sync_repo_name),
    ensures
        dups_after_kept(picks.push(idx), dup_picks, repos.push(src), dups, children, sync_repo_name),
{
    assert forall|k: int| 0 <= k < dups.len() implies url_kept_before(
        picks.push(idx),
        repos.push(src),
        (#[trigger] dups[k])@,
        dup_picks[k],
    ) by {
        lemma_url_kept_before_push(picks, repos, dups[k]@, dup_picks[k], src, idx);
    }
}

proof fn lemma_url_kept_before_push(
    picks: Seq<int>,
    repos: Seq<SourceRepo>,
    u: Seq<char>,
    pos: int,
    src: SourceRepo,
    idx: int,
)
    requires
        picks.len() == repos.len(),
        url_kept_before(picks, repos, u, pos),
    ensures
        url_kept_before(picks.push(idx), repos.push(src), u, pos),
{
    let t = choose|t: int|
        0 <= t < repos.len() && (#[trigger] repos[t].spec_remote_url()) == Some(u) && picks[t]
            < pos;
    assert(repos.push(src)[t].spec_remote_url() == Some(u));
    assert(picks.push(idx)[t] == picks[t]);
}

proof fn lemma_dups_push_dup(
    picks: Seq<int>,
    dup_picks: Seq<int>,
    repos: Seq<SourceRepo>,
    dups: Seq<String>,
    children: Seq<RepoCandidate>,
    sync_repo_name: Seq<char>,
    u: String,
    idx: int,
)
    requires
        dups_after_kept(picks, dup_picks, repos, dups, children, sync_repo_name),
        0 <= idx < children.len(),
        is_selected(children[idx], sync_repo_name),
        url_kept_before(picks, repos, u@, idx),
    ensures
        dups_after_kept(picks, dup_picks.push(idx), repos, dups.push(u), children, sync_repo_name),
{
    let d2 = dup_picks.push(idx);
    let u2 = dups.push(u);
    assert forall|k: int|
        0 <= k < d2.len() implies 0 <= #[trigger] d2[k] < children.len() && is_selected(
        children[d2[k]],
        sync_repo_name,
    ) by {
        if k < dup_picks.len() {
            assert(d2[k] == dup_picks[k]);
        } else {
            assert(d2[k] == idx);
        }
    }
    assert forall|k: int| 0 <= k < u2.len() implies url_kept_before(
        picks,
        repos,
        (#[trigger] u2[k])@,
        d2[k],
    ) by {
        if k < dups.len() {
            assert(u2[k] == dups[k] && d2[k] == dup_picks[k]);
        } else {
            assert(u2[k] == u && d2[k] == idx);
        }
    }
}

fn find_kept_url(repos: &Vec<SourceRepo>, url: &String) -> (r: bool)
    ensures
        r <==> url_kept(repos@, url@),
{
    let mut i: usize = 0;
    let mut found = false;
    while i < repos.len()
        invariant
            i <= repos@.len(),
            found <==> exists|j: int|
                0 <= j < i && (#[trigger] repos@[j].spec_remote_url()) == Some(url@),
        decreases repos@.len() - i,
    {
        match &repos[i].remote_url {
            Some(u) => {
                proof {
                    assert(repos@[i as int].spec_remote_url() == Some(u@));
                }
                if u.eq(url) {
                    found = true;
                }
            },
            None => {
                proof {
                    assert(repos@[i as int].spec_remote_url() is None);
                }
            },
        }
        i = i + 1;
    }
    found
}

impl SourceRepo {
    /// Discovers the source repositories for one run. When the input
    /// directory is itself a repository it is the sole source (and must
    /// not be the target repository); otherwise its children that carry
    /// the repository marker are taken, minus the target repository and
    /// minus later duplicates of an already seen remote URL. Fails when
    /// the input directory is the configuration directory or when nothing
    /// is left.
    ///
    /// `input` describes the input directory itself, `children` its
    /// immediate children in scan order; paths are canonicalized by the
    /// caller.
    pub fn read_all_in_dir(
        input: &RepoCandidate,
        children: &Vec<RepoCandidate>,
        sync_repo_name: &String,
        config_dir: &String,
    ) -> (r: Result<Discovery, RepoError>)
        ensures
            input.path@ == config_dir@ ==> (r matches Err(e) && e is Validation),
            input.path@ != config_dir@ && input.is_git_repo && input.name@ == sync_repo_name@
                ==> (r matches Err(e) && e is Validation),
            input.path@ != config_dir@ && !input.is_git_repo && selected(
                children@,
                sync_repo_name@,
            ).len() == 0 ==> (r matches Err(e) && e is Validation),
            (r matches Err(e) && e is Validation) ==> (input.path@ == config_dir@ || (
            input.is_git_repo && input.name@ == sync_repo_name@) || (!input.is_git_repo
                && selected(children@, sync_repo_name@).len() == 0)),
            r matches Ok(d) ==> {
                &&& input.path@ != config_dir@
                &&& d.repos@.len() > 0
                &&& distinct_remote_urls(d.repos@)
                &&& dup_urls_covered(d.repos@, d.duplicate_urls@)
                &&& (input.is_git_repo ==> {
                    &&& input.name@ != sync_repo_name@
                    &&& d.repos@.len() == 1
                    &&& d.repos@[0].spec_name() == input.name@
                    &&& d.duplicate_urls@.len() == 0
                })
                &&& (!input.is_git_repo ==> {
                    &&& discovery_in_scan_order(
                        d.repos@,
                        d.duplicate_urls@,
                        children@,
                        sync_repo_name@,
                    )
                    &&& d.repos@.len() + d.duplicate_urls@.len() == selected(
                        children@,
                        sync_repo_name@,
                    ).len()
                })
            },
    {
        if input.path.eq(config_dir) {
            return Err(
                RepoError::Validation("cannot use configuration directory as input".to_owned()),
            );
        }
        if input.is_git_repo {
            if input.name.eq(sync_repo_name) {
                return Err(
                    RepoError::Validation("cannot read the target repository as input".to_owned()),
                );
            }
            let repo = match open_source(input) {
                Ok(repo) => repo,
                Err(e) => {
                    return Err(e);
                },
            };
            let mut repos: Vec<SourceRepo> = Vec::new();
            repos.push(repo);
            return Ok(Discovery { repos, duplicate_urls: Vec::new() });
        }
        let ghost pred = |c: RepoCandidate| is_selected(c, sync_repo_name@);
        let mut repos: Vec<SourceRepo> = Vec::new();
        let mut duplicate_urls: Vec<String> = Vec::new();
        let ghost mut picks: Seq<int> = Seq::empty();
        let ghost mut dup_picks: Seq<int> = Seq::empty();
        proof {
            assert(children@.take(0).filter(pred) =~= Seq::<RepoCandidate>::empty()) by {
                reveal(Seq::filter);
            }
        }
        let mut i: usize = 0;
        while i < children.len()
            invariant
                i <= children@.len(),
                input.path@ != config_dir@,
                !input.is_git_repo,
                pred == (|c: RepoCandidate| is_selected(c, sync_repo_name@)),
                repos@.len() + duplicate_urls@.len() == children@.take(i as int).filter(
                    pred,
                ).len(),
                distinct_remote_urls(repos@),
                dup_urls_covered(repos@, duplicate_urls@),
                is_scan_order_witness(picks, repos@, children@, sync_repo_name@),
                dups_after_kept(
                    picks,
                    dup_picks,
                    repos@,
                    duplicate_urls@,
                    children@,
                    sync_repo_name@,
                ),
                forall|t: int| 0 <= t < picks.len() ==> 0 <= #[trigger] picks[t] < i,
            decreases children@.len() - i,
        {
            let c = &children[i];
            proof {
                reveal(Seq::filter);
                assert(children@.take(i + 1).drop_last() =~= children@.take(i as int));
                assert(children@.take(i + 1).last() == children@[i as int]);
            }
            if c.is_git_repo && !c.name.eq(sync_repo_name) {
                let src = match open_source(c) {
                    Ok(src) => src,
                    Err(e) => {
                        proof {
                            children@.lemma_filter_contains(pred, i as int);
                        }
                        return Err(e);
                    },
                };
                match &src.remote_url {
                    Some(u) => {
                        proof {
                            assert(src.spec_remote_url() == Some(u@));
                        }
                        if find_kept_url(&repos, u) {
                            let du = u.clone();
                            proof {
                                lemma_covered_push_dup(repos@, duplicate_urls@, du);
                                let t0 = choose|t: int|
                                    0 <= t < repos@.len() && (
                                    #[trigger] repos@[t].spec_remote_url()) == Some(u@);
                                assert(repos@[t0].spec_remote_url() == Some(du@) && picks[t0]
                                    < i as int);
                                assert(url_kept_before(picks, repos@, du@, i as int));
                                lemma_dups_push_dup(
                                    picks,
                                    dup_picks,
                                    repos@,
                                    duplicate_urls@,
                                    children@,
                                    sync_repo_name@,
                                    du,
                                    i as int,
                                );
                                dup_picks = dup_picks.push(i as int);
                            }
                            duplicate_urls.push(du);
                        } else {
                            proof {
                                lemma_distinct_push(repos@, src);
                                lemma_covered_push_repo(repos@, duplicate_urls@, src);
                                lemma_witness_push(
                                    picks,
                                    repos@,
                                    children@,
                                    sync_repo_name@,
                                    src,
                                    i as int,
                                );
                                lemma_dups_push_repo(
                                    picks,
                                    dup_picks,
                                    repos@,
                                    duplicate_urls@,
                                    children@,
                                    sync_repo_name@,
                                    src,
                                    i as int,
                                );
                                picks = picks.push(i as int);
                            }
                            repos.push(src);
                        }
                    },
                    None => {
                        proof {
                            assert(src.spec_remote_url() is None);
                            lemma_distinct_push(repos@, src);
                            lemma_covered_push_repo(repos@, duplicate_urls@, src);
                            lemma_witness_push(
                                picks,
                                repos@,
                                children@,
                                sync_repo_name@,
                                src,
                                i as int,
                            );
                            lemma_dups_push_repo(
                                picks,
                                dup_picks,
                                repos@,
                                duplicate_urls@,
                                children@,
                                sync_repo_name@,
                                src,
                                i as int,
                            );
                            picks = picks.push(i as int);
                        }
                        repos.push(src);
                    },
                }
            }
            i = i + 1;
        }
        proof {
            assert(children@.take(children@.len() as int) =~= children@);
            assert(discovery_in_scan_order(repos@, duplicate_urls@, children@, sync_repo_name@))
                by {
                assert(is_scan_order_witness(picks, repos@, children@, sync_repo_name@)
                    && dups_after_kept(
                    picks,
                    dup_picks,
                    repos@,
                    duplicate_urls@,
                    children@,
                    sync_repo_name@,
                ));
            }
        }
        if repos.len() == 0 {
            proof {
                if duplicate_urls@.len() > 0 {
                    assert(url_kept(repos@, duplicate_urls@[0]@));
                    let t = choose|t: int|
                        0 <= t < repos@.len() && (#[trigger] repos@[t].spec_remote_url()) == Some(
                            duplicate_urls@[0]@,
                        );
                    assert(false);
                }
                assert(selected(children@, sync_repo_name@).len() == 0);
            }
            return Err(
                RepoError::Validation("no repositories found in the input directory".to_owned()),
            );
        }
        Ok(Discovery { repos, duplicate_urls })
    }
}

} // verus!
