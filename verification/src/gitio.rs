//! The trusted boundary to the version-control library.
//!
//! Everything that touches on-disk repository state goes through the
//! wrappers in this module; their contracts are what the rest of the crate
//! believes about git2. Each wrapper only converts between plain values and
//! the one call it makes.

use crate::commit::{CommitMeta, CommitTime};
use vstd::prelude::*;

verus! {

#[verifier::external_type_specification]
#[verifier::external_body]
pub struct ExRepository(git2::Repository);

#[verifier::external_type_specification]
#[verifier::external_body]
pub struct ExOid(git2::Oid);

#[verifier::external_type_specification]
#[verifier::external_body]
pub struct ExGitError(git2::Error);

#[verifier::external_type_specification]
#[verifier::external_body]
pub struct ExConfig(git2::Config);

/// Relies on git2::Repository::open: opens the repository at `path`, or
/// fails when `path` does not hold one.
#[verifier::external_body]
pub(crate) fn open_repository(path: &str) -> Result<git2::Repository, git2::Error> {
    git2::Repository::open(path)
}

/// No interior NUL byte: what the version-control library's string
/// conversions require of a branch name before they can pass it on.
pub open spec fn no_interior_nul(s: Seq<char>) -> bool {
    forall|i: int| 0 <= i < s.len() ==> s[i] != '\0'
}

/// Relies on git2::RepositoryInitOptions::initial_head and
/// git2::Repository::init_opts: creates (or reinitialises) a repository at
/// `path` whose initial head names the branch `initial_branch`. The
/// branch name must not contain a NUL byte: `initial_head` asserts that
/// rather than reporting it.
#[verifier::external_body]
pub(crate) fn init_repository(path: &str, initial_branch: &str) -> Result<
    git2::Repository,
    git2::Error,
>
    requires
        no_interior_nul(initial_branch@),
{
    let mut options = git2::RepositoryInitOptions::new();
    options.initial_head(initial_branch);
    git2::Repository::init_opts(path, &options)
}

/// Relies on git2::Repository::head: whether the head reference resolves,
/// i.e. whether the current branch holds at least one commit.
#[verifier::external_body]
pub(crate) fn head_exists(repo: &git2::Repository) -> bool {
    repo.head().is_ok()
}

/// Relies on git2::Repository::config: the repository's configuration.
#[verifier::external_body]
pub(crate) fn repo_config(repo: &git2::Repository) -> Result<git2::Config, git2::Error> {
    repo.config()
}

/// Relies on git2::Config::get_string: the value of `key`, `None` when the
/// configuration has no entry for `key`.
#[verifier::external_body]
pub(crate) fn config_string(config: &git2::Config, key: &str) -> Result<
    Option<String>,
    git2::Error,
> {
    match config.get_string(key) {
        Ok(value) => Ok(Some(value)),
        Err(e) => {
            if e.code() == git2::ErrorCode::NotFound {
                Ok(None)
            } else {
                Err(e)
            }
        },
    }
}

/// Relies on git2::Repository::revwalk, git2::Revwalk::set_sorting with
/// `TOPOLOGICAL | REVERSE`, and git2::Revwalk::push_head: the ids of the
/// commits reachable from head, ancestors before descendants.
#[verifier::external_body]
pub(crate) fn head_commit_ids(repo: &git2::Repository) -> Result<Vec<git2::Oid>, git2::Error> {
    let mut walk = repo.revwalk()?;
    walk.set_sorting(git2::Sort::TOPOLOGICAL | git2::Sort::REVERSE)?;
    walk.push_head()?;
    walk.collect()
}

/// Relies on git2::Repository::find_commit and the accessors of
/// git2::Commit and git2::Signature: the author line, author time and
/// message of the commit `id`; a field is `None` where the datum is absent
/// or not valid UTF-8.
#[verifier::external_body]
pub(crate) fn commit_meta(repo: &git2::Repository, id: git2::Oid) -> Result<
    CommitMeta,
    git2::Error,
> {
    let commit = repo.find_commit(id)?;
    let author = commit.author();
    Ok(CommitMeta {
        author_name: author.name().ok().map(str::to_owned),
        author_email: author.email().ok().map(str::to_owned),
        message: commit.message().ok().map(str::to_owned),
        when: CommitTime {
            seconds: author.when().seconds(),
            offset_minutes: author.when().offset_minutes(),
        },
    })
}

/// Relies on git2::Repository::treebuilder and find_tree (the canonical
/// empty tree), git2::Signature::new, and git2::Repository::commit: writes
/// a commit whose tree is the empty tree, whose author and committer are
/// both `name`/`email` at time `when`, whose message is `message`, and
/// whose parents are exactly `parent_ids`; head moves to the new commit,
/// whose id is returned.
#[verifier::external_body]
pub(crate) fn write_empty_commit(
    repo: &git2::Repository,
    name: &str,
    email: &str,
    when: &CommitTime,
    message: &str,
    parent_ids: &Vec<git2::Oid>,
) -> Result<git2::Oid, git2::Error> {
    let tree = repo.find_tree(repo.treebuilder(None)?.write()?)?;
    let time = git2::Time::new(when.seconds, when.offset_minutes);
    let signature = git2::Signature::new(name, email, &time)?;
    let mut parents = Vec::with_capacity(parent_ids.len());
    for parent_id in parent_ids.iter() {
        parents.push(repo.find_commit(*parent_id)?);
    }
    let parent_refs: Vec<&git2::Commit> = parents.iter().collect();
    repo.commit(Some("HEAD"), &signature, &signature, message, &tree, &parent_refs)
}

/// Relies on git2::Error::message: the library's description of the error.
#[verifier::external_body]
pub(crate) fn git_error_message(err: &git2::Error) -> String {
    err.message().to_owned()
}

} // verus!
