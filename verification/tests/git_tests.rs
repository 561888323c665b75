//! Tests against real on-disk repositories, driven through git2.

use std::time::{SystemTime, UNIX_EPOCH};
use synctivity::author::Author;
use synctivity::email::EmailAddress;
use synctivity::error::RepoError;
use synctivity::source::{RepoCandidate, SourceRepo};
use synctivity::sync::SyncRepo;

const SYNC_REPO_NAME: &str = "synctivity";

/// A scratch directory under the build tree, unique per test run.
fn scratch(name: &str) -> String {
    let nanos = SystemTime::now()
        .duration_since(UNIX_EPOCH)
        .unwrap()
        .as_nanos();
    format!("/tmp/synctivity-it-{}-{}", name, nanos)
}

fn init_repo(path: &str) -> git2::Repository {
    let mut options = git2::RepositoryInitOptions::new();
    options.initial_head("main");
    git2::Repository::init_opts(path, &options).unwrap()
}

fn add_commit(repo: &git2::Repository, name: &str, email: &str, message: &str, seconds: i64) {
    let tree_id = repo.treebuilder(None).unwrap().write().unwrap();
    let tree = repo.find_tree(tree_id).unwrap();
    let time = git2::Time::new(seconds, 0);
    let signature = git2::Signature::new(name, email, &time).unwrap();
    let parents = match repo.head() {
        Ok(head) => vec![head.peel_to_commit().unwrap()],
        Err(_) => Vec::new(),
    };
    let parent_refs: Vec<&git2::Commit> = parents.iter().collect();
    repo.commit(Some("HEAD"), &signature, &signature, message, &tree, &parent_refs)
        .unwrap();
}

fn set_remote_url(repo: &git2::Repository, url: &str) {
    repo.config()
        .unwrap()
        .set_str("remote.origin.url", url)
        .unwrap();
}

fn candidate(path: &str, name: &str, is_git_repo: bool) -> RepoCandidate {
    RepoCandidate {
        path: path.to_string(),
        name: name.to_string(),
        is_git_repo,
    }
}

fn author(emails: &[&str]) -> Author {
    let parsed = emails
        .iter()
        .map(|e| EmailAddress::parse(e).unwrap())
        .collect();
    Author::new("Synced Dev".to_string(), parsed).unwrap()
}

fn discover_solo(path: &str, name: &str) -> SourceRepo {
    let input = candidate(path, name, true);
    let discovery = SourceRepo::read_all_in_dir(
        &input,
        &Vec::new(),
        &SYNC_REPO_NAME.to_string(),
        &"/nonexistent-config-dir".to_string(),
    )
    .unwrap();
    assert_eq!(discovery.repos.len(), 1);
    discovery.repos.into_iter().next().unwrap()
}

#[test]
fn harvest_keeps_matching_commits_oldest_first() {
    // C1 -> C2 -> C3, the identity matches only C1 and C3.
    let base = scratch("harvest");
    let path = format!("{}/repo", base);
    let repo = init_repo(&path);
    add_commit(&repo, "Dev", "dev@example.com", "C1", 100);
    add_commit(&repo, "Other", "other@example.com", "C2", 200);
    add_commit(&repo, "Dev", "dev@example.com", "C3", 300);

    let source = discover_solo(&path, "repo");
    let commits = source
        .get_author_commits(&author(&["dev@example.com"]))
        .unwrap();
    let messages: Vec<String> = commits
        .iter()
        .map(|m| m.message.clone().unwrap())
        .collect();
    assert_eq!(messages, vec!["C1", "C3"]);
    assert_eq!(commits[0].when.seconds, 100);
    assert_eq!(commits[1].when.seconds, 300);
}

#[test]
fn harvest_of_unmatched_repo_is_empty_not_an_error() {
    let base = scratch("harvest-empty");
    let path = format!("{}/repo", base);
    let repo = init_repo(&path);
    add_commit(&repo, "Other", "other@example.com", "C1", 100);

    let source = discover_solo(&path, "repo");
    let commits = source
        .get_author_commits(&author(&["dev@example.com"]))
        .unwrap();
    assert!(commits.is_empty());
}

#[test]
fn fresh_target_decision_is_exact() {
    assert!(SyncRepo::require_fresh(false).is_ok());
    match SyncRepo::require_fresh(true) {
        Err(RepoError::Validation(_)) => {}
        _ => panic!("expected a validation error"),
    }
}

#[test]
fn target_with_existing_history_is_refused() {
    let base = scratch("target-history");
    let path = format!("{}/{}", base, SYNC_REPO_NAME);
    let repo = init_repo(&path);
    add_commit(&repo, "Dev", "dev@example.com", "old", 100);

    let result = SyncRepo::read_or_create(&path, author(&["dev@example.com"]));
    match result {
        Err(RepoError::Validation(_)) => {}
        _ => panic!("expected a validation error for existing history"),
    }
}

#[test]
fn target_without_history_is_reused_and_absent_target_is_created() {
    let base = scratch("target-fresh");
    let existing = format!("{}/existing", base);
    init_repo(&existing);
    assert!(SyncRepo::read_or_create(&existing, author(&["dev@example.com"])).is_ok());

    let absent = format!("{}/absent", base);
    assert!(SyncRepo::read_or_create(&absent, author(&["dev@example.com"])).is_ok());
    assert!(git2::Repository::open(&absent).is_ok());
}

#[test]
fn duplicate_remote_urls_keep_only_the_first() {
    let base = scratch("dedup");
    let path_a = format!("{}/input/alpha", base);
    let path_b = format!("{}/input/beta", base);
    let path_c = format!("{}/input/gamma", base);
    let repo_a = init_repo(&path_a);
    let repo_b = init_repo(&path_b);
    let repo_c = init_repo(&path_c);
    set_remote_url(&repo_a, "https://example.com/shared.git");
    set_remote_url(&repo_b, "https://example.com/shared.git");
    set_remote_url(&repo_c, "https://example.com/other.git");

    let input = candidate(&format!("{}/input", base), "input", false);
    let children = vec![
        candidate(&path_a, "alpha", true),
        candidate(&path_b, "beta", true),
        candidate(&path_c, "gamma", true),
    ];
    let discovery = SourceRepo::read_all_in_dir(
        &input,
        &children,
        &SYNC_REPO_NAME.to_string(),
        &"/nonexistent-config-dir".to_string(),
    )
    .unwrap();
    assert_eq!(discovery.repos.len(), 2);
    assert_eq!(discovery.repos[0].name(), "alpha");
    assert_eq!(discovery.repos[1].name(), "gamma");
    assert_eq!(
        discovery.repos[0].remote_url().as_deref(),
        Some("https://example.com/shared.git")
    );
    assert_eq!(
        discovery.repos[1].remote_url().as_deref(),
        Some("https://example.com/other.git")
    );
    assert_eq!(
        discovery.duplicate_urls,
        vec!["https://example.com/shared.git".to_string()]
    );
}

#[test]
fn discovery_skips_non_repos_and_the_target() {
    let base = scratch("skip");
    let path_a = format!("{}/input/alpha", base);
    let path_t = format!("{}/input/{}", base, SYNC_REPO_NAME);
    init_repo(&path_a);
    init_repo(&path_t);

    let input = candidate(&format!("{}/input", base), "input", false);
    let children = vec![
        candidate(&format!("{}/input/notes", base), "notes", false),
        candidate(&path_t, SYNC_REPO_NAME, true),
        candidate(&path_a, "alpha", true),
    ];
    let discovery = SourceRepo::read_all_in_dir(
        &input,
        &children,
        &SYNC_REPO_NAME.to_string(),
        &"/nonexistent-config-dir".to_string(),
    )
    .unwrap();
    assert_eq!(discovery.repos.len(), 1);
    assert_eq!(discovery.repos[0].name(), "alpha");
}

#[test]
fn discovery_errors() {
    let base = scratch("discovery-errors");
    // the input directory may not be the configuration directory
    let cfg = format!("{}/cfg", base);
    let input_as_cfg = candidate(&cfg, "cfg", false);
    assert!(matches!(
        SourceRepo::read_all_in_dir(
            &input_as_cfg,
            &Vec::new(),
            &SYNC_REPO_NAME.to_string(),
            &cfg
        ),
        Err(RepoError::Validation(_))
    ));

    // the target repository itself may not be the input
    let target_input = candidate(
        &format!("{}/{}", base, SYNC_REPO_NAME),
        SYNC_REPO_NAME,
        true,
    );
    assert!(matches!(
        SourceRepo::read_all_in_dir(
            &target_input,
            &Vec::new(),
            &SYNC_REPO_NAME.to_string(),
            &"/nonexistent-config-dir".to_string()
        ),
        Err(RepoError::Validation(_))
    ));

    // an input directory with no repositories in it
    let empty_input = candidate(&format!("{}/input", base), "input", false);
    let children = vec![candidate(&format!("{}/input/notes", base), "notes", false)];
    assert!(matches!(
        SourceRepo::read_all_in_dir(
            &empty_input,
            &children,
            &SYNC_REPO_NAME.to_string(),
            &"/nonexistent-config-dir".to_string()
        ),
        Err(RepoError::Validation(_))
    ));
}

#[test]
fn opening_a_missing_repository_surfaces_the_git_error() {
    let base = scratch("git-error");
    // marked as a repository, but nothing is there
    let input = candidate(&format!("{}/input", base), "input", false);
    let children = vec![candidate(&format!("{}/input/ghost", base), "ghost", true)];
    let result = SourceRepo::read_all_in_dir(
        &input,
        &children,
        &SYNC_REPO_NAME.to_string(),
        &"/nonexistent-config-dir".to_string(),
    );
    match result {
        Err(err @ RepoError::Git2(_)) => assert!(!err.message().is_empty()),
        _ => panic!("expected the underlying git error"),
    }
}

#[test]
fn end_to_end_two_sources_replay_round_robin() {
    let base = scratch("end-to-end");
    let path_a = format!("{}/input/alpha", base);
    let path_b = format!("{}/input/beta", base);
    let repo_a = init_repo(&path_a);
    let repo_b = init_repo(&path_b);
    add_commit(&repo_a, "Alice", "alice@example.com", "A1", 1111);
    add_commit(&repo_b, "Bob", "bob@example.com", "B1", 2222);

    let input = candidate(&format!("{}/input", base), "input", false);
    let children = vec![
        candidate(&path_a, "alpha", true),
        candidate(&path_b, "beta", true),
    ];
    let identity = author(&["alice@example.com", "bob@example.com"]);
    let discovery = SourceRepo::read_all_in_dir(
        &input,
        &children,
        &SYNC_REPO_NAME.to_string(),
        &"/nonexistent-config-dir".to_string(),
    )
    .unwrap();

    let target_path = format!("{}/cfg/{}", base, SYNC_REPO_NAME);
    let mut target = SyncRepo::read_or_create(&target_path, identity).unwrap();
    let summaries = target.copy_matching_commits(&discovery.repos).unwrap();

    assert_eq!(summaries.len(), 2);
    assert_eq!(summaries[0].name, "alpha");
    assert_eq!(summaries[0].count, 1);
    assert_eq!(summaries[1].name, "beta");
    assert_eq!(summaries[1].count, 1);

    // Inspect what was actually written.
    let written = git2::Repository::open(&target_path).unwrap();
    let mut walk = written.revwalk().unwrap();
    walk.set_sorting(git2::Sort::TOPOLOGICAL | git2::Sort::REVERSE)
        .unwrap();
    walk.push_head().unwrap();
    let ids: Vec<git2::Oid> = walk.map(|id| id.unwrap()).collect();
    assert_eq!(ids.len(), 2);

    let first = written.find_commit(ids[0]).unwrap();
    let second = written.find_commit(ids[1]).unwrap();

    // round-robin order: one commit per source, in source order
    assert_eq!(first.message().unwrap(), "A1");
    assert_eq!(second.message().unwrap(), "B1");

    // every commit is re-signed with the identity's name and first alias,
    // keeping the source commit's author time
    for commit in [&first, &second] {
        assert_eq!(commit.author().name().unwrap(), "Synced Dev");
        assert_eq!(commit.author().email().unwrap(), "alice@example.com");
        // the tree is always the canonical empty tree
        assert_eq!(commit.tree().unwrap().len(), 0);
    }
    assert_eq!(first.author().when().seconds(), 1111);
    assert_eq!(second.author().when().seconds(), 2222);

    // the history is strictly linear: first commit parentless, second's
    // only parent is the first
    assert_eq!(first.parent_count(), 0);
    assert_eq!(second.parent_count(), 1);
    assert_eq!(second.parent_id(0).unwrap(), ids[0]);
}

#[test]
fn replay_interleaves_and_chains_many_commits() {
    let base = scratch("chain");
    let path_a = format!("{}/input/alpha", base);
    let path_b = format!("{}/input/beta", base);
    let repo_a = init_repo(&path_a);
    let repo_b = init_repo(&path_b);
    add_commit(&repo_a, "Dev", "dev@example.com", "A1", 10);
    add_commit(&repo_a, "Dev", "dev@example.com", "A2", 20);
    add_commit(&repo_a, "Dev", "dev@example.com", "A3", 30);
    add_commit(&repo_b, "Dev", "dev@example.com", "B1", 40);

    let identity = author(&["dev@example.com"]);
    let source_a = discover_solo(&path_a, "alpha");
    let source_b = discover_solo(&path_b, "beta");

    let target_path = format!("{}/cfg/{}", base, SYNC_REPO_NAME);
    let mut target = SyncRepo::read_or_create(&target_path, identity).unwrap();
    let summaries = target
        .copy_matching_commits(&vec![source_a, source_b])
        .unwrap();
    assert_eq!(summaries.len(), 2);
    assert_eq!(summaries[0].count, 3);
    assert_eq!(summaries[1].count, 1);

    let written = git2::Repository::open(&target_path).unwrap();
    let mut walk = written.revwalk().unwrap();
    walk.set_sorting(git2::Sort::TOPOLOGICAL | git2::Sort::REVERSE)
        .unwrap();
    walk.push_head().unwrap();
    let ids: Vec<git2::Oid> = walk.map(|id| id.unwrap()).collect();
    assert_eq!(ids.len(), 4);

    let messages: Vec<String> = ids
        .iter()
        .map(|id| {
            written
                .find_commit(*id)
                .unwrap()
                .message()
                .unwrap()
                .to_string()
        })
        .collect();
    // round-robin: A1 B1 A2 A3 (B drops out after the first round)
    assert_eq!(messages, vec!["A1", "B1", "A2", "A3"]);

    // the n-th commit has min(n - 1, 1) parents, and that parent is the
    // (n-1)-th commit
    for (n, id) in ids.iter().enumerate() {
        let commit = written.find_commit(*id).unwrap();
        assert_eq!(commit.tree().unwrap().len(), 0);
        if n == 0 {
            assert_eq!(commit.parent_count(), 0);
        } else {
            assert_eq!(commit.parent_count(), 1);
            assert_eq!(commit.parent_id(0).unwrap(), ids[n - 1]);
        }
    }
}
