use synctivity::author::Author;
use synctivity::commit::{CommitMeta, CommitTime};
use synctivity::email::EmailAddress;
use synctivity::interleave::interleave;
use synctivity::source::filter_matching;

fn meta(tag: &str, author_email: Option<&str>) -> CommitMeta {
    CommitMeta {
        author_name: Some("Dev".to_string()),
        author_email: author_email.map(|e| e.to_string()),
        message: Some(tag.to_string()),
        when: CommitTime { seconds: 0, offset_minutes: 0 },
    }
}

fn tags(metas: &[CommitMeta]) -> Vec<String> {
    metas.iter().map(|m| m.message.clone().unwrap()).collect()
}

#[test]
fn round_robin_drops_exhausted_sources() {
    // Source A: [A1, A2]; source B: [B1]  ->  [A1, B1, A2]
    let a = vec![meta("A1", None), meta("A2", None)];
    let b = vec![meta("B1", None)];
    let merged = interleave(vec![a, b]);
    assert_eq!(tags(&merged), vec!["A1", "B1", "A2"]);
}

#[test]
fn round_robin_alternates_equal_sources() {
    let a = vec![meta("A1", None), meta("A2", None)];
    let b = vec![meta("B1", None), meta("B2", None)];
    let c = vec![meta("C1", None), meta("C2", None)];
    let merged = interleave(vec![a, b, c]);
    assert_eq!(tags(&merged), vec!["A1", "B1", "C1", "A2", "B2", "C2"]);
}

#[test]
fn round_robin_skips_empty_sources() {
    let a: Vec<CommitMeta> = Vec::new();
    let b = vec![meta("B1", None), meta("B2", None)];
    let merged = interleave(vec![a, b]);
    assert_eq!(tags(&merged), vec!["B1", "B2"]);

    let merged_none = interleave(Vec::<Vec<CommitMeta>>::new());
    assert!(merged_none.is_empty());
}

#[test]
fn round_robin_uneven_tail() {
    let a = vec![meta("A1", None)];
    let b = vec![meta("B1", None), meta("B2", None), meta("B3", None)];
    let merged = interleave(vec![a, b]);
    assert_eq!(tags(&merged), vec!["A1", "B1", "B2", "B3"]);
}

#[test]
fn filter_keeps_matching_commits_in_order() {
    let emails = vec![
        EmailAddress::parse("dev@example.com").unwrap(),
        EmailAddress::parse("alt@example.com").unwrap(),
    ];
    let metas = vec![
        meta("C1", Some("dev@example.com")),
        meta("C2", Some("other@example.com")),
        meta("C3", Some("alt@example.com")),
        meta("C4", None),
        meta("C5", Some("dev@example.com")),
    ];
    let kept = filter_matching(metas, &emails);
    assert_eq!(tags(&kept), vec!["C1", "C3", "C5"]);
}

#[test]
fn filter_matches_exactly_and_case_sensitively() {
    let emails = vec![EmailAddress::parse("dev@example.com").unwrap()];
    let metas = vec![
        meta("C1", Some("Dev@example.com")),
        meta("C2", Some("dev@example.co")),
        meta("C3", Some("dev@example.com ")),
    ];
    let kept = filter_matching(metas, &emails);
    assert!(kept.is_empty());
}

#[test]
fn harvest_then_interleave_end_to_end_in_memory() {
    let author = Author::new(
        "Dev".to_string(),
        vec![EmailAddress::parse("dev@example.com").unwrap()],
    )
    .unwrap();
    let a = filter_matching(
        vec![
            meta("A1", Some("dev@example.com")),
            meta("X", Some("other@example.com")),
            meta("A2", Some("dev@example.com")),
        ],
        &author.emails,
    );
    let b = filter_matching(vec![meta("B1", Some("dev@example.com"))], &author.emails);
    let merged = interleave(vec![a, b]);
    assert_eq!(tags(&merged), vec!["A1", "B1", "A2"]);
}
