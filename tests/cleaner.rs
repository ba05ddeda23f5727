use image_cleaner::dedup::dedup_sort;
use image_cleaner::image::{ImageRecord, TagMatch};
use image_cleaner::matcher::find_matches;
use image_cleaner::prompt::{confirm, PromptError};
use image_cleaner::session::{Action, Cleaner, Outcome, Phase, ServiceError};
use image_cleaner::size::display_line;
use image_cleaner::text::{compare_text, text_contains};
use std::cmp::Ordering;

fn record(id: &str, tags: &[&str], size: u64) -> ImageRecord {
    ImageRecord::new(id.to_string(), tags.iter().map(|t| t.to_string()).collect(), size)
}

fn ids(records: &[ImageRecord]) -> Vec<String> {
    records.iter().map(|r| r.id.clone()).collect()
}

fn pairs(ms: &[TagMatch]) -> Vec<(String, String)> {
    ms.iter().map(|m| (m.image.id.clone(), m.tag.clone())).collect()
}

fn two_apps() -> Vec<ImageRecord> {
    vec![record("a1", &["app:latest"], 1000000), record("a2", &["app:old"], 2000000)]
}

fn service_error() -> ServiceError {
    ServiceError { message: "conflict".to_string() }
}

#[test]
fn confirm_accepts_y_in_either_case() {
    assert_eq!(confirm("y"), Ok(()));
    assert_eq!(confirm("Y"), Ok(()));
}

#[test]
fn confirm_declines_everything_else() {
    for reply in ["", "n", "N", "yes", "no", "yy", " y", "Y ", "x"] {
        assert_eq!(confirm(reply), Err(PromptError::Bailed), "reply {:?}", reply);
    }
}

#[test]
fn scenario_two_distinct_images() {
    let images = two_apps();
    let ms = find_matches(&images, "app");
    assert_eq!(
        pairs(&ms),
        vec![
            ("a1".to_string(), "app:latest".to_string()),
            ("a2".to_string(), "app:old".to_string())
        ]
    );
    assert_eq!(display_line(&ms[0].tag, ms[0].image.size), "  - app:latest 1 MB");
    assert_eq!(display_line(&ms[1].tag, ms[1].image.size), "  - app:old 2 MB");
    let imgs: Vec<ImageRecord> = ms.iter().map(|m| m.image.clone()).collect();
    assert_eq!(ids(&dedup_sort(&imgs)), vec!["a2", "a1"]);
}

#[test]
fn display_line_formats_sizes() {
    assert_eq!(display_line("web:1", 0), "  - web:1 0 B");
    assert_eq!(display_line("web:1", 999), "  - web:1 999 B");
    assert_eq!(display_line("web:1", 1000), "  - web:1 1 KB");
    assert_eq!(display_line("web:1", 123000000), "  - web:1 123 MB");
    assert_eq!(display_line("x", 5000000000), "  - x 5 GB");
}

#[test]
fn matches_are_sound_and_complete() {
    let images = vec![
        record("c3", &["db:1", "cache:1"], 10),
        record("b2", &[], 20),
        record("a1", &["web:db-proxy", "web:2"], 30),
    ];
    let ms = find_matches(&images, "db");
    assert_eq!(
        pairs(&ms),
        vec![
            ("c3".to_string(), "db:1".to_string()),
            ("a1".to_string(), "web:db-proxy".to_string())
        ]
    );
    for m in &ms {
        assert!(m.tag.contains("db"));
        assert!(m.image.tags.contains(&m.tag));
    }
}

#[test]
fn image_with_several_matching_tags_appears_once_per_tag() {
    let images = vec![record("a1", &["app:1", "app:2", "other"], 1)];
    let ms = find_matches(&images, "app");
    assert_eq!(ms.len(), 2);
    let imgs: Vec<ImageRecord> = ms.iter().map(|m| m.image.clone()).collect();
    assert_eq!(ids(&dedup_sort(&imgs)), vec!["a1"]);
}

#[test]
fn empty_query_matches_every_tag() {
    let images = vec![record("a1", &["x", "y"], 1), record("b1", &[], 2)];
    assert_eq!(find_matches(&images, "").len(), 2);
}

#[test]
fn no_images_no_matches() {
    assert!(find_matches(&Vec::new(), "app").is_empty());
}

#[test]
fn dedup_sorts_descending_and_keeps_each_id_once() {
    let input = vec![
        record("b", &["first-b"], 1),
        record("c", &["c"], 2),
        record("a", &["a"], 3),
        record("b", &["second-b"], 4),
        record("ab", &["ab"], 5),
        record("c", &["c2"], 6),
    ];
    let out = dedup_sort(&input);
    assert_eq!(ids(&out), vec!["c", "b", "ab", "a"]);
    assert_eq!(out[1].tags, vec!["first-b".to_string()]);
    assert_eq!(out[0].size, 2);
}

#[test]
fn dedup_is_idempotent() {
    let input = vec![
        record("x1", &[], 1),
        record("z9", &[], 2),
        record("x1", &[], 3),
        record("m", &[], 4),
    ];
    let once = dedup_sort(&input);
    let twice = dedup_sort(&once);
    assert_eq!(ids(&once), ids(&twice));
    assert_eq!(ids(&once), vec!["z9", "x1", "m"]);
}

#[test]
fn dedup_of_empty_is_empty() {
    assert!(dedup_sort(&Vec::new()).is_empty());
}

#[test]
fn text_primitives() {
    assert!(text_contains("app:latest", "p:l"));
    assert!(!text_contains("app", "apps"));
    assert!(text_contains("", ""));
    assert_eq!(compare_text("b", "a"), Ordering::Greater);
    assert_eq!(compare_text("a", "ab"), Ordering::Less);
    assert_eq!(compare_text("ab", "ab"), Ordering::Equal);
    assert_eq!(compare_text("sha256:f", "sha256:e9"), Ordering::Greater);
}

#[test]
fn missing_query_is_a_usage_error() {
    let (c, a) = Cleaner::start(None);
    assert!(matches!(a, Action::Exit(Outcome::UsageError)));
    assert_eq!(c.phase(), Phase::Finished);
    assert_eq!(Outcome::UsageError.exit_code(), 1);
}

#[test]
fn listing_failure_ends_the_run() {
    let (mut c, a) = Cleaner::start(Some("app".to_string()));
    assert!(matches!(a, Action::ListImages));
    assert_eq!(c.query(), "app");
    let a = c.on_listing(Err(service_error()));
    assert!(matches!(a, Action::Exit(Outcome::ServiceUnavailable)));
    assert_eq!(Outcome::ServiceUnavailable.exit_code(), 1);
}

#[test]
fn scenario_no_matches_exits_zero_without_prompting() {
    let (mut c, _) = Cleaner::start(Some("nothing".to_string()));
    let a = c.on_listing(Ok(two_apps()));
    assert!(matches!(a, Action::Exit(Outcome::NoMatches)));
    assert_eq!(c.phase(), Phase::Finished);
    assert!(c.matches().is_empty());
    assert_eq!(Outcome::NoMatches.exit_code(), 0);
}

#[test]
fn scenario_declined_exits_zero_without_removing() {
    let (mut c, _) = Cleaner::start(Some("app".to_string()));
    let a = c.on_listing(Ok(two_apps()));
    assert!(matches!(a, Action::Prompt));
    assert_eq!(c.phase(), Phase::Prompting);
    assert_eq!(c.matches().len(), 2);
    assert_eq!(ids(c.candidates()), vec!["a2", "a1"]);
    let a = c.on_reply(Some("n".to_string()));
    assert!(matches!(a, Action::Exit(Outcome::Declined)));
    assert_eq!(c.phase(), Phase::Finished);
    assert_eq!(Outcome::Declined.exit_code(), 0);
}

#[test]
fn unreadable_reply_is_fatal() {
    let (mut c, _) = Cleaner::start(Some("app".to_string()));
    c.on_listing(Ok(two_apps()));
    let a = c.on_reply(None);
    assert!(matches!(a, Action::Exit(Outcome::InputClosed)));
    assert_eq!(Outcome::InputClosed.exit_code(), 1);
}

#[test]
fn accepted_removes_every_candidate_in_order() {
    let (mut c, _) = Cleaner::start(Some("app".to_string()));
    c.on_listing(Ok(two_apps()));
    let a = c.on_reply(Some("Y".to_string()));
    assert!(matches!(&a, Action::Remove(id) if id == "a2"));
    let a = c.on_removed(Ok(()));
    assert!(matches!(&a, Action::Remove(id) if id == "a1"));
    let a = c.on_removed(Ok(()));
    assert!(matches!(a, Action::Exit(Outcome::Removed)));
    assert_eq!(c.phase(), Phase::Finished);
    assert_eq!(Outcome::Removed.exit_code(), 0);
}

#[test]
fn scenario_removal_failure_stops_at_once() {
    let images = vec![
        record("c3", &["app:3"], 1),
        record("b2", &["app:2"], 2),
        record("a1", &["app:1"], 3),
    ];
    let (mut c, _) = Cleaner::start(Some("app".to_string()));
    c.on_listing(Ok(images));
    let a = c.on_reply(Some("y".to_string()));
    assert!(matches!(&a, Action::Remove(id) if id == "c3"));
    let a = c.on_removed(Ok(()));
    assert!(matches!(&a, Action::Remove(id) if id == "b2"));
    let a = c.on_removed(Err(service_error()));
    assert!(matches!(a, Action::Exit(Outcome::RemovalFailed)));
    assert_eq!(c.phase(), Phase::Finished);
    assert_ne!(Outcome::RemovalFailed.exit_code(), 0);
}
