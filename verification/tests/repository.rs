use blog_core::repository::build_repository;
use blog_core::AppState;

fn post_file(id_hex: &str, date: &str, title: &str, draft: Option<bool>) -> String {
    let draft_line = match draft {
        Some(true) => "draft=true\n",
        Some(false) => "draft=false\n",
        None => "",
    };
    format!(
        "+++\nid=\"{id_hex}\"\ndate=\"{date}\"\ntitle=\"{title}\"\ndescription=\"about {title}\"\n{draft_line}+++\nbody of {title}"
    )
}

const ID_A: &str = "11111111-1111-1111-1111-111111111111";
const ID_B: &str = "22222222-2222-2222-2222-222222222222";
const ID_C: &str = "33333333-3333-3333-3333-333333333333";
const ID_D: &str = "44444444-4444-4444-4444-444444444444";

#[test]
fn drafts_are_excluded_and_absent_flag_is_published() {
    let files = vec![
        post_file(ID_A, "2024-01-01T00:00:00Z", "published_no_flag", None),
        post_file(ID_B, "2024-01-02T00:00:00Z", "hidden_draft", Some(true)),
        post_file(ID_C, "2024-01-03T00:00:00Z", "published_explicit", Some(false)),
    ];
    let posts = build_repository(files);
    let titles: Vec<&str> = posts.iter().map(|p| p.title.as_str()).collect();
    assert!(!titles.contains(&"hidden_draft"));
    assert!(titles.contains(&"published_no_flag"));
    assert!(titles.contains(&"published_explicit"));
    assert_eq!(posts.len(), 2);
}

#[test]
fn malformed_files_are_skipped_silently() {
    let files = vec![
        "no header at all".to_string(),
        post_file(ID_A, "2024-01-01T00:00:00Z", "good_one", None),
        "+++\nnot = = toml\n+++\nbody".to_string(),
    ];
    let posts = build_repository(files);
    assert_eq!(posts.len(), 1);
    assert_eq!(posts[0].title, "good_one");
}

#[test]
fn repository_is_sorted_newest_first() {
    let files = vec![
        post_file(ID_A, "2023-06-15T12:00:00Z", "middle", None),
        post_file(ID_B, "2024-02-29T08:30:00Z", "newest", None),
        post_file(ID_C, "2021-01-01T00:00:00Z", "oldest", None),
        post_file(ID_D, "2024-02-29T08:29:59Z", "second", None),
    ];
    let posts = build_repository(files);
    let titles: Vec<&str> = posts.iter().map(|p| p.title.as_str()).collect();
    assert_eq!(titles, vec!["newest", "second", "middle", "oldest"]);
    for w in posts.windows(2) {
        assert!(
            w[1].date.secs < w[0].date.secs
                || (w[1].date.secs == w[0].date.secs && w[1].date.nanos < w[0].date.nanos)
        );
    }
}

#[test]
fn subsecond_precision_orders_posts() {
    let files = vec![
        post_file(ID_A, "2024-01-01T00:00:00.250Z", "quarter", None),
        post_file(ID_B, "2024-01-01T00:00:00.750Z", "three_quarters", None),
    ];
    let posts = build_repository(files);
    let titles: Vec<&str> = posts.iter().map(|p| p.title.as_str()).collect();
    assert_eq!(titles, vec!["three_quarters", "quarter"]);
}

#[test]
fn equal_timestamps_keep_input_order() {
    let files = vec![
        post_file(ID_A, "2024-01-01T00:00:00Z", "first_in", None),
        post_file(ID_B, "2024-01-01T00:00:00Z", "second_in", None),
        post_file(ID_C, "2024-01-01T00:00:00Z", "third_in", None),
    ];
    let posts = build_repository(files);
    let titles: Vec<&str> = posts.iter().map(|p| p.title.as_str()).collect();
    assert_eq!(titles, vec!["first_in", "second_in", "third_in"]);
}

#[test]
fn empty_content_directory_builds_empty_state() {
    let state = AppState { posts: build_repository(Vec::new()) };
    assert!(state.posts.is_empty());
}

#[test]
fn app_state_holds_the_built_index() {
    let files = vec![
        post_file(ID_A, "2024-01-01T00:00:00Z", "older", None),
        post_file(ID_B, "2024-01-02T00:00:00Z", "hidden", Some(true)),
        post_file(ID_C, "2024-01-03T00:00:00Z", "newer", None),
    ];
    let state = AppState::from_files(files);
    let titles: Vec<&str> = state.posts.iter().map(|p| p.title.as_str()).collect();
    assert_eq!(titles, vec!["newer", "older"]);
}
