use blog_core::frontmatter::encode_post;
use blog_core::frontmatter::deserialize_frontmatter;
use blog_core::frontmatter::is_valid_post_name;
use blog_core::FrontMatter;
use blog_core::FrontmatterError;

const EXAMPLE: &str = "+++\nid=\"11111111-1111-1111-1111-111111111111\"\ndate=\"2024-01-01T00:00:00Z\"\ntitle=\"hello_world\"\ndescription=\"First post\"\n+++\n# Hi";

#[test]
fn example_file_parses() {
    let fm = FrontMatter::from_file(EXAMPLE.to_string()).unwrap();
    assert_eq!(fm.title, "hello_world");
    assert_eq!(fm.description, "First post");
    assert_eq!(fm.draft, None);
    assert_eq!(
        fm.id,
        uuid::Uuid::parse_str("11111111-1111-1111-1111-111111111111")
            .unwrap()
            .as_u128()
    );
    let expected_date = chrono::DateTime::parse_from_rfc3339("2024-01-01T00:00:00Z").unwrap();
    assert_eq!(fm.date.secs, expected_date.timestamp());
    assert_eq!(fm.date.nanos, expected_date.timestamp_subsec_nanos());
}

#[test]
fn example_body_renders_to_heading() {
    let (fm, body) = deserialize_frontmatter(EXAMPLE).unwrap();
    assert_eq!(body, "\n# Hi");
    let html = fm.get_content(Some(EXAMPLE.to_string())).unwrap();
    assert_eq!(
        html,
        comrak::markdown_to_html("\n# Hi", &comrak::Options::default())
    );
    assert!(html.contains("<h1>Hi</h1>"));
}

#[test]
fn missing_leading_delimiter_fails() {
    for text in ["", "id=\"x\"", "++", "body only\n+++\nlate delimiter"] {
        let r = FrontMatter::from_file(text.to_string());
        assert!(matches!(r, Err(FrontmatterError::MissingHeader)));
    }
}

#[test]
fn body_keeps_literal_delimiters() {
    let header = "\nid=\"11111111-1111-1111-1111-111111111111\"\ndate=\"2024-01-01T00:00:00Z\"\ntitle=\"t\"\ndescription=\"d\"\n";
    let body = "before\n+++\nmiddle\n+++after";
    let file = encode_post(header, body);
    let (_, parsed_body) = deserialize_frontmatter(&file).unwrap();
    assert_eq!(parsed_body, body);
}

#[test]
fn round_trip_preserves_fields_and_body() {
    let id = "a81bc81b-dead-4e5d-abff-90865d1e13b1";
    let date = "2024-05-06T07:08:09.123Z";
    let title = "some_post_title";
    let description = "a short summary";
    let header = format!(
        "\nid=\"{id}\"\ndate=\"{date}\"\ntitle=\"{title}\"\ndescription=\"{description}\"\n"
    );
    let body = "The body text.\nWith **markdown** and a stray +++ inside.";
    let file = encode_post(&header, body);
    let (fm, parsed_body) = deserialize_frontmatter(&file).unwrap();
    assert_eq!(fm.id, uuid::Uuid::parse_str(id).unwrap().as_u128());
    let d = chrono::DateTime::parse_from_rfc3339(date).unwrap();
    assert_eq!(fm.date.secs, d.timestamp());
    assert_eq!(fm.date.nanos, d.timestamp_subsec_nanos());
    assert_eq!(fm.title, title);
    assert_eq!(fm.description, description);
    assert_eq!(fm.draft, None);
    assert_eq!(parsed_body, body);
}

#[test]
fn header_without_second_delimiter_runs_to_end() {
    let file = "+++\nid=\"11111111-1111-1111-1111-111111111111\"\ndate=\"2024-01-01T00:00:00Z\"\ntitle=\"t\"\ndescription=\"d\"";
    let (fm, body) = deserialize_frontmatter(file).unwrap();
    assert_eq!(fm.title, "t");
    assert_eq!(body, "");
}

#[test]
fn file_ending_at_second_delimiter_has_empty_body() {
    let file = "+++\nid=\"11111111-1111-1111-1111-111111111111\"\ndate=\"2024-01-01T00:00:00Z\"\ntitle=\"t\"\ndescription=\"d\"\n+++";
    let (_, body) = deserialize_frontmatter(file).unwrap();
    assert_eq!(body, "");
}

#[test]
fn decode_failures_are_header_decode_errors() {
    let cases = [
        // not TOML at all
        "+++\nnot valid = = toml\n+++\nbody",
        // missing id
        "+++\ndate=\"2024-01-01T00:00:00Z\"\ntitle=\"t\"\ndescription=\"d\"\n+++\nbody",
        // missing date
        "+++\nid=\"11111111-1111-1111-1111-111111111111\"\ntitle=\"t\"\ndescription=\"d\"\n+++\nbody",
        // id not a UUID
        "+++\nid=\"nope\"\ndate=\"2024-01-01T00:00:00Z\"\ntitle=\"t\"\ndescription=\"d\"\n+++\nbody",
        // date not RFC 3339
        "+++\nid=\"11111111-1111-1111-1111-111111111111\"\ndate=\"yesterday\"\ntitle=\"t\"\ndescription=\"d\"\n+++\nbody",
        // title of the wrong type
        "+++\nid=\"11111111-1111-1111-1111-111111111111\"\ndate=\"2024-01-01T00:00:00Z\"\ntitle=3\ndescription=\"d\"\n+++\nbody",
        // missing description
        "+++\nid=\"11111111-1111-1111-1111-111111111111\"\ndate=\"2024-01-01T00:00:00Z\"\ntitle=\"t\"\n+++\nbody",
        // draft present but not a boolean
        "+++\nid=\"11111111-1111-1111-1111-111111111111\"\ndate=\"2024-01-01T00:00:00Z\"\ntitle=\"t\"\ndescription=\"d\"\ndraft=\"yes\"\n+++\nbody",
    ];
    for text in cases {
        let r = FrontMatter::from_file(text.to_string());
        assert!(matches!(r, Err(FrontmatterError::HeaderDecode(_))), "{text}");
    }
}

#[test]
fn draft_flag_values_are_kept() {
    for (flag, expected) in [("draft=true\n", Some(true)), ("draft=false\n", Some(false)), ("", None)] {
        let file = format!(
            "+++\nid=\"11111111-1111-1111-1111-111111111111\"\ndate=\"2024-01-01T00:00:00Z\"\ntitle=\"t\"\ndescription=\"d\"\n{flag}+++\nbody"
        );
        let fm = FrontMatter::from_file(file).unwrap();
        assert_eq!(fm.draft, expected);
    }
}

#[test]
fn new_post_is_a_hidden_draft() {
    let fm = FrontMatter::new("fresh_post".to_string());
    assert_eq!(fm.draft, Some(true));
    assert_eq!(fm.title, "fresh_post");
    assert_eq!(fm.description, "");
}

#[test]
fn post_name_allow_list() {
    assert!(is_valid_post_name("hello_world"));
    assert!(is_valid_post_name("Post-42"));
    assert!(!is_valid_post_name(""));
    assert!(!is_valid_post_name("../secrets"));
    assert!(!is_valid_post_name("a/b"));
    assert!(!is_valid_post_name("dot.dot"));
    assert!(!is_valid_post_name("with space"));
}
