use blog_core::FrontMatter;
use blog_core::Timestamp;

fn sample_post() -> (FrontMatter, String) {
    let id_text = "a81bc81b-dead-4e5d-abff-90865d1e13b1";
    let date_text = "2024-01-01T00:00:00Z";
    let file = format!(
        "+++\nid=\"{id_text}\"\ndate=\"{date_text}\"\ntitle=\"hello_world\"\ndescription=\"First post\"\n+++\n# Hi"
    );
    let fm = FrontMatter::from_file(file.clone()).unwrap();
    (fm, file)
}

#[test]
fn entry_has_exact_shape() {
    let (fm, file) = sample_post();
    let entry = fm.to_feed_entry(Some(file));
    let date = chrono::DateTime::<chrono::Utc>::from_timestamp(fm.date.secs, fm.date.nanos)
        .unwrap()
        .to_string();
    let id = uuid::Uuid::from_u128(fm.id).to_string();
    let html = comrak::markdown_to_html("\n# Hi", &comrak::Options::default());
    let expected = format!(
        "<entry><title>hello world</title><description>First post</description>\
         <link rel=\"alternate\" href=\"https://mhbtech.dev/blog/hello_world\" type=\"text/html\" title=\"hello_world\"/>\
         <published>{date}</published><id>{id}</id>\
         <content type=\"html\" xml:base=\"https://mhbtech.dev/blog/hello_world\">{html}</content>\
         <author><name>botnus</name></author></entry>"
    );
    assert_eq!(entry, expected);
}

#[test]
fn title_underscores_display_as_spaces_only_in_title_field() {
    let (fm, file) = sample_post();
    let entry = fm.to_feed_entry(Some(file));
    assert!(entry.contains("<title>hello world</title>"));
    assert!(entry.contains("href=\"https://mhbtech.dev/blog/hello_world\""));
    assert!(entry.contains("xml:base=\"https://mhbtech.dev/blog/hello_world\""));
}

#[test]
fn published_field_uses_default_datetime_format() {
    let (fm, file) = sample_post();
    let entry = fm.to_feed_entry(Some(file));
    assert!(entry.contains("<published>2024-01-01 00:00:00 UTC</published>"));
}

#[test]
fn missing_file_degrades_to_placeholder() {
    let (fm, _) = sample_post();
    let entry = fm.to_feed_entry(None);
    assert!(entry.contains("<content type=\"html\" xml:base=\"https://mhbtech.dev/blog/hello_world\">Unable to load post.</content>"));
    assert!(entry.contains("<title>hello world</title>"));
}

#[test]
fn unparseable_file_degrades_to_placeholder() {
    let (fm, _) = sample_post();
    let entry = fm.to_feed_entry(Some("+++\nnot = = toml\n+++\nbody".to_string()));
    assert!(entry.contains(">Unable to load post.</content>"));
}

#[test]
fn one_broken_post_does_not_break_the_feed() {
    let (fm_ok, file) = sample_post();
    let mut broken = FrontMatter::from_file(file.clone()).unwrap();
    broken.title = "gone_post".to_string();
    let mut feed = String::new();
    for (post, loaded) in [(&broken, None), (&fm_ok, Some(file))] {
        feed.push_str(&post.to_feed_entry(loaded));
    }
    assert!(feed.contains("<title>gone post</title>"));
    assert!(feed.contains(">Unable to load post.</content>"));
    assert!(feed.contains("<title>hello world</title>"));
    assert!(feed.contains("<h1>Hi</h1>"));
}

#[test]
fn get_content_fails_on_unparseable_text() {
    let (fm, _) = sample_post();
    assert!(fm.get_content(Some("no header".to_string())).is_err());
    assert!(fm.get_content(None).is_err());
}

#[test]
fn timestamp_comparison_is_lexicographic() {
    let a = Timestamp { secs: 5, nanos: 900 };
    let b = Timestamp { secs: 6, nanos: 0 };
    let c = Timestamp { secs: 5, nanos: 901 };
    assert!(a.is_before(&b));
    assert!(a.is_before(&c));
    assert!(!b.is_before(&a));
    assert!(!a.is_before(&a));
}
