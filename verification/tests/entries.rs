use url_launcher::entries::read_entries;

fn lines_of(content: &str) -> Vec<String> {
    content.lines().map(String::from).collect()
}

#[test]
fn sample_file_yields_two_entries() {
    let lines = lines_of("http://a.com\n# comment\n\nhttp://b.com;firefox\n");
    let es = read_entries(&lines);
    assert_eq!(es.len(), 2);
    assert_eq!(es[0].url, "http://a.com");
    assert!(es[0].browser.is_none());
    assert_eq!(es[1].url, "http://b.com");
    assert_eq!(es[1].browser.as_deref(), Some("firefox"));
}

#[test]
fn order_follows_the_file_and_count_skips_blank_and_comment_lines() {
    let lines = lines_of("# header\nhttp://one\n\nhttp://two;b2\n# middle\nhttp://three\n\n");
    let es = read_entries(&lines);
    assert_eq!(es.len(), 3);
    assert_eq!(es[0].url, "http://one");
    assert_eq!(es[1].url, "http://two");
    assert_eq!(es[2].url, "http://three");
}

#[test]
fn fields_are_trimmed_and_later_fields_ignored() {
    let lines = vec!["  http://c.com  ;  safari  ; ignored ; also".to_string()];
    let es = read_entries(&lines);
    assert_eq!(es.len(), 1);
    assert_eq!(es[0].url, "http://c.com");
    assert_eq!(es[0].browser.as_deref(), Some("safari"));
}

#[test]
fn empty_first_field_yields_an_empty_url() {
    let lines = vec![";firefox".to_string()];
    let es = read_entries(&lines);
    assert_eq!(es.len(), 1);
    assert_eq!(es[0].url, "");
    assert_eq!(es[0].browser.as_deref(), Some("firefox"));
}

#[test]
fn comment_marker_counts_only_at_the_line_start() {
    let lines = vec![" # not a comment".to_string()];
    let es = read_entries(&lines);
    assert_eq!(es.len(), 1);
    assert_eq!(es[0].url, "# not a comment");
}

#[test]
fn empty_second_field_is_an_empty_override() {
    let lines = vec!["http://d.com;".to_string()];
    let es = read_entries(&lines);
    assert_eq!(es.len(), 1);
    assert_eq!(es[0].url, "http://d.com");
    assert_eq!(es[0].browser.as_deref(), Some(""));
}

#[test]
fn no_entries_from_an_empty_source() {
    let lines: Vec<String> = Vec::new();
    assert_eq!(read_entries(&lines).len(), 0);
}
