use hackernews::labels::{comments_unit, score_unit, site_label};

fn site(url: &str) -> String {
    site_label(&Some(url.to_string()))
}

#[test]
fn the_scheme_and_a_leading_www_are_dropped() {
    assert_eq!(site("https://www.example.com/a/b"), "example.com/a/b");
    assert_eq!(site("http://www.getdropbox.com/u/2/screencast.html"), "getdropbox.com/u/2/screencast.html");
    assert_eq!(site("https://news.ycombinator.com"), "news.ycombinator.com");
    assert_eq!(site("www.example.org"), "example.org");
    assert_eq!(site("example.org"), "example.org");
}

#[test]
fn repeated_prefixes_are_all_dropped() {
    assert_eq!(site("https://https://a.b"), "a.b");
    assert_eq!(site("http://http://http://a.b"), "a.b");
    assert_eq!(site("https://http://www.www.a.b"), "a.b");
}

#[test]
fn prefixes_are_dropped_in_their_order_only() {
    assert_eq!(site("http://https://a.b"), "https://a.b");
    assert_eq!(site("www.https://a.b"), "https://a.b");
    assert_eq!(site("ftp://www.a.b"), "ftp://www.a.b");
    assert_eq!(site("https:/www.a.b"), "https:/www.a.b");
}

#[test]
fn a_prefix_inside_the_link_stays() {
    assert_eq!(site("https://a.b/www.c"), "a.b/www.c");
    assert_eq!(site("https://a.b/?u=http://c.d"), "a.b/?u=http://c.d");
}

#[test]
fn a_link_of_other_than_ascii_characters_is_cut_at_characters() {
    assert_eq!(site("https://www.müller.example/straße"), "müller.example/straße");
    assert_eq!(site("https://日本語.example"), "日本語.example");
}

#[test]
fn nothing_left_names_the_default_site() {
    assert_eq!(site_label(&None), "google.com");
    assert_eq!(site(""), "google.com");
    assert_eq!(site("https://"), "google.com");
    assert_eq!(site("https://www."), "google.com");
    assert_eq!(site("http://www.www."), "google.com");
}

#[test]
fn one_point_is_singular() {
    assert_eq!(score_unit(1), " point");
    assert_eq!(score_unit(0), " points");
    assert_eq!(score_unit(2), " points");
    assert_eq!(score_unit(-1), " points");
    assert_eq!(score_unit(i64::MAX), " points");
}

#[test]
fn one_comment_is_singular() {
    assert_eq!(comments_unit(1), " comment");
    assert_eq!(comments_unit(0), " comments");
    assert_eq!(comments_unit(2), " comments");
    assert_eq!(comments_unit(usize::MAX), " comments");
}
