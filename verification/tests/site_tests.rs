use teshi::site::{demo_requested, home_url};

#[test]
fn exits_to_the_site_root_from_app() {
    assert_eq!(home_url("https://teshi.org", "/app/"), "https://teshi.org");
    assert_eq!(home_url("https://teshi.org", "/docs/app/"), "https://teshi.org");
}

#[test]
fn exits_to_the_parent_path_otherwise() {
    assert_eq!(home_url("https://x.org", "/a/b/index.html"), "https://x.org//a/b");
    assert_eq!(home_url("https://x.org", "/"), "https://x.org/");
    assert_eq!(home_url("https://x.org", "page"), "https://x.org/page");
    assert_eq!(home_url("https://x.org", ""), "https://x.org/");
}

#[test]
fn demo_query() {
    assert!(demo_requested("?demo=true"));
    assert!(demo_requested("?x=1&demo=true"));
    assert!(!demo_requested("?demo=false"));
    assert!(!demo_requested(""));
}
