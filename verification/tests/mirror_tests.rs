use wget::{classify_content, run_crawl, ContentKind, SitePage, WebsiteMirror};

fn mirror_for(url: &str) -> WebsiteMirror {
    WebsiteMirror::new(url.to_string(), vec![], vec![], false).unwrap()
}

#[test]
fn new_mirror_takes_host_as_output_dir() {
    let m = mirror_for("https://example.com/start");
    assert_eq!(m.output_dir, "example.com");
    assert_eq!(m.host, "example.com");
    assert_eq!(m.queue, vec!["https://example.com/start"]);
    assert!(m.visited.is_empty());
}

#[test]
fn new_mirror_rejects_hostless_urls() {
    assert!(WebsiteMirror::new("not a url".to_string(), vec![], vec![], false).is_err());
    assert!(WebsiteMirror::new("mailto:x@y".to_string(), vec![], vec![], false).is_err());
}

#[test]
fn classification_reads_content_type() {
    assert_eq!(classify_content("text/html; charset=utf-8"), ContentKind::Html);
    assert_eq!(classify_content("text/css"), ContentKind::TextAsset);
    assert_eq!(classify_content("application/javascript"), ContentKind::TextAsset);
    assert_eq!(classify_content("image/png"), ContentKind::Binary);
    assert_eq!(classify_content(""), ContentKind::Binary);
}

#[test]
fn relative_paths_follow_the_derivation_law() {
    // the path derivation law, on its three canonical shapes
    let m = mirror_for("https://example.com/");
    assert_eq!(m.get_relative_path("https://example.com/").unwrap(), "index.html");
    assert_eq!(m.get_relative_path("https://example.com/blog").unwrap(), "blog/index.html");
    assert_eq!(m.get_relative_path("https://example.com/img/logo.png").unwrap(), "img/logo.png");
}

#[test]
fn relative_paths_more_shapes() {
    let m = mirror_for("https://example.com/");
    assert_eq!(m.get_relative_path("https://example.com/blog/").unwrap(), "blog/index.html");
    // the dot test looks at the final segment only: a dotted directory
    // name does not make the path a file
    assert_eq!(
        m.get_relative_path("https://example.com/v1.0/docs").unwrap(),
        "v1.0/docs/index.html"
    );
    assert_eq!(m.get_relative_path("https://example.com/v1.0/d.txt").unwrap(), "v1.0/d.txt");
}

#[test]
fn exclusion_by_extension_and_prefix() {
    let m = WebsiteMirror::new(
        "https://example.com/".to_string(),
        vec!["png".to_string(), "zip".to_string()],
        vec!["/private".to_string()],
        false,
    )
    .unwrap();
    assert!(m.should_exclude("https://example.com/img/logo.png"));
    assert!(m.should_exclude("https://example.com/a.zip"));
    assert!(!m.should_exclude("https://example.com/img/logo.svg"));
    assert!(m.should_exclude("https://example.com/private/x.html"));
    assert!(!m.should_exclude("https://example.com/public/x.html"));
    // a dotfile has no extension to reject
    assert!(!m.should_exclude("https://example.com/.png"));
}

#[test]
fn queue_and_visited_bookkeeping() {
    let mut m = mirror_for("https://example.com/");
    assert_eq!(m.pop_front().as_deref(), Some("https://example.com/"));
    assert_eq!(m.pop_front(), None);
    assert!(!m.is_visited("https://example.com/"));
    m.mark_visited("https://example.com/".to_string());
    assert!(m.is_visited("https://example.com/"));
}

#[test]
fn html_processing_enqueues_same_host_links_only() {
    // the crawl scope property: a cross-host link is never enqueued, but
    // with link conversion on the emitted text still references it
    let mut m = WebsiteMirror::new("https://example.com/".to_string(), vec![], vec![], true)
        .unwrap();
    let _ = m.pop_front();
    let html = "<html><body><a href=\"/page\">in scope</a>\
        <a href=\"http://other.com/page\">out of scope</a></body></html>";
    let rewritten = m.process_html(html, "https://example.com/");
    assert_eq!(m.queue, vec!["https://example.com/page"]);
    // the in-scope link is rewritten to its local relative path
    assert!(rewritten.contains("page/index.html"));
    // the cross-host link still appears, as its rewritten relative form
    assert!(rewritten.contains("page/index.html\">out of scope"));
    assert!(!m.queue.iter().any(|u| u.contains("other.com")));
}

#[test]
fn html_processing_without_conversion_keeps_text() {
    let mut m = WebsiteMirror::new("https://example.com/".to_string(), vec![], vec![], false)
        .unwrap();
    let _ = m.pop_front();
    let html = "<a href=\"/page\">x</a><img src=\"/logo.png\">";
    let out = m.process_html(html, "https://example.com/");
    assert_eq!(out, html);
    assert_eq!(
        m.queue,
        vec!["https://example.com/page", "https://example.com/logo.png"]
    );
}

fn small_site() -> Vec<SitePage> {
    vec![
        SitePage {
            url: "https://a.test/".to_string(),
            content_type: "text/html".to_string(),
            body: "<a href=\"/x.bin\">x</a><a href=\"http://other.com/page\">o</a><img src=\"/logo.png\">"
                .to_string(),
        },
        SitePage {
            url: "https://a.test/x.bin".to_string(),
            content_type: "application/octet-stream".to_string(),
            body: "binary".to_string(),
        },
        SitePage {
            url: "https://a.test/logo.png".to_string(),
            content_type: "image/png".to_string(),
            body: "png".to_string(),
        },
    ]
}

#[test]
fn crawl_saves_in_scope_pages_only() {
    let site = small_site();
    let saved = run_crawl("https://a.test/".to_string(), vec![], vec![], false, &site).unwrap();
    assert_eq!(saved, vec!["index.html", "x.bin", "logo.png"]);
    // nothing from the other host was ever fetched
    assert!(!saved.iter().any(|p| p.contains("page")));
}

#[test]
fn crawl_is_idempotent_on_an_unchanged_site() {
    // re-running with an empty visited set yields the same file set
    let site = small_site();
    let first = run_crawl("https://a.test/".to_string(), vec![], vec![], false, &site).unwrap();
    let second = run_crawl("https://a.test/".to_string(), vec![], vec![], false, &site).unwrap();
    assert_eq!(first, second);
}

#[test]
fn crawl_applies_the_reject_policy() {
    let site = small_site();
    let saved = run_crawl(
        "https://a.test/".to_string(),
        vec!["png".to_string()],
        vec![],
        false,
        &site,
    )
    .unwrap();
    assert_eq!(saved, vec!["index.html", "x.bin"]);
}

#[test]
fn crawl_does_not_refetch_a_repeated_link() {
    let site = vec![
        SitePage {
            url: "https://a.test/".to_string(),
            content_type: "text/html".to_string(),
            body: "<a href=\"/x.bin\">1</a><a href=\"/x.bin\">2</a>".to_string(),
        },
        SitePage {
            url: "https://a.test/x.bin".to_string(),
            content_type: "application/octet-stream".to_string(),
            body: "b".to_string(),
        },
    ];
    let saved = run_crawl("https://a.test/".to_string(), vec![], vec![], false, &site).unwrap();
    assert_eq!(saved, vec!["index.html", "x.bin"]);
}

#[test]
fn crawl_refuses_a_hostless_seed() {
    let site: Vec<SitePage> = vec![];
    assert!(run_crawl("nonsense".to_string(), vec![], vec![], false, &site).is_err());
}
