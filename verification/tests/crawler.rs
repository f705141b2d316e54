use uncap::crawler::{
    check_page, detect_captchas, extract_links, file_extension, resolve_url, status_ok, CaptchaFound, Crawler,
    Detection, PageRejection,
};

fn summary(found: &[CaptchaFound]) -> Vec<(String, String, Detection)> {
    found.iter().map(|c| (c.page_url.clone(), c.captcha_url.clone(), c.detection)).collect()
}

const PAGE: &str = "https://example.com/login";

#[test]
fn detects_img_tags_and_captcha_urls() {
    let html = r#"<html><body>
        <img src="/captcha.png">
        <img src="logo.png" alt="logo">
        <img src="plain.png" data-src="https://cdn.example.net/a.png" class="Verify-Img">
        <a href="https://example.com/getcaptcha?id=1">refresh</a>
        <form><input name="security_code"></form>
    </body></html>"#;
    let found = detect_captchas(PAGE, html);
    assert_eq!(
        summary(&found),
        vec![
            (PAGE.to_string(), "https://example.com/captcha.png".to_string(), Detection::ImgTag),
            (PAGE.to_string(), "https://cdn.example.net/a.png".to_string(), Detection::ImgTag),
            (PAGE.to_string(), "https://example.com/getcaptcha?id=1".to_string(), Detection::UrlPattern),
        ]
    );
}

#[test]
fn captcha_urls_are_not_repeated() {
    let html = r#"<img src="https://x.org/CAPTCHA.gif">
        <p>https://x.org/CAPTCHA.gif and https://y.org/captcha/1 and again https://y.org/captcha/1</p>"#;
    let found = detect_captchas(PAGE, html);
    assert_eq!(
        summary(&found),
        vec![
            (PAGE.to_string(), "https://x.org/CAPTCHA.gif".to_string(), Detection::ImgTag),
            (PAGE.to_string(), "https://y.org/captcha/1".to_string(), Detection::UrlPattern),
        ]
    );
}

#[test]
fn form_field_alone_marks_the_page() {
    let html = r#"<form action="/go"><input name="user"><input id="vcode_input"></form>"#;
    let found = detect_captchas(PAGE, html);
    assert_eq!(summary(&found), vec![(PAGE.to_string(), PAGE.to_string(), Detection::FormPattern)]);
}

#[test]
fn input_outside_form_and_plain_pages_yield_nothing() {
    assert!(detect_captchas(PAGE, r#"<input name="captcha">"#).is_empty());
    assert!(detect_captchas(PAGE, "<p>nothing to see</p>").is_empty());
    assert!(detect_captchas(PAGE, r#"<img alt="captcha">"#).is_empty());
}

#[test]
fn resolve_url_keeps_absolute_and_joins_relative() {
    assert_eq!(resolve_url(PAGE, "http://a.b/c.png"), "http://a.b/c.png");
    assert_eq!(resolve_url(PAGE, "https://a.b/c.png"), "https://a.b/c.png");
    assert_eq!(resolve_url("https://example.com/a/b.html", "c.png"), "https://example.com/a/c.png");
    assert_eq!(resolve_url("not a url", "c.png"), "c.png");
}

#[test]
fn links_stay_on_host_and_lose_fragments() {
    let html = r##"<a href="/x#frag">1</a><a href="c.html">2</a><a href="https://other.com/y">3</a>
        <a href="mailto:me@example.com">4</a><a name="no-href">5</a><a href="#top">6</a>"##;
    let links = extract_links("https://example.com/a/b.html", html);
    assert_eq!(
        links,
        vec![
            "https://example.com/x".to_string(),
            "https://example.com/a/c.html".to_string(),
            "https://example.com/a/b.html".to_string(),
        ]
    );
    assert!(extract_links("not a url", html).is_empty());
}

#[test]
fn crawl_respects_budget_and_never_revisits() {
    let mut c = Crawler::new(&["https://a.com/1"], 2);
    assert_eq!(c.next_url().as_deref(), Some("https://a.com/1"));
    c.record_page(
        "https://a.com/1",
        r#"<a href="/2">two</a><a href="/1">self</a><a href="/3">three</a><img src="/captcha.png">"#,
    );
    assert_eq!(c.found().len(), 1);
    assert_eq!(c.next_url().as_deref(), Some("https://a.com/3"));
    assert_eq!(c.next_url(), None);
    assert_eq!(c.next_url(), None);
    let found = c.into_found();
    assert_eq!(found[0].captcha_url, "https://a.com/captcha.png");
}

#[test]
fn crawl_skips_visited_pages_in_queue() {
    let mut c = Crawler::new(&["https://a.com/1", "https://a.com/1"], 10);
    assert_eq!(c.next_url().as_deref(), Some("https://a.com/1"));
    assert_eq!(c.next_url(), None);
}

#[test]
fn page_checks() {
    assert_eq!(check_page(200, "text/html; charset=utf-8"), Ok(()));
    assert_eq!(check_page(404, "text/html"), Err(PageRejection::Status(404)));
    assert_eq!(check_page(200, "application/json"), Err(PageRejection::NotHtml));
    assert_eq!(check_page(299, ""), Err(PageRejection::NotHtml));
    assert!(status_ok(204));
    assert!(!status_ok(199));
    assert!(!status_ok(300));
}

#[test]
fn saved_file_extensions() {
    assert_eq!(file_extension("https://a/b.png?x=.gif"), "png");
    assert_eq!(file_extension("https://a/b.jpeg"), "jpg");
    assert_eq!(file_extension("https://a/b.JPG"), "png");
    assert_eq!(file_extension("https://a/b.gif"), "gif");
    assert_eq!(file_extension("https://a/captcha"), "png");
}
