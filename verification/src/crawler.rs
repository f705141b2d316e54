//! Finding captchas on web pages: detection on one page, same-site link
//! extraction, and the decisions of a bounded crawl (which page to fetch next,
//! what a fetched page adds).
use vstd::prelude::*;

use crate::html::{html_select_attrs, select_attrs, texts};
use crate::regex_search::{regex_all_captures, regex_captures_all, regex_is_match, regex_is_match_result};
use crate::strings::{chars_of, contains, has_substring, prefix, string_of};
use crate::weburl::{url_join, url_join_result, url_parse, url_parse_result};

verus! {

/// How a captcha was detected.
#[derive(Debug, Clone, Copy, PartialEq, Eq, Structural)]
pub enum Detection {
    /// img tag with captcha-related attributes.
    ImgTag,
    /// URL path contains captcha-related keywords.
    UrlPattern,
    /// Form with known captcha structure.
    FormPattern,
}

/// A discovered captcha on the web.
#[derive(Debug, Clone)]
pub struct CaptchaFound {
    /// URL of the page containing the captcha.
    pub page_url: String,
    /// Direct URL to the captcha resource (image/audio).
    pub captcha_url: String,
    /// How it was detected.
    pub detection: Detection,
}

/// A captcha finding as plain text.
pub struct CaptchaView {
    pub page_url: Seq<char>,
    pub captcha_url: Seq<char>,
    pub detection: Detection,
}

impl DeepView for CaptchaFound {
    type V = CaptchaView;

    open spec fn deep_view(&self) -> CaptchaView {
        CaptchaView { page_url: self.page_url@, captcha_url: self.captcha_url@, detection: self.detection }
    }
}

/// Words that mark an attribute or URL as captcha-related (case-insensitive).
pub const CAPTCHA_PATTERN: &'static str = "(?i)captcha|capcha|verify|security.?code|vcode|checkcode";

/// An absolute http(s) URL that mentions "captcha" (case-insensitive).
pub const URL_PATTERN: &'static str = "(?i)(https?://[^\\s\"'<>]+captcha[^\\s\"'<>]*)";

/// Whether `v` matches `CAPTCHA_PATTERN`.
pub open spec fn is_keyword(v: Seq<char>) -> bool {
    regex_is_match_result(CAPTCHA_PATTERN@, v) == Some(true)
}

fn keyword(v: &str) -> (b: bool)
    ensures
        b == is_keyword(v@),
{
    match regex_is_match(CAPTCHA_PATTERN, v) {
        Ok(b) => b,
        Err(_) => false,
    }
}

/// The selected elements' attribute values, or none when the selector fails.
pub open spec fn elements(html: Seq<char>, selector: Seq<char>, names: Seq<Seq<char>>) -> Seq<Seq<Option<Seq<char>>>> {
    match html_select_attrs(html, selector, names) {
        Some(v) => v,
        None => seq![],
    }
}

/// The attributes read from `img` elements, in this order.
pub open spec fn img_attr_names() -> Seq<Seq<char>> {
    seq!["src"@, "data-src"@, "class"@, "id"@, "alt"@, "name"@]
}

/// The attributes read from `form input` elements, in this order.
pub open spec fn input_attr_names() -> Seq<Seq<char>> {
    seq!["name"@, "id"@]
}

/// "http://"
pub open spec fn http_prefix() -> Seq<char> {
    seq!['h', 't', 't', 'p', ':', '/', '/']
}

/// "https://"
pub open spec fn https_prefix() -> Seq<char> {
    seq!['h', 't', 't', 'p', 's', ':', '/', '/']
}

/// `s` starts with `p`.
pub open spec fn has_prefix(s: Seq<char>, p: Seq<char>) -> bool {
    s.len() >= p.len() && s.take(p.len() as int) == p
}

/// Where `src`, found on `page_url`, points: absolute http(s) URLs as they are,
/// others resolved against the page, or kept as they are when that fails.
pub open spec fn spec_resolve_url(page_url: Seq<char>, src: Seq<char>) -> Seq<char> {
    if has_prefix(src, http_prefix()) || has_prefix(src, https_prefix()) {
        src
    } else {
        match url_join_result(page_url, src) {
            Some((t, _)) => t,
            None => src,
        }
    }
}

fn starts_with(s: &[char], p: &[char]) -> (b: bool)
    ensures
        b == has_prefix(s@, p@),
{
    if s.len() < p.len() {
        return false;
    }
    let mut i: usize = 0;
    while i < p.len()
        invariant
            i <= p.len(),
            p.len() <= s.len(),
            forall|k: int| 0 <= k < i ==> s@[k] == p@[k],
        decreases p.len() - i,
    {
        if s[i] != p[i] {
            assert(s@.take(p.len() as int)[i as int] != p@[i as int]);
            return false;
        }
        i = i + 1;
    }
    assert(s@.take(p.len() as int) == p@);
    true
}

/// Resolves the image source `src` found on `page_url` to an absolute URL.
pub fn resolve_url(page_url: &str, src: &str) -> (r: String)
    ensures
        r@ == spec_resolve_url(page_url@, src@),
{
    let s = chars_of(src);
    let http: [char; 7] = ['h', 't', 't', 'p', ':', '/', '/'];
    let https: [char; 8] = ['h', 't', 't', 'p', 's', ':', '/', '/'];
    assert(http@ == http_prefix());
    assert(https@ == https_prefix());
    if starts_with(&s, &http) || starts_with(&s, &https) {
        return src.to_string();
    }
    match url_join(page_url, src) {
        Ok(u) => u.text,
        Err(_) => src.to_string(),
    }
}


/// The image source of an `img` element's attributes (`src`, `data-src`, ...):
/// `data-src` when present, else `src`.
pub open spec fn img_src(a: Seq<Option<Seq<char>>>) -> Option<Seq<char>> {
    if a.len() > 1 && a[1] is Some {
        a[1]
    } else if a.len() > 0 && a[0] is Some {
        a[0]
    } else {
        None
    }
}

/// Some attribute of the element is captcha-related.
pub open spec fn any_keyword(a: Seq<Option<Seq<char>>>) -> bool {
    exists|i: int| 0 <= i < a.len() && (#[trigger] a[i]) is Some && is_keyword(a[i]->0)
}

/// The finding an `img` element yields: one when an attribute is
/// captcha-related and the element has a source.
pub open spec fn img_finding(page_url: Seq<char>, a: Seq<Option<Seq<char>>>) -> Option<CaptchaView> {
    if any_keyword(a) && img_src(a) is Some {
        Some(
            CaptchaView {
                page_url,
                captcha_url: spec_resolve_url(page_url, img_src(a)->0),
                detection: Detection::ImgTag,
            },
        )
    } else {
        None
    }
}

/// Findings from `img` elements, in the order the selector yields them.
pub open spec fn img_findings(page_url: Seq<char>, imgs: Seq<Seq<Option<Seq<char>>>>) -> Seq<CaptchaView>
    decreases imgs.len(),
{
    if imgs.len() == 0 {
        seq![]
    } else {
        let prev = img_findings(page_url, imgs.drop_last());
        match img_finding(page_url, imgs.last()) {
            Some(c) => prev.push(c),
            None => prev,
        }
    }
}

/// Some finding in `acc` already points at `u`.
pub open spec fn has_captcha_url(acc: Seq<CaptchaView>, u: Seq<char>) -> bool {
    exists|i: int| 0 <= i < acc.len() && (#[trigger] acc[i]).captcha_url == u
}

/// `acc` extended by the URLs (group 1) of the pattern matches `ms`, in order,
/// each added only when no finding so far points at it.
pub open spec fn add_url_findings(acc: Seq<CaptchaView>, page_url: Seq<char>, ms: Seq<Seq<Option<Seq<char>>>>) -> Seq<CaptchaView>
    decreases ms.len(),
{
    if ms.len() == 0 {
        acc
    } else {
        let prev = add_url_findings(acc, page_url, ms.drop_last());
        let g = ms.last();
        if g.len() > 1 && g[1] is Some && !has_captcha_url(prev, g[1]->0) {
            prev.push(CaptchaView { page_url, captcha_url: g[1]->0, detection: Detection::UrlPattern })
        } else {
            prev
        }
    }
}

/// The value of attribute `i`, or the empty text when absent.
pub open spec fn attr_or_empty(a: Seq<Option<Seq<char>>>, i: int) -> Seq<char> {
    if 0 <= i < a.len() && a[i] is Some {
        a[i]->0
    } else {
        Seq::empty()
    }
}

/// A form input whose `name` or `id` is captcha-related.
pub open spec fn input_is_captcha(a: Seq<Option<Seq<char>>>) -> bool {
    is_keyword(attr_or_empty(a, 0)) || is_keyword(attr_or_empty(a, 1))
}

/// `acc`, plus the page itself as a form-pattern finding when some form input is
/// captcha-related and nothing else was found.
pub open spec fn add_form_finding(acc: Seq<CaptchaView>, page_url: Seq<char>, inputs: Seq<Seq<Option<Seq<char>>>>) -> Seq<CaptchaView> {
    if acc.len() == 0 && exists|i: int| 0 <= i < inputs.len() && input_is_captcha(#[trigger] inputs[i]) {
        seq![CaptchaView { page_url, captcha_url: page_url, detection: Detection::FormPattern }]
    } else {
        acc
    }
}

/// Everything `detect_captchas` reports for the page `page_url` with source `html`.
pub open spec fn spec_detect(page_url: Seq<char>, html: Seq<char>) -> Seq<CaptchaView> {
    let imgs = elements(html, "img"@, img_attr_names());
    let ms = match regex_all_captures(URL_PATTERN@, html) {
        Some(m) => m,
        None => seq![],
    };
    let inputs = elements(html, "form input"@, input_attr_names());
    add_form_finding(add_url_findings(img_findings(page_url, imgs), page_url, ms), page_url, inputs)
}

fn img_finding_of(page_url: &str, a: &Vec<Option<String>>) -> (r: Option<CaptchaFound>)
    ensures
        r.deep_view() == img_finding(page_url@, a.deep_view()),
{
    let ghost av = a.deep_view();
    let mut found = false;
    let mut i: usize = 0;
    while i < a.len()
        invariant
            i <= a.len(),
            av == a.deep_view(),
            found == exists|k: int| 0 <= k < i && (#[trigger] av[k]) is Some && is_keyword(av[k]->0),
        decreases a.len() - i,
    {
        assert(av[i as int] == a@[i as int].deep_view());
        match &a[i] {
            Some(v) => {
                if keyword(v.as_str()) {
                    found = true;
                }
            },
            None => {},
        }
        i = i + 1;
    }
    let src: Option<&String> = if a.len() > 1 && a[1].is_some() {
        a[1].as_ref()
    } else if a.len() > 0 && a[0].is_some() {
        a[0].as_ref()
    } else {
        None
    };
    proof {
        if a.len() > 1 {
            assert(av[1] == a@[1].deep_view());
        }
        if a.len() > 0 {
            assert(av[0] == a@[0].deep_view());
        }
    }
    if found {
        match src {
            Some(s) => {
                let url = resolve_url(page_url, s.as_str());
                Some(CaptchaFound { page_url: page_url.to_string(), captcha_url: url, detection: Detection::ImgTag })
            },
            None => None,
        }
    } else {
        None
    }
}


fn has_url(results: &Vec<CaptchaFound>, u: &String) -> (b: bool)
    ensures
        b == has_captcha_url(results.deep_view(), u@),
{
    let ghost rv = results.deep_view();
    let mut i: usize = 0;
    while i < results.len()
        invariant
            i <= results.len(),
            rv == results.deep_view(),
            forall|k: int| 0 <= k < i ==> (#[trigger] rv[k]).captcha_url != u@,
        decreases results.len() - i,
    {
        assert(rv[i as int] == results@[i as int].deep_view());
        if results[i].captcha_url == *u {
            return true;
        }
        i = i + 1;
    }
    false
}

fn select_or_empty(html: &str, selector: &str, names: &[&str]) -> (r: Vec<Vec<Option<String>>>)
    ensures
        r.deep_view() == elements(html@, selector@, texts(names@)),
{
    match select_attrs(html, selector, names) {
        Ok(v) => v,
        Err(_) => {
            let v: Vec<Vec<Option<String>>> = Vec::new();
            assert(v.deep_view() == Seq::<Seq<Option<Seq<char>>>>::empty());
            v
        },
    }
}

/// Finds the captchas on the page `page_url` whose source is `html`:
/// `img` elements with a captcha-related attribute (their source resolved
/// against the page), then absolute URLs mentioning "captcha" not already found,
/// then, when nothing else was found, the page itself if a form input is named
/// like a captcha field.
pub fn detect_captchas(page_url: &str, html: &str) -> (results: Vec<CaptchaFound>)
    ensures
        results.deep_view() == spec_detect(page_url@, html@),
{
    let img_names: [&str; 6] = ["src", "data-src", "class", "id", "alt", "name"];
    assert(texts(img_names@) == img_attr_names());
    let imgs = select_or_empty(html, "img", &img_names);
    let ghost iv = imgs.deep_view();
    let mut results: Vec<CaptchaFound> = Vec::new();
    let mut i: usize = 0;
    while i < imgs.len()
        invariant
            i <= imgs.len(),
            iv == imgs.deep_view(),
            results.deep_view() == img_findings(page_url@, iv.take(i as int)),
        decreases imgs.len() - i,
    {
        assert(iv.take(i + 1).drop_last() == iv.take(i as int));
        assert(iv[i as int] == imgs@[i as int].deep_view());
        let ghost before = results.deep_view();
        match img_finding_of(page_url, &imgs[i]) {
            Some(c) => {
                results.push(c);
                assert(results.deep_view() == before.push(c.deep_view()));
            },
            None => {},
        }
        i = i + 1;
    }
    assert(iv.take(imgs.len() as int) == iv);
    let ghost base = results.deep_view();
    let ms = match regex_captures_all(URL_PATTERN, html) {
        Ok(v) => v,
        Err(_) => {
            let v: Vec<Vec<Option<String>>> = Vec::new();
            assert(v.deep_view() == Seq::<Seq<Option<Seq<char>>>>::empty());
            v
        },
    };
    let ghost mv = ms.deep_view();
    let mut j: usize = 0;
    while j < ms.len()
        invariant
            j <= ms.len(),
            mv == ms.deep_view(),
            results.deep_view() == add_url_findings(base, page_url@, mv.take(j as int)),
        decreases ms.len() - j,
    {
        assert(mv.take(j + 1).drop_last() == mv.take(j as int));
        assert(mv[j as int] == ms@[j as int].deep_view());
        let g = &ms[j];
        if g.len() > 1 {
            assert(mv[j as int][1] == g@[1].deep_view());
            match &g[1] {
                Some(u) => {
                    if !has_url(&results, u) {
                        let ghost before = results.deep_view();
                        let c = CaptchaFound { page_url: page_url.to_string(), captcha_url: u.clone(), detection: Detection::UrlPattern };
                        results.push(c);
                        assert(results.deep_view() == before.push(c.deep_view()));
                    }
                },
                None => {},
            }
        }
        j = j + 1;
    }
    assert(mv.take(ms.len() as int) == mv);
    let input_names: [&str; 2] = ["name", "id"];
    assert(texts(input_names@) == input_attr_names());
    let inputs = select_or_empty(html, "form input", &input_names);
    let ghost nv = inputs.deep_view();
    let ghost mid = results.deep_view();
    let mut k: usize = 0;
    assert(spec_detect(page_url@, html@) == add_form_finding(mid, page_url@, nv));
    while k < inputs.len()
        invariant
            k <= inputs.len(),
            nv == inputs.deep_view(),
            spec_detect(page_url@, html@) == add_form_finding(mid, page_url@, nv),
            results.deep_view() == mid,
            forall|q: int| 0 <= q < k ==> !input_is_captcha(#[trigger] nv[q]),
        decreases inputs.len() - k,
    {
        proof {
            reveal_strlit("");
        }
        let a = &inputs[k];
        assert(nv[k as int] == a.deep_view());
        let name: &str = if a.len() > 0 {
            assert(nv[k as int][0] == a@[0].deep_view());
            match &a[0] {
                Some(v) => v.as_str(),
                None => "",
            }
        } else {
            ""
        };
        let id: &str = if a.len() > 1 {
            assert(nv[k as int][1] == a@[1].deep_view());
            match &a[1] {
                Some(v) => v.as_str(),
                None => "",
            }
        } else {
            ""
        };
        assert(name@ == attr_or_empty(nv[k as int], 0));
        assert(id@ == attr_or_empty(nv[k as int], 1));
        if keyword(name) || keyword(id) {
            assert(input_is_captcha(nv[k as int]));
            if results.len() == 0 {
                let c = CaptchaFound { page_url: page_url.to_string(), captcha_url: page_url.to_string(), detection: Detection::FormPattern };
                results.push(c);
                assert(results.deep_view() == seq![c.deep_view()]);
            }
            return results;
        }
        k = k + 1;
    }
    results
}


/// Findings of one page: all on that page, none of the form kind, and no URL
/// finding repeats a URL found before it.
pub open spec fn page_findings_ok(d: Seq<CaptchaView>, page_url: Seq<char>) -> bool {
    &&& forall|i: int| 0 <= i < d.len() ==> (#[trigger] d[i]).page_url == page_url
    &&& forall|i: int| 0 <= i < d.len() ==> (#[trigger] d[i]).detection != Detection::FormPattern
    &&& forall|i: int, j: int|
        0 <= i < j < d.len() && (#[trigger] d[j]).detection == Detection::UrlPattern ==> (#[trigger] d[i]).captcha_url
            != d[j].captcha_url
}

proof fn lemma_img_findings_ok(page_url: Seq<char>, imgs: Seq<Seq<Option<Seq<char>>>>)
    ensures
        page_findings_ok(img_findings(page_url, imgs), page_url),
        forall|i: int| 0 <= i < img_findings(page_url, imgs).len() ==> (#[trigger] img_findings(page_url, imgs)[i]).detection == Detection::ImgTag,
    decreases imgs.len(),
{
    if imgs.len() > 0 {
        lemma_img_findings_ok(page_url, imgs.drop_last());
        let prev = img_findings(page_url, imgs.drop_last());
        let cur = img_findings(page_url, imgs);
        assert forall|i: int| 0 <= i < prev.len() implies cur[i] == prev[i] by {}
    }
}

proof fn lemma_add_url_findings_ok(acc: Seq<CaptchaView>, page_url: Seq<char>, ms: Seq<Seq<Option<Seq<char>>>>)
    requires
        page_findings_ok(acc, page_url),
    ensures
        page_findings_ok(add_url_findings(acc, page_url, ms), page_url),
        add_url_findings(acc, page_url, ms).len() >= acc.len(),
    decreases ms.len(),
{
    if ms.len() > 0 {
        lemma_add_url_findings_ok(acc, page_url, ms.drop_last());
        let prev = add_url_findings(acc, page_url, ms.drop_last());
        let cur = add_url_findings(acc, page_url, ms);
        let g = ms.last();
        if g.len() > 1 && g[1] is Some && !has_captcha_url(prev, g[1]->0) {
            assert forall|i: int| 0 <= i < prev.len() implies cur[i] == prev[i] by {}
            assert forall|i: int, j: int|
                0 <= i < j < cur.len() && (#[trigger] cur[j]).detection == Detection::UrlPattern implies (#[trigger] cur[i]).captcha_url
                    != cur[j].captcha_url by {
                if j == prev.len() {
                    assert(cur[i] == prev[i]);
                }
            }
        }
    }
}

/// What one page yields: every finding is on that page; a URL finding never
/// repeats the URL of an earlier finding; and a form finding, which points at the
/// page itself, only ever comes alone.
pub proof fn lemma_detect_shape(page_url: Seq<char>, html: Seq<char>)
    ensures
        forall|i: int| 0 <= i < spec_detect(page_url, html).len() ==> (#[trigger] spec_detect(page_url, html)[i]).page_url == page_url,
        forall|i: int, j: int|
            0 <= i < j < spec_detect(page_url, html).len() && (#[trigger] spec_detect(page_url, html)[j]).detection
                == Detection::UrlPattern ==> (#[trigger] spec_detect(page_url, html)[i]).captcha_url
                != spec_detect(page_url, html)[j].captcha_url,
        forall|i: int| 0 <= i < spec_detect(page_url, html).len() && (#[trigger] spec_detect(page_url, html)[i]).detection
            == Detection::FormPattern ==> spec_detect(page_url, html).len() == 1 && spec_detect(page_url, html)[i].captcha_url == page_url,
{
    let imgs = elements(html, "img"@, img_attr_names());
    let ms = match regex_all_captures(URL_PATTERN@, html) {
        Some(m) => m,
        None => seq![],
    };
    lemma_img_findings_ok(page_url, imgs);
    lemma_add_url_findings_ok(img_findings(page_url, imgs), page_url, ms);
}

proof fn lemma_img_findings_contains(page_url: Seq<char>, imgs: Seq<Seq<Option<Seq<char>>>>, k: int)
    requires
        0 <= k < imgs.len(),
        img_finding(page_url, imgs[k]) is Some,
    ensures
        img_findings(page_url, imgs).contains(img_finding(page_url, imgs[k])->0),
    decreases imgs.len(),
{
    let prev = img_findings(page_url, imgs.drop_last());
    let cur = img_findings(page_url, imgs);
    if k == imgs.len() - 1 {
        assert(cur[cur.len() - 1] == img_finding(page_url, imgs[k])->0);
    } else {
        assert(imgs.drop_last()[k] == imgs[k]);
        lemma_img_findings_contains(page_url, imgs.drop_last(), k);
        let i = choose|i: int| 0 <= i < prev.len() && prev[i] == img_finding(page_url, imgs[k])->0;
        match img_finding(page_url, imgs.last()) {
            Some(c) => assert(cur[i] == prev[i]),
            None => {},
        }
    }
}

proof fn lemma_add_url_findings_prefix(acc: Seq<CaptchaView>, page_url: Seq<char>, ms: Seq<Seq<Option<Seq<char>>>>)
    ensures
        add_url_findings(acc, page_url, ms).len() >= acc.len(),
        forall|i: int| 0 <= i < acc.len() ==> #[trigger] add_url_findings(acc, page_url, ms)[i] == acc[i],
    decreases ms.len(),
{
    if ms.len() > 0 {
        lemma_add_url_findings_prefix(acc, page_url, ms.drop_last());
    }
}

/// An `img` element with a source is reported as an image captcha whenever any
/// one of the attributes read from it (`src`, `data-src`, `class`, `id`, `alt`,
/// `name`) is captcha-related: the page's findings then hold the element's
/// source, resolved against the page URL, as an `ImgTag` finding.
pub proof fn lemma_img_keyword_reported(page_url: Seq<char>, html: Seq<char>, k: int, j: int)
    requires
        0 <= k < elements(html, "img"@, img_attr_names()).len(),
        0 <= j < elements(html, "img"@, img_attr_names())[k].len(),
        elements(html, "img"@, img_attr_names())[k][j] is Some,
        is_keyword(elements(html, "img"@, img_attr_names())[k][j]->0),
        img_src(elements(html, "img"@, img_attr_names())[k]) is Some,
    ensures
        spec_detect(page_url, html).contains(
            CaptchaView {
                page_url,
                captcha_url: spec_resolve_url(page_url, img_src(elements(html, "img"@, img_attr_names())[k])->0),
                detection: Detection::ImgTag,
            },
        ),
{
    let imgs = elements(html, "img"@, img_attr_names());
    let ms = match regex_all_captures(URL_PATTERN@, html) {
        Some(m) => m,
        None => seq![],
    };
    let a = imgs[k];
    assert(any_keyword(a)) by {
        assert(a[j] is Some && is_keyword(a[j]->0));
    }
    let c = CaptchaView {
        page_url,
        captcha_url: spec_resolve_url(page_url, img_src(a)->0),
        detection: Detection::ImgTag,
    };
    assert(img_finding(page_url, a) == Some(c));
    lemma_img_findings_contains(page_url, imgs, k);
    let f = img_findings(page_url, imgs);
    let i = choose|i: int| 0 <= i < f.len() && f[i] == c;
    lemma_add_url_findings_prefix(f, page_url, ms);
    let u = add_url_findings(f, page_url, ms);
    assert(u[i] == c);
    assert(spec_detect(page_url, html) == u);
    assert(spec_detect(page_url, html)[i] == c);
}

/// Position of the first `#` in `s`, or `s.len()` when there is none.
pub open spec fn hash_pos(s: Seq<char>) -> nat
    decreases s.len(),
{
    if s.len() == 0 || s[0] == '#' {
        0
    } else {
        1 + hash_pos(s.drop_first())
    }
}

/// `s` without its fragment: everything before the first `#`.
pub open spec fn strip_fragment(s: Seq<char>) -> Seq<char> {
    s.take(hash_pos(s) as int)
}

pub proof fn lemma_hash_pos(s: Seq<char>)
    ensures
        hash_pos(s) <= s.len(),
        forall|i: int| 0 <= i < hash_pos(s) ==> #[trigger] s[i] != '#',
        hash_pos(s) < s.len() ==> s[hash_pos(s) as int] == '#',
    decreases s.len(),
{
    if s.len() > 0 && s[0] != '#' {
        lemma_hash_pos(s.drop_first());
        assert forall|i: int| 0 <= i < hash_pos(s) implies #[trigger] s[i] != '#' by {
            if i > 0 {
                assert(s[i] == s.drop_first()[i - 1]);
            }
        }
    }
}

/// A URL with its fragment stripped holds no `#`.
pub proof fn lemma_strip_fragment_no_hash(s: Seq<char>)
    ensures
        !strip_fragment(s).contains('#'),
{
    lemma_hash_pos(s);
    let t = strip_fragment(s);
    assert forall|i: int| 0 <= i < t.len() implies t[i] != '#' by {
        assert(t[i] == s[i]);
    }
}

fn strip_fragment_of(s: &String) -> (r: String)
    ensures
        r@ == strip_fragment(s@),
{
    let c = chars_of(s.as_str());
    let mut i: usize = 0;
    assert(c@.skip(0) == c@);
    while i < c.len() && c[i] != '#'
        invariant
            i <= c.len(),
            c@ == s@,
            hash_pos(c@.skip(i as int)) + i == hash_pos(c@),
        decreases c.len() - i,
    {
        assert(c@.skip(i as int).drop_first() == c@.skip(i + 1));
        i = i + 1;
    }
    proof {
        if i < c.len() {
            assert(c@.skip(i as int)[0] == c@[i as int]);
        }
    }
    let kept = prefix(&c, i);
    string_of(&kept)
}


/// The attribute read from `a[href]` elements.
pub open spec fn href_attr_names() -> Seq<Seq<char>> {
    seq!["href"@]
}

/// Links from the `href` values `anchors`, in order: each resolved against
/// `base`, kept only when its host equals `base_host`, fragment stripped.
pub open spec fn links_from(base: Seq<char>, base_host: Option<Seq<char>>, anchors: Seq<Seq<Option<Seq<char>>>>) -> Seq<Seq<char>>
    decreases anchors.len(),
{
    if anchors.len() == 0 {
        seq![]
    } else {
        let prev = links_from(base, base_host, anchors.drop_last());
        let a = anchors.last();
        if a.len() > 0 && a[0] is Some {
            match url_join_result(base, a[0]->0) {
                Some((t, host)) => if host == base_host {
                    prev.push(strip_fragment(t))
                } else {
                    prev
                },
                None => prev,
            }
        } else {
            prev
        }
    }
}

/// What `extract_links` returns: the same-host links of the page `base`, none
/// when `base` is not a URL.
pub open spec fn spec_links(base: Seq<char>, html: Seq<char>) -> Seq<Seq<char>> {
    match url_parse_result(base) {
        None => seq![],
        Some((_, host)) => links_from(base, host, elements(html, "a[href]"@, href_attr_names())),
    }
}

fn same_host(a: &Option<String>, b: &Option<String>) -> (r: bool)
    ensures
        r == (a.deep_view() == b.deep_view()),
{
    match (a, b) {
        (Some(x), Some(y)) => *x == *y,
        (None, None) => true,
        _ => false,
    }
}

/// The links of the page `base` (source `html`) that stay on the same host,
/// resolved to absolute URLs with their fragments stripped, in the order the selector yields them.
pub fn extract_links(base: &str, html: &str) -> (links: Vec<String>)
    ensures
        links.deep_view() == spec_links(base@, html@),
{
    let parsed = match url_parse(base) {
        Ok(p) => p,
        Err(_) => {
            let v: Vec<String> = Vec::new();
            assert(v.deep_view() == Seq::<Seq<char>>::empty());
            return v;
        },
    };
    let names: [&str; 1] = ["href"];
    assert(texts(names@) == href_attr_names());
    let anchors = select_or_empty(html, "a[href]", &names);
    let ghost av = anchors.deep_view();
    let ghost host = parsed.host.deep_view();
    let mut links: Vec<String> = Vec::new();
    let mut i: usize = 0;
    while i < anchors.len()
        invariant
            i <= anchors.len(),
            av == anchors.deep_view(),
            host == parsed.host.deep_view(),
            links.deep_view() == links_from(base@, host, av.take(i as int)),
        decreases anchors.len() - i,
    {
        assert(av.take(i + 1).drop_last() == av.take(i as int));
        let a = &anchors[i];
        assert(av[i as int] == a.deep_view());
        if a.len() > 0 {
            assert(av[i as int][0] == a@[0].deep_view());
            match &a[0] {
                Some(href) => {
                    match url_join(base, href.as_str()) {
                        Ok(j) => {
                            if same_host(&j.host, &parsed.host) {
                                let ghost before = links.deep_view();
                                let l = strip_fragment_of(&j.text);
                                links.push(l);
                                assert(links.deep_view() == before.push(l@));
                            }
                        },
                        Err(_) => {},
                    }
                },
                None => {},
            }
        }
        i = i + 1;
    }
    assert(av.take(anchors.len() as int) == av);
    links
}

/// Every extracted link is free of fragments.
pub proof fn lemma_links_have_no_fragment(base: Seq<char>, base_host: Option<Seq<char>>, anchors: Seq<Seq<Option<Seq<char>>>>)
    ensures
        forall|i: int| 0 <= i < links_from(base, base_host, anchors).len() ==>
            !(#[trigger] links_from(base, base_host, anchors)[i]).contains('#'),
    decreases anchors.len(),
{
    if anchors.len() > 0 {
        lemma_links_have_no_fragment(base, base_host, anchors.drop_last());
        let prev = links_from(base, base_host, anchors.drop_last());
        let cur = links_from(base, base_host, anchors);
        let a = anchors.last();
        if a.len() > 0 && a[0] is Some {
            if let Some((t, _)) = url_join_result(base, a[0]->0) {
                lemma_strip_fragment_no_hash(t);
            }
        }
        assert forall|i: int| 0 <= i < cur.len() implies !(#[trigger] cur[i]).contains('#') by {
            if i < prev.len() {
                assert(cur[i] == prev[i]);
            }
        }
    }
}


/// The state of a crawl, as text.
pub struct CrawlView {
    /// Pages handed out for fetching, in order.
    pub visited: Seq<Seq<char>>,
    /// Pages waiting; the last is taken first.
    pub queue: Seq<Seq<char>>,
    /// Captchas found so far, in order.
    pub found: Seq<CaptchaView>,
    /// Most pages the crawl hands out.
    pub max_pages: nat,
    /// The crawl has ended.
    pub finished: bool,
}

/// The page budget holds, no page is handed out twice, and every captcha found
/// is on a page that was handed out.
pub open spec fn crawl_wf(c: CrawlView) -> bool {
    &&& c.visited.no_duplicates()
    &&& c.visited.len() <= c.max_pages
    &&& forall|i: int| 0 <= i < c.found.len() ==> c.visited.contains(#[trigger] c.found[i].page_url)
}

/// What taking the next page does to the queue, and the page taken: pages are
/// taken from the end of the queue, already-visited ones skipped, and the crawl
/// stops when the queue runs out or the budget of pages is spent.
pub open spec fn next_pick(visited: Seq<Seq<char>>, queue: Seq<Seq<char>>, max_pages: nat) -> (Seq<Seq<char>>, Option<Seq<char>>)
    decreases queue.len(),
{
    if queue.len() == 0 {
        (queue, None)
    } else {
        let u = queue.last();
        let q = queue.drop_last();
        if visited.len() >= max_pages {
            (q, None)
        } else if visited.contains(u) {
            next_pick(visited, q, max_pages)
        } else {
            (q, Some(u))
        }
    }
}

pub proof fn lemma_next_pick_fresh(visited: Seq<Seq<char>>, queue: Seq<Seq<char>>, max_pages: nat)
    ensures
        next_pick(visited, queue, max_pages).1 matches Some(u) ==> !visited.contains(u) && visited.len() < max_pages,
    decreases queue.len(),
{
    if queue.len() > 0 {
        lemma_next_pick_fresh(visited, queue.drop_last(), max_pages);
    }
}

/// Taking the next page skips pages already visited: while the budget is not
/// spent, the page taken is the last page `queue[j]` of the queue that was not
/// visited, and the queue keeps the pages before it; when every page of the
/// queue was visited, or the budget is spent, no page is taken.
pub proof fn lemma_next_pick_skips_visited(visited: Seq<Seq<char>>, queue: Seq<Seq<char>>, max_pages: nat, j: int)
    requires
        visited.len() < max_pages,
        0 <= j < queue.len(),
        !visited.contains(queue[j]),
        forall|i: int| j < i < queue.len() ==> visited.contains(#[trigger] queue[i]),
    ensures
        next_pick(visited, queue, max_pages) == (queue.take(j), Some(queue[j])),
    decreases queue.len(),
{
    if j < queue.len() - 1 {
        let q = queue.drop_last();
        assert(visited.contains(queue[queue.len() - 1]));
        assert forall|i: int| j < i < q.len() implies visited.contains(#[trigger] q[i]) by {
            assert(q[i] == queue[i]);
        }
        assert(q[j] == queue[j]);
        lemma_next_pick_skips_visited(visited, q, max_pages, j);
        assert(q.take(j) == queue.take(j));
    } else {
        assert(queue.drop_last() == queue.take(j));
    }
}

/// No page is taken when every page of the queue was visited or the budget of
/// pages is spent.
pub proof fn lemma_next_pick_none(visited: Seq<Seq<char>>, queue: Seq<Seq<char>>, max_pages: nat)
    requires
        visited.len() >= max_pages || forall|i: int| 0 <= i < queue.len() ==> visited.contains(#[trigger] queue[i]),
    ensures
        next_pick(visited, queue, max_pages).1 is None,
    decreases queue.len(),
{
    if queue.len() > 0 && visited.len() < max_pages {
        let q = queue.drop_last();
        assert(visited.contains(queue[queue.len() - 1]));
        assert forall|i: int| 0 <= i < q.len() implies visited.contains(#[trigger] q[i]) by {
            assert(q[i] == queue[i]);
        }
        lemma_next_pick_none(visited, q, max_pages);
    }
}

/// The decisions of a crawl: which page to fetch next, and what a fetched page
/// adds to the findings and to the queue. Fetching is left to the caller.
pub struct Crawler {
    visited: Vec<String>,
    queue: Vec<String>,
    found: Vec<CaptchaFound>,
    max_pages: usize,
    finished: bool,
}

impl View for Crawler {
    type V = CrawlView;

    closed spec fn view(&self) -> CrawlView {
        CrawlView {
            visited: self.visited.deep_view(),
            queue: self.queue.deep_view(),
            found: self.found.deep_view(),
            max_pages: self.max_pages as nat,
            finished: self.finished,
        }
    }
}

fn contains_text(v: &Vec<String>, s: &String) -> (r: bool)
    ensures
        r == v.deep_view().contains(s@),
{
    let ghost vv = v.deep_view();
    let mut i: usize = 0;
    while i < v.len()
        invariant
            i <= v.len(),
            vv == v.deep_view(),
            forall|k: int| 0 <= k < i ==> vv[k] != s@,
        decreases v.len() - i,
    {
        assert(vv[i as int] == v@[i as int]@);
        if v[i] == *s {
            assert(vv[i as int] == s@);
            return true;
        }
        i = i + 1;
    }
    false
}

impl Crawler {
    /// The crawl invariant.
    pub open spec fn wf(&self) -> bool {
        crawl_wf(self@)
    }

    /// A crawl from the seed pages `seeds` (the last seed is fetched first) that
    /// visits at most `max_pages` pages.
    pub fn new(seeds: &[&str], max_pages: usize) -> (c: Crawler)
        ensures
            c.wf(),
            c@.visited == Seq::<Seq<char>>::empty(),
            c@.queue == seeds@.map_values(|s: &str| s@),
            c@.found == Seq::<CaptchaView>::empty(),
            c@.max_pages == max_pages,
            !c@.finished,
    {
        let mut queue: Vec<String> = Vec::new();
        let mut i: usize = 0;
        while i < seeds.len()
            invariant
                i <= seeds.len(),
                queue.deep_view() == seeds@.take(i as int).map_values(|s: &str| s@),
            decreases seeds.len() - i,
        {
            let ghost before = queue.deep_view();
            let t = seeds[i].to_string();
            queue.push(t);
            assert(queue.deep_view() == before.push(t@));
            assert(seeds@.take(i + 1).map_values(|s: &str| s@) == seeds@.take(i as int).map_values(|s: &str| s@).push(seeds@[i as int]@));
            i = i + 1;
        }
        assert(seeds@.take(seeds.len() as int) == seeds@);
        let visited: Vec<String> = Vec::new();
        let found: Vec<CaptchaFound> = Vec::new();
        let c = Crawler { visited, queue, found, max_pages, finished: false };
        assert(c@.visited == Seq::<Seq<char>>::empty());
        assert(c@.found == Seq::<CaptchaView>::empty());
        c
    }

    /// The next page to fetch, or `None` when the crawl is over (the queue is
    /// exhausted or `max_pages` pages have been handed out). A page is never
    /// handed out twice.
    pub fn next_url(&mut self) -> (r: Option<String>)
        requires
            old(self).wf(),
        ensures
            final(self).wf(),
            final(self)@.found == old(self)@.found,
            final(self)@.max_pages == old(self)@.max_pages,
            old(self)@.finished ==> r is None && final(self)@ == old(self)@,
            !old(self)@.finished ==> {
                let (q, u) = next_pick(old(self)@.visited, old(self)@.queue, old(self)@.max_pages);
                &&& final(self)@.queue == q
                &&& r.deep_view() == u
                &&& final(self)@.finished == (u is None)
                &&& final(self)@.visited == match u {
                    Some(x) => old(self)@.visited.push(x),
                    None => old(self)@.visited,
                }
            },
            r matches Some(u) ==> !old(self)@.visited.contains(u@) && final(self)@.visited.contains(u@)
                && final(self)@.visited.len() <= final(self)@.max_pages,
    {
        if self.finished {
            return None;
        }
        let ghost v0 = self@;
        proof {
            lemma_next_pick_fresh(v0.visited, v0.queue, v0.max_pages);
        }
        loop
            invariant
                v0 == old(self)@,
                self@.visited == v0.visited,
                self@.found == v0.found,
                self@.max_pages == v0.max_pages,
                !self@.finished,
                !v0.finished,
                crawl_wf(v0),
                next_pick(v0.visited, v0.queue, v0.max_pages) == next_pick(v0.visited, self@.queue, v0.max_pages),
                next_pick(v0.visited, v0.queue, v0.max_pages).1 matches Some(u) ==> !v0.visited.contains(u) && v0.visited.len() < v0.max_pages,
            decreases self@.queue.len(),
        {
            let ghost q0 = self.queue.deep_view();
            match self.queue.pop() {
                None => {
                    assert(q0 == Seq::<Seq<char>>::empty());
                    self.finished = true;
                    assert(self@.found == v0.found);
                    assert(self@.max_pages == v0.max_pages);
                    return None;
                },
                Some(url) => {
                    assert(self.queue.deep_view() == q0.drop_last());
                    assert(url@ == q0.last());
                    if self.visited.len() >= self.max_pages {
                        self.finished = true;
                        assert(self@.found == v0.found);
                        assert(self@.max_pages == v0.max_pages);
                        return None;
                    }
                    if contains_text(&self.visited, &url) {
                        continue;
                    }
                    let ghost before = self.visited.deep_view();
                    self.visited.push(url.clone());
                    assert(self.visited.deep_view() == before.push(url@));
                    proof {
                        assert(before.push(url@).no_duplicates()) by {
                            assert forall|i: int, j: int| 0 <= i < before.push(url@).len() && 0 <= j < before.push(url@).len() && i != j implies before.push(url@)[i] != before.push(url@)[j] by {
                                if i < before.len() && j < before.len() {
                                } else if i == before.len() {
                                    assert(before.push(url@)[j] == before[j]);
                                } else {
                                    assert(before.push(url@)[i] == before[i]);
                                }
                            }
                        }
                        assert(before.push(url@)[before.len() as int] == url@);
                        assert forall|i: int| 0 <= i < v0.found.len() implies before.push(url@).contains(#[trigger] v0.found[i].page_url) by {
                            let k = choose|k: int| 0 <= k < before.len() && before[k] == v0.found[i].page_url;
                            assert(before.push(url@)[k] == before[k]);
                        }
                    }
                    return Some(url);
                },
            }
        }
    }

    /// Records the page `url` with source `html`, just fetched: its captchas are
    /// added to the findings, and its same-host links not yet visited are queued.
    pub fn record_page(&mut self, url: &str, html: &str)
        requires
            old(self).wf(),
            old(self)@.visited.contains(url@),
        ensures
            final(self).wf(),
            final(self)@.visited == old(self)@.visited,
            final(self)@.max_pages == old(self)@.max_pages,
            final(self)@.finished == old(self)@.finished,
            final(self)@.found == old(self)@.found + spec_detect(url@, html@),
            final(self)@.queue == old(self)@.queue + spec_links(url@, html@).filter(
                |l: Seq<char>| !old(self)@.visited.contains(l),
            ),
    {
        let ghost v0 = self@;
        let mut captchas = detect_captchas(url, html);
        let ghost cv = captchas.deep_view();
        let ghost f0 = self.found@;
        let ghost c0 = captchas@;
        self.found.append(&mut captchas);
        assert(self.found@ == f0 + c0);
        assert(self.found.deep_view() =~= v0.found + cv);
        proof {
            lemma_detect_shape(url@, html@);
            let nf = v0.found + cv;
            assert forall|i: int| 0 <= i < nf.len() implies v0.visited.contains(#[trigger] nf[i].page_url) by {
                if i >= v0.found.len() {
                    assert(nf[i] == cv[i - v0.found.len()]);
                }
            }
        }
        let links = extract_links(url, html);
        let ghost lv = links.deep_view();
        let ghost keep = |l: Seq<char>| !v0.visited.contains(l);
        let mut j: usize = 0;
        while j < links.len()
            invariant
                j <= links.len(),
                lv == links.deep_view(),
                keep == (|l: Seq<char>| !v0.visited.contains(l)),
                v0 == old(self)@,
                self@.visited == v0.visited,
                self@.max_pages == v0.max_pages,
                self@.finished == v0.finished,
                self@.found == v0.found + cv,
                self@.queue == v0.queue + lv.take(j as int).filter(keep),
            decreases links.len() - j,
        {
            proof {
                reveal_with_fuel(Seq::<_>::filter, 1);
                assert(lv.take(j + 1).drop_last() == lv.take(j as int));
            }
            assert(lv[j as int] == links@[j as int]@);
            let ghost prevf = lv.take(j as int).filter(keep);
            assert(lv.take(j + 1).last() == lv[j as int]);
            if !contains_text(&self.visited, &links[j]) {
                let ghost before = self.queue.deep_view();
                let l = links[j].clone();
                self.queue.push(l);
                assert(self.queue.deep_view() == before.push(l@));
                assert(lv.take(j + 1).filter(keep) == prevf.push(lv[j as int])) by {
                    reveal_with_fuel(Seq::<_>::filter, 1);
                    assert(keep(lv[j as int]));
                }
                assert(self.queue.deep_view() =~= v0.queue + lv.take(j + 1).filter(keep));
            } else {
                assert(lv.take(j + 1).filter(keep) == prevf) by {
                    reveal_with_fuel(Seq::<_>::filter, 1);
                    assert(!keep(lv[j as int]));
                }
            }
            j = j + 1;
        }
        assert(lv.take(links.len() as int) == lv);
    }

    /// Whether the page `url` has been handed out for fetching.
    pub fn has_visited(&self, url: &str) -> (b: bool)
        ensures
            b == self@.visited.contains(url@),
    {
        let u = url.to_string();
        contains_text(&self.visited, &u)
    }

    /// The captchas found so far.
    pub fn found(&self) -> (r: &Vec<CaptchaFound>)
        ensures
            r.deep_view() == self@.found,
    {
        &self.found
    }

    /// Ends the crawl, handing over the captchas found.
    pub fn into_found(self) -> (r: Vec<CaptchaFound>)
        ensures
            r.deep_view() == self@.found,
    {
        self.found
    }
}


/// Why a fetched page is not crawled.
#[derive(Debug, Clone, Copy, PartialEq, Eq, Structural)]
pub enum PageRejection {
    /// The HTTP status is not a success (200–299).
    Status(u16),
    /// The content type does not say HTML.
    NotHtml,
}

/// An HTTP success status (200–299).
pub open spec fn spec_status_ok(status: u16) -> bool {
    200 <= status <= 299
}

/// Whether `status` is an HTTP success.
pub fn status_ok(status: u16) -> (b: bool)
    ensures
        b == spec_status_ok(status),
{
    200 <= status && status <= 299
}

/// Whether a response with `status` and `content_type` (empty when absent or not
/// visible ASCII) is a page to crawl: a success whose content type mentions
/// `text/html`.
pub fn check_page(status: u16, content_type: &str) -> (r: Result<(), PageRejection>)
    ensures
        !spec_status_ok(status) ==> r == Err::<(), PageRejection>(PageRejection::Status(status)),
        spec_status_ok(status) && !has_substring(content_type@, "text/html"@) ==> r == Err::<(), PageRejection>(
            PageRejection::NotHtml,
        ),
        spec_status_ok(status) && has_substring(content_type@, "text/html"@) ==> r is Ok,
{
    if !status_ok(status) {
        return Err(PageRejection::Status(status));
    }
    if !contains(content_type, "text/html") {
        return Err(PageRejection::NotHtml);
    }
    Ok(())
}

/// File extension for a downloaded captcha, judged from its URL.
pub open spec fn spec_file_extension(captcha_url: Seq<char>) -> Seq<char> {
    if has_substring(captcha_url, ".png"@) {
        "png"@
    } else if has_substring(captcha_url, ".jpg"@) || has_substring(captcha_url, ".jpeg"@) {
        "jpg"@
    } else if has_substring(captcha_url, ".gif"@) {
        "gif"@
    } else {
        "png"@
    }
}

/// File extension under which a captcha downloaded from `captcha_url` is saved:
/// "png", "jpg" or "gif" as the URL mentions, "png" otherwise.
pub fn file_extension(captcha_url: &str) -> (r: &'static str)
    ensures
        r@ == spec_file_extension(captcha_url@),
{
    if contains(captcha_url, ".png") {
        "png"
    } else if contains(captcha_url, ".jpg") || contains(captcha_url, ".jpeg") {
        "jpg"
    } else if contains(captcha_url, ".gif") {
        "gif"
    } else {
        "png"
    }
}

} // verus!
