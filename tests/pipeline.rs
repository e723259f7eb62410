use serp_headings::document::{extract_headings, extract_result_links};
use serp_headings::extract::{headings_from_matches, is_absolute, result_links, tag_entries, RESULT_CAP};
use serp_headings::serp::SERP;
use serp_headings::text::{join_with_spaces, plus_for_spaces, trim};

fn strings(v: &[&str]) -> Vec<String> {
    v.iter().map(|s| s.to_string()).collect()
}

fn all_tags() -> Vec<String> {
    strings(&["h1", "h2", "h3", "h4", "h5", "h6"])
}

fn results_page(anchors: &[&str]) -> String {
    let mut body = String::from("<html><body>");
    for a in anchors {
        body.push_str(&format!("<div class=\"g\"><a href=\"{}\">link</a></div>", a));
    }
    body.push_str("</body></html>");
    body
}

#[test]
fn new_replaces_spaces_with_plus() {
    let s = SERP::new("supply chain management");
    assert_eq!(s.query, "supply+chain+management");
    assert!(s.pages.is_empty());
    assert_eq!(plus_for_spaces(""), "");
    assert_eq!(plus_for_spaces("  a b "), "++a+b+");
}

#[test]
fn search_url_is_assembled_from_locale_and_query() {
    let s = SERP::new("supply chain management");
    assert_eq!(
        s.search_url("en", "uk"),
        "https://www.google.com/search?hl=en&gl=uk&q=supply+chain+management"
    );
}

#[test]
fn trim_and_join() {
    assert_eq!(trim("  Intro  "), "Intro");
    assert_eq!(trim(" \t\n "), "");
    assert_eq!(trim(""), "");
    assert_eq!(trim("\u{a0}a b\u{3000}"), "a b");
    assert_eq!(join_with_spaces(&strings(&["a", "b", "c"])), "a b c");
    assert_eq!(join_with_spaces(&strings(&[])), "");
    assert_eq!(join_with_spaces(&strings(&["one"])), "one");
}

#[test]
fn absolute_links() {
    assert!(is_absolute("http://a"));
    assert!(is_absolute("https://a"));
    assert!(is_absolute("http"));
    assert!(!is_absolute("/url?q=x"));
    assert!(!is_absolute("htt"));
    assert!(!is_absolute(""));
}

#[test]
fn result_links_cap_and_order() {
    let hrefs: Vec<Option<String>> = vec![
        Some("https://a.com".to_string()),
        Some("/relative".to_string()),
        None,
        Some("https://b.com".to_string()),
        Some("http://c.com".to_string()),
        Some("#frag".to_string()),
        Some("https://d.com".to_string()),
        Some("https://e.com".to_string()),
        Some("https://f.com".to_string()),
    ];
    assert_eq!(
        result_links(&hrefs, RESULT_CAP),
        strings(&["https://a.com", "https://b.com", "http://c.com", "https://d.com", "https://e.com"])
    );
    assert_eq!(result_links(&hrefs, 2), strings(&["https://a.com", "https://b.com"]));
    assert_eq!(result_links(&hrefs, 0), strings(&[]));
}

#[test]
fn result_links_fewer_than_cap() {
    let hrefs: Vec<Option<String>> =
        vec![None, Some("https://a.com".to_string()), Some("rel".to_string()), Some("http://b".to_string())];
    assert_eq!(result_links(&hrefs, RESULT_CAP), strings(&["https://a.com", "http://b"]));
    assert_eq!(result_links(&Vec::new(), RESULT_CAP), strings(&[]));
}

#[test]
fn add_results_ranks_from_one() {
    let mut s = SERP::new("q");
    let hrefs: Vec<Option<String>> = vec![Some("/x".to_string()), Some("https://a".to_string()), Some("https://b".to_string())];
    s.add_results(&hrefs);
    assert_eq!(s.pages.len(), 2);
    assert_eq!(s.pages[0].url, "https://a");
    assert_eq!(s.pages[0].position, 1);
    assert_eq!(s.pages[1].url, "https://b");
    assert_eq!(s.pages[1].position, 2);
    assert!(s.pages[1].headings.is_empty());
}

#[test]
fn scenario_eight_absolute_three_relative() {
    let body = results_page(&[
        "https://1.com", "/rel1", "https://2.com", "https://3.com", "/rel2", "https://4.com",
        "https://5.com", "/rel3", "https://6.com", "https://7.com", "https://8.com",
    ]);
    let mut s = SERP::new("supply chain");
    assert!(s.scrape_serp(200, &body));
    let urls: Vec<&str> = s.pages.iter().map(|p| p.url.as_str()).collect();
    assert_eq!(urls, vec!["https://1.com", "https://2.com", "https://3.com", "https://4.com", "https://5.com"]);
    let positions: Vec<usize> = s.pages.iter().map(|p| p.position).collect();
    assert_eq!(positions, vec![1, 2, 3, 4, 5]);
}

#[test]
fn anchors_outside_result_blocks_are_ignored() {
    let body = "<html><body><a href=\"https://out.com\">x</a><div class=\"g\"><p><a href=\"https://in.com\">y</a></p><a>no href</a></div></body></html>";
    assert_eq!(extract_result_links(body, RESULT_CAP), strings(&["https://in.com"]));
    assert_eq!(extract_result_links("<html><body><p>nothing</p></body></html>", RESULT_CAP), strings(&[]));
    assert_eq!(extract_result_links("", RESULT_CAP), strings(&[]));
}

#[test]
fn scenario_empty_heading_dropped() {
    let doc = "<html><body><h1>  Intro  </h1><h1></h1><h2>Details</h2></body></html>";
    let got = extract_headings(doc, &strings(&["h1", "h2"]));
    assert_eq!(
        got,
        vec![("h1".to_string(), "Intro".to_string()), ("h2".to_string(), "Details".to_string())]
    );
}

#[test]
fn headings_grouped_by_tag_order() {
    let doc = "<html><body><h2>B1</h2><h1>A1</h1><h3> </h3><h2>B2</h2><h1>A2</h1></body></html>";
    let got = extract_headings(doc, &strings(&["h2", "h1", "h3"]));
    let want: Vec<(String, String)> = vec![
        ("h2".to_string(), "B1".to_string()),
        ("h2".to_string(), "B2".to_string()),
        ("h1".to_string(), "A1".to_string()),
        ("h1".to_string(), "A2".to_string()),
    ];
    assert_eq!(got, want);
}

#[test]
fn heading_fragments_join_with_spaces() {
    let doc = "<html><body><h1> Hello<em>big</em>world </h1></body></html>";
    let got = extract_headings(doc, &all_tags());
    assert_eq!(got, vec![("h1".to_string(), "Hello big world".to_string())]);
}

#[test]
fn headings_from_fragments() {
    let tags = strings(&["h1", "h2"]);
    let per_tag = vec![
        vec![strings(&["  a", "b  "]), strings(&["", " "]), strings(&[])],
        vec![strings(&["c"])],
    ];
    assert_eq!(
        headings_from_matches(&tags, &per_tag),
        vec![("h1".to_string(), "a b".to_string()), ("h2".to_string(), "c".to_string())]
    );
    assert_eq!(tag_entries("h3", &vec![strings(&[" x "]), strings(&[" "])]), vec![("h3".to_string(), "x".to_string())]);
}

#[test]
fn scenario_search_fetch_fails() {
    let body = results_page(&["https://1.com"]);
    let mut s = SERP::new("q");
    assert!(!s.scrape_serp(503, &body));
    assert!(s.pages.is_empty());
    s.scrape_page_headings(&Vec::new(), &all_tags());
    assert!(s.pages.is_empty());
}

#[test]
fn scenario_one_page_fetch_fails() {
    let body = results_page(&["https://1.com", "https://2.com", "https://3.com", "https://4.com", "https://5.com"]);
    let mut s = SERP::new("q");
    assert!(s.scrape_serp(200, &body));
    assert_eq!(s.pages.len(), 5);
    let page = |n: usize| Some(format!("<html><body><h1>Title {}</h1><h3>Sub {}</h3></body></html>", n, n));
    let bodies = vec![page(1), page(2), None, page(4), page(5)];
    s.scrape_page_headings(&bodies, &all_tags());
    assert_eq!(s.pages.len(), 5);
    for (i, p) in s.pages.iter().enumerate() {
        assert_eq!(p.position, i + 1);
        assert_eq!(p.url, format!("https://{}.com", i + 1));
        if i == 2 {
            assert!(p.headings.is_empty());
        } else {
            assert_eq!(
                p.headings,
                vec![
                    ("h1".to_string(), format!("Title {}", i + 1)),
                    ("h3".to_string(), format!("Sub {}", i + 1)),
                ]
            );
        }
    }
}
