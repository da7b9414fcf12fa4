use catgirl_parser::api::yandere::{
    BooruRequest, TemplateAction, TemplateSession, RATING, REQUEST,
};

fn page_len(n: u64, m: u64, p: u64) -> u64 {
    if n >= p * m {
        m
    } else if n > (p - 1) * m {
        n - (p - 1) * m
    } else {
        0
    }
}

#[test]
fn build_plain_request_url() {
    let r = BooruRequest::new()
        .set_limit(3)
        .set_rating(RATING::S)
        .set_tag("blue_archive".to_string());
    match r.build() {
        REQUEST::Request(url) => assert_eq!(
            url,
            "https://yande.re/post.json?limit=3&page=1&tags=blue_archive+rating:s"
        ),
        other => panic!("unexpected {:?}", other),
    }
}

#[test]
fn build_ratings_and_tags() {
    let r = BooruRequest::new()
        .set_limit(40)
        .set_rating(RATING::ALL)
        .set_tag("a".to_string())
        .set_tag("b".to_string());
    match r.build() {
        REQUEST::Request(url) => {
            assert_eq!(url, "https://yande.re/post.json?limit=40&page=1&tags=a+b")
        }
        other => panic!("unexpected {:?}", other),
    }
    match BooruRequest::new().set_rating(RATING::E).build() {
        REQUEST::Request(url) => {
            assert_eq!(url, "https://yande.re/post.json?limit=1&page=1&tags=rating:e")
        }
        other => panic!("unexpected {:?}", other),
    }
    match BooruRequest::new().set_rating(RATING::Q).set_limit(65535).build() {
        REQUEST::Request(url) => {
            assert_eq!(url, "https://yande.re/post.json?limit=65535&page=1&tags=rating:q")
        }
        other => panic!("unexpected {:?}", other),
    }
    match BooruRequest::new().set_rating(RATING::ALL).build() {
        REQUEST::Request(url) => assert_eq!(url, "https://yande.re/post.json?limit=1&page=1&tags="),
        other => panic!("unexpected {:?}", other),
    }
}

#[test]
fn build_random_templates() {
    let r = BooruRequest::new()
        .randomize()
        .set_limit(3)
        .set_rating(RATING::S)
        .set_tag("blue_archive".to_string());
    match r.build() {
        REQUEST::RandomTemplate([template, clarification], limit) => {
            assert_eq!(
                template,
                "https://yande.re/post.json?limit=1&page={image}&tags=blue_archive+rating:s"
            );
            assert_eq!(
                clarification,
                "https://yande.re/post.json?limit=1000&page={image}&tags=blue_archive+rating:s"
            );
            assert_eq!(limit, 3);
        }
        other => panic!("unexpected {:?}", other),
    }
}

#[test]
fn direct_template_session() {
    let mut s = TemplateSession::start(REQUEST::Request("u".to_string()));
    match s.action() {
        TemplateAction::Fetch { url, probe } => {
            assert_eq!(url, "u");
            assert!(!probe);
        }
        other => panic!("unexpected {:?}", other),
    }
    assert!(s.can_accept(5));
    s.step(5);
    assert!(matches!(s.action(), TemplateAction::Finish));
}

/// Runs a random session against a board with `n` images.
fn run(n: u64, limit: u16) -> (Vec<String>, Vec<String>) {
    let r = BooruRequest::new()
        .randomize()
        .set_limit(limit)
        .set_tag("blue_archive".to_string());
    let mut s = TemplateSession::start(r.build());
    let mut probes = Vec::new();
    let mut picks = Vec::new();
    for _ in 0..10_000 {
        let len = match s.action() {
            TemplateAction::Fetch { url, probe } => {
                let page: u64 = url
                    .split('&')
                    .find(|a| a.starts_with("page="))
                    .unwrap()[5..]
                    .parse()
                    .unwrap();
                if *probe {
                    assert!(url.contains("limit=1000&"));
                    probes.push(url.clone());
                    page_len(n, 1000, page)
                } else {
                    assert!(url.contains("limit=1&"));
                    assert!(1 <= page && page <= n);
                    picks.push(url.clone());
                    1
                }
            }
            TemplateAction::Fail(e) => panic!("failed: {:?}", e),
            TemplateAction::Finish => return (probes, picks),
        };
        assert!(s.can_accept(len));
        s.step(len);
    }
    panic!("the session did not finish");
}

#[test]
fn random_template_session_counts_and_samples() {
    let (probes, picks) = run(2500, 3);
    assert_eq!(
        probes[0],
        "https://yande.re/post.json?limit=1000&page=1&tags=blue_archive+rating:s"
    );
    assert_eq!(probes.len(), 6);
    assert_eq!(picks.len(), 3);
    let (probes, picks) = run(999, 2);
    assert_eq!(probes.len(), 1);
    assert_eq!(picks.len(), 2);
}

#[test]
fn template_session_with_bad_template_fails() {
    let r = BooruRequest::new().randomize().set_tag("{x}".to_string());
    let s = TemplateSession::start(r.build());
    assert!(matches!(s.action(), TemplateAction::Fail(_)));
}

#[test]
fn empty_board_count_is_refused() {
    let r = BooruRequest::new().randomize().set_limit(2);
    let mut s = TemplateSession::start(r.build());
    // Page 1 is empty, so the search narrows to page 1 and probes it again.
    assert!(s.can_accept(0));
    s.step(0);
    assert!(s.can_accept(0));
    s.step(0);
    // The last page would be page 0, whose total cannot be computed.
    assert!(!s.can_accept(0));
}
