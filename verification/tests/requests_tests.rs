use catgirl_parser::api::requests::{
    BooruRequest, ImageAction, ImageEvent, ImageSession, SiteSettings, RATING,
};

fn sample_request() -> BooruRequest {
    BooruRequest::new("yande.re".to_string())
        .randomize()
        .set_limit(4)
        .set_rating(RATING::S)
        .set_tag("width:>=1920".to_string())
        .set_tag("height:<1500".to_string())
        .set_tag("nekopara".to_string())
}

fn page_len(n: u64, m: u64, p: u64) -> u64 {
    if n >= p * m {
        m
    } else if n > (p - 1) * m {
        n - (p - 1) * m
    } else {
        0
    }
}

#[test]
fn new_request_defaults() {
    let r = BooruRequest::new("yande.re".to_string());
    assert_eq!(r.domain, "yande.re");
    assert_eq!(r.limit, 1);
    assert_eq!(r.page, 1);
    assert!(!r.is_random);
    assert_eq!(r.rating, RATING::S);
    assert!(r.tags.is_empty());
}

#[test]
fn builder_sets_fields() {
    let r = sample_request();
    assert!(r.is_random);
    assert_eq!(r.limit, 4);
    assert_eq!(r.rating, RATING::S);
    assert_eq!(r.tags, vec!["width:>=1920", "height:<1500", "nekopara"]);
    let r = r.set_rating(RATING::Q);
    assert_eq!(r.rating, RATING::Q);
}

#[test]
fn rating_names() {
    let r = BooruRequest::new("d".to_string());
    assert_eq!(r.get_rating(), "safe");
    assert_eq!(r.clone().set_rating(RATING::E).get_rating(), "explicit");
    assert_eq!(r.clone().set_rating(RATING::Q).get_rating(), "questionable");
    assert_eq!(r.set_rating(RATING::ALL).get_rating(), "all");
}

#[test]
fn max_and_min_limits() {
    let r = sample_request();
    let big = r.get_max_lim(7, 100);
    assert_eq!(big.limit, 100);
    assert_eq!(big.page, 7);
    assert!(!big.is_random);
    assert_eq!(big.tags, r.tags);
    assert_eq!(big.domain, r.domain);
    let one = r.get_min_lim(42);
    assert_eq!(one.limit, 1);
    assert_eq!(one.page, 42);
    assert!(!one.is_random);
    assert_eq!(one.tags, r.tags);
}

#[test]
fn hash_is_sha512_of_sorted_keys() {
    let r = sample_request();
    assert_eq!(
        r.get_hash(),
        "0373463091594d613dedd3b9566780b4cca002601f5e230ad3bd9c68f0bf3e4622f954822052c6558e62369d0062f043dba19916f9e06afda1cc6b2655d489bb"
    );
    let plain = BooruRequest::new("yande.re".to_string());
    assert_eq!(
        plain.get_hash(),
        "cb6845a4c210ce201d0191af348274790f711c43a6e18a05117e87398d7bd73543fbca4cfbda7e44d7c96a24caf2656e3170a86e269530d823244f8f63679ca2"
    );
    let other = BooruRequest::new("konachan.com".to_string())
        .set_rating(RATING::E)
        .set_tag("blue_archive".to_string());
    assert_eq!(
        other.get_hash(),
        "b7d21bfda3e90f99a344b9a5e6dc2f17f9e2ff5b2b77123ebc20f79287ebdadc93820a3376e8d70d1c42bddab163683079480a24464f8c6f514e51e296965d45"
    );
}

#[test]
fn hash_ignores_tag_order() {
    let a = sample_request();
    let b = BooruRequest::new("yande.re".to_string())
        .set_tag("nekopara".to_string())
        .set_tag("width:>=1920".to_string())
        .set_tag("height:<1500".to_string());
    assert_eq!(a.get_hash(), b.get_hash());
    assert_ne!(a.get_hash(), a.clone().set_rating(RATING::E).get_hash());
    assert_eq!(a.get_hash().len(), 128);
}

#[test]
fn direct_session_fetches_request_once() {
    let r = BooruRequest::new("yande.re".to_string()).set_limit(3).set_tag("x".to_string());
    let settings = SiteSettings { use_self_randomize: true, max_limit: 100 };
    let mut s = ImageSession::start_at(r, settings, 5);
    match s.action() {
        ImageAction::Fetch { request, keep, pause } => {
            assert!(*keep);
            assert!(!*pause);
            assert_eq!(request.limit, 3);
            assert_eq!(request.page, 1);
            assert_eq!(request.tags, vec!["x"]);
        }
        other => panic!("unexpected {:?}", other),
    }
    assert!(s.can_accept(&ImageEvent::Fetched(3)));
    assert!(!s.can_accept(&ImageEvent::Stored));
    s.step(ImageEvent::Fetched(3));
    assert!(matches!(s.action(), ImageAction::Finish));
}

#[test]
fn random_request_without_self_randomizer_is_direct() {
    let settings = SiteSettings { use_self_randomize: false, max_limit: 100 };
    let s = ImageSession::start_at(sample_request(), settings, 5);
    match s.action() {
        ImageAction::Fetch { request, keep, pause } => {
            assert!(*keep && !*pause);
            assert!(request.is_random);
        }
        other => panic!("unexpected {:?}", other),
    }
}

/// Runs a random session against a board with `n` images; returns the
/// pages fetched while counting, the entry stored and the pages sampled.
fn run_random(
    limit: u16,
    max_limit: u16,
    n: u64,
    now: u64,
    cached: Option<[u64; 2]>,
) -> (Vec<u64>, Option<[u64; 2]>, Vec<u64>) {
    let r = sample_request().set_limit(limit);
    let key = r.get_hash();
    let settings = SiteSettings { use_self_randomize: true, max_limit };
    let mut s = ImageSession::start_at(r, settings, now);
    let mut probes = Vec::new();
    let mut stored = None;
    let mut picks = Vec::new();
    for _ in 0..10_000 {
        let ev = match s.action() {
            ImageAction::ReadCache(k) => {
                assert_eq!(*k, key);
                ImageEvent::CacheEntry(cached)
            }
            ImageAction::Fetch { request, keep, pause } => {
                assert!(*pause);
                assert!(!request.is_random);
                if *keep {
                    assert_eq!(request.limit, 1);
                    picks.push(request.page);
                    ImageEvent::Fetched(1)
                } else {
                    assert_eq!(request.limit, max_limit);
                    probes.push(request.page);
                    ImageEvent::Fetched(page_len(n, max_limit as u64, request.page))
                }
            }
            ImageAction::StoreCount(k, entry) => {
                assert_eq!(*k, key);
                stored = Some(*entry);
                ImageEvent::Stored
            }
            ImageAction::Finish => return (probes, stored, picks),
        };
        assert!(s.can_accept(&ev));
        s.step(ev);
    }
    panic!("the session did not finish");
}

#[test]
fn random_session_counts_then_samples() {
    let (probes, stored, picks) = run_random(3, 100, 1234, 100_000, None);
    assert_eq!(stored, Some([100_000, 1234]));
    assert_eq!(probes[..5], [1, 2, 4, 8, 16]);
    assert_eq!(picks.len(), 3);
    assert!(picks.iter().all(|&p| 1 <= p && p <= 1234));
}

#[test]
fn random_session_uses_fresh_cache() {
    let (probes, stored, picks) = run_random(2, 100, 1234, 100_000, Some([99_000, 50]));
    assert!(probes.is_empty());
    assert_eq!(stored, None);
    assert_eq!(picks.len(), 2);
    assert!(picks.iter().all(|&p| 1 <= p && p <= 50));
}

#[test]
fn random_session_recounts_stale_cache() {
    let (probes, stored, picks) = run_random(2, 100, 250, 100_000, Some([80_000, 50]));
    assert_eq!(probes, vec![1, 2, 4, 3, 4, 3]);
    assert_eq!(stored, Some([100_000, 250]));
    assert!(picks.iter().all(|&p| 1 <= p && p <= 250));
}

#[test]
fn random_session_with_no_images_returns_nothing() {
    let (probes, stored, picks) = run_random(3, 100, 0, 100_000, None);
    assert_eq!(probes, vec![1]);
    assert_eq!(stored, Some([100_000, 0]));
    assert!(picks.is_empty());
    let (_, _, picks) = run_random(3, 100, 0, 100_000, Some([100_000, 0]));
    assert!(picks.is_empty());
}

#[test]
fn lookup_before_freshness_window_is_refused() {
    let settings = SiteSettings { use_self_randomize: true, max_limit: 100 };
    let s = ImageSession::start_at(sample_request(), settings, 100);
    assert!(!s.can_accept(&ImageEvent::CacheEntry(Some([50, 3]))));
    assert!(s.can_accept(&ImageEvent::CacheEntry(None)));
}

#[test]
fn random_picks_vary() {
    let (_, _, picks) = run_random(60, 100, 1000, 100_000, Some([100_000, 1000]));
    assert_eq!(picks.len(), 60);
    assert!(picks.iter().any(|&p| p != 1000));
    assert!(picks.iter().any(|&p| p != picks[0]));
}
