use sample::handlers::{sample_http_client, sample_retrieve_all};
use sample::session::get_requests_count;
use sample::store::Store;

#[test]
fn first_visit_counts_one() {
    let (count, cookie) = get_requests_count(None);
    assert_eq!(count, 1);
    assert_eq!(cookie, "{\"counter\":1}");
}

#[test]
fn cookie_propagation_counts_every_request() {
    let mut cookie: Option<String> = None;
    for expected in 1u64..=5 {
        let (count, next) = get_requests_count(cookie.as_deref());
        assert_eq!(count, expected);
        cookie = Some(next);
    }
}

#[test]
fn stored_counter_is_read_back() {
    // would fail if the cookie text were handed back unparsed
    let (count, _) = get_requests_count(Some("{\"counter\":41}"));
    assert_eq!(count, 42);
}

#[test]
fn corrupted_cookie_resets_to_one() {
    for bad in ["garbage", "{\"counter\":-3}", "{\"counter\":\"7\"}", "{}", "[1]", ""] {
        let (count, cookie) = get_requests_count(Some(bad));
        assert_eq!(count, 1);
        assert_eq!(cookie, "{\"counter\":1}");
    }
}

#[test]
fn large_counters_are_rendered_in_decimal() {
    let (count, cookie) = get_requests_count(Some("{\"counter\":1230456}"));
    assert_eq!(count, 1230457);
    assert_eq!(cookie, "{\"counter\":1230457}");
}

#[test]
fn counter_spans_different_handlers() {
    let store = Store::new();
    let (first, cookie1) = sample_retrieve_all(&store, None);
    assert_eq!(first.requests_count, 1);
    let (second, cookie2) = sample_retrieve_all(&store, Some(cookie1.as_str()));
    assert_eq!(second.requests_count, 2);
    let (third, _) = sample_retrieve_all(&store, Some(cookie2.as_str()));
    assert_eq!(third.requests_count, 3);
}

#[test]
fn my_ip_reads_origin_field() {
    let answer = sample_http_client("{\"origin\":\"203.0.113.9\"}", None);
    let (resp, cookie) = answer.expect("origin field present");
    assert_eq!(resp.my_ip, "203.0.113.9");
    assert_eq!(resp.requests_count, 1);
    assert_eq!(cookie, "{\"counter\":1}");
}

#[test]
fn my_ip_fails_without_origin_string() {
    assert!(sample_http_client("{\"origin\":7}", None).is_none());
    assert!(sample_http_client("not json", None).is_none());
    assert!(sample_http_client("{}", None).is_none());
}

#[test]
fn not_found_body_is_fixed() {
    assert_eq!(
        sample::handlers::not_found(),
        "{\"status\":\"error\",\"reason\":\"Resource was not found.\"}"
    );
}
