use ddns_ipv6::updater::cloudflare::{
    final_reply, urlencoding, ApiRequest, Body, CfApiError, CfApiResponse, CfDnsRecord,
    CloudflareUpdater, Method, Write, WriteKind,
};
use ddns_ipv6::updater::retry::Retry;
use ddns_ipv6::{Error, Ipv6Addr};

fn s(t: &str) -> String {
    t.to_string()
}

fn addr(t: &str) -> Ipv6Addr {
    Ipv6Addr::parse(t).unwrap()
}

fn updater() -> CloudflareUpdater {
    CloudflareUpdater::new(s("abc123"), s("token"))
}

fn answer<T>(result: Option<T>) -> CfApiResponse<T> {
    CfApiResponse { success: true, errors: vec![], result }
}

fn refusal<T>() -> CfApiResponse<T> {
    let errors =
        vec![CfApiError { message: s("bad \"token\"") }, CfApiError { message: s("x") }];
    CfApiResponse { success: false, errors, result: None }
}

fn record(id: &str, content: &str) -> CfDnsRecord {
    CfDnsRecord { id: s(id), content: s(content) }
}

fn source(e: Error) -> (String, String) {
    match e {
        Error::Update { domain, source } => (domain, source),
        _ => panic!("expected an update error"),
    }
}

#[test]
fn spaces_are_encoded() {
    assert_eq!(urlencoding("a.example.com"), "a.example.com");
    assert_eq!(urlencoding(" a  b "), "%20a%20%20b%20");
    assert_eq!(urlencoding(""), "");
}

#[test]
fn requests_are_addressed_and_authorized() {
    let envelope = updater().request("/zones/abc123/dns_records");
    assert_eq!(envelope.url, "https://api.cloudflare.com/client/v4/zones/abc123/dns_records");
    assert_eq!(envelope.authorization, "Bearer token");
    assert_eq!(envelope.content_type, "application/json");

    let list = updater().list_request("a b.example.com");
    assert_eq!(list.method, Method::Get);
    assert_eq!(list.path, "/zones/abc123/dns_records?type=AAAA&name=a%20b.example.com");
    assert!(matches!(list.body, Body::Empty));
}

#[test]
fn listing_shows_the_first_record() {
    let u = updater();
    let found = u.get_record(
        "a.example.com",
        answer(Some(vec![record("1", "2001:db8::1"), record("2", "2001:db8::2")])),
    );
    assert_eq!(found.unwrap(), Some(addr("2001:db8::1")));
    assert_eq!(u.get_record("a.example.com", answer(Some(vec![]))).unwrap(), None);
    assert_eq!(u.get_record("a.example.com", answer(None)).unwrap(), None);
}

#[test]
fn listing_errors_are_told() {
    let u = updater();
    let (domain, text) = source(u.get_record("a.example.com", refusal()).unwrap_err());
    assert_eq!(domain, "a.example.com");
    assert_eq!(text, "API errors: [\"bad \\\"token\\\"\", \"x\"]");

    let bad = answer(Some(vec![record("1", "1.2.3.4")]));
    let (domain, text) = source(u.get_record("a.example.com", bad).unwrap_err());
    assert_eq!(domain, "a.example.com");
    assert_eq!(
        text,
        "invalid AAAA in Cloudflare response '1.2.3.4': invalid IPv6 address syntax"
    );
}

#[test]
fn correct_records_are_left_alone() {
    let listing = answer(Some(vec![record("1", "2001:db8::1")]));
    let write = updater().set_record("a.example.com", &addr("2001:db8::1"), listing);
    assert!(matches!(write, Ok(Write::AlreadyCorrect)));
}

#[test]
fn different_records_are_changed() {
    let listing = answer(Some(vec![record("r1", "2001:db8::9")]));
    match updater().set_record("a.example.com", &addr("2001:db8:0::1"), listing) {
        Ok(Write::Update(ApiRequest { method, path, body: Body::Update(b) })) => {
            assert_eq!(method, Method::Patch);
            assert_eq!(path, "/zones/abc123/dns_records/r1");
            assert_eq!(b.content, "2001:db8::1");
        }
        _ => panic!("expected an update"),
    }
}

#[test]
fn missing_records_are_created() {
    for listing in [answer(None), answer(Some(vec![]))] {
        match updater().set_record("a.example.com", &addr("2001:db8::1"), listing) {
            Ok(Write::Create(ApiRequest { method, path, body: Body::Create(b) })) => {
                assert_eq!(method, Method::Post);
                assert_eq!(path, "/zones/abc123/dns_records");
                assert_eq!(b.record_type, "AAAA");
                assert_eq!(b.name, "a.example.com");
                assert_eq!(b.content, "2001:db8::1");
                assert_eq!(b.ttl, 120);
            }
            _ => panic!("expected a creation"),
        }
    }
}

#[test]
fn what_is_written_reads_back_from_a_listing() {
    let u = updater();
    let a = addr("2001:db8:1:2::dead:beef");
    let content = match u.set_record("a.example.com", &a, answer(None)) {
        Ok(Write::Create(ApiRequest { body: Body::Create(b), .. })) => b.content,
        _ => panic!("expected a creation"),
    };
    let listing = answer(Some(vec![record("1", &content)]));
    assert_eq!(u.get_record("a.example.com", listing).unwrap(), Some(a));
    let listing = answer(Some(vec![record("1", &content)]));
    assert!(matches!(u.set_record("a.example.com", &a, listing), Ok(Write::AlreadyCorrect)));
}

#[test]
fn write_errors_are_told() {
    let u = updater();
    let a = addr("2001:db8::1");
    let (_, text) = source(u.set_record("a.example.com", &a, refusal()).unwrap_err());
    assert_eq!(text, "API errors on list: [\"bad \\\"token\\\"\", \"x\"]");
    let done = u.confirm_write("a.example.com", WriteKind::Update, refusal());
    let (_, text) = source(done.unwrap_err());
    assert_eq!(text, "API errors on update: [\"bad \\\"token\\\"\", \"x\"]");
    let done = u.confirm_write("a.example.com", WriteKind::Create, refusal());
    let (domain, text) = source(done.unwrap_err());
    assert_eq!(domain, "a.example.com");
    assert_eq!(text, "API errors on create: [\"bad \\\"token\\\"\", \"x\"]");
    let done = u.confirm_write("a.example.com", WriteKind::Create, answer(None));
    assert!(done.is_ok());
}

#[test]
fn patience_is_bounded() {
    let mut retry = Retry::new();
    assert_eq!(retry.after_reply(429, &Some(s("7"))), Some(7));
    assert_eq!(retry.after_reply(429, &None), Some(5));
    assert_eq!(retry.after_reply(429, &Some(s("1"))), None);
    assert_eq!(retry.attempts, 3);

    let mut retry = Retry::new();
    assert_eq!(retry.after_reply(200, &Some(s("7"))), None);
    assert_eq!(retry.attempts, 1);
}

#[test]
fn failures_are_tried_again_after_longer_waits() {
    let mut retry = Retry::new();
    for wait in [1, 2, 4, 8, 16, 32, 60] {
        assert_eq!(retry.after_reply(500, &Some(s("9"))), Some(wait));
    }
    assert_eq!(retry.after_reply(500, &None), None);
    assert_eq!(retry.attempts, 8);

    let mut retry = Retry::new();
    assert_eq!(retry.after_reply(500, &None), Some(1));
    assert_eq!(retry.after_reply(200, &None), None);
    assert_eq!(final_reply("/p", 200, s("{}")).unwrap(), "{}");

    let mut retry = Retry::new();
    assert_eq!(retry.after_reply(429, &Some(s("7"))), Some(7));
    assert_eq!(retry.after_reply(503, &None), Some(2));

    for (status, wait) in [(199, Some(1)), (299, None), (300, Some(1))] {
        assert_eq!(Retry::new().after_reply(status, &None), wait);
    }
}

#[test]
fn attempts_without_a_reply_are_tried_again() {
    let mut retry = Retry::new();
    for wait in [1, 2, 4, 8, 16, 32, 60] {
        assert_eq!(retry.after_failure(), Some(wait));
    }
    assert_eq!(retry.after_failure(), None);
    assert_eq!(retry.attempts, 8);

    let mut retry = Retry::new();
    assert_eq!(retry.after_failure(), Some(1));
    assert_eq!(retry.after_reply(502, &None), Some(2));
    assert_eq!(retry.after_reply(429, &None), None);
}

#[test]
fn waiting_times_are_numbers() {
    for (header, secs) in [
        ("0", 0),
        ("+12", 12),
        ("007", 7),
        ("18446744073709551615", u64::MAX),
        ("18446744073709551616", 5),
        ("", 5),
        ("+", 5),
        ("-1", 5),
        (" 3", 5),
        ("Wed, 21 Oct 2015 07:28:00 GMT", 5),
    ] {
        assert_eq!(Retry::new().after_reply(429, &Some(s(header))), Some(secs), "{header}");
    }
}

#[test]
fn final_replies_succeed_or_fail() {
    assert_eq!(final_reply("/p", 200, s("{}")).unwrap(), "{}");
    assert_eq!(final_reply("/p", 299, s("")).unwrap(), "");
    let (domain, text) = source(final_reply("/p", 404, s("no such zone")).unwrap_err());
    assert_eq!(domain, "/p");
    assert_eq!(text, "HTTP 404 Not Found: no such zone");
    let (_, text) = source(final_reply("/p", 429, s("slow down")).unwrap_err());
    assert_eq!(text, "HTTP 429 Too Many Requests: slow down");
    assert!(final_reply("/p", 199, s("")).is_err());
    assert!(final_reply("/p", 300, s("")).is_err());
}
