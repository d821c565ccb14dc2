//! Updating records through the Cloudflare API.

use vstd::prelude::*;

use crate::addr::Ipv6Addr;
use crate::error::Error;
use crate::number::parse_u64;
use crate::text::{concat2, concat3, same_text, to_chars};
use crate::updater::retry::{Retry, MAX_ATTEMPTS};

verus! {

/// Where the API lives.
pub const CF_API_BASE: &'static str = "https://api.cloudflare.com/client/v4";

/// How long a request may take, in seconds.
pub const REQUEST_TIMEOUT_SECS: u64 = 30;

/// From this attempt on, a reply that asks for patience is final.
pub const MAX_PATIENT_ATTEMPTS: u32 = 3;

/// How long to wait when the API asks for patience without saying how much.
pub const DEFAULT_RETRY_SECS: u64 = 5;

/// The time to live of the records created here, in seconds.
pub const RECORD_TTL: u32 = 120;

/// The status of a reply that asks for patience.
pub const TOO_MANY_REQUESTS: u16 = 429;

/// What a request does.
#[derive(Clone, Copy, Debug, PartialEq, Eq, Structural)]
pub enum Method {
    Get,
    Patch,
    Post,
}

/// The body that creates a record.
#[derive(Debug)]
pub struct CfCreateRecord {
    pub record_type: String,
    pub name: String,
    pub content: String,
    pub ttl: u32,
}

/// The body that changes a record.
#[derive(Debug)]
pub struct CfUpdateRecord {
    pub content: String,
}

/// What a request carries.
#[derive(Debug)]
pub enum Body {
    Empty,
    Create(CfCreateRecord),
    Update(CfUpdateRecord),
}

/// A request to the API.
#[derive(Debug)]
pub struct ApiRequest {
    pub method: Method,
    pub path: String,
    pub body: Body,
}

/// The parts of a request that the transport adds.
#[derive(Debug)]
pub struct Envelope {
    pub url: String,
    pub authorization: String,
    pub content_type: String,
}

/// An error that the API reports.
#[derive(Debug)]
pub struct CfApiError {
    pub message: String,
}

/// A record that the API reports.
#[derive(Debug)]
pub struct CfDnsRecord {
    pub id: String,
    pub content: String,
}

/// An answer of the API.
#[derive(Debug)]
pub struct CfApiResponse<T> {
    pub success: bool,
    pub errors: Vec<CfApiError>,
    pub result: Option<T>,
}

// Texts.

/// A text with every space percent-encoded.
pub open spec fn percent_encoded(s: Seq<char>) -> Seq<char>
    decreases s.len(),
{
    if s.len() == 0 {
        Seq::empty()
    } else if s[0] == ' ' {
        "%20"@ + percent_encoded(s.drop_first())
    } else {
        seq![s[0]] + percent_encoded(s.drop_first())
    }
}

/// Simple percent-encoding for domain names in query parameters.
pub fn urlencoding(s: &str) -> (encoded: String)
    ensures
        encoded@ == percent_encoded(s@),
{
    let chars = to_chars(s);
    let mut encoded = String::new();
    let mut i: usize = 0;
    assert(chars@.skip(0) =~= chars@);
    assert(encoded@ + percent_encoded(chars@) =~= percent_encoded(chars@));
    while i < chars.len()
        invariant
            i <= chars.len(),
            chars@ == s@,
            encoded@ + percent_encoded(chars@.skip(i as int)) == percent_encoded(s@),
        decreases chars.len() - i,
    {
        let ghost rest = chars@.skip(i as int);
        let ghost before = encoded@;
        assert(rest[0] == chars@[i as int]);
        assert(rest.drop_first() =~= chars@.skip(i + 1));
        if chars[i] == ' ' {
            encoded.append("%20");
            assert(before + ("%20"@ + percent_encoded(chars@.skip(i + 1))) =~= encoded@
                + percent_encoded(chars@.skip(i + 1)));
        } else {
            encoded.push(chars[i]);
            assert(before + (seq![chars@[i as int]] + percent_encoded(chars@.skip(i + 1)))
                =~= encoded@ + percent_encoded(chars@.skip(i + 1)));
        }
        i += 1;
    }
    assert(chars@.skip(i as int) =~= Seq::<char>::empty());
    assert(encoded@ + percent_encoded(chars@.skip(i as int)) =~= encoded@);
    encoded
}

/// The text of an HTTP status: its number and the phrase that goes with it.
pub uninterp spec fn status_line(status: u16) -> Seq<char>;

/// Calls `reqwest::StatusCode::from_u16` and turns the status into text. The text
/// depends on the number alone; what it is, is left to that crate. Numbers that are
/// no status have no text.
#[verifier::external_body]
fn status_text(status: u16) -> (text: String)
    requires
        100 <= status <= 999,
    ensures
        text@ == status_line(status),
{
    reqwest::StatusCode::from_u16(status).unwrap().to_string()
}

/// How a list of texts is shown for debugging.
pub uninterp spec fn debug_text(items: Seq<Seq<char>>) -> Seq<char>;

/// Calls the `Debug` formatting of `Vec<String>` through `format!`. The result depends
/// on the texts alone; which characters it escapes is left to the standard library.
#[verifier::external_body]
fn debug_list(items: &Vec<String>) -> (text: String)
    ensures
        text@ == debug_text(texts(items@)),
{
    format!("{:?}", items)
}

/// The characters of each string.
pub open spec fn texts(items: Seq<String>) -> Seq<Seq<char>> {
    items.map_values(|s: String| s@)
}

/// The messages of reported errors.
pub open spec fn error_texts(errors: Seq<CfApiError>) -> Seq<Seq<char>> {
    errors.map_values(|e: CfApiError| e.message@)
}

/// The failure that reported errors mean for an operation on `domain`.
pub open spec fn is_api_failure(
    e: Error,
    domain: Seq<char>,
    label: Seq<char>,
    errors: Seq<CfApiError>,
) -> bool {
    e matches Error::Update { domain: d, source } && d@ == domain && source@ == label + debug_text(
        error_texts(errors),
    )
}

/// Makes the failure of an operation on `domain` from reported errors.
fn api_failure(domain: &str, label: &str, errors: &Vec<CfApiError>) -> (e: Error)
    ensures
        is_api_failure(e, domain@, label@, errors@),
{
    let mut messages: Vec<String> = Vec::new();
    let mut i: usize = 0;
    while i < errors.len()
        invariant
            i <= errors.len(),
            texts(messages@) == error_texts(errors@.take(i as int)),
        decreases errors.len() - i,
    {
        let ghost before = messages@;
        let message = errors[i].message.clone();
        messages.push(message);
        assert(texts(messages@) =~= texts(before).push(message@));
        assert(error_texts(errors@.take(i + 1)) =~= error_texts(errors@.take(i as int)).push(
            message@,
        ));
        i += 1;
    }
    assert(errors@.take(i as int) =~= errors@);
    let shown = debug_list(&messages);
    Error::Update { domain: domain.to_string(), source: concat2(label, shown.as_str()) }
}

// Retrying.

/// How long a reply that asks for patience asks to wait: what its `Retry-After` says, if
/// that is a number of seconds.
pub open spec fn retry_delay(retry_after: Option<String>) -> int {
    match retry_after {
        Some(h) => if crate::number::is_decimal_u64(h@) {
            crate::number::value_of(crate::number::decimal_digits(h@), 10)
        } else {
            DEFAULT_RETRY_SECS as int
        },
        None => DEFAULT_RETRY_SECS as int,
    }
}

/// Whether a status tells of success.
pub open spec fn succeeded(status: u16) -> bool {
    200 <= status < 300
}

/// Whether a request is sent again after so many attempts and a reply of this status. The
/// API is not asked as often while it asks for patience as while it fails.
pub open spec fn tries_again(attempts: int, status: u16) -> bool {
    if status == TOO_MANY_REQUESTS {
        attempts < MAX_PATIENT_ATTEMPTS
    } else {
        !succeeded(status) && attempts < MAX_ATTEMPTS
    }
}

/// How long to wait before a request is sent again: as long as a reply that asks for
/// patience says, longer and longer after other failures.
pub open spec fn wait_secs(attempts: int, status: u16, retry_after: Option<String>) -> int {
    if status == TOO_MANY_REQUESTS {
        retry_delay(retry_after)
    } else {
        crate::updater::retry::backoff(attempts)
    }
}

impl Retry {
    /// Takes the reply to one more attempt at a request, and says how many seconds to wait
    /// before the next one; with nothing to wait for, the reply is final. An attempt that
    /// brought no reply is a matter of [`Retry::after_failure`].
    pub fn after_reply(&mut self, status: u16, retry_after: &Option<String>) -> (wait: Option<u64>)
        requires
            old(self).attempts < MAX_ATTEMPTS,
        ensures
            final(self).attempts == old(self).attempts + 1,
            match wait {
                Some(secs) => tries_again(final(self).attempts as int, status) && secs
                    == wait_secs(final(self).attempts as int, status, *retry_after),
                None => !tries_again(final(self).attempts as int, status),
            },
            wait is Some ==> final(self).attempts < MAX_ATTEMPTS,
    {
        if 200 <= status && status < 300 {
            self.attempts = self.attempts + 1;
            return None;
        }
        if status != TOO_MANY_REQUESTS {
            return self.after_failure();
        }
        self.attempts = self.attempts + 1;
        if self.attempts >= MAX_PATIENT_ATTEMPTS {
            return None;
        }
        match retry_after {
            Some(header) => match parse_u64(header.as_str()) {
                Some(secs) => Some(secs),
                None => Some(DEFAULT_RETRY_SECS),
            },
            None => Some(DEFAULT_RETRY_SECS),
        }
    }
}

/// Whether a request is sent again after so many attempts, the last of which brought a
/// reply of this status or none.
pub open spec fn sent_again(attempts: int, reply: Option<u16>) -> bool {
    match reply {
        Some(status) => tries_again(attempts, status),
        None => attempts < MAX_ATTEMPTS,
    }
}

/// How many times a request is sent if the attempts bring these replies, after some
/// earlier attempts.
pub open spec fn attempts_made(replies: Seq<Option<u16>>, earlier: int) -> int
    decreases replies.len(),
{
    if replies.len() == 0 {
        earlier
    } else if sent_again(earlier + 1, replies[0]) {
        attempts_made(replies.drop_first(), earlier + 1)
    } else {
        earlier + 1
    }
}

/// Whatever the attempts bring, a request is sent eight times at most; three times at most
/// if every reply asks for patience; and only once if the first tells of success.
pub proof fn law_attempts_are_bounded(replies: Seq<Option<u16>>)
    ensures
        attempts_made(replies, 0) <= MAX_ATTEMPTS,
        (forall|i: int| 0 <= i < replies.len() ==> replies[i] == Some(TOO_MANY_REQUESTS))
            ==> attempts_made(replies, 0) <= MAX_PATIENT_ATTEMPTS,
        replies.len() > 0 && (replies[0] matches Some(s) && succeeded(s)) ==> attempts_made(
            replies,
            0,
        ) == 1,
{
    lemma_attempts_made(replies, 0);
}

proof fn lemma_attempts_made(replies: Seq<Option<u16>>, earlier: int)
    requires
        0 <= earlier < MAX_ATTEMPTS,
    ensures
        attempts_made(replies, earlier) <= MAX_ATTEMPTS,
        earlier < MAX_PATIENT_ATTEMPTS && (forall|i: int|
            0 <= i < replies.len() ==> replies[i] == Some(TOO_MANY_REQUESTS)) ==> attempts_made(
            replies,
            earlier,
        ) <= MAX_PATIENT_ATTEMPTS,
    decreases replies.len(),
{
    if replies.len() > 0 && sent_again(earlier + 1, replies[0]) {
        let rest = replies.drop_first();
        lemma_attempts_made(rest, earlier + 1);
        if forall|i: int| 0 <= i < replies.len() ==> replies[i] == Some(TOO_MANY_REQUESTS) {
            assert forall|i: int| 0 <= i < rest.len() implies rest[i] == Some(
                TOO_MANY_REQUESTS,
            ) by {
                assert(rest[i] == replies[i + 1]);
            }
            assert(replies[0] == Some(TOO_MANY_REQUESTS));
        }
    }
}

/// A request is sent until an attempt brings success, as long as no reply asks for patience
/// and fewer than eight attempts have failed.
pub proof fn law_failures_are_tried_again(replies: Seq<Option<u16>>, n: int)
    requires
        0 <= n < MAX_ATTEMPTS,
        n < replies.len(),
        forall|i: int|
            0 <= i < n ==> match #[trigger] replies[i] {
                Some(s) => !succeeded(s) && s != TOO_MANY_REQUESTS,
                None => true,
            },
        replies[n] matches Some(s) && succeeded(s),
    ensures
        attempts_made(replies, 0) == n + 1,
{
    lemma_failures_are_tried_again(replies, n, 0);
}

proof fn lemma_failures_are_tried_again(replies: Seq<Option<u16>>, n: int, earlier: int)
    requires
        0 <= n < replies.len(),
        0 <= earlier,
        earlier + n < MAX_ATTEMPTS,
        forall|i: int|
            0 <= i < n ==> match #[trigger] replies[i] {
                Some(s) => !succeeded(s) && s != TOO_MANY_REQUESTS,
                None => true,
            },
        replies[n] matches Some(s) && succeeded(s),
    ensures
        attempts_made(replies, earlier) == earlier + n + 1,
    decreases n,
{
    if n > 0 {
        let rest = replies.drop_first();
        assert(sent_again(earlier + 1, replies[0]));
        assert forall|i: int| 0 <= i < n - 1 implies match #[trigger] rest[i] {
            Some(s) => !succeeded(s) && s != TOO_MANY_REQUESTS,
            None => true,
        } by {
            assert(rest[i] == replies[i + 1]);
        }
        assert(rest[n - 1] == replies[n]);
        lemma_failures_are_tried_again(rest, n - 1, earlier + 1);
    }
}

/// Takes the final reply to a request: the text of a successful one, or the failure.
pub fn final_reply(path: &str, status: u16, text: String) -> (reply: Result<String, Error>)
    requires
        100 <= status <= 999,
    ensures
        match reply {
            Ok(t) => succeeded(status) && t == text,
            Err(e) => !succeeded(status) && (e matches Error::Update { domain, source }
                && domain@ == path@ && source@ == "HTTP "@ + status_line(status) + ": "@ + text@),
        },
{
    if 200 <= status && status < 300 {
        return Ok(text);
    }
    let line = status_text(status);
    let mut source = concat3("HTTP ", line.as_str(), ": ");
    source.append(text.as_str());
    Err(Error::Update { domain: path.to_string(), source })
}

// Requests.

/// The path that lists the AAAA records of a domain.
pub open spec fn list_path(zone_id: Seq<char>, domain: Seq<char>) -> Seq<char> {
    "/zones/"@ + zone_id + "/dns_records?type=AAAA&name="@ + percent_encoded(domain)
}

/// The path of one record.
pub open spec fn record_path(zone_id: Seq<char>, id: Seq<char>) -> Seq<char> {
    "/zones/"@ + zone_id + "/dns_records/"@ + id
}

/// The path of all records.
pub open spec fn records_path(zone_id: Seq<char>) -> Seq<char> {
    "/zones/"@ + zone_id + "/dns_records"@
}

/// The content of the first record in an answer, if there is a record.
pub open spec fn first_content(records: Option<Vec<CfDnsRecord>>) -> Option<Seq<char>> {
    match records {
        Some(r) => if r@.len() > 0 {
            Some(r@[0].content@)
        } else {
            None
        },
        None => None,
    }
}

/// Whether a request changes the record `id` to `addr`.
pub open spec fn is_update(
    request: ApiRequest,
    zone_id: Seq<char>,
    id: Seq<char>,
    addr: Ipv6Addr,
) -> bool {
    &&& request.method == Method::Patch
    &&& request.path@ == record_path(zone_id, id)
    &&& request.body matches Body::Update(b) && b.content@ == crate::addr::text_of(addr.segments@)
}

/// Whether a request creates a record of `addr` for `domain`.
pub open spec fn is_create(
    request: ApiRequest,
    zone_id: Seq<char>,
    domain: Seq<char>,
    addr: Ipv6Addr,
) -> bool {
    &&& request.method == Method::Post
    &&& request.path@ == records_path(zone_id)
    &&& request.body matches Body::Create(b) && {
        &&& b.record_type@ == "AAAA"@
        &&& b.name@ == domain
        &&& b.content@ == crate::addr::text_of(addr.segments@)
        &&& b.ttl == RECORD_TTL
    }
}

/// What is left to do once the records of a domain have been listed.
#[derive(Debug)]
pub enum Write {
    AlreadyCorrect,
    Update(ApiRequest),
    Create(ApiRequest),
}

/// Which write a confirmation belongs to.
#[derive(Clone, Copy, Debug, PartialEq, Eq, Structural)]
pub enum WriteKind {
    Update,
    Create,
}

/// Updates the records of one zone.
pub struct CloudflareUpdater {
    pub zone_id: String,
    pub api_token: String,
}

impl CloudflareUpdater {
    /// An updater of the given zone.
    pub fn new(zone_id: String, api_token: String) -> (updater: CloudflareUpdater)
        ensures
            updater.zone_id == zone_id,
            updater.api_token == api_token,
    {
        CloudflareUpdater { zone_id, api_token }
    }

    /// What every request for `path` is sent with.
    pub fn request(&self, path: &str) -> (envelope: Envelope)
        ensures
            envelope.url@ == CF_API_BASE@ + path@,
            envelope.authorization@ == "Bearer "@ + self.api_token@,
            envelope.content_type@ == "application/json"@,
    {
        Envelope {
            url: concat2(CF_API_BASE, path),
            authorization: concat2("Bearer ", self.api_token.as_str()),
            content_type: "application/json".to_string(),
        }
    }

    /// The request that lists the AAAA records of `domain`.
    pub fn list_request(&self, domain: &str) -> (request: ApiRequest)
        ensures
            request.method == Method::Get,
            request.path@ == list_path(self.zone_id@, domain@),
            request.body is Empty,
    {
        let mut path = concat3(
            "/zones/",
            self.zone_id.as_str(),
            "/dns_records?type=AAAA&name=",
        );
        path.append(urlencoding(domain).as_str());
        ApiRequest { method: Method::Get, path, body: Body::Empty }
    }

    /// The address that the listing of a domain's records shows, if any.
    pub fn get_record(
        &self,
        domain: &str,
        response: CfApiResponse<Vec<CfDnsRecord>>,
    ) -> (record: Result<Option<Ipv6Addr>, Error>)
        ensures
            if !response.success {
                record matches Err(e) && is_api_failure(
                    e,
                    domain@,
                    "API errors: "@,
                    response.errors@,
                )
            } else {
                match first_content(response.result) {
                    None => record matches Ok(None),
                    Some(content) => match crate::addr::parsed(content) {
                        Some(segments) => record matches Ok(Some(a)) && a.segments@ == segments,
                        None => record matches Err(Error::Update { domain: d, source }) && d@
                            == domain@ && source@ == "invalid AAAA in Cloudflare response '"@
                            + content + "': "@ + "invalid IPv6 address syntax"@,
                    },
                }
            },
    {
        if !response.success {
            return Err(api_failure(domain, "API errors: ", &response.errors));
        }
        match &response.result {
            Some(records) => {
                if records.len() == 0 {
                    return Ok(None);
                }
                let content = records[0].content.as_str();
                match Ipv6Addr::parse(content) {
                    Some(addr) => Ok(Some(addr)),
                    None => {
                        let mut source = concat3(
                            "invalid AAAA in Cloudflare response '",
                            content,
                            "': ",
                        );
                        source.append("invalid IPv6 address syntax");
                        Err(Error::Update { domain: domain.to_string(), source })
                    },
                }
            },
            None => Ok(None),
        }
    }

    /// Decides how to make `addr` the record of `domain`, given the listing of its
    /// records: leave a correct record alone, change a different one, create a missing one.
    pub fn set_record(
        &self,
        domain: &str,
        addr: &Ipv6Addr,
        response: CfApiResponse<Vec<CfDnsRecord>>,
    ) -> (write: Result<Write, Error>)
        ensures
            if !response.success {
                write matches Err(e) && is_api_failure(
                    e,
                    domain@,
                    "API errors on list: "@,
                    response.errors@,
                )
            } else {
                match first_content(response.result) {
                    None => write matches Ok(Write::Create(r)) && is_create(
                        r,
                        self.zone_id@,
                        domain@,
                        *addr,
                    ),
                    Some(content) => if content == crate::addr::text_of(addr.segments@) {
                        write matches Ok(Write::AlreadyCorrect)
                    } else {
                        write matches Ok(Write::Update(r)) && is_update(
                            r,
                            self.zone_id@,
                            response.result.unwrap()@[0].id@,
                            *addr,
                        )
                    },
                }
            },
    {
        if !response.success {
            return Err(api_failure(domain, "API errors on list: ", &response.errors));
        }
        let content = addr.to_string();
        if let Some(records) = &response.result {
            if records.len() > 0 {
                let record = &records[0];
                if same_text(record.content.as_str(), content.as_str()) {
                    return Ok(Write::AlreadyCorrect);
                }
                let mut path = concat3("/zones/", self.zone_id.as_str(), "/dns_records/");
                path.append(record.id.as_str());
                return Ok(
                    Write::Update(
                        ApiRequest {
                            method: Method::Patch,
                            path,
                            body: Body::Update(CfUpdateRecord { content }),
                        },
                    ),
                );
            }
        }
        Ok(
            Write::Create(
                ApiRequest {
                    method: Method::Post,
                    path: concat3("/zones/", self.zone_id.as_str(), "/dns_records"),
                    body: Body::Create(
                        CfCreateRecord {
                            record_type: "AAAA".to_string(),
                            name: domain.to_string(),
                            content,
                            ttl: RECORD_TTL,
                        },
                    ),
                },
            ),
        )
    }

    /// Takes the answer to a write.
    pub fn confirm_write(
        &self,
        domain: &str,
        kind: WriteKind,
        response: CfApiResponse<CfDnsRecord>,
    ) -> (done: Result<(), Error>)
        ensures
            match done {
                Ok(_) => response.success,
                Err(e) => !response.success && is_api_failure(
                    e,
                    domain@,
                    if kind == WriteKind::Update {
                        "API errors on update: "@
                    } else {
                        "API errors on create: "@
                    },
                    response.errors@,
                ),
            },
    {
        if response.success {
            return Ok(());
        }
        match kind {
            WriteKind::Update => Err(
                api_failure(domain, "API errors on update: ", &response.errors),
            ),
            WriteKind::Create => Err(
                api_failure(domain, "API errors on create: ", &response.errors),
            ),
        }
    }
}

/// The content that a request writes.
pub open spec fn written_content(request: ApiRequest) -> Option<Seq<char>> {
    match request.body {
        Body::Empty => None,
        Body::Create(b) => Some(b.content@),
        Body::Update(b) => Some(b.content@),
    }
}

/// A record that holds what a write of `addr` sent reads back as `addr`, whether it was
/// created or changed, and is the one that a further write of `addr` leaves alone.
pub proof fn law_write_reads_back(
    request: ApiRequest,
    zone_id: Seq<char>,
    name: Seq<char>,
    addr: Ipv6Addr,
    listed: Option<Vec<CfDnsRecord>>,
)
    requires
        is_update(request, zone_id, name, addr) || is_create(request, zone_id, name, addr),
        first_content(listed) == written_content(request),
    ensures
        first_content(listed) == Some(crate::addr::text_of(addr.segments@)),
        crate::addr::parsed(first_content(listed).unwrap()) == Some(addr.segments@),
{
    crate::addr::law_text_round_trip(addr);
}

/// A record that is left alone because it is already correct reads as that address.
pub proof fn law_correct_record_reads_back(addr: Ipv6Addr, listed: Option<Vec<CfDnsRecord>>)
    requires
        first_content(listed) == Some(crate::addr::text_of(addr.segments@)),
    ensures
        crate::addr::parsed(first_content(listed).unwrap()) == Some(addr.segments@),
{
    crate::addr::law_text_round_trip(addr);
}

// What the requests and errors hold in full.

/// Percent-encoding goes character by character: a space becomes `%20`, and every other
/// character stays.
pub proof fn law_percent_encoding(a: Seq<char>, b: Seq<char>, c: char)
    ensures
        percent_encoded(Seq::<char>::empty()) == Seq::<char>::empty(),
        percent_encoded(seq![c]) == if c == ' ' {
            seq!['%', '2', '0']
        } else {
            seq![c]
        },
        percent_encoded(a + b) == percent_encoded(a) + percent_encoded(b),
    decreases a.len(),
{
    reveal_strlit("%20");
    let one = seq![c];
    assert(one.drop_first() =~= Seq::<char>::empty());
    assert(percent_encoded(one.drop_first()) =~= Seq::<char>::empty());
    assert(percent_encoded(one) =~= if c == ' ' {
        seq!['%', '2', '0']
    } else {
        seq![c]
    });
    if a.len() == 0 {
        assert(a + b =~= b);
        assert(percent_encoded(a) + percent_encoded(b) =~= percent_encoded(b));
    } else {
        law_percent_encoding(a.drop_first(), b, c);
        assert((a + b).drop_first() =~= a.drop_first() + b);
        assert((a + b)[0] == a[0]);
        assert(percent_encoded(a + b) =~= percent_encoded(a) + percent_encoded(b));
    }
}

/// The path of all records is `/zones/`, the zone in full, and `/dns_records`.
pub proof fn law_records_path(zone_id: Seq<char>)
    ensures
        ({
            let path = records_path(zone_id);
            let n = zone_id.len() as int;
            &&& path.len() == 7 + n + 12
            &&& path.take(7) == "/zones/"@
            &&& path.subrange(7, 7 + n) == zone_id
            &&& path.skip(7 + n) == "/dns_records"@
        }),
{
    reveal_strlit("/zones/");
    reveal_strlit("/dns_records");
    let path = records_path(zone_id);
    let n = zone_id.len() as int;
    assert(path.take(7) =~= "/zones/"@);
    assert(path.subrange(7, 7 + n) =~= zone_id);
    assert(path.skip(7 + n) =~= "/dns_records"@);
}

/// The path of a record is the path of all records, a slash and the id in full, so that a
/// path names one record only.
pub proof fn law_record_path_names_the_record(zone_id: Seq<char>, id: Seq<char>, other: Seq<char>)
    ensures
        ({
            let path = record_path(zone_id, id);
            let n = records_path(zone_id).len() as int;
            &&& path.take(n) == records_path(zone_id)
            &&& path[n] == '/'
            &&& path.skip(n + 1) == id
        }),
        record_path(zone_id, id) == record_path(zone_id, other) ==> id == other,
{
    reveal_strlit("/dns_records");
    reveal_strlit("/dns_records/");
    let n = records_path(zone_id).len() as int;
    let path = record_path(zone_id, id);
    assert(path.take(n) =~= records_path(zone_id));
    assert(path.skip(n + 1) =~= id);
    assert(record_path(zone_id, other).skip(n + 1) =~= other);
}

/// The path that lists the records of a domain is the path of all records with a query for
/// the type AAAA and the whole encoded domain.
pub proof fn law_list_path_names_the_domain(zone_id: Seq<char>, domain: Seq<char>)
    ensures
        ({
            let path = list_path(zone_id, domain);
            let n = records_path(zone_id).len() as int;
            &&& path.take(n) == records_path(zone_id)
            &&& path.subrange(n, n + 16) == "?type=AAAA&name="@
            &&& path.skip(n + 16) == percent_encoded(domain)
        }),
{
    reveal_strlit("/dns_records");
    reveal_strlit("?type=AAAA&name=");
    reveal_strlit("/dns_records?type=AAAA&name=");
    let n = records_path(zone_id).len() as int;
    let path = list_path(zone_id, domain);
    assert(path.take(n) =~= records_path(zone_id));
    assert(path.subrange(n, n + 16) =~= "?type=AAAA&name="@);
    assert(path.skip(n + 16) =~= percent_encoded(domain));
}

/// A change names one record, and its content denotes one address.
pub proof fn law_update_says_what_it_changes(
    request: ApiRequest,
    zone_id: Seq<char>,
    id: Seq<char>,
    addr: Ipv6Addr,
)
    requires
        is_update(request, zone_id, id, addr),
    ensures
        request.method == Method::Patch,
        request.path@.take(records_path(zone_id).len() as int) == records_path(zone_id),
        request.path@.skip(records_path(zone_id).len() as int + 1) == id,
        request.body matches Body::Update(b) && crate::addr::parsed(b.content@) == Some(
            addr.segments@,
        ),
{
    law_record_path_names_the_record(zone_id, id, id);
    crate::addr::law_text_round_trip(addr);
}

/// A creation goes to all records and names the domain in full; its content denotes one
/// address.
pub proof fn law_create_says_what_it_creates(
    request: ApiRequest,
    zone_id: Seq<char>,
    domain: Seq<char>,
    addr: Ipv6Addr,
)
    requires
        is_create(request, zone_id, domain, addr),
    ensures
        request.method == Method::Post,
        request.path@ == records_path(zone_id),
        request.body matches Body::Create(b) && b.record_type@ == "AAAA"@ && b.name@ == domain
            && b.ttl == 120 && crate::addr::parsed(b.content@) == Some(addr.segments@),
{
    crate::addr::law_text_round_trip(addr);
}

/// The record that counts is the first one of a listing; a listing without records, or
/// without a result, has none.
pub proof fn law_first_record_counts(records: Option<Vec<CfDnsRecord>>)
    ensures
        first_content(records) is None <==> (records matches Some(r) ==> r@.len() == 0),
        records matches Some(r) ==> r@.len() > 0 ==> first_content(records) == Some(
            r@[0].content@,
        ),
{
}

/// A failure tells of all messages that the API reported, in order and in full, behind what
/// was being done, and of the domain.
pub proof fn law_failure_tells_all_messages(
    e: Error,
    domain: Seq<char>,
    label: Seq<char>,
    errors: Seq<CfApiError>,
)
    requires
        is_api_failure(e, domain, label, errors),
    ensures
        e matches Error::Update { domain: d, source } && d@ == domain && source@.take(
            label.len() as int,
        ) == label && source@.skip(label.len() as int) == debug_text(
            Seq::new(errors.len(), |i: int| errors[i].message@),
        ),
{
    assert(error_texts(errors) =~= Seq::new(errors.len(), |i: int| errors[i].message@));
    let shown = debug_text(error_texts(errors));
    assert((label + shown).take(label.len() as int) =~= label);
    assert((label + shown).skip(label.len() as int) =~= shown);
}

/// Texts are shown in full and in order.
pub proof fn law_texts(items: Seq<String>)
    ensures
        texts(items) == Seq::new(items.len(), |i: int| items[i]@),
{
    assert(texts(items) =~= Seq::new(items.len(), |i: int| items[i]@));
}

/// A reply that asks for patience is waited for as many seconds as it says in decimal
/// digits, with or without a plus sign; five seconds if it says nothing, or anything else.
pub proof fn law_retry_after(header: String, digits: Seq<char>)
    requires
        digits.len() > 0 ==> digits[0] != '+',
        header@ == digits || header@ == seq!['+'] + digits,
    ensures
        retry_delay(None) == 5,
        retry_delay(Some(header)) == if digits.len() > 0 && (forall|i: int|
            0 <= i < digits.len() ==> '0' <= #[trigger] digits[i] <= '9')
            && crate::number::value_of(digits, 10) <= 0xffff_ffff_ffff_ffff {
            crate::number::value_of(digits, 10)
        } else {
            5
        },
{
    crate::number::law_decimal_u64(digits);
}

/// When a request is sent again: after a reply of 429 fewer than three times; after any
/// other reply from outside 200 to 299 fewer than eight times; after one from within, never.
pub proof fn law_when_sent_again(attempts: int, status: u16)
    ensures
        tries_again(attempts, status) <==> if status == 429 {
            attempts < 3
        } else if 200 <= status <= 299 {
            false
        } else {
            attempts < 8
        },
        succeeded(status) <==> 200 <= status <= 299,
        sent_again(attempts, Some(status)) == tries_again(attempts, status),
        sent_again(attempts, None) <==> attempts < 8,
{
}

/// How long it takes until a request is sent again: as long as a reply of 429 says; after
/// any other reply one second, and twice as long after each further one up to a minute.
pub proof fn law_waits(attempts: int, status: u16, retry_after: Option<String>)
    requires
        attempts >= 1,
    ensures
        status == 429 ==> wait_secs(attempts, status, retry_after) == retry_delay(retry_after),
        status != 429 ==> wait_secs(1, status, retry_after) == 1,
        status != 429 ==> wait_secs(attempts + 1, status, retry_after) == {
            let doubled = 2 * wait_secs(attempts, status, retry_after);
            if doubled < 60 {
                doubled
            } else {
                60
            }
        },
{
    crate::updater::retry::law_backoff_doubles(attempts);
}

/// Attempts are counted one by one, until one after which the request is not sent again.
pub proof fn law_attempts_one_by_one(reply: Option<u16>, later: Seq<Option<u16>>, earlier: int)
    ensures
        attempts_made(Seq::<Option<u16>>::empty(), earlier) == earlier,
        attempts_made(seq![reply] + later, earlier) == if sent_again(earlier + 1, reply) {
            attempts_made(later, earlier + 1)
        } else {
            earlier + 1
        },
{
    assert((seq![reply] + later).drop_first() =~= later);
}

/// The content of a request that writes is that of its body.
pub proof fn law_written_content(request: ApiRequest)
    ensures
        match request.body {
            Body::Empty => written_content(request) is None,
            Body::Create(b) => written_content(request) == Some(b.content@),
            Body::Update(b) => written_content(request) == Some(b.content@),
        },
{
}

} // verus!
