//! Updating records with signed dynamic updates (RFC 2136).

use vstd::prelude::*;
use vstd::slice::slice_subrange;

use crate::addr::Ipv6Addr;
use crate::error::{ConfigError, Error};
use crate::text::{concat2, find_char, from_chars, same_text, strip_prefix, to_chars};

verus! {

/// The time to live of the records set here, in seconds.
pub const RECORD_TTL: u32 = 120;

/// The key algorithms that updates are signed with.
#[derive(Clone, Copy, Debug, PartialEq, Eq, Structural)]
pub enum TsigAlgorithm {
    HmacSha256,
    HmacSha512,
}

/// The algorithm of a configured name.
pub open spec fn algorithm_named(name: Seq<char>) -> Option<TsigAlgorithm> {
    if name == "hmac-sha256"@ {
        Some(TsigAlgorithm::HmacSha256)
    } else if name == "hmac-sha512"@ {
        Some(TsigAlgorithm::HmacSha512)
    } else {
        None
    }
}

/// Looks up the algorithm of a configured name.
pub fn tsig_algorithm(name: &str) -> (algorithm: Option<TsigAlgorithm>)
    ensures
        algorithm == algorithm_named(name@),
{
    if same_text(name, "hmac-sha256") {
        Some(TsigAlgorithm::HmacSha256)
    } else if same_text(name, "hmac-sha512") {
        Some(TsigAlgorithm::HmacSha512)
    } else {
        None
    }
}

/// The client of the `dns_update` crate, which sends the updates.
#[verifier::external_type_specification]
#[verifier::external_body]
pub struct ExDnsUpdater(dns_update::DnsUpdater);

/// The client for a server and a key, or why none can be made.
pub uninterp spec fn client_for(
    server: Seq<char>,
    key_name: Seq<char>,
    key: Seq<u8>,
    algorithm: TsigAlgorithm,
) -> Result<dns_update::DnsUpdater, Seq<char>>;

/// Calls `dns_update::DnsUpdater::new_rfc2136_tsig`, which reads the address of the
/// server and the name of the key, keeps them with the secret and the algorithm, and
/// opens no connection. Which client comes out, or which message if none does, depends
/// on the arguments alone.
#[verifier::external_body]
fn tsig_client(server: &str, key_name: String, key: Vec<u8>, algorithm: TsigAlgorithm) -> (client:
    Result<dns_update::DnsUpdater, String>)
    ensures
        match client {
            Ok(c) => client_for(server@, key_name@, key@, algorithm) == Ok::<_, Seq<char>>(c),
            Err(cause) => client_for(server@, key_name@, key@, algorithm) == Err::<
                dns_update::DnsUpdater,
                _,
            >(cause@),
        },
{
    let algorithm = match algorithm {
        TsigAlgorithm::HmacSha256 => dns_update::TsigAlgorithm::HmacSha256,
        TsigAlgorithm::HmacSha512 => dns_update::TsigAlgorithm::HmacSha512,
    };
    dns_update::DnsUpdater::new_rfc2136_tsig(server, key_name, key, algorithm).map_err(
        |e| e.to_string(),
    )
}

/// The zone of a domain: what follows its first dot, or the domain itself without one.
pub open spec fn zone_of(domain: Seq<char>) -> Seq<char> {
    let dot = crate::text::first_index(domain, '.');
    if dot < domain.len() {
        domain.skip(dot + 1)
    } else {
        domain
    }
}

/// The domain is its first label, a dot and its zone; or it has no dot and is its own zone.
pub proof fn law_domain_is_label_and_zone(domain: Seq<char>)
    ensures
        ({
            let dot = crate::text::first_index(domain, '.');
            let label = domain.take(dot);
            &&& !label.contains('.')
            &&& if domain.contains('.') {
                domain == label + seq!['.'] + zone_of(domain)
            } else {
                domain == zone_of(domain)
            }
        }),
{
    crate::text::lemma_first_index(domain, '.');
    let dot = crate::text::first_index(domain, '.');
    assert forall|i: int| 0 <= i < domain.take(dot).len() implies domain.take(dot)[i] != '.' by {
        assert(domain.take(dot)[i] == domain[i]);
    }
    if dot < domain.len() {
        assert(domain[dot] == '.');
        assert(domain =~= domain.take(dot) + seq!['.'] + zone_of(domain));
    }
}

/// A record that a server holds. Only addresses matter here.
#[derive(Clone, Copy, Debug)]
pub enum DnsRecord {
    Aaaa(Ipv6Addr),
    Other,
}

/// The first address among records.
pub open spec fn first_address(records: Seq<DnsRecord>) -> Option<Ipv6Addr>
    decreases records.len(),
{
    if records.len() == 0 {
        None
    } else {
        match records[0] {
            DnsRecord::Aaaa(a) => Some(a),
            DnsRecord::Other => first_address(records.drop_first()),
        }
    }
}

/// A request to a server: the records of `domain` in zone `origin` become `records`.
#[derive(Debug)]
pub struct SetRequest {
    pub domain: String,
    pub origin: String,
    pub ttl: u32,
    pub records: Vec<DnsRecord>,
}

/// Updates records on one server.
pub struct Rfc2136Updater {
    updater: dns_update::DnsUpdater,
}

impl Rfc2136Updater {
    /// An updater for the given server and key. The algorithm is looked at first.
    pub fn new(
        server: String,
        key_name: String,
        key_algorithm: String,
        key_secret: String,
    ) -> (made: Result<Rfc2136Updater, Error>)
        ensures
            match algorithm_named(key_algorithm@) {
                None => made matches Err(Error::Config(ConfigError::UnknownAlgorithm(name)))
                    && name@ == key_algorithm@,
                Some(algorithm) => match client_for(
                    server@,
                    key_name@,
                    vstd::utf8::encode_utf8(key_secret@),
                    algorithm,
                ) {
                    Ok(client) => made matches Ok(u) && u.made_client() == client,
                    Err(cause) => made matches Err(Error::Other(t)) && t@ == cause,
                },
            },
    {
        let algorithm = match tsig_algorithm(key_algorithm.as_str()) {
            Some(algorithm) => algorithm,
            None => {
                return Err(Error::Config(ConfigError::UnknownAlgorithm(key_algorithm)));
            },
        };
        let key = key_secret.as_str().as_bytes_vec();
        match tsig_client(server.as_str(), key_name, key, algorithm) {
            Ok(updater) => Ok(Rfc2136Updater { updater }),
            Err(cause) => Err(Error::Other(cause)),
        }
    }

    /// The client that was made for the server and the key.
    pub closed spec fn made_client(&self) -> dns_update::DnsUpdater {
        self.updater
    }

    /// The client to send requests with.
    pub fn client(&self) -> (client: &dns_update::DnsUpdater)
        ensures
            *client == self.made_client(),
    {
        &self.updater
    }

    /// Extracts the zone (origin) from a fully qualified domain name.
    pub fn zone_from_domain(domain: &str) -> (zone: String)
        ensures
            zone@ == zone_of(domain@),
    {
        let chars = to_chars(domain);
        let dot = find_char(chars.as_slice(), '.');
        proof {
            crate::text::lemma_first_index(domain@, '.');
        }
        if dot < chars.len() {
            let zone = from_chars(slice_subrange(chars.as_slice(), dot + 1, chars.len()));
            assert(zone@ =~= zone_of(domain@));
            zone
        } else {
            domain.to_string()
        }
    }

    /// The address that the records of a domain show, if any. A failed query comes with
    /// its cause.
    pub fn get_record(domain: &str, records: &Result<Vec<DnsRecord>, String>) -> (record: Result<
        Option<Ipv6Addr>,
        Error,
    >)
        ensures
            match *records {
                Ok(list) => record matches Ok(found) && found == first_address(list@),
                Err(cause) => record matches Err(Error::Update { domain: d, source }) && d@
                    == domain@ && source == cause,
            },
    {
        let list = match records {
            Ok(list) => list,
            Err(cause) => {
                return Err(
                    Error::Update { domain: domain.to_string(), source: cause.clone() },
                );
            },
        };
        let mut i: usize = 0;
        assert(list@.skip(0) =~= list@);
        while i < list.len()
            invariant
                i <= list.len(),
                *records == Result::<Vec<DnsRecord>, String>::Ok(*list),
                first_address(list@) == first_address(list@.skip(i as int)),
            decreases list.len() - i,
        {
            let ghost rest = list@.skip(i as int);
            assert(rest[0] == list@[i as int]);
            if let DnsRecord::Aaaa(addr) = &list[i] {
                return Ok(Some(*addr));
            }
            assert(rest.drop_first() =~= list@.skip(i + 1));
            i += 1;
        }
        Ok(None)
    }

    /// Decides how to make `addr` the record of `domain`, given what the server said of
    /// its current records: nothing to do if they show `addr` already, otherwise a
    /// request. A failed query is no reason not to try.
    pub fn set_record(
        domain: &str,
        addr: &Ipv6Addr,
        current: &Result<Vec<DnsRecord>, String>,
    ) -> (request: Option<SetRequest>)
        ensures
            match request {
                None => *current matches Ok(list) && first_address(list@) == Some(*addr),
                Some(r) => {
                    &&& !(*current matches Ok(list) && first_address(list@) == Some(*addr))
                    &&& r.domain@ == domain@
                    &&& r.origin@ == zone_of(domain@)
                    &&& r.ttl == RECORD_TTL
                    &&& r.records@ == seq![DnsRecord::Aaaa(*addr)]
                },
            },
    {
        if let Ok(Some(found)) = Self::get_record(domain, current) {
            if found == *addr {
                return None;
            }
        }
        let records: Vec<DnsRecord> = vec![DnsRecord::Aaaa(*addr)];
        assert(records@ =~= seq![DnsRecord::Aaaa(*addr)]);
        Some(
            SetRequest {
                domain: domain.to_string(),
                origin: Self::zone_from_domain(domain),
                ttl: RECORD_TTL,
                records,
            },
        )
    }
}

/// Records that were set read back as the address they were set to.
pub proof fn law_write_reads_back(addr: Ipv6Addr)
    ensures
        first_address(seq![DnsRecord::Aaaa(addr)]) == Some(addr),
{
}

/// The scheme of a server address, or nothing.
pub open spec fn server_scheme(server: Seq<char>) -> Seq<char> {
    if crate::text::starts_with(server, "tcp://"@) {
        "tcp://"@
    } else if crate::text::starts_with(server, "udp://"@) {
        "udp://"@
    } else {
        ""@
    }
}

/// The host and port of a server address; the port of the domain name system if the
/// address has none.
pub open spec fn server_authority(server: Seq<char>) -> Seq<char> {
    let rest = server.skip(server_scheme(server).len() as int);
    if rest.contains(':') {
        rest
    } else {
        rest + ":53"@
    }
}

/// Splits a server address into its scheme and its host and port, so that the name of
/// the host can be looked up.
pub fn split_server(server: &str) -> (parts: (String, String))
    ensures
        parts.0@ == server_scheme(server@),
        parts.1@ == server_authority(server@),
{
    proof {
        reveal_strlit("");
    }
    let (scheme, rest) = match strip_prefix(server, "tcp://") {
        Some(rest) => ("tcp://".to_string(), rest),
        None => match strip_prefix(server, "udp://") {
            Some(rest) => ("udp://".to_string(), rest),
            None => ("".to_string(), server.to_string()),
        },
    };
    assert(rest@ =~= server@.skip(server_scheme(server@).len() as int));
    let chars = to_chars(rest.as_str());
    let colon = find_char(chars.as_slice(), ':');
    proof {
        crate::text::lemma_first_index(rest@, ':');
    }
    if colon < chars.len() {
        assert(rest@[colon as int] == ':');
        (scheme, rest)
    } else {
        (scheme, concat2(rest.as_str(), ":53"))
    }
}

/// The known names and their algorithms.
pub proof fn law_algorithm_names(name: Seq<char>)
    ensures
        algorithm_named(name) == Some(TsigAlgorithm::HmacSha256) <==> name == "hmac-sha256"@,
        algorithm_named(name) == Some(TsigAlgorithm::HmacSha512) <==> name == "hmac-sha512"@,
{
    reveal_strlit("hmac-sha256");
    reveal_strlit("hmac-sha512");
    assert("hmac-sha256"@[8] != "hmac-sha512"@[8]);
}

/// The zone of a label, a dot and anything is that thing in full; a name without a dot is
/// its own zone.
pub proof fn law_zone(label: Seq<char>, rest: Seq<char>)
    requires
        !label.contains('.'),
    ensures
        zone_of(label + seq!['.'] + rest) == rest,
        zone_of(label) == label,
{
    assert forall|i: int| 0 <= i < label.len() implies label[i] != '.' by {
        assert(label.contains(label[i]));
    }
    let name = label + seq!['.'] + rest;
    crate::text::lemma_first_index_is(name, '.', label.len() as int);
    crate::text::lemma_first_index_is(label, '.', label.len() as int);
    assert(name.skip(label.len() as int + 1) =~= rest);
}

/// The address of records is that of the first address record, by position; it is missing
/// only if none is an address record.
pub proof fn law_first_address_record(records: Seq<DnsRecord>)
    ensures
        match first_address(records) {
            Some(a) => exists|i: int|
                0 <= i < records.len() && #[trigger] records[i] == DnsRecord::Aaaa(a) && forall|
                    j: int,
                |
                    0 <= j < i ==> #[trigger] records[j] is Other,
            None => forall|i: int| 0 <= i < records.len() ==> #[trigger] records[i] is Other,
        },
    decreases records.len(),
{
    if records.len() > 0 {
        match records[0] {
            DnsRecord::Aaaa(a) => {
                assert(records[0] == DnsRecord::Aaaa(a));
            },
            DnsRecord::Other => {
                let rest = records.drop_first();
                law_first_address_record(rest);
                match first_address(rest) {
                    Some(a) => {
                        let i = choose|i: int|
                            0 <= i < rest.len() && #[trigger] rest[i] == DnsRecord::Aaaa(a)
                                && forall|j: int| 0 <= j < i ==> #[trigger] rest[j] is Other;
                        assert(records[i + 1] == rest[i]);
                        assert forall|j: int|
                            0 <= j < i + 1 implies #[trigger] records[j] is Other by {
                            if j > 0 {
                                assert(records[j] == rest[j - 1]);
                            }
                        }
                    },
                    None => {
                        assert forall|i: int|
                            0 <= i < records.len() implies #[trigger] records[i] is Other by {
                            if i > 0 {
                                assert(records[i] == rest[i - 1]);
                            }
                        }
                    },
                }
            },
        }
    }
}

/// A server address is its scheme and its host and port; the port 53 is added to a host
/// that has none.
pub proof fn law_server_address(host: Seq<char>)
    ensures
        ({
            let authority = if host.contains(':') {
                host
            } else {
                host + seq![':', '5', '3']
            };
            &&& server_scheme("tcp://"@ + host) == "tcp://"@
            &&& server_authority("tcp://"@ + host) == authority
            &&& server_scheme("udp://"@ + host) == "udp://"@
            &&& server_authority("udp://"@ + host) == authority
            &&& (forall|rest: Seq<char>|
                host != #[trigger] ("tcp://"@ + rest) && host != "udp://"@ + rest) ==> {
                &&& server_scheme(host).len() == 0
                &&& server_authority(host) == authority
            }
        }),
{
    reveal_strlit("tcp://");
    reveal_strlit("udp://");
    reveal_strlit(":53");
    reveal_strlit("");
    assert(":53"@ =~= seq![':', '5', '3']);
    crate::text::law_starts_with("tcp://"@, host);
    crate::text::law_starts_with("udp://"@, host);
    assert(("udp://"@ + host)[0] == 'u');
    assert("tcp://"@[0] == 't');
    if crate::text::starts_with("udp://"@ + host, "tcp://"@) {
        assert(("udp://"@ + host).take("tcp://"@.len() as int)[0] == 'u');
    }
    if forall|rest: Seq<char>| host != #[trigger] ("tcp://"@ + rest) && host != "udp://"@ + rest {
        if crate::text::starts_with(host, "tcp://"@) {
            crate::text::law_starts_with_is(host, "tcp://"@);
            let rest = host.skip("tcp://"@.len() as int);
            assert(host != "tcp://"@ + rest);
        }
        if crate::text::starts_with(host, "udp://"@) {
            crate::text::law_starts_with_is(host, "udp://"@);
            let rest = host.skip("udp://"@.len() as int);
            assert("tcp://"@ + rest == "tcp://"@ + rest);
            assert(host != "udp://"@ + rest);
        }
        assert(host.skip(0) =~= host);
    }
}

} // verus!
