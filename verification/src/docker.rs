//! Discovering hosts among labelled containers.

use vstd::prelude::*;
use vstd::slice::slice_subrange;

use crate::addr::Ipv6Addr;
use crate::config::{DockerConfig, HostEntry};
use crate::text::{find_char, from_chars, same_text, strip_prefix, to_chars};
use crate::util::{is_global_unicast, suffix_from_addr};

verus! {

/// Label key that marks a container for discovery. The label value is the fully
/// qualified domain name.
pub const DDNS_DOMAIN_LABEL: &'static str = "ddns.domain";

/// How long a request to the container daemon may take, in seconds.
pub const REQUEST_TIMEOUT_SECS: u64 = 120;

/// A request to list containers: those that carry a label, and also the stopped ones if
/// `all` is set.
#[derive(Debug)]
pub struct ListRequest {
    pub all: bool,
    pub label: String,
}

/// The request that lists the containers marked for discovery, whether they run or not.
pub fn list_request() -> (request: ListRequest)
    ensures
        request.all,
        request.label@ == DDNS_DOMAIN_LABEL@,
{
    ListRequest { all: true, label: DDNS_DOMAIN_LABEL.to_string() }
}

/// What the container daemon says of a container in a listing.
#[derive(Debug)]
pub struct ContainerSummary {
    pub id: Option<String>,
    pub labels: Option<Vec<(String, String)>>,
}

/// The value of the first label with the given key.
pub open spec fn label_value(labels: Seq<(String, String)>, key: Seq<char>) -> Option<Seq<char>>
    decreases labels.len(),
{
    if labels.len() == 0 {
        None
    } else if labels[0].0@ == key {
        Some(labels[0].1@)
    } else {
        label_value(labels.drop_first(), key)
    }
}

/// The id and the domain of a container that has both.
pub open spec fn labelled(c: ContainerSummary) -> Option<(Seq<char>, Seq<char>)> {
    match (c.id, c.labels) {
        (Some(id), Some(labels)) => match label_value(labels@, DDNS_DOMAIN_LABEL@) {
            Some(domain) => Some((id@, domain)),
            None => None,
        },
        _ => None,
    }
}

/// The ids and domains of the containers that have both, in order.
pub open spec fn all_labelled(containers: Seq<ContainerSummary>) -> Seq<(Seq<char>, Seq<char>)>
    decreases containers.len(),
{
    if containers.len() == 0 {
        Seq::empty()
    } else {
        let rest = all_labelled(containers.drop_last());
        match labelled(containers.last()) {
            Some(pair) => rest.push(pair),
            None => rest,
        }
    }
}

/// The characters of each pair of strings.
pub open spec fn pair_views(pairs: Seq<(String, String)>) -> Seq<(Seq<char>, Seq<char>)> {
    pairs.map_values(|p: (String, String)| (p.0@, p.1@))
}

/// Finds the value of the first label with the given key.
fn find_label(labels: &Vec<(String, String)>, key: &str) -> (value: Option<String>)
    ensures
        match value {
            Some(v) => label_value(labels@, key@) == Some(v@),
            None => label_value(labels@, key@) is None,
        },
{
    let mut i: usize = 0;
    assert(labels@.skip(0) =~= labels@);
    while i < labels.len()
        invariant
            i <= labels.len(),
            label_value(labels@, key@) == label_value(labels@.skip(i as int), key@),
        decreases labels.len() - i,
    {
        let ghost rest = labels@.skip(i as int);
        assert(rest[0] == labels@[i as int]);
        if same_text(labels[i].0.as_str(), key) {
            return Some(labels[i].1.clone());
        }
        assert(rest.drop_first() =~= labels@.skip(i + 1));
        i += 1;
    }
    None
}

/// The ids and domains of the containers in a listing, as pairs. Containers without an
/// id or without the label are passed over.
pub fn list_labeled_containers(containers: &Vec<ContainerSummary>) -> (pairs: Vec<
    (String, String),
>)
    ensures
        pair_views(pairs@) == all_labelled(containers@),
{
    let mut pairs: Vec<(String, String)> = Vec::new();
    let mut i: usize = 0;
    assert(pair_views(pairs@) =~= all_labelled(containers@.take(0)));
    while i < containers.len()
        invariant
            i <= containers.len(),
            pair_views(pairs@) == all_labelled(containers@.take(i as int)),
        decreases containers.len() - i,
    {
        let ghost longer = containers@.take(i + 1);
        assert(longer.drop_last() =~= containers@.take(i as int));
        assert(longer.last() == containers@[i as int]);
        let c = &containers[i];
        if let (Some(id), Some(labels)) = (&c.id, &c.labels) {
            if let Some(domain) = find_label(labels, DDNS_DOMAIN_LABEL) {
                let ghost before = pairs@;
                let id = id.clone();
                pairs.push((id, domain));
                assert(pair_views(pairs@) =~= pair_views(before).push((id@, domain@)));
            }
        }
        i += 1;
    }
    assert(containers@.take(i as int) =~= containers@);
    pairs
}

/// The address of a network endpoint, without the zone that may follow a percent sign.
pub open spec fn endpoint_address(endpoint: Option<String>) -> Option<Seq<u16>> {
    match endpoint {
        Some(s) => crate::addr::parsed(s@.take(crate::text::first_index(s@, '%'))),
        None => None,
    }
}

/// Whether the segments are those of a global unicast address.
pub open spec fn global_segments(s: Seq<u16>) -> bool {
    0x2000 <= s[0] <= 0x3fff
}

/// The lower 64 bits of the first global unicast address among the endpoints.
pub open spec fn first_global_suffix(endpoints: Seq<Option<String>>) -> Option<Seq<u16>>
    decreases endpoints.len(),
{
    if endpoints.len() == 0 {
        None
    } else {
        match endpoint_address(endpoints[0]) {
            Some(s) if global_segments(s) => Some(
                seq![0u16, 0u16, 0u16, 0u16, s[4], s[5], s[6], s[7]],
            ),
            _ => first_global_suffix(endpoints.drop_first()),
        }
    }
}

/// Reads the address of a network endpoint.
fn read_endpoint(endpoint: &Option<String>) -> (addr: Option<Ipv6Addr>)
    ensures
        match addr {
            Some(a) => endpoint_address(*endpoint) == Some(a.segments@),
            None => endpoint_address(*endpoint) is None,
        },
{
    match endpoint {
        Some(s) => {
            let chars = to_chars(s.as_str());
            let end = find_char(chars.as_slice(), '%');
            proof {
                crate::text::lemma_first_index(s@, '%');
            }
            let clean = from_chars(slice_subrange(chars.as_slice(), 0, end));
            assert(clean@ =~= s@.take(end as int));
            Ipv6Addr::parse(clean.as_str())
        },
        None => None,
    }
}

/// The lower 64 bits of the first global unicast address among the networks of a
/// container, in the order in which they are given; nothing without such an address or
/// without networks.
pub fn extract_suffix(networks: &Option<Vec<Option<String>>>) -> (suffix: Option<Ipv6Addr>)
    ensures
        match *networks {
            Some(endpoints) => match suffix {
                Some(a) => first_global_suffix(endpoints@) == Some(a.segments@)
                    && crate::util::suffix_only(a),
                None => first_global_suffix(endpoints@) is None,
            },
            None => suffix is None,
        },
{
    let endpoints = match networks {
        Some(endpoints) => endpoints,
        None => {
            return None;
        },
    };
    let mut i: usize = 0;
    assert(endpoints@.skip(0) =~= endpoints@);
    while i < endpoints.len()
        invariant
            i <= endpoints.len(),
            *networks == Some(*endpoints),
            first_global_suffix(endpoints@) == first_global_suffix(endpoints@.skip(i as int)),
        decreases endpoints.len() - i,
    {
        let ghost rest = endpoints@.skip(i as int);
        assert(rest[0] == endpoints@[i as int]);
        if let Some(addr) = read_endpoint(&endpoints[i]) {
            if is_global_unicast(&addr) {
                let suffix = suffix_from_addr(&addr);
                let ghost s = addr.segments@;
                assert(suffix.segments@ =~= seq![
                    0u16,
                    0u16,
                    0u16,
                    0u16,
                    s[4],
                    s[5],
                    s[6],
                    s[7],
                ]);
                return Some(suffix);
            }
        }
        assert(rest.drop_first() =~= endpoints@.skip(i + 1));
        i += 1;
    }
    None
}

/// What the inspection of a container brought: its networks if it has any, or why it failed.
pub type Inspection = Result<Option<Vec<Option<String>>>, String>;

/// The suffix that an inspection shows.
pub open spec fn inspected_suffix(inspection: Inspection) -> Option<Seq<u16>> {
    match inspection {
        Ok(Some(endpoints)) => first_global_suffix(endpoints@),
        _ => None,
    }
}

/// Whether a container takes part: its domain is not empty.
pub fn needs_inspection(domain: &str) -> (yes: bool)
    ensures
        yes == (domain@.len() > 0),
{
    !domain.is_empty()
}

/// Where the container daemon is reached.
#[derive(Debug)]
pub enum Endpoint {
    Socket(String),
    Http(String),
}

/// Whether `hosts` are the entries that the containers and their inspections give: one
/// for each container with a domain and a suffix, in order.
pub open spec fn is_discovery(
    hosts: Seq<HostEntry>,
    containers: Seq<(String, String)>,
    inspections: Seq<Inspection>,
) -> bool
    decreases containers.len(),
{
    if containers.len() == 0 || inspections.len() != containers.len() {
        hosts.len() == 0
    } else {
        let domain = containers.last().1@;
        let earlier = containers.drop_last();
        match inspected_suffix(inspections.last()) {
            Some(suffix) if domain.len() > 0 => {
                &&& hosts.len() > 0
                &&& hosts.last().domain@ == domain
                &&& hosts.last().suffix.segments@ == suffix
                &&& is_discovery(hosts.drop_last(), earlier, inspections.drop_last())
            },
            _ => is_discovery(hosts, earlier, inspections.drop_last()),
        }
    }
}

/// Whether `host` is the entry that a container and its inspection give.
pub open spec fn is_host_of(
    host: HostEntry,
    container: (String, String),
    inspection: Inspection,
) -> bool {
    &&& container.1@.len() > 0
    &&& host.domain@ == container.1@
    &&& inspected_suffix(inspection) == Some(host.suffix.segments@)
}

/// Every container with a domain and a suffix is discovered, whatever becomes of the
/// others.
pub proof fn law_labelled_container_is_discovered(
    hosts: Seq<HostEntry>,
    containers: Seq<(String, String)>,
    inspections: Seq<Inspection>,
    i: int,
)
    requires
        containers.len() == inspections.len(),
        is_discovery(hosts, containers, inspections),
        0 <= i < containers.len(),
        containers[i].1@.len() > 0,
        inspected_suffix(inspections[i]) is Some,
    ensures
        exists|k: int|
            0 <= k < hosts.len() && is_host_of(
                #[trigger] hosts[k],
                containers[i],
                inspections[i],
            ),
    decreases containers.len(),
{
    let n = containers.len() - 1;
    let earlier = if inspected_suffix(inspections.last()) is Some && containers.last().1@.len()
        > 0 {
        hosts.drop_last()
    } else {
        hosts
    };
    if i == n {
        assert(is_host_of(hosts[hosts.len() - 1], containers[i], inspections[i]));
    } else {
        law_labelled_container_is_discovered(
            earlier,
            containers.drop_last(),
            inspections.drop_last(),
            i,
        );
        let k = choose|k: int|
            0 <= k < earlier.len() && is_host_of(
                #[trigger] earlier[k],
                containers.drop_last()[i],
                inspections.drop_last()[i],
            );
        assert(hosts[k] == earlier[k]);
    }
}

/// Every discovered host is that of a container in the listing.
pub proof fn law_discovered_host_is_labelled(
    hosts: Seq<HostEntry>,
    containers: Seq<(String, String)>,
    inspections: Seq<Inspection>,
    k: int,
)
    requires
        containers.len() == inspections.len(),
        is_discovery(hosts, containers, inspections),
        0 <= k < hosts.len(),
    ensures
        exists|i: int|
            0 <= i < containers.len() && is_host_of(
                hosts[k],
                #[trigger] containers[i],
                inspections[i],
            ),
    decreases containers.len(),
{
    let n = containers.len() - 1;
    let found = inspected_suffix(inspections.last()) is Some && containers.last().1@.len() > 0;
    if found && k == hosts.len() - 1 {
        assert(is_host_of(hosts[k], containers[n], inspections[n]));
    } else {
        let earlier = if found {
            hosts.drop_last()
        } else {
            hosts
        };
        let first = containers.drop_last();
        law_discovered_host_is_labelled(earlier, first, inspections.drop_last(), k);
        let i = choose|i: int|
            0 <= i < first.len() && is_host_of(
                earlier[k],
                #[trigger] first[i],
                inspections.drop_last()[i],
            );
        assert(containers[i] == first[i]);
        assert(hosts[k] == earlier[k]);
    }
}

/// Discovers hosts among the containers that carry the `ddns.domain` label.
pub struct DockerDiscoverer {
    pub endpoint: Endpoint,
}

impl DockerDiscoverer {
    /// A discoverer for the configured daemon: a TCP address is spoken to over HTTP,
    /// anything else is the path of a socket.
    pub fn new(config: &DockerConfig) -> (discoverer: DockerDiscoverer)
        ensures
            discoverer.endpoint == if crate::text::starts_with(config.socket_path@, "tcp://"@) {
                Endpoint::Http(config.socket_path)
            } else {
                Endpoint::Socket(config.socket_path)
            },
    {
        let path = config.socket_path.clone();
        if strip_prefix(path.as_str(), "tcp://").is_some() {
            DockerDiscoverer { endpoint: Endpoint::Http(path) }
        } else {
            DockerDiscoverer { endpoint: Endpoint::Socket(path) }
        }
    }

    /// The hosts that the containers in a listing and their inspections give. A listing
    /// that failed gives none, and neither does a container without a domain, without a
    /// global address, or whose inspection failed.
    pub fn discover(
        &self,
        listing: &Result<Vec<(String, String)>, String>,
        inspections: &Vec<Inspection>,
    ) -> (hosts: Vec<HostEntry>)
        requires
            *listing matches Ok(containers) ==> inspections@.len() == containers@.len(),
        ensures
            match *listing {
                Ok(containers) => is_discovery(hosts@, containers@, inspections@),
                Err(_) => hosts@.len() == 0,
            },
            forall|i: int|
                0 <= i < hosts@.len() ==> crate::util::suffix_only((#[trigger] hosts@[i]).suffix)
                    && hosts@[i].domain@.len() > 0,
    {
        let mut hosts: Vec<HostEntry> = Vec::new();
        let containers = match listing {
            Ok(containers) => containers,
            Err(_) => {
                return hosts;
            },
        };
        let mut i: usize = 0;
        while i < containers.len()
            invariant
                i <= containers.len(),
                inspections@.len() == containers@.len(),
                is_discovery(
                    hosts@,
                    containers@.take(i as int),
                    inspections@.take(i as int),
                ),
                forall|j: int|
                    0 <= j < hosts@.len() ==> crate::util::suffix_only(
                        (#[trigger] hosts@[j]).suffix,
                    ) && hosts@[j].domain@.len() > 0,
            decreases containers.len() - i,
        {
            let ghost before = hosts@;
            assert(containers@.take(i + 1).drop_last() =~= containers@.take(i as int));
            assert(inspections@.take(i + 1).drop_last() =~= inspections@.take(i as int));
            assert(containers@.take(i + 1).last() == containers@[i as int]);
            assert(inspections@.take(i + 1).last() == inspections@[i as int]);
            let domain = &containers[i].1;
            if needs_inspection(domain.as_str()) {
                if let Ok(networks) = &inspections[i] {
                    if let Some(suffix) = extract_suffix(networks) {
                        hosts.push(HostEntry { suffix, domain: domain.clone() });
                        assert(hosts@.drop_last() =~= before);
                    }
                }
            }
            i += 1;
        }
        assert(containers@.take(i as int) =~= containers@);
        assert(inspections@.take(i as int) =~= inspections@);
        hosts
    }
}

/// The value of a label is that of the first pair, by position, whose key is the same; it is
/// missing only if no pair has the key.
pub proof fn law_first_label_counts(labels: Seq<(String, String)>, key: Seq<char>)
    ensures
        match label_value(labels, key) {
            Some(value) => exists|i: int|
                0 <= i < labels.len() && (#[trigger] labels[i]).0@ == key && labels[i].1@ == value
                    && forall|j: int| 0 <= j < i ==> (#[trigger] labels[j]).0@ != key,
            None => forall|i: int| 0 <= i < labels.len() ==> (#[trigger] labels[i]).0@ != key,
        },
    decreases labels.len(),
{
    if labels.len() > 0 && labels[0].0@ != key {
        let rest = labels.drop_first();
        law_first_label_counts(rest, key);
        match label_value(rest, key) {
            Some(value) => {
                let i = choose|i: int|
                    0 <= i < rest.len() && (#[trigger] rest[i]).0@ == key && rest[i].1@ == value
                        && forall|j: int| 0 <= j < i ==> (#[trigger] rest[j]).0@ != key;
                assert(labels[i + 1] == rest[i]);
                assert forall|j: int| 0 <= j < i + 1 implies (#[trigger] labels[j]).0@ != key by {
                    if j > 0 {
                        assert(labels[j] == rest[j - 1]);
                    }
                }
            },
            None => {
                assert forall|i: int| 0 <= i < labels.len() implies (#[trigger] labels[i]).0@
                    != key by {
                    if i > 0 {
                        assert(labels[i] == rest[i - 1]);
                    }
                }
            },
        }
    } else if labels.len() > 0 {
        assert(labels[0].0@ == key);
    }
}

/// A listing of one container gives its id and the value of its label `ddns.domain`, if it
/// has both, and nothing otherwise.
pub proof fn law_listing_of_one(c: ContainerSummary)
    ensures
        all_labelled(seq![c]) == match (c.id, c.labels) {
            (Some(id), Some(labels)) => match label_value(labels@, "ddns.domain"@) {
                Some(domain) => seq![(id@, domain)],
                None => Seq::empty(),
            },
            _ => Seq::empty(),
        },
{
    assert(seq![c].drop_last() =~= Seq::<ContainerSummary>::empty());
    assert(all_labelled(seq![c].drop_last()) =~= Seq::empty());
    assert(seq![c].last() == c);
    assert(all_labelled(seq![c]) =~= match labelled(c) {
        Some(pair) => seq![pair],
        None => Seq::empty(),
    });
}

/// What a listing gives is what its parts give, one after the other: no container has a say
/// in what becomes of another.
pub proof fn law_listings_add_up(a: Seq<ContainerSummary>, b: Seq<ContainerSummary>)
    ensures
        all_labelled(a + b) == all_labelled(a) + all_labelled(b),
        all_labelled(Seq::<ContainerSummary>::empty()).len() == 0,
    decreases b.len(),
{
    if b.len() == 0 {
        assert(a + b =~= a);
        assert(all_labelled(a) + all_labelled(b) =~= all_labelled(a));
    } else {
        law_listings_add_up(a, b.drop_last());
        assert((a + b).drop_last() =~= a + b.drop_last());
        assert((a + b).last() == b.last());
        assert(all_labelled(a + b) =~= all_labelled(a) + all_labelled(b));
    }
}

/// The address of an endpoint is what its text denotes up to the first percent sign; an
/// endpoint without a text has none.
pub proof fn law_zone_is_dropped(endpoint: Option<String>, text: Seq<char>, zone: Seq<char>)
    requires
        !text.contains('%'),
    ensures
        endpoint is None ==> endpoint_address(endpoint) is None,
        endpoint matches Some(s) ==> (s@ == text || s@ == text + seq!['%'] + zone)
            ==> endpoint_address(endpoint) == crate::addr::parsed(text),
{
    assert forall|i: int| 0 <= i < text.len() implies text[i] != '%' by {
        assert(text.contains(text[i]));
    }
    if let Some(s) = endpoint {
        if s@ == text {
            crate::text::lemma_first_index_is(s@, '%', text.len() as int);
            assert(s@.take(text.len() as int) =~= text);
        } else if s@ == text + seq!['%'] + zone {
            crate::text::lemma_first_index_is(s@, '%', text.len() as int);
            assert(s@.take(text.len() as int) =~= text);
        }
    }
}

/// The suffix is that of the first endpoint, by position, whose address lies in 2000::/3:
/// four zeros, then its last four segments. It is missing only if no endpoint has such an
/// address.
pub proof fn law_first_global_endpoint(endpoints: Seq<Option<String>>)
    ensures
        match first_global_suffix(endpoints) {
            Some(suffix) => exists|i: int|
                #![trigger endpoints[i]]
                0 <= i < endpoints.len() && (endpoint_address(endpoints[i]) matches Some(s)
                    && 0x2000 <= s[0] <= 0x3fff && suffix == seq![
                    0u16,
                    0u16,
                    0u16,
                    0u16,
                    s[4],
                    s[5],
                    s[6],
                    s[7],
                ]) && forall|j: int|
                    #![trigger endpoints[j]]
                    0 <= j < i ==> !(endpoint_address(endpoints[j]) matches Some(s) && 0x2000
                        <= s[0] <= 0x3fff),
            None => forall|i: int|
                #![trigger endpoints[i]]
                0 <= i < endpoints.len() ==> !(endpoint_address(endpoints[i]) matches Some(s)
                    && 0x2000 <= s[0] <= 0x3fff),
        },
    decreases endpoints.len(),
{
    if endpoints.len() > 0 {
        let here = endpoint_address(endpoints[0]);
        if !(here matches Some(s) && global_segments(s)) {
            let rest = endpoints.drop_first();
            law_first_global_endpoint(rest);
            match first_global_suffix(rest) {
                Some(suffix) => {
                    let i = choose|i: int|
                        #![trigger rest[i]]
                        0 <= i < rest.len() && (endpoint_address(rest[i]) matches Some(s) && 0x2000
                            <= s[0] <= 0x3fff && suffix == seq![
                            0u16,
                            0u16,
                            0u16,
                            0u16,
                            s[4],
                            s[5],
                            s[6],
                            s[7],
                        ]) && forall|j: int|
                            #![trigger rest[j]]
                            0 <= j < i ==> !(endpoint_address(rest[j]) matches Some(s) && 0x2000
                                <= s[0] <= 0x3fff);
                    assert(endpoints[i + 1] == rest[i]);
                    assert forall|j: int| #![trigger endpoints[j]] 0 <= j < i + 1 implies !(
                    endpoint_address(endpoints[j]) matches Some(s) && 0x2000 <= s[0]
                        <= 0x3fff) by {
                        if j > 0 {
                            assert(endpoints[j] == rest[j - 1]);
                        }
                    }
                },
                None => {
                    assert forall|i: int|
                        #![trigger endpoints[i]]
                        0 <= i < endpoints.len() implies !(endpoint_address(
                        endpoints[i],
                    ) matches Some(s) && 0x2000 <= s[0] <= 0x3fff) by {
                        if i > 0 {
                            assert(endpoints[i] == rest[i - 1]);
                        }
                    }
                },
            }
        } else {
            let e = endpoints[0];
            assert(endpoint_address(e) is Some);
        }
    }
}

/// A container whose first endpoint shows any global unicast address has the lower half of
/// that address as its suffix.
pub proof fn law_global_address_gives_suffix(endpoints: Seq<Option<String>>, a: Ipv6Addr)
    requires
        endpoints.len() > 0,
        endpoints[0] matches Some(s) && s@ == crate::addr::text_of(a.segments@),
        0x2000 <= a.segments@[0] <= 0x3fff,
    ensures
        first_global_suffix(endpoints) == Some(crate::util::suffix_of(a).segments@),
{
    let text = crate::addr::text_of(a.segments@);
    crate::addr::law_text_round_trip(a);
    crate::text::lemma_first_index(text, '%');
    let k = crate::text::first_index(text, '%');
    crate::addr::lemma_text_holds_no_percent(a);
    if k < text.len() {
        assert(text.contains(text[k]));
    }
    assert(text.take(k) =~= text);
    let s = a.segments@;
    assert(crate::util::suffix_of(a).segments@ =~= seq![
        0u16,
        0u16,
        0u16,
        0u16,
        s[4],
        s[5],
        s[6],
        s[7],
    ]);
}

/// The suffix of an inspection is that of its networks; there is none if it failed or if
/// there are no networks.
pub proof fn law_inspection(inspection: Inspection)
    ensures
        inspection matches Ok(Some(endpoints)) ==> inspected_suffix(inspection)
            == first_global_suffix(endpoints@),
        inspection matches Ok(None) ==> inspected_suffix(inspection) is None,
        inspection is Err ==> inspected_suffix(inspection) is None,
{
}

/// The first container is looked at by itself: with a domain that is not empty and networks
/// that show a suffix it gives the first host, and otherwise none; the hosts behind that are
/// those of the other containers.
pub proof fn law_discovery_container_by_container(
    hosts: Seq<HostEntry>,
    container: (String, String),
    inspection: Inspection,
    containers: Seq<(String, String)>,
    inspections: Seq<Inspection>,
)
    requires
        containers.len() == inspections.len(),
    ensures
        is_discovery(Seq::<HostEntry>::empty(), Seq::empty(), Seq::empty()),
        is_discovery(hosts, Seq::empty(), Seq::empty()) ==> hosts.len() == 0,
        is_discovery(hosts, seq![container] + containers, seq![inspection] + inspections) <==> (if
        container.1@.len() > 0 && (inspection matches Ok(Some(endpoints)) && first_global_suffix(
            endpoints@,
        ) is Some) {
            &&& hosts.len() > 0
            &&& hosts[0].domain@ == container.1@
            &&& inspection matches Ok(Some(endpoints)) && first_global_suffix(endpoints@) == Some(
                hosts[0].suffix.segments@,
            )
            &&& is_discovery(hosts.drop_first(), containers, inspections)
        } else {
            is_discovery(hosts, containers, inspections)
        }),
    decreases containers.len(),
{
    let all = seq![container] + containers;
    let seen = seq![inspection] + inspections;
    if containers.len() == 0 {
        assert(all.last() == container);
        assert(seen.last() == inspection);
        assert(all.drop_last() =~= Seq::<(String, String)>::empty());
        assert(seen.drop_last() =~= Seq::<Inspection>::empty());
        assert(containers =~= Seq::<(String, String)>::empty());
        assert(inspections =~= Seq::<Inspection>::empty());
        let none = Seq::<(String, String)>::empty();
        let unseen = Seq::<Inspection>::empty();
        assert(is_discovery(hosts, none, unseen) <==> hosts.len() == 0);
        assert(is_discovery(hosts.drop_first(), none, unseen) <==> hosts.drop_first().len() == 0);
        assert(is_discovery(hosts.drop_last(), none, unseen) <==> hosts.drop_last().len() == 0);
    } else {
        assert(all.last() == containers.last());
        assert(seen.last() == inspections.last());
        assert(all.drop_last() =~= seq![container] + containers.drop_last());
        assert(seen.drop_last() =~= seq![inspection] + inspections.drop_last());
        let found = inspected_suffix(inspections.last()) is Some && containers.last().1@.len() > 0;
        let first = seq![container] + containers.drop_last();
        let first_seen = seq![inspection] + inspections.drop_last();
        if found && hosts.len() > 0 {
            assert(is_discovery(hosts, all, seen) <==> {
                &&& hosts.last().domain@ == containers.last().1@
                &&& inspected_suffix(inspections.last()) == Some(hosts.last().suffix.segments@)
                &&& is_discovery(hosts.drop_last(), first, first_seen)
            });
            law_discovery_container_by_container(
                hosts.drop_last(),
                container,
                inspection,
                containers.drop_last(),
                inspections.drop_last(),
            );
            if hosts.len() > 1 {
                assert(hosts.drop_last().drop_first() =~= hosts.drop_first().drop_last());
                assert(hosts.drop_last()[0] == hosts[0]);
                assert(hosts.drop_first().last() == hosts.last());
            }
        } else {
            law_discovery_container_by_container(
                hosts,
                container,
                inspection,
                containers.drop_last(),
                inspections.drop_last(),
            );
        }
    }
}

/// Pairs of strings are shown in full and in order.
pub proof fn law_pair_views(pairs: Seq<(String, String)>)
    ensures
        pair_views(pairs).len() == pairs.len(),
        forall|i: int|
            0 <= i < pairs.len() ==> #[trigger] pair_views(pairs)[i] == (pairs[i].0@, pairs[i].1@),
{
}

} // verus!
