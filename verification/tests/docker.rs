use ddns_ipv6::config::DockerConfig;
use ddns_ipv6::docker::{
    extract_suffix, list_labeled_containers, list_request, needs_inspection, ContainerSummary, DockerDiscoverer,
    Endpoint, Inspection,
};
use ddns_ipv6::Ipv6Addr;

fn s(t: &str) -> String {
    t.to_string()
}

fn addr(t: &str) -> Ipv6Addr {
    Ipv6Addr::parse(t).unwrap()
}

fn container(id: Option<&str>, labels: Option<Vec<(&str, &str)>>) -> ContainerSummary {
    ContainerSummary {
        id: id.map(s),
        labels: labels.map(|l| l.into_iter().map(|(k, v)| (s(k), s(v))).collect()),
    }
}

fn networks(list: &[Option<&str>]) -> Option<Vec<Option<String>>> {
    Some(list.iter().map(|a| a.map(s)).collect())
}

fn discoverer(socket_path: &str) -> DockerDiscoverer {
    DockerDiscoverer::new(&DockerConfig { socket_path: s(socket_path) })
}

#[test]
fn all_labelled_containers_are_asked_for() {
    let request = list_request();
    assert!(request.all);
    assert_eq!(request.label, "ddns.domain");
}

#[test]
fn only_labelled_containers_are_listed() {
    let pairs = list_labeled_containers(&vec![
        container(Some("a"), Some(vec![("x", "y"), ("ddns.domain", "a.example.com")])),
        container(None, Some(vec![("ddns.domain", "b.example.com")])),
        container(Some("c"), None),
        container(Some("d"), Some(vec![("ddns", "d.example.com")])),
        container(Some("e"), Some(vec![("ddns.domain", "")])),
    ]);
    assert_eq!(pairs, vec![(s("a"), s("a.example.com")), (s("e"), s(""))]);
}

#[test]
fn suffix_is_that_of_the_first_global_address() {
    let found = extract_suffix(&networks(&[
        None,
        Some(""),
        Some("no address"),
        Some("fd00::5"),
        Some("2001:db8:1:2:3:4:5:6"),
        Some("2001:db8::9"),
    ]));
    assert_eq!(found, Some(addr("::3:4:5:6")));
}

#[test]
fn zone_of_an_address_is_dropped() {
    assert_eq!(extract_suffix(&networks(&[Some("2001:db8::1%eth0")])), Some(addr("::1")));
    assert_eq!(extract_suffix(&networks(&[Some("%eth0")])), None);
}

#[test]
fn no_global_address_no_suffix() {
    assert_eq!(extract_suffix(&None), None);
    assert_eq!(extract_suffix(&networks(&[])), None);
    assert_eq!(extract_suffix(&networks(&[Some("fe80::1"), None])), None);
}

#[test]
fn discovery_is_best_effort() {
    let listing = Ok(vec![
        (s("a"), s("a.example.com")),
        (s("b"), s("")),
        (s("c"), s("c.example.com")),
        (s("d"), s("d.example.com")),
        (s("e"), s("e.example.com")),
    ]);
    let inspections: Vec<Inspection> = vec![
        Ok(networks(&[Some("2001:db8::a")])),
        Ok(networks(&[Some("2001:db8::b")])),
        Err(s("gone")),
        Ok(networks(&[Some("fe80::d")])),
        Ok(networks(&[Some("2001:db8:7:7::e")])),
    ];
    let hosts = discoverer("/var/run/docker.sock").discover(&listing, &inspections);
    assert_eq!(hosts.len(), 2);
    assert_eq!(hosts[0].domain, "a.example.com");
    assert_eq!(hosts[0].suffix, addr("::a"));
    assert_eq!(hosts[1].domain, "e.example.com");
    assert_eq!(hosts[1].suffix, addr("::e"));
}

#[test]
fn failed_listing_discovers_nothing() {
    let hosts = discoverer("/var/run/docker.sock").discover(&Err(s("refused")), &vec![]);
    assert!(hosts.is_empty());
    assert!(needs_inspection("a") && !needs_inspection(""));
}

#[test]
fn tcp_endpoints_are_spoken_to_over_http() {
    assert!(matches!(
        discoverer("/var/run/docker.sock").endpoint,
        Endpoint::Socket(p) if p == "/var/run/docker.sock"
    ));
    assert!(matches!(
        discoverer("tcp://docker-proxy:2375").endpoint,
        Endpoint::Http(p) if p == "tcp://docker-proxy:2375"
    ));
}
