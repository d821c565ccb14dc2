use ddns_ipv6::config::HostEntry;
use ddns_ipv6::cycle::{
    is_repeated, merge_hosts, run_update_cycle, Cache, CycleReport, UpdateCycle,
};
use ddns_ipv6::{Error, Ipv6Addr};

fn addr(t: &str) -> Ipv6Addr {
    Ipv6Addr::parse(t).unwrap()
}

fn host(suffix: &str, domain: &str) -> HostEntry {
    HostEntry { suffix: addr(suffix), domain: domain.to_string() }
}

fn run(prefix: &str, hosts: &Vec<HostEntry>, cache: &mut Cache, outcomes: &[bool]) -> CycleReport {
    run_update_cycle(&Ok(addr(prefix)), hosts, &vec![], cache, &outcomes.to_vec())
}

fn sent(report: &CycleReport) -> Vec<(String, String)> {
    report.sent.iter().map(|u| (u.domain.clone(), u.addr.to_string())).collect()
}

fn pair(domain: &str, a: &str) -> (String, String) {
    (domain.to_string(), a.to_string())
}

fn two_hosts() -> Vec<HostEntry> {
    vec![host("::1", "a.example.com"), host("::dead:beef", "b.example.com")]
}

#[test]
fn cache_keeps_the_latest_address() {
    let mut cache = Cache::new();
    assert_eq!(cache.get("a"), None);
    cache.insert("a".to_string(), addr("::1"));
    cache.insert("b".to_string(), addr("::2"));
    cache.insert("a".to_string(), addr("::3"));
    assert_eq!(cache.get("a"), Some(addr("::3")));
    assert_eq!(cache.get("b"), Some(addr("::2")));
    assert_eq!(cache.get("c"), None);
}

#[test]
fn cache_is_seeded_with_what_was_found() {
    let mut cache = Cache::new();
    cache.seed("a", &Ok(Some(addr("::1"))));
    cache.seed("b", &Ok(None));
    cache.seed("a", &Err(Error::Other("down".to_string())));
    assert_eq!(cache.get("a"), Some(addr("::1")));
    assert_eq!(cache.get("b"), None);
}

#[test]
fn hosts_merge_in_order() {
    let hosts = merge_hosts(&two_hosts(), &vec![host("::5", "a.example.com")]);
    let domains: Vec<&str> = hosts.iter().map(|h| h.domain.as_str()).collect();
    assert_eq!(domains, vec!["a.example.com", "b.example.com", "a.example.com"]);
    assert!(!is_repeated(&hosts, 0) && !is_repeated(&hosts, 1) && is_repeated(&hosts, 2));
}

#[test]
fn first_cycle_sets_every_record() {
    let mut cache = Cache::new();
    let report = run("2001:db8:1:2::", &two_hosts(), &mut cache, &[true, true]);
    assert_eq!(report.error_count, 0);
    assert_eq!(
        sent(&report),
        vec![
            pair("a.example.com", "2001:db8:1:2::1"),
            pair("b.example.com", "2001:db8:1:2::dead:beef"),
        ]
    );
}

#[test]
fn second_cycle_sets_nothing() {
    let mut cache = Cache::new();
    run("2001:db8:1:2::", &two_hosts(), &mut cache, &[true, true]);
    let report = run("2001:db8:1:2::", &two_hosts(), &mut cache, &[false, false]);
    assert!(report.sent.is_empty());
    assert_eq!(report.error_count, 0);
}

#[test]
fn rotation_sets_every_record_again() {
    let mut cache = Cache::new();
    run("2001:db8:1:2::", &two_hosts(), &mut cache, &[true, true]);
    let report = run("2001:db8:9:9::", &two_hosts(), &mut cache, &[true, true]);
    assert_eq!(
        sent(&report),
        vec![
            pair("a.example.com", "2001:db8:9:9::1"),
            pair("b.example.com", "2001:db8:9:9::dead:beef"),
        ]
    );
}

#[test]
fn failures_are_counted_and_tried_again() {
    let mut cache = Cache::new();
    let report = run("2001:db8:1:2::", &two_hosts(), &mut cache, &[false, true]);
    assert_eq!(report.error_count, 1);
    assert_eq!(report.sent.len(), 2);
    assert_eq!(cache.get("a.example.com"), None);
    let report = run("2001:db8:1:2::", &two_hosts(), &mut cache, &[true, true]);
    assert_eq!(sent(&report), vec![pair("a.example.com", "2001:db8:1:2::1")]);
    assert_eq!(report.error_count, 0);
}

#[test]
fn without_a_prefix_nothing_happens() {
    let mut cache = Cache::new();
    cache.insert("a.example.com".to_string(), addr("::1"));
    let down = Err(Error::Prefix("down".to_string()));
    let report = run_update_cycle(&down, &two_hosts(), &vec![], &mut cache, &vec![true, true]);
    assert!(report.sent.is_empty());
    assert_eq!(report.error_count, 0);
    assert_eq!(cache.get("a.example.com"), Some(addr("::1")));
}

#[test]
fn seeded_records_are_not_set() {
    let mut cache = Cache::new();
    cache.seed("a.example.com", &Ok(Some(addr("2001:db8:1:2::1"))));
    let report = run("2001:db8:1:2::", &two_hosts(), &mut cache, &[true, true]);
    assert_eq!(sent(&report), vec![pair("b.example.com", "2001:db8:1:2::dead:beef")]);
}

#[test]
fn last_entry_of_a_domain_wins() {
    let hosts = vec![host("::1", "a.example.com"), host("::2", "a.example.com")];
    let mut cache = Cache::new();
    let report = run("2001:db8:1:2::", &hosts, &mut cache, &[true, true]);
    assert_eq!(report.sent.len(), 2);
    assert_eq!(cache.get("a.example.com"), Some(addr("2001:db8:1:2::2")));
}

#[test]
fn only_the_lower_half_of_a_suffix_counts() {
    let mut cache = Cache::new();
    let hosts = vec![host("2001:db8:7:7:3:4:5:6", "a.example.com")];
    let report = run("2001:db8:1:2::", &hosts, &mut cache, &[true]);
    assert_eq!(sent(&report), vec![pair("a.example.com", "2001:db8:1:2:3:4:5:6")]);
}

#[test]
fn stopped_containers_keep_their_records() {
    let mut cache = Cache::new();
    let prefix = Ok(addr("2001:db8:1:2::"));
    let found = vec![host("::5", "c.example.com")];
    run_update_cycle(&prefix, &two_hosts(), &found, &mut cache, &vec![true, true, true]);
    assert_eq!(cache.get("c.example.com"), Some(addr("2001:db8:1:2::5")));
    let report =
        run_update_cycle(&prefix, &two_hosts(), &vec![], &mut cache, &vec![true, true]);
    assert!(report.sent.is_empty());
    assert_eq!(cache.get("c.example.com"), Some(addr("2001:db8:1:2::5")));
}

#[test]
fn cycle_goes_host_by_host() {
    let mut cache = Cache::new();
    cache.insert("a.example.com".to_string(), addr("2001:db8:1:2::1"));
    let mut hosts = two_hosts();
    hosts.push(host("::3", "c.example.com"));
    let mut cycle = UpdateCycle::new(addr("2001:db8:1:2::"), hosts);
    let update = cycle.next_update(&cache).unwrap();
    assert_eq!(update.domain, "b.example.com");
    assert_eq!(cycle.next, 1);
    cycle.finish_update(&mut cache, false);
    let update = cycle.next_update(&cache).unwrap();
    assert_eq!(update.addr, addr("2001:db8:1:2::3"));
    cycle.finish_update(&mut cache, true);
    assert!(cycle.next_update(&cache).is_none());
    assert_eq!(cycle.error_count, 1);
    assert_eq!(cache.get("b.example.com"), None);
    assert_eq!(cache.get("c.example.com"), Some(addr("2001:db8:1:2::3")));
}
