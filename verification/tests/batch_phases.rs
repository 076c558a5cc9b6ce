//! Whole-batch behaviour: building the batch from the source's records and
//! driving the three phases across every host.

use happy_eyeballs::addr::Addr;
use happy_eyeballs::addr::ResolvedAddr;
use happy_eyeballs::batch::Config;
use happy_eyeballs::batch::Record;
use happy_eyeballs::host::RaceError;

fn a(ip: u128, port: u16) -> Addr {
    Addr { ip, port }
}

fn rec(rank: &str, host: &str) -> Record {
    Record { rank: String::from(rank), host: String::from(host) }
}

#[test]
fn new_takes_the_first_count_hostnames() {
    let records = vec![
        rec("1", "google.com"),
        rec("2", "example.com"),
        rec("3", "example.org"),
    ];
    let c = Config::new(1, 2, records);
    let domains = c.get_domains();
    assert_eq!(domains.len(), 2);
    assert_eq!(domains[0].get_url().as_str(), "google.com");
    assert_eq!(domains[1].get_url().as_str(), "example.com");
    assert!(domains.iter().any(|d| d.get_url().contains("google.com")));
}

#[test]
fn new_with_short_batch_takes_all_records() {
    let c = Config::new(3, 10, vec![rec("1", "example.com")]);
    assert_eq!(c.get_domains().len(), 1);
    assert_eq!(c.attempts, 3);
}

#[test]
fn resolution_leaves_lists_sorted_and_deduplicated() {
    let mut c = Config::new(2, 2, vec![rec("1", "example.com"), rec("2", "example.org")]);
    // Two attempts' concatenated answers per host, with rotation and repeats.
    let answers = vec![
        vec![
            ResolvedAddr::V4(a(20, 80)),
            ResolvedAddr::V4(a(10, 80)),
            ResolvedAddr::V4(a(10, 80)),
            ResolvedAddr::V4(a(20, 80)),
        ],
        vec![
            ResolvedAddr::V6(a(9001, 80)),
            ResolvedAddr::V6(a(9000, 80)),
            ResolvedAddr::V6(a(9001, 80)),
        ],
    ];
    c.resolve_domains(&answers);
    let domains = c.get_domains();
    assert_eq!(*domains[0].get_ipv4(), vec![a(10, 80), a(20, 80)]);
    assert!(domains[0].get_ipv6().is_empty());
    assert_eq!(*domains[1].get_ipv6(), vec![a(9000, 80), a(9001, 80)]);
    assert!(domains[1].get_ipv4().is_empty());
}

#[test]
fn end_to_end_single_host() {
    // Batch of one record; one resolution attempt.
    let mut c = Config::new(1, 1, vec![rec("1", "example.com")]);
    c.resolve_domains(&vec![vec![
        ResolvedAddr::V4(a(10, 80)),
        ResolvedAddr::V4(a(20, 80)),
    ]]);
    assert!(!c.get_domains()[0].get_ipv4().is_empty());
    c.take_time(&vec![vec![Some(50u64), Some(150u64)]], &vec![vec![]]);
    assert_eq!(c.get_domains()[0].connect_time_v4, Some(100));
    assert_eq!(c.get_domains()[0].connect_time_v6, Some(0));
    c.race_domains(&vec![vec![Some(1u64), Some(2u64)]]);
    assert_eq!(c.get_domains()[0].get_stream(), Ok(1));
}

#[test]
fn failing_hosts_do_not_disturb_the_other_nine() {
    let mut records = Vec::new();
    for i in 0..10 {
        records.push(rec(&format!("{}", i + 1), &format!("host{}.example", i)));
    }
    let mut c = Config::new(1, 10, records);
    // Hosts with odd index fail to resolve: their attempts contribute nothing.
    let mut answers = Vec::new();
    for i in 0..10u128 {
        if i % 2 == 1 {
            answers.push(Vec::new());
        } else {
            answers.push(vec![
                ResolvedAddr::V4(a(10 + i, 80)),
                ResolvedAddr::V6(a(9000 + i, 80)),
            ]);
        }
    }
    c.resolve_domains(&answers);
    let domains = c.get_domains();
    assert_eq!(domains.len(), 10);
    for i in 0..10usize {
        if i % 2 == 1 {
            assert!(domains[i].get_ipv4().is_empty());
            assert!(domains[i].get_ipv6().is_empty());
        } else {
            assert_eq!(*domains[i].get_ipv4(), vec![a(10 + i as u128, 80)]);
            assert_eq!(*domains[i].get_ipv6(), vec![a(9000 + i as u128, 80)]);
        }
    }
}

#[test]
fn timing_zeroes_unreachable_families_across_the_batch() {
    let mut c = Config::new(1, 2, vec![rec("1", "example.com"), rec("2", "dead.example")]);
    c.resolve_domains(&vec![
        vec![ResolvedAddr::V4(a(10, 80))],
        Vec::new(),
    ]);
    c.take_time(
        &vec![vec![None], Vec::new()],
        &vec![Vec::new(), Vec::new()],
    );
    let domains = c.get_domains();
    // One address, unreachable: average over zero successes is zero.
    assert_eq!(domains[0].connect_time_v4, Some(0));
    // Empty list: zero as well, not an error.
    assert_eq!(domains[1].connect_time_v4, Some(0));
    assert_eq!(domains[1].connect_time_v6, Some(0));
}

#[test]
fn race_keeps_one_winner_per_host_and_tolerates_losers() {
    let mut c = Config::new(1, 3, vec![
        rec("1", "fast.example"),
        rec("2", "slow.example"),
        rec("3", "dead.example"),
    ]);
    c.resolve_domains(&vec![
        vec![ResolvedAddr::V4(a(10, 80)), ResolvedAddr::V4(a(11, 80))],
        vec![ResolvedAddr::V4(a(12, 80))],
        Vec::new(),
    ]);
    // Before the race every host reports the typed condition.
    for d in c.get_domains() {
        assert_eq!(d.get_stream(), Err(RaceError::NotConnectedYet));
    }
    c.race_domains(&vec![
        vec![Some(21u64), Some(22u64)],
        vec![None],
        Vec::new(),
    ]);
    let domains = c.get_domains();
    assert_eq!(domains[0].get_stream(), Ok(21));
    assert!(!domains[1].connected);
    assert_eq!(domains[1].get_stream(), Err(RaceError::NotConnectedYet));
    assert_eq!(domains[2].get_stream(), Err(RaceError::NotConnectedYet));
}
