//! Per-host behaviour: recording resolution answers, canonicalization,
//! timing averages, and the race's single-winner rule.

use happy_eyeballs::addr::Addr;
use happy_eyeballs::addr::ResolvedAddr;
use happy_eyeballs::addr::canonicalize;
use happy_eyeballs::host::Domain;
use happy_eyeballs::host::RaceError;
use happy_eyeballs::timing::average;

fn a(ip: u128, port: u16) -> Addr {
    Addr { ip, port }
}

#[test]
fn resolve_appends_by_family_without_dedup() {
    let mut d = Domain::new(String::from("example.com"));
    let answers = vec![
        ResolvedAddr::V4(a(20, 80)),
        ResolvedAddr::V6(a(9000, 80)),
        ResolvedAddr::V4(a(10, 80)),
        ResolvedAddr::V4(a(20, 80)),
    ];
    d.resolve(&answers);
    // Mid-phase the lists keep answer order and duplicates.
    assert_eq!(*d.get_ipv4(), vec![a(20, 80), a(10, 80), a(20, 80)]);
    assert_eq!(*d.get_ipv6(), vec![a(9000, 80)]);
}

#[test]
fn canonicalize_sorts_and_dedups() {
    let mut v = vec![a(20, 80), a(10, 443), a(10, 80), a(20, 80), a(10, 80)];
    canonicalize(&mut v);
    assert_eq!(v, vec![a(10, 80), a(10, 443), a(20, 80)]);
    // Strictly ascending: no duplicates remain.
    for w in v.windows(2) {
        assert!(w[0].ip < w[1].ip || (w[0].ip == w[1].ip && w[0].port < w[1].port));
    }
}

#[test]
fn canonicalize_empty_list() {
    let mut v: Vec<Addr> = Vec::new();
    canonicalize(&mut v);
    assert!(v.is_empty());
}

#[test]
fn repeated_resolution_with_stable_answers_is_idempotent() {
    let answers = vec![
        ResolvedAddr::V4(a(20, 80)),
        ResolvedAddr::V4(a(10, 80)),
        ResolvedAddr::V6(a(9000, 80)),
    ];
    let mut d = Domain::new(String::from("example.com"));
    d.resolve(&answers);
    d.canonicalize();
    let v4_once = d.get_ipv4().clone();
    let v6_once = d.get_ipv6().clone();
    // A further round of attempts returning the same answer set changes
    // nothing once canonicalized again.
    d.resolve(&answers);
    d.canonicalize();
    assert_eq!(*d.get_ipv4(), v4_once);
    assert_eq!(*d.get_ipv6(), v6_once);
    // Nor does a round whose answers are merely rotated and repeated.
    let rotated = vec![
        ResolvedAddr::V6(a(9000, 80)),
        ResolvedAddr::V4(a(10, 80)),
        ResolvedAddr::V4(a(20, 80)),
        ResolvedAddr::V4(a(10, 80)),
    ];
    d.resolve(&rotated);
    d.canonicalize();
    assert_eq!(*d.get_ipv4(), v4_once);
    assert_eq!(*d.get_ipv6(), v6_once);
}

#[test]
fn average_counts_only_successful_samples() {
    let samples = vec![Some(10u64), None, Some(20u64)];
    assert_eq!(average(&samples), 15);
}

#[test]
fn average_of_all_failures_is_zero() {
    let samples = vec![None, None, None];
    assert_eq!(average(&samples), 0);
    let empty: Vec<Option<u64>> = Vec::new();
    assert_eq!(average(&empty), 0);
}

#[test]
fn empty_v4_list_times_to_zero() {
    let mut d = Domain::new(String::from("unresolvable.invalid"));
    let no_samples: Vec<Option<u64>> = Vec::new();
    let r = d.time_v4(&no_samples);
    assert_eq!(r, 0);
    assert_eq!(d.connect_time_v4, Some(0));
}

#[test]
fn timing_stores_the_family_averages() {
    let mut d = Domain::new(String::from("example.com"));
    d.resolve(&vec![
        ResolvedAddr::V4(a(10, 80)),
        ResolvedAddr::V4(a(20, 80)),
        ResolvedAddr::V6(a(9000, 80)),
    ]);
    d.canonicalize();
    let r4 = d.time_v4(&vec![Some(100u64), None]);
    let r6 = d.time_v6(&vec![Some(7u64)]);
    assert_eq!(r4, 100);
    assert_eq!(r6, 7);
    assert_eq!(d.connect_time_v4, Some(100));
    assert_eq!(d.connect_time_v6, Some(7));
}

#[test]
fn winning_connection_before_race_is_not_connected_yet() {
    let d = Domain::new(String::from("example.com"));
    assert_eq!(d.get_stream(), Err(RaceError::NotConnectedYet));
}

#[test]
fn race_keeps_exactly_the_first_success() {
    let mut d = Domain::new(String::from("example.com"));
    // Completion order: one failure, then two successes in the same instant.
    let events = vec![None, Some(7u64), Some(9u64)];
    d.race(&events);
    assert!(d.connected);
    assert_eq!(d.get_stream(), Ok(7));
}

#[test]
fn race_with_all_failures_ends_unconnected() {
    let mut d = Domain::new(String::from("example.com"));
    d.race(&vec![None, None]);
    assert!(!d.connected);
    assert_eq!(d.get_stream(), Err(RaceError::NotConnectedYet));
    // An empty v4 list races no attempts at all; still a normal outcome.
    let mut e = Domain::new(String::from("unresolvable.invalid"));
    e.race(&Vec::new());
    assert_eq!(e.get_stream(), Err(RaceError::NotConnectedYet));
}

#[test]
fn claim_is_won_at_most_once() {
    let mut d = Domain::new(String::from("example.com"));
    assert!(d.claim(7));
    // Every later success must discard its own connection: the winner stays.
    assert!(!d.claim(9));
    assert!(!d.claim(7));
    assert_eq!(d.get_stream(), Ok(7));
}

#[test]
fn earlier_winner_survives_a_later_race() {
    let mut d = Domain::new(String::from("example.com"));
    d.race(&vec![Some(3u64)]);
    d.race(&vec![Some(8u64), None]);
    assert_eq!(d.get_stream(), Ok(3));
}
