use dcompass::pool::ConnPool;
use dcompass::race::{race_winner, Race, RaceStep};

#[test]
fn second_member_wins_when_first_fails() {
    assert_eq!(race_winner(&vec![false, true]), Some(1));
}

#[test]
fn race_fails_when_all_fail() {
    assert_eq!(race_winner(&vec![false, false]), None);
    assert_eq!(race_winner(&vec![]), None);
}

#[test]
fn first_success_in_completion_order_wins() {
    assert_eq!(race_winner(&vec![false, true, true]), Some(1));
    assert_eq!(race_winner(&vec![true, false]), Some(0));
}

#[test]
fn race_steps() {
    let mut r = Race::new(2);
    assert!(!r.is_done());
    assert!(matches!(r.step(false), RaceStep::Wait));
    assert!(matches!(r.step(false), RaceStep::Exhausted));
    assert!(r.is_done());
    assert!(Race::new(0).is_done());
    let mut w = Race::new(3);
    assert!(matches!(w.step(true), RaceStep::Won));
    assert!(w.is_done());
}

#[test]
fn pool_reuses_healthy_connections() {
    let mut p = ConnPool::new(5);
    assert_eq!(p.timeout(), 5);
    let a = p.acquire().unwrap();
    let b = p.acquire().unwrap();
    assert_eq!((a, b), (0, 1));
    p.release(a, true);
    assert_eq!(p.acquire(), Some(0));
    p.release(b, false);
    assert_eq!(p.acquire(), Some(2));
}

#[test]
fn pool_concurrent_slots_are_distinct() {
    let mut p = ConnPool::new(1);
    let ids: Vec<u64> = (0..4).map(|_| p.acquire().unwrap()).collect();
    assert_eq!(ids, vec![0, 1, 2, 3]);
    p.release(2, true);
    p.release(0, true);
    assert_eq!(p.acquire(), Some(0));
    assert_eq!(p.acquire(), Some(2));
    assert_eq!(p.acquire(), Some(4));
}
