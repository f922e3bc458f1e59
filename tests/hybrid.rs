use dcompass::builder::{HybridBuilder, IpAddress, SocketAddress, Upstream, UdpBuilder};
use dcompass::filter::{Filter, RuleSource};
use dcompass::hybrid::HybridError;

fn udp(port: u16) -> Upstream {
    UdpBuilder { addr: SocketAddress { ip: IpAddress::V4([127, 0, 0, 1]), port }, timeout: 5 }.build()
}

fn hybrid(tags: &[u32]) -> Upstream {
    let mut b = HybridBuilder::new();
    for t in tags {
        b = b.add_tag(*t);
    }
    b.build()
}

fn filter(ups: Vec<(u32, Upstream)>, default_tag: u32) -> Filter {
    match Filter::new(vec![RuleSource { text: "example.com".to_string(), dst: default_tag }], ups, default_tag, false) {
        Ok(f) => f,
        Err(_) => panic!("valid configuration refused"),
    }
}

#[test]
fn pooled_upstream_races_itself() {
    let f = filter(vec![(1, udp(53))], 1);
    assert_eq!(f.race_members(1).ok(), Some(vec![1]));
}

#[test]
fn nested_hybrids_expand_in_order() {
    let f = filter(
        vec![(1, udp(53)), (2, udp(54)), (3, udp(55)), (10, hybrid(&[1, 11])), (11, hybrid(&[2, 3]))],
        10,
    );
    assert_eq!(f.race_members(10).ok(), Some(vec![1, 2, 3]));
    assert_eq!(f.race_members(11).ok(), Some(vec![2, 3]));
}

#[test]
fn hybrid_cycle_is_refused() {
    let f = filter(vec![(1, udp(53)), (10, hybrid(&[1, 11])), (11, hybrid(&[10]))], 10);
    assert!(matches!(f.race_members(10), Err(HybridError::Cycle(10))));
    let g = filter(vec![(5, hybrid(&[5]))], 5);
    assert!(matches!(g.race_members(5), Err(HybridError::Cycle(5))));
}

#[test]
fn hybrid_with_missing_member_is_refused() {
    let f = filter(vec![(1, udp(53)), (10, hybrid(&[1, 42]))], 10);
    assert!(matches!(f.race_members(10), Err(HybridError::Missing(42))));
    assert!(matches!(f.race_members(77), Err(HybridError::Missing(77))));
}

#[test]
fn empty_hybrid_has_no_members() {
    let f = filter(vec![(4, hybrid(&[]))], 4);
    assert_eq!(f.race_members(4).ok(), Some(vec![]));
}

#[test]
fn repeated_member_in_diamond_is_allowed() {
    let f = filter(vec![(1, udp(53)), (2, hybrid(&[1])), (3, hybrid(&[1])), (4, hybrid(&[2, 3]))], 4);
    assert_eq!(f.race_members(4).ok(), Some(vec![1, 1]));
}
