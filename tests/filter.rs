use dcompass::builder::{
    HybridBuilder, IpAddress, Method, SocketAddress, Upstream, UpstreamBuilder, UpstreamConfig,
    UdpBuilder,
};
use dcompass::filter::{Action, ConfigError, Filter, RuleSource, AAAA};

fn resolver(tag: u32) -> (u32, Upstream) {
    UpstreamConfig {
        tag,
        method: Method::Udp,
        ips: vec![IpAddress::V4([1, 1, 1, 1])],
        port: 53,
        cache_size: 4096,
        timeout: 2,
    }
    .build()
}

fn rule(text: &str, dst: u32) -> RuleSource {
    RuleSource { text: text.to_string(), dst }
}

fn valid_filter(disable_ipv6: bool) -> Filter {
    let res = Filter::new(
        vec![rule("example.com\ncn\n", 1), rule("ads.example.com\n", 2)],
        vec![resolver(0), resolver(1), resolver(2)],
        0,
        disable_ipv6,
    );
    match res {
        Ok(f) => f,
        Err(_) => panic!("valid configuration refused"),
    }
}

#[test]
fn parse() {
    assert_eq!(
        Filter::new(
            vec![rule("example.com\n", 1), rule("cn\n", 2)],
            vec![resolver(0), resolver(1), resolver(2)],
            0,
            false,
        )
        .is_ok(),
        true
    );
}

#[test]
fn check_fail_rule() {
    assert_eq!(
        Filter::new(
            vec![rule("example.com\n", 1), rule("cn\n", 99)],
            vec![resolver(0), resolver(1)],
            0,
            false,
        )
        .is_err(),
        true
    );
}

#[test]
fn check_fail_default() {
    assert_eq!(
        Filter::new(
            vec![rule("example.com\n", 1)],
            vec![resolver(1)],
            0,
            false,
        )
        .is_err(),
        true
    );
}

#[test]
fn missing_rule_resolver_is_named() {
    let r = Filter::new(vec![rule("example.com\n", 99)], vec![resolver(0)], 0, false);
    assert!(matches!(r, Err(ConfigError::MissingResolver(99))));
}

#[test]
fn missing_default_resolver_is_named() {
    let r = Filter::new(vec![rule("example.com\n", 1)], vec![resolver(1)], 7, false);
    assert!(matches!(r, Err(ConfigError::MissingDefaultResolver(7))));
}

#[test]
fn first_missing_rule_is_reported_before_default() {
    let r = Filter::new(
        vec![rule("a.com\n", 1), rule("b.com\n", 3), rule("c.com\n", 4)],
        vec![resolver(1)],
        9,
        false,
    );
    assert!(matches!(r, Err(ConfigError::MissingResolver(3))));
}

#[test]
fn no_rules_only_default_needed() {
    assert!(Filter::new(vec![], vec![resolver(5)], 5, false).is_ok());
    assert!(matches!(
        Filter::new(vec![], vec![], 5, false),
        Err(ConfigError::MissingDefaultResolver(5))
    ));
}

#[test]
fn check_with_other_default() {
    let f = valid_filter(false);
    assert!(f.check(2).is_ok());
    assert!(matches!(f.check(42), Err(ConfigError::MissingDefaultResolver(42))));
}

#[test]
fn routes_by_most_specific_rule() {
    let f = valid_filter(false);
    assert_eq!(f.route("www.example.com"), 1);
    assert_eq!(f.route("example.com."), 1);
    assert_eq!(f.route("x.ads.example.com"), 2);
    assert_eq!(f.route("baidu.cn"), 1);
    assert_eq!(f.route("notexample.com"), 0);
    assert_eq!(f.route("rust-lang.org"), 0);
}

#[test]
fn hybrid_upstream_in_table() {
    let h = UpstreamBuilder::Hybrid(HybridBuilder::new().add_tag(1).add_tag(2)).build();
    let u = UpstreamBuilder::Udp(UdpBuilder {
        addr: SocketAddress { ip: IpAddress::V4([8, 8, 8, 8]), port: 53 },
        timeout: 5,
    })
    .build();
    let f = match Filter::new(vec![rule("google.com\n", 3)], vec![(1, u), resolver(2), (3, h)], 2, false) {
        Ok(f) => f,
        Err(_) => panic!("valid configuration refused"),
    };
    match f.get_resolver("mail.google.com") {
        Upstream::Hybrid(tags) => assert_eq!(tags, &vec![1, 2]),
        Upstream::Pooled(_) => panic!("expected the hybrid upstream"),
    }
    assert!(matches!(f.upstream(1), Some(Upstream::Pooled(_))));
    assert!(f.upstream(4).is_none());
}

#[test]
fn later_upstream_replaces_earlier() {
    let h = HybridBuilder::new().add_tag(7).build();
    let f = match Filter::new(vec![], vec![resolver(1), (1, h)], 1, false) {
        Ok(f) => f,
        Err(_) => panic!("valid configuration refused"),
    };
    assert!(matches!(f.upstream(1), Some(Upstream::Hybrid(_))));
}

#[test]
fn ipv6_disabled_refuses_aaaa() {
    let f = valid_filter(true);
    assert!(matches!(f.resolve("www.example.com", AAAA), Action::Refuse));
    assert!(matches!(f.resolve("anything.org", AAAA), Action::Refuse));
    assert!(matches!(f.resolve("www.example.com", 1), Action::Query(1)));
}

#[test]
fn ipv6_enabled_queries_aaaa() {
    let f = valid_filter(false);
    assert!(matches!(f.resolve("www.example.com", AAAA), Action::Query(1)));
    assert!(matches!(f.resolve("ads.example.com", AAAA), Action::Query(2)));
    assert!(matches!(f.resolve("other.net", 1), Action::Query(0)));
}
