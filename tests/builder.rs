use dcompass::builder::{
    default_timeout, HttpsBuilder, HybridBuilder, IpAddress, Method, SocketAddress, Transport,
    Upstream, UpstreamBuilder, UpstreamConfig, UdpBuilder,
};

#[test]
fn default_timeout_is_five() {
    assert_eq!(default_timeout(), 5);
}

#[test]
fn hybrid_builder_collects_tags() {
    let h = HybridBuilder::new().add_tag(3).add_tag(1);
    assert_eq!(h.0, vec![3, 1]);
    assert!(HybridBuilder::default().0.is_empty());
    match UpstreamBuilder::Hybrid(h).build() {
        Upstream::Hybrid(v) => assert_eq!(v, vec![3, 1]),
        Upstream::Pooled(_) => panic!("expected a hybrid upstream"),
    }
}

#[test]
fn udp_builder_builds_pooled() {
    let addr = SocketAddress { ip: IpAddress::V4([1, 0, 0, 1]), port: 53 };
    match UpstreamBuilder::Udp(UdpBuilder { addr, timeout: 3 }).build() {
        Upstream::Pooled(p) => {
            assert_eq!(p.timeout, 3);
            assert!(matches!(p.transport, Transport::Udp(a) if a == addr));
        }
        Upstream::Hybrid(_) => panic!("expected a pooled upstream"),
    }
}

#[test]
fn https_builder_builds_pooled() {
    let b = HttpsBuilder {
        uri: "https://cloudflare-dns.com/dns-query".to_string(),
        addr: IpAddress::V4([1, 1, 1, 1]),
        proxy: None,
        timeout: default_timeout(),
        sni: false,
    };
    match UpstreamBuilder::Https(b).build() {
        Upstream::Pooled(p) => {
            assert_eq!(p.timeout, 5);
            match p.transport {
                Transport::Https { uri, addr, proxy, sni } => {
                    assert_eq!(uri, "https://cloudflare-dns.com/dns-query");
                    assert_eq!(addr, IpAddress::V4([1, 1, 1, 1]));
                    assert!(proxy.is_none());
                    assert!(!sni);
                }
                _ => panic!("expected an HTTPS transport"),
            }
        }
        Upstream::Hybrid(_) => panic!("expected a pooled upstream"),
    }
}

#[test]
fn upstream_config_builds_resolver() {
    let c = UpstreamConfig {
        tag: 6,
        method: Method::Tls("dns.google".to_string()),
        ips: vec![IpAddress::V4([8, 8, 8, 8])],
        port: 853,
        cache_size: 128,
        timeout: 4,
    };
    let (tag, u) = c.build();
    assert_eq!(tag, 6);
    match u {
        Upstream::Pooled(p) => {
            assert_eq!(p.timeout, 4);
            match p.transport {
                Transport::Resolver(s) => {
                    assert_eq!(s.port, 853);
                    assert_eq!(s.cache_size, 128);
                    assert_eq!(s.ips.len(), 1);
                    assert!(matches!(s.method, Method::Tls(ref n) if n == "dns.google"));
                }
                _ => panic!("expected a resolver transport"),
            }
        }
        Upstream::Hybrid(_) => panic!("expected a pooled upstream"),
    }
}
