use vstd::prelude::*;

verus! {

/// The timeout, in seconds, of an upstream whose configuration names none.
pub fn default_timeout() -> (r: u64)
    ensures
        r == 5,
{
    5
}

/// An IP address, as the octets of a version 4 address or the segments of a
/// version 6 one.
#[derive(Clone, Copy, Debug, PartialEq, Eq)]
pub enum IpAddress {
    V4([u8; 4]),
    V6([u16; 8]),
}

/// An IP address with a port.
#[derive(Clone, Copy, Debug, PartialEq, Eq)]
pub struct SocketAddress {
    pub ip: IpAddress,
    pub port: u16,
}

/// The transport that a pooled upstream talks through.
pub enum Transport {
    /// Plain DNS over UDP to one server.
    Udp(SocketAddress),
    /// DNS over HTTPS.
    Https { uri: String, addr: IpAddress, proxy: Option<String>, sni: bool },
    /// The resolver library, over a group of name servers.
    Resolver(ResolverSettings),
}

/// How the resolver library reaches its name servers.
pub enum Method {
    Udp,
    Tls(String),
    Https(String),
}

/// The name servers and cache of an upstream served by the resolver library.
pub struct ResolverSettings {
    pub method: Method,
    pub ips: Vec<IpAddress>,
    pub port: u16,
    pub cache_size: usize,
}

/// A transport together with the timeout, in seconds, of each query through it.
pub struct PoolConfig {
    pub transport: Transport,
    pub timeout: u64,
}

/// A runtime upstream: a race over other tagged upstreams, or one pooled transport.
pub enum Upstream {
    Hybrid(Vec<u32>),
    Pooled(PoolConfig),
}

/// A builder for a hybrid upstream: the tags to race, in order.
pub struct HybridBuilder(pub Vec<u32>);

impl HybridBuilder {
    /// The tags to race.
    pub open spec fn tags(&self) -> Seq<u32> {
        self.0@
    }

    /// An empty hybrid builder.
    pub fn new() -> (r: Self)
        ensures
            r.tags() == Seq::<u32>::empty(),
    {
        HybridBuilder(Vec::new())
    }

    /// The builder with one more upstream to race.
    pub fn add_tag(self, tag: u32) -> (r: Self)
        ensures
            r.tags() == self.tags().push(tag),
    {
        let mut v = self.0;
        v.push(tag);
        HybridBuilder(v)
    }

    /// The hybrid upstream over the tags, which are looked up only when a query
    /// comes.
    pub fn build(self) -> (r: Upstream)
        ensures
            r matches Upstream::Hybrid(v) && v@ == self.tags(),
    {
        Upstream::Hybrid(self.0)
    }
}

impl Default for HybridBuilder {
    fn default() -> (r: Self)
        ensures
            r.tags() == Seq::<u32>::empty(),
    {
        HybridBuilder::new()
    }
}

/// A builder for a DNS over HTTPS upstream.
pub struct HttpsBuilder {
    /// The URL of the server.
    pub uri: String,
    /// The address of the server.
    pub addr: IpAddress,
    /// The proxy to connect through, if any.
    pub proxy: Option<String>,
    /// Timeout in seconds.
    pub timeout: u64,
    /// Whether to send the server name.
    pub sni: bool,
}

impl HttpsBuilder {
    /// The pooled upstream over an HTTPS transport with these settings.
    pub fn build(self) -> (r: Upstream)
        ensures
            r matches Upstream::Pooled(p) && p.timeout == self.timeout && (p.transport matches Transport::Https { uri, addr, proxy, sni } && uri@ == self.uri@ && addr == self.addr && proxy == self.proxy && sni == self.sni),
    {
        Upstream::Pooled(
            PoolConfig {
                transport: Transport::Https {
                    uri: self.uri,
                    addr: self.addr,
                    proxy: self.proxy,
                    sni: self.sni,
                },
                timeout: self.timeout,
            },
        )
    }
}

/// A builder for a plain UDP upstream.
pub struct UdpBuilder {
    /// Address of the remote server.
    pub addr: SocketAddress,
    /// Timeout in seconds.
    pub timeout: u64,
}

impl UdpBuilder {
    /// The pooled upstream over a UDP transport to the address.
    pub fn build(self) -> (r: Upstream)
        ensures
            r matches Upstream::Pooled(p) && p.timeout == self.timeout && p.transport
                == Transport::Udp(self.addr),
    {
        Upstream::Pooled(PoolConfig { transport: Transport::Udp(self.addr), timeout: self.timeout })
    }
}

/// The builder of an upstream, one variant per kind.
pub enum UpstreamBuilder {
    /// Race other upstreams concurrently; hybrids may nest.
    Hybrid(HybridBuilder),
    /// UDP connection.
    Udp(UdpBuilder),
    /// HTTPS connection.
    Https(HttpsBuilder),
}

impl UpstreamBuilder {
    /// What the variant's own builder gives.
    pub open spec fn built(self, r: Upstream) -> bool {
        match self {
            UpstreamBuilder::Hybrid(h) => r matches Upstream::Hybrid(v) && v@ == h.tags(),
            UpstreamBuilder::Udp(u) => r matches Upstream::Pooled(p) && p.timeout == u.timeout
                && p.transport == Transport::Udp(u.addr),
            UpstreamBuilder::Https(h) => r matches Upstream::Pooled(p) && p.timeout == h.timeout
                && (p.transport matches Transport::Https { uri, addr, proxy, sni } && uri@
                == h.uri@ && addr == h.addr && proxy == h.proxy && sni == h.sni),
        }
    }

    /// The upstream that the variant's builder makes.
    pub fn build(self) -> (r: Upstream)
        ensures
            self.built(r),
    {
        match self {
            UpstreamBuilder::Hybrid(h) => h.build(),
            UpstreamBuilder::Udp(u) => u.build(),
            UpstreamBuilder::Https(h) => h.build(),
        }
    }
}

/// One upstream of the configuration, served by the resolver library.
pub struct UpstreamConfig {
    pub tag: u32,
    pub method: Method,
    pub ips: Vec<IpAddress>,
    pub port: u16,
    pub cache_size: usize,
    pub timeout: u64,
}

impl UpstreamConfig {
    /// The tag and the pooled upstream that this configuration describes.
    pub fn build(self) -> (r: (u32, Upstream))
        ensures
            r.0 == self.tag,
            r.1 matches Upstream::Pooled(p) && p.timeout == self.timeout && (
            p.transport matches Transport::Resolver(s) && s.method == self.method && s.ips@
                == self.ips@ && s.port == self.port && s.cache_size == self.cache_size),
    {
        let settings = ResolverSettings {
            method: self.method,
            ips: self.ips,
            port: self.port,
            cache_size: self.cache_size,
        };
        (self.tag, Upstream::Pooled(PoolConfig { transport: Transport::Resolver(settings), timeout: self.timeout }))
    }
}

} // verus!
