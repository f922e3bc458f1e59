use vstd::prelude::*;

use crate::builder::Upstream;
use crate::matcher::{insert_all, lines, lookup, normalize, Matcher};
use hashbrown::HashMap;

verus! {

#[verifier::external_type_specification]
#[verifier::external_body]
#[verifier::reject_recursive_types(K)]
#[verifier::reject_recursive_types(V)]
#[verifier::reject_recursive_types(S)]
pub struct ExHashMap<K, V, S>(hashbrown::HashMap<K, V, S>);

#[verifier::external_type_specification]
#[verifier::external_body]
pub struct ExDefaultHashBuilder(hashbrown::hash_map::DefaultHashBuilder);

/// Upstreams by tag.
pub type UpstreamTable = HashMap<u32, Upstream>;

/// What a table of upstreams holds, tag to upstream.
pub uninterp spec fn table_view(m: UpstreamTable) -> Map<u32, Upstream>;

/// Relies on hashbrown::HashMap::new: a new map holds no entry.
#[verifier::external_body]
fn table_new() -> (r: UpstreamTable)
    ensures
        table_view(r).dom() == Set::<u32>::empty(),
{
    HashMap::new()
}

/// Relies on hashbrown::HashMap::insert: afterwards the key maps to the value,
/// replacing any earlier value, and every other entry stays.
#[verifier::external_body]
fn table_insert(m: &mut UpstreamTable, k: u32, v: Upstream)
    ensures
        table_view(*final(m)) == table_view(*old(m)).insert(k, v),
{
    m.insert(k, v);
}

/// Relies on hashbrown::HashMap::get: the value of the key, if the map has it.
#[verifier::external_body]
fn table_get(m: &UpstreamTable, k: u32) -> (r: Option<&Upstream>)
    ensures
        r is Some <==> table_view(*m).contains_key(k),
        r is Some ==> *r->0 == table_view(*m)[k],
{
    m.get(&k)
}

/// The record type code of an IPv6 address query.
pub const AAAA: u16 = 28;

/// A misconfiguration found while the router is built.
pub enum ConfigError {
    /// A rule routes to a tag that no upstream has.
    MissingResolver(u32),
    /// The default tag has no upstream.
    MissingDefaultResolver(u32),
}

/// The contents of one rule's source file, and the tag its domains route to.
pub struct RuleSource {
    pub text: String,
    pub dst: u32,
}

/// How a query is to be answered.
pub enum Action {
    /// An NXDOMAIN reply with the request's id and opcode, with no upstream asked.
    Refuse,
    /// Ask the upstream of this tag.
    Query(u32),
}

/// The routing rules of a list of sources, later sources applied after earlier ones.
pub open spec fn rules_map(rs: Seq<(Seq<char>, u32)>) -> Map<Seq<char>, u32>
    decreases rs.len(),
{
    if rs.len() == 0 {
        Map::empty()
    } else {
        insert_all(rules_map(rs.drop_last()), lines(rs.last().0), rs.last().1)
    }
}

/// The rule sources as plain values.
pub open spec fn sources_view(rs: Seq<RuleSource>) -> Seq<(Seq<char>, u32)> {
    rs.map_values(|r: RuleSource| (r.text@, r.dst))
}

/// The tags that the rule sources route to, in order.
pub open spec fn dsts_of(rs: Seq<RuleSource>) -> Seq<u32> {
    rs.map_values(|r: RuleSource| r.dst)
}

/// The upstream table built from a list: a later entry for a tag replaces an earlier one.
pub open spec fn upstreams_map(us: Seq<(u32, Upstream)>) -> Map<u32, Upstream>
    decreases us.len(),
{
    if us.len() == 0 {
        Map::empty()
    } else {
        upstreams_map(us.drop_last()).insert(us.last().0, us.last().1)
    }
}

/// The outcome of validation: the first rule tag without an upstream, else the
/// default tag if it has none, else success.
pub open spec fn validate(dsts: Seq<u32>, m: Map<u32, Upstream>, default_tag: u32) -> Result<
    (),
    ConfigError,
>
    decreases dsts.len(),
{
    if dsts.len() == 0 {
        if m.contains_key(default_tag) {
            Ok(())
        } else {
            Err(ConfigError::MissingDefaultResolver(default_tag))
        }
    } else if !m.contains_key(dsts[0]) {
        Err(ConfigError::MissingResolver(dsts[0]))
    } else {
        validate(dsts.drop_first(), m, default_tag)
    }
}

/// The tag that rules `m` with default `default_tag` route `domain` to.
pub open spec fn route_of(m: Map<Seq<char>, u32>, default_tag: u32, domain: Seq<char>) -> u32 {
    match lookup(m, domain) {
        Some(t) => t,
        None => default_tag,
    }
}

/// The router: upstreams by tag, the domain rules and the default tag.
pub struct Filter {
    resolvers: UpstreamTable,
    default_tag: u32,
    disable_ipv6: bool,
    matcher: Matcher,
    dsts: Vec<u32>,
}

impl Filter {
    /// The upstreams, by tag.
    pub closed spec fn upstreams(&self) -> Map<u32, Upstream> {
        table_view(self.resolvers)
    }

    /// The domain rules, key to tag.
    pub closed spec fn rules(&self) -> Map<Seq<char>, u32> {
        self.matcher.view()
    }

    /// The tags that the rules route to.
    pub closed spec fn dsts(&self) -> Seq<u32> {
        self.dsts@
    }

    pub closed spec fn default_tag_spec(&self) -> u32 {
        self.default_tag
    }

    pub closed spec fn disable_ipv6_spec(&self) -> bool {
        self.disable_ipv6
    }

    /// Every tag a rule or the default routes to has an upstream.
    pub open spec fn wf(&self) -> bool {
        &&& forall|k: Seq<char>| #[trigger]
            self.rules().contains_key(k) ==> self.upstreams().contains_key(self.rules()[k])
        &&& self.upstreams().contains_key(self.default_tag_spec())
    }

    /// Reads every rule source into one matcher, and lists the tags they route to.
    fn insert_rules(rules: &Vec<RuleSource>) -> (r: (Matcher, Vec<u32>))
        ensures
            r.0.view() == rules_map(sources_view(rules@)),
            r.1@ == dsts_of(rules@),
            forall|k: Seq<char>| #[trigger]
                r.0.view().contains_key(k) ==> r.1@.contains(r.0.view()[k]),
    {
        let mut matcher = Matcher::new();
        let mut v: Vec<u32> = Vec::new();
        let mut i: usize = 0;
        let ghost srcs = sources_view(rules@);
        while i < rules.len()
            invariant
                i <= rules@.len(),
                srcs == sources_view(rules@),
                matcher.view() == rules_map(srcs.subrange(0, i as int)),
                v@ == dsts_of(rules@).subrange(0, i as int),
                forall|k: Seq<char>| #[trigger]
                    matcher.view().contains_key(k) ==> v@.contains(matcher.view()[k]),
            decreases rules.len() - i,
        {
            let r = &rules[i];
            let ghost before = matcher.view();
            let ghost vb = v@;
            matcher.insert_bulk(r.text.as_str(), r.dst);
            v.push(r.dst);
            proof {
                assert(srcs.subrange(0, i + 1).drop_last() =~= srcs.subrange(0, i as int));
                assert(v@ =~= dsts_of(rules@).subrange(0, i + 1));
                lemma_insert_all_values(before, lines(r.text@), r.dst);
                assert forall|k: Seq<char>| #[trigger]
                    matcher.view().contains_key(k) implies v@.contains(matcher.view()[k]) by {
                    if matcher.view()[k] == r.dst {
                        assert(v@[vb.len() as int] == r.dst);
                    } else {
                        let x = choose|x: int| 0 <= x < vb.len() && vb[x] == before[k];
                        assert(v@[x] == vb[x]);
                    }
                }
            }
            i = i + 1;
        }
        proof {
            assert(srcs.subrange(0, i as int) =~= srcs);
            assert(dsts_of(rules@).subrange(0, i as int) =~= dsts_of(rules@));
        }
        (matcher, v)
    }

    /// Builds the table of upstreams; a later entry for a tag replaces an earlier one.
    fn insert_upstreams(upstreams: Vec<(u32, Upstream)>) -> (r: UpstreamTable)
        ensures
            table_view(r) == upstreams_map(upstreams@),
    {
        let ghost all = upstreams@;
        let mut rest = upstreams;
        let n = rest.len();
        let mut r = table_new();
        proof {
            assert(table_view(r) =~= upstreams_map(all.subrange(0, 0)));
        }
        let mut i: usize = 0;
        while rest.len() > 0
            invariant
                n == all.len(),
                i <= n,
                rest@ == all.subrange(i as int, all.len() as int),
                table_view(r) == upstreams_map(all.subrange(0, i as int)),
            decreases rest.len(),
        {
            let (tag, u) = rest.remove(0);
            proof {
                assert(all.subrange(0, i + 1).drop_last() =~= all.subrange(0, i as int));
                assert(all[i as int] == (tag, u));
            }
            table_insert(&mut r, tag, u);
            i = i + 1;
            proof {
                assert(rest@ =~= all.subrange(i as int, all.len() as int));
            }
        }
        proof {
            assert(all.subrange(0, i as int) =~= all);
        }
        r
    }

    /// Builds the router from the rule sources, the upstreams, the default tag and
    /// whether IPv6 queries are refused; fails when a rule's tag or the default
    /// tag has no upstream.
    pub fn new(
        rules: Vec<RuleSource>,
        upstreams: Vec<(u32, Upstream)>,
        default_tag: u32,
        disable_ipv6: bool,
    ) -> (r: Result<Filter, ConfigError>)
        ensures
            validate(dsts_of(rules@), upstreams_map(upstreams@), default_tag) is Ok <==> r is Ok,
            r matches Err(e) ==> validate(dsts_of(rules@), upstreams_map(upstreams@), default_tag)
                == Err::<(), ConfigError>(e),
            r matches Ok(f) ==> {
                &&& f.wf()
                &&& f.rules() == rules_map(sources_view(rules@))
                &&& f.upstreams() == upstreams_map(upstreams@)
                &&& f.dsts() == dsts_of(rules@)
                &&& f.default_tag_spec() == default_tag
                &&& f.disable_ipv6_spec() == disable_ipv6
            },
    {
        let (matcher, dsts) = Filter::insert_rules(&rules);
        let filter = Filter {
            matcher,
            resolvers: Filter::insert_upstreams(upstreams),
            default_tag,
            disable_ipv6,
            dsts,
        };
        match filter.check(filter.default_tag) {
            Ok(()) => {
                proof {
                    lemma_validate_ok(filter.dsts@, filter.upstreams(), default_tag);
                    assert forall|k: Seq<char>| #[trigger]
                        filter.rules().contains_key(k) implies filter.upstreams().contains_key(
                        filter.rules()[k],
                    ) by {
                        let x = choose|x: int|
                            0 <= x < filter.dsts@.len() && filter.dsts@[x] == filter.rules()[k];
                    }
                }
                Ok(filter)
            },
            Err(e) => Err(e),
        }
    }

    /// Whether every tag the rules route to, and `default`, has an upstream; the
    /// first tag found missing is reported.
    pub fn check(&self, default: u32) -> (r: Result<(), ConfigError>)
        ensures
            r == validate(self.dsts(), self.upstreams(), default),
    {
        let n = self.dsts.len();
        let mut i: usize = 0;
        proof {
            assert(self.dsts@.subrange(0, n as int) =~= self.dsts@);
        }
        while i < n
            invariant
                n == self.dsts@.len(),
                i <= n,
                validate(self.dsts(), self.upstreams(), default) == validate(
                    self.dsts@.subrange(i as int, n as int),
                    self.upstreams(),
                    default,
                ),
            decreases n - i,
        {
            let dst = self.dsts[i];
            proof {
                assert(self.dsts@.subrange(i as int, n as int).drop_first() =~= self.dsts@.subrange(
                    i + 1,
                    n as int,
                ));
            }
            if table_get(&self.resolvers, dst).is_none() {
                return Err(ConfigError::MissingResolver(dst));
            }
            i = i + 1;
        }
        if table_get(&self.resolvers, default).is_none() {
            return Err(ConfigError::MissingDefaultResolver(default));
        }
        Ok(())
    }

    /// The tag that `domain` routes to: its most specific rule's, else the default.
    pub fn route(&self, domain: &str) -> (r: u32)
        ensures
            r == route_of(self.rules(), self.default_tag_spec(), domain@),
    {
        match self.matcher.matches(domain) {
            Some(t) => t,
            None => self.default_tag,
        }
    }

    /// The upstream that `domain` routes to.
    pub fn get_resolver(&self, domain: &str) -> (r: &Upstream)
        requires
            self.wf(),
        ensures
            self.upstreams().contains_key(route_of(self.rules(), self.default_tag_spec(), domain@)),
            *r == self.upstreams()[route_of(self.rules(), self.default_tag_spec(), domain@)],
    {
        let tag = self.route(domain);
        proof {
            crate::matcher::lemma_match_is_most_specific(self.rules(), domain@);
        }
        table_get(&self.resolvers, tag).unwrap()
    }

    /// The upstream of a tag, if there is one.
    pub fn upstream(&self, tag: u32) -> (r: Option<&Upstream>)
        ensures
            r is Some <==> self.upstreams().contains_key(tag),
            r is Some ==> *r->0 == self.upstreams()[tag],
    {
        table_get(&self.resolvers, tag)
    }

    /// Decides how a query for `domain` of record type `qtype` is answered: an
    /// IPv6 query is refused when IPv6 is disabled, any other goes to the
    /// upstream of the domain's route.
    pub fn resolve(&self, domain: &str, qtype: u16) -> (r: Action)
        ensures
            r == (if self.disable_ipv6_spec() && qtype == AAAA {
                Action::Refuse
            } else {
                Action::Query(route_of(self.rules(), self.default_tag_spec(), domain@))
            }),
    {
        if qtype == AAAA && self.disable_ipv6 {
            Action::Refuse
        } else {
            Action::Query(self.route(domain))
        }
    }
}

proof fn lemma_insert_all_values(m: Map<Seq<char>, u32>, ls: Seq<Seq<char>>, tag: u32)
    ensures
        forall|k: Seq<char>| #[trigger]
            insert_all(m, ls, tag).contains_key(k) ==> (insert_all(m, ls, tag)[k] == tag || (
            m.contains_key(k) && insert_all(m, ls, tag)[k] == m[k])),
    decreases ls.len(),
{
    if ls.len() > 0 {
        lemma_insert_all_values(m, ls.drop_last(), tag);
        let prev = insert_all(m, ls.drop_last(), tag);
        assert forall|k: Seq<char>| #[trigger]
            insert_all(m, ls, tag).contains_key(k) implies (insert_all(m, ls, tag)[k] == tag || (
            m.contains_key(k) && insert_all(m, ls, tag)[k] == m[k])) by {
            if k != normalize(ls.last()) {
                assert(prev.contains_key(k));
            }
        }
    }
}

/// Validation succeeds exactly when every rule tag and the default tag have an upstream.
proof fn lemma_validate_ok(dsts: Seq<u32>, m: Map<u32, Upstream>, default_tag: u32)
    ensures
        validate(dsts, m, default_tag) is Ok <==> (forall|i: int|
            0 <= i < dsts.len() ==> #[trigger] m.contains_key(dsts[i])) && m.contains_key(
            default_tag,
        ),
    decreases dsts.len(),
{
    if dsts.len() > 0 {
        lemma_validate_ok(dsts.drop_first(), m, default_tag);
        if (forall|i: int| 0 <= i < dsts.len() ==> #[trigger] m.contains_key(dsts[i])) {
            assert forall|i: int| 0 <= i < dsts.drop_first().len() implies #[trigger] m.contains_key(
                dsts.drop_first()[i],
            ) by {
                assert(m.contains_key(dsts[i + 1]));
            }
        }
        if (forall|i: int| 0 <= i < dsts.drop_first().len() ==> #[trigger] m.contains_key(
            dsts.drop_first()[i],
        )) && m.contains_key(dsts[0]) {
            assert forall|i: int| 0 <= i < dsts.len() implies #[trigger] m.contains_key(dsts[i]) by {
                if i > 0 {
                    assert(dsts[i] == dsts.drop_first()[i - 1]);
                }
            }
        }
    }
}

} // verus!

verus! {

/// A configuration with a rule whose tag has no upstream fails to build, and the
/// error names a rule tag without an upstream.
pub proof fn lemma_missing_rule_resolver_fails(
    rules: Seq<RuleSource>,
    upstreams: Seq<(u32, Upstream)>,
    default_tag: u32,
    i: int,
)
    requires
        0 <= i < rules.len(),
        !upstreams_map(upstreams).contains_key(rules[i].dst),
    ensures
        validate(dsts_of(rules), upstreams_map(upstreams), default_tag) matches Err(
            ConfigError::MissingResolver(t),
        ) && !upstreams_map(upstreams).contains_key(t),
{
    lemma_validate_missing_rule(dsts_of(rules), upstreams_map(upstreams), default_tag, i);
}

proof fn lemma_validate_missing_rule(dsts: Seq<u32>, m: Map<u32, Upstream>, default_tag: u32, i: int)
    requires
        0 <= i < dsts.len(),
        !m.contains_key(dsts[i]),
    ensures
        validate(dsts, m, default_tag) matches Err(ConfigError::MissingResolver(t))
            && !m.contains_key(t),
    decreases dsts.len(),
{
    if m.contains_key(dsts[0]) {
        assert(dsts.drop_first()[i - 1] == dsts[i]);
        lemma_validate_missing_rule(dsts.drop_first(), m, default_tag, i - 1);
    }
}

/// A configuration whose default tag has no upstream fails to build; where every
/// rule tag has one, the error names the default tag.
pub proof fn lemma_missing_default_resolver_fails(
    rules: Seq<RuleSource>,
    upstreams: Seq<(u32, Upstream)>,
    default_tag: u32,
)
    requires
        !upstreams_map(upstreams).contains_key(default_tag),
    ensures
        validate(dsts_of(rules), upstreams_map(upstreams), default_tag) is Err,
        (forall|i: int|
            0 <= i < rules.len() ==> #[trigger] upstreams_map(upstreams).contains_key(
                rules[i].dst,
            )) ==> validate(dsts_of(rules), upstreams_map(upstreams), default_tag) == Err::<
            (),
            ConfigError,
        >(ConfigError::MissingDefaultResolver(default_tag)),
{
    lemma_validate_ok(dsts_of(rules), upstreams_map(upstreams), default_tag);
    lemma_validate_default(dsts_of(rules), upstreams_map(upstreams), default_tag);
}

proof fn lemma_validate_default(dsts: Seq<u32>, m: Map<u32, Upstream>, default_tag: u32)
    requires
        !m.contains_key(default_tag),
    ensures
        (forall|i: int| 0 <= i < dsts.len() ==> #[trigger] m.contains_key(dsts[i])) ==> validate(
            dsts,
            m,
            default_tag,
        ) == Err::<(), ConfigError>(ConfigError::MissingDefaultResolver(default_tag)),
    decreases dsts.len(),
{
    if dsts.len() > 0 {
        lemma_validate_default(dsts.drop_first(), m, default_tag);
        if forall|i: int| 0 <= i < dsts.len() ==> #[trigger] m.contains_key(dsts[i]) {
            assert(m.contains_key(dsts[0]));
            assert forall|i: int| 0 <= i < dsts.drop_first().len() implies #[trigger] m.contains_key(
                dsts.drop_first()[i],
            ) by {
                assert(m.contains_key(dsts[i + 1]));
            }
        }
    }
}

/// A configuration in which every rule tag and the default tag have an upstream
/// builds.
pub proof fn lemma_valid_configuration_builds(
    rules: Seq<RuleSource>,
    upstreams: Seq<(u32, Upstream)>,
    default_tag: u32,
)
    requires
        forall|i: int|
            0 <= i < rules.len() ==> #[trigger] upstreams_map(upstreams).contains_key(rules[i].dst),
        upstreams_map(upstreams).contains_key(default_tag),
    ensures
        validate(dsts_of(rules), upstreams_map(upstreams), default_tag) is Ok,
{
    let d = dsts_of(rules);
    assert forall|i: int| 0 <= i < d.len() implies #[trigger] upstreams_map(upstreams).contains_key(
        d[i],
    ) by {
        assert(upstreams_map(upstreams).contains_key(rules[i].dst));
    }
    lemma_validate_ok(d, upstreams_map(upstreams), default_tag);
}

} // verus!
