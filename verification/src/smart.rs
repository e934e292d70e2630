//! Routing over several bridges.
//!
//! Each outbound packet is either passed on directly or redirected to the local
//! port of the bridge that the router picks.

use vstd::prelude::*;

use crate::addr::{IpAddr, SocketAddr};
use crate::capture::{Protocol, RouteAction, RouteResolver};
use crate::router::{BridgeEntry, Route, Router, RttTable, DEFAULT_MARGIN_NS};
use crate::text::same_text;

verus! {

use crate::aws_regions::region_of;
use crate::router::{picked, picked_bridge_exists};

/// The address of the local host, 127.0.0.1.
pub const LOCALHOST: u32 = 0x7F00_0001;

/// The round trip to a bridge that has not been measured: 30 ms.
pub const PLACEHOLDER_RTT_NS: i64 = 30_000_000;

#[derive(Debug)]
pub struct SmartRoutingConfig {
    /// Bridges to consider, each with a local port of its own.
    pub bridges: Vec<BridgeEntry>,
    /// Direct round trips to AWS regions. A bridge is always picked where the
    /// region's is missing.
    pub direct_rtt_ns: RttTable,
    /// A bridge is picked only if it beats direct by this margin.
    pub margin_ns: i64,
}

pub fn default_margin() -> (margin_ns: i64)
    ensures
        margin_ns == 2_000_000,
{
    DEFAULT_MARGIN_NS
}

/// The local address for traffic over a bridge.
pub open spec fn local_target(bridge: BridgeEntry) -> SocketAddr {
    SocketAddr { ip: IpAddr::V4(LOCALHOST), port: bridge.listen_port }
}

/// The local addresses for traffic over the bridges.
pub fn redirect_targets(bridges: &[BridgeEntry]) -> (targets: Vec<SocketAddr>)
    ensures
        targets@ == bridges@.map_values(|b: BridgeEntry| local_target(b)),
{
    let mut targets: Vec<SocketAddr> = Vec::new();
    let mut i: usize = 0;
    while i < bridges.len()
        invariant
            i <= bridges@.len(),
            targets@.len() == i,
            forall|j: int| 0 <= j < i ==> #[trigger] targets@[j] == local_target(bridges@[j]),
        decreases bridges@.len() - i,
    {
        targets.push(SocketAddr { ip: IpAddr::V4(LOCALHOST), port: bridges[i].listen_port });
        i += 1;
    }
    assert(targets@ =~= bridges@.map_values(|b: BridgeEntry| local_target(b)));
    targets
}

/// Where the bridges are, which must not be captured.
pub fn bridge_endpoints(bridges: &[BridgeEntry]) -> (endpoints: Vec<SocketAddr>)
    ensures
        endpoints@ == bridges@.map_values(|b: BridgeEntry| b.endpoint),
{
    let mut endpoints: Vec<SocketAddr> = Vec::new();
    let mut i: usize = 0;
    while i < bridges.len()
        invariant
            i <= bridges@.len(),
            endpoints@.len() == i,
            forall|j: int| 0 <= j < i ==> #[trigger] endpoints@[j] == bridges@[j].endpoint,
        decreases bridges@.len() - i,
    {
        endpoints.push(bridges[i].endpoint);
        i += 1;
    }
    assert(endpoints@ =~= bridges@.map_values(|b: BridgeEntry| b.endpoint));
    endpoints
}

/// What the client's round trip to a bridge of this name is taken to be until
/// it is measured.
pub open spec fn estimate(name: Seq<char>) -> i64 {
    if name == "dallas"@ {
        22_000_000
    } else if name == "nj"@ {
        35_000_000
    } else if name == "seattle"@ || name == "sea"@ {
        50_000_000
    } else if name == "frankfurt"@ || name == "fra"@ {
        110_000_000
    } else {
        40_000_000
    }
}

/// What the client's round trip to a bridge of this name is taken to be until
/// it is measured.
pub fn estimated_rtt(name: &str) -> (rtt_ns: i64)
    ensures
        rtt_ns == estimate(name@),
{
    if same_text(name, "dallas") {
        22_000_000
    } else if same_text(name, "nj") {
        35_000_000
    } else if same_text(name, "seattle") || same_text(name, "sea") {
        50_000_000
    } else if same_text(name, "frankfurt") || same_text(name, "fra") {
        110_000_000
    } else {
        40_000_000
    }
}

impl SmartRoutingConfig {
    /// There has to be a bridge to route over.
    pub fn check(&self) -> (r: Result<(), String>)
        ensures
            match r {
                Ok(()) => self.bridges@.len() > 0,
                Err(message) => {
                    &&& self.bridges@.len() == 0
                    &&& message@ == "smart_routing.bridges is empty"@
                },
            },
    {
        if self.bridges.len() == 0 {
            return Err("smart_routing.bridges is empty".to_owned());
        }
        Ok(())
    }
}

/// What the client's round trip to a bridge is taken to be: `fixed`, or the
/// estimate by its name.
pub open spec fn taken_rtt(name: Seq<char>, fixed: Option<i64>) -> i64 {
    match fixed {
        Some(rtt_ns) => rtt_ns,
        None => estimate(name),
    }
}

/// Round trips with those of the bridges replaced by what they are taken to be.
pub open spec fn with_rtts(
    pings: Map<Seq<char>, i64>,
    bridges: Seq<BridgeEntry>,
    fixed: Option<i64>,
) -> Map<Seq<char>, i64>
    decreases bridges.len(),
{
    if bridges.len() == 0 {
        pings
    } else {
        let name = bridges.last().name@;
        with_rtts(pings, bridges.drop_last(), fixed).insert(name, taken_rtt(name, fixed))
    }
}

/// A resolver that asks a router, with direct round trips by region.
pub struct SmartResolver {
    router: Router,
    direct_rtt_ns: RttTable,
}

impl SmartResolver {
    pub closed spec fn spec_router(self) -> Router {
        self.router
    }

    pub closed spec fn direct_rtts(self) -> Map<Seq<char>, i64> {
        self.direct_rtt_ns@
    }

    /// The direct round trip to an address, if its region's is known.
    pub open spec fn direct_rtt(self, ip: IpAddr) -> Option<i64> {
        match region_of(self.spec_router().ranges(), ip) {
            Some(region) => if self.direct_rtts().dom().contains(region) {
                Some(self.direct_rtts()[region])
            } else {
                None
            },
            None => None,
        }
    }

    /// The route for an address.
    pub open spec fn route(self, ip: IpAddr, now: u64) -> Route {
        picked(
            self.spec_router().cache(),
            ip,
            self.spec_router().fresh_decision(ip, self.direct_rtt(ip), now),
            now,
            self.spec_router().interval(),
        ).0
    }

    pub fn new(router: Router, direct_rtt_ns: RttTable) -> (resolver: SmartResolver)
        requires
            router.wf(),
        ensures
            resolver.wf(),
            resolver.spec_router() == router,
            resolver.direct_rtts() == direct_rtt_ns@,
    {
        SmartResolver { router, direct_rtt_ns }
    }

    pub fn router(&self) -> (router: &Router)
        ensures
            *router == self.spec_router(),
    {
        &self.router
    }

    /// Records the measured round trip to a bridge.
    pub fn record_client_to_bridge(&mut self, bridge_name: &str, rtt_ns: i64)
        requires
            old(self).wf(),
        ensures
            final(self).wf(),
            final(self).same_but_pings(*old(self)),
            final(self).spec_router().pings() == old(self).spec_router().pings().insert(
                bridge_name@,
                rtt_ns,
            ),
    {
        self.router.record_client_to_bridge(bridge_name, rtt_ns);
    }
}

impl SmartResolver {
    /// What recording round trips leaves as it was.
    pub open spec fn same_but_pings(self, other: SmartResolver) -> bool {
        &&& self.direct_rtts() == other.direct_rtts()
        &&& self.spec_router().spec_bridges() == other.spec_router().spec_bridges()
        &&& self.spec_router().ranges() == other.spec_router().ranges()
        &&& self.spec_router().cache() == other.spec_router().cache()
        &&& self.spec_router().margin() == other.spec_router().margin()
        &&& self.spec_router().interval() == other.spec_router().interval()
    }

    /// Records for every bridge what its round trip is taken to be.
    fn record_all(&mut self, fixed: Option<i64>)
        requires
            old(self).wf(),
        ensures
            final(self).wf(),
            final(self).same_but_pings(*old(self)),
            final(self).spec_router().pings() == with_rtts(
                old(self).spec_router().pings(),
                old(self).spec_router().spec_bridges(),
                fixed,
            ),
    {
        let ghost bridges = self.spec_router().spec_bridges();
        let mut i: usize = 0;
        assert(bridges.take(0) =~= Seq::<BridgeEntry>::empty());
        while i < self.router.bridges().len()
            invariant
                self.wf(),
                self.same_but_pings(*old(self)),
                bridges == old(self).spec_router().spec_bridges(),
                i <= bridges.len(),
                self.spec_router().pings() == with_rtts(
                    old(self).spec_router().pings(),
                    bridges.take(i as int),
                    fixed,
                ),
            decreases bridges.len() - i,
        {
            assert(bridges.take(i + 1).drop_last() =~= bridges.take(i as int));
            let name: String = self.router.bridges()[i].name.clone();
            let rtt_ns: i64 = match fixed {
                Some(rtt_ns) => rtt_ns,
                None => estimated_rtt(name.as_str()),
            };
            self.record_client_to_bridge(name.as_str(), rtt_ns);
            i += 1;
        }
        assert(bridges.take(i as int) =~= bridges);
    }

    /// Records, for every bridge, the round trip that is estimated by its name.
    pub fn record_estimates(&mut self)
        requires
            old(self).wf(),
        ensures
            final(self).wf(),
            final(self).same_but_pings(*old(self)),
            final(self).spec_router().pings() == with_rtts(
                old(self).spec_router().pings(),
                old(self).spec_router().spec_bridges(),
                None,
            ),
    {
        self.record_all(None);
    }

    /// Records the same round trip for every bridge, until it is measured.
    pub fn record_placeholders(&mut self)
        requires
            old(self).wf(),
        ensures
            final(self).wf(),
            final(self).same_but_pings(*old(self)),
            final(self).spec_router().pings() == with_rtts(
                old(self).spec_router().pings(),
                old(self).spec_router().spec_bridges(),
                Some(PLACEHOLDER_RTT_NS),
            ),
    {
        self.record_all(Some(PLACEHOLDER_RTT_NS));
    }
}

/// Packets are redirected to the local addresses of the bridges only.
pub proof fn packets_are_redirected_to_bridges(
    resolver: SmartResolver,
    dst: SocketAddr,
    protocol: Protocol,
    now: u64,
)
    requires
        resolver.wf(),
    ensures
        resolver.action(dst, protocol, now) matches RouteAction::RewriteTo(target)
            ==> resolver.spec_router().spec_bridges().map_values(
            |b: BridgeEntry| local_target(b),
        ).contains(target),
{
    let router = resolver.spec_router();
    let targets = router.spec_bridges().map_values(|b: BridgeEntry| local_target(b));
    picked_bridge_exists(router, dst.ip, resolver.direct_rtt(dst.ip), now);
    if let Route::ViaBridge(i) = resolver.route(dst.ip, now) {
        assert(targets[i as int] == local_target(router.spec_bridges()[i as int]));
    }
}

impl RouteResolver for SmartResolver {
    closed spec fn wf(&self) -> bool {
        self.router.wf()
    }

    open spec fn action(&self, dst: SocketAddr, protocol: Protocol, now: u64) -> RouteAction {
        match self.route(dst.ip, now) {
            Route::Direct => RouteAction::Passthrough,
            Route::ViaBridge(i) => RouteAction::RewriteTo(
                local_target(self.spec_router().spec_bridges()[i as int]),
            ),
        }
    }

    open spec fn leads_to(&self, after: Self, dst: SocketAddr, protocol: Protocol, now: u64) -> bool {
        let was = self.spec_router();
        let is = after.spec_router();
        &&& after.direct_rtts() == self.direct_rtts()
        &&& is.cache() == picked(
            was.cache(),
            dst.ip,
            was.fresh_decision(dst.ip, self.direct_rtt(dst.ip), now),
            now,
            was.interval(),
        ).1
        &&& is.spec_bridges() == was.spec_bridges()
        &&& is.pings() == was.pings()
        &&& is.ranges() == was.ranges()
        &&& is.margin() == was.margin()
        &&& is.interval() == was.interval()
    }

    fn resolve(&mut self, dst: SocketAddr, protocol: Protocol, now: u64) -> (action: RouteAction) {
        let direct: Option<i64> = match self.router.region_for(dst.ip) {
            Some(region) => self.direct_rtt_ns.get(region),
            None => None,
        };
        assert(direct == self.direct_rtt(dst.ip));
        match self.router.pick(dst, direct, now) {
            Route::Direct => RouteAction::Passthrough,
            Route::ViaBridge(i) => RouteAction::RewriteTo(
                SocketAddr {
                    ip: IpAddr::V4(LOCALHOST),
                    port: self.router.bridges()[i].listen_port,
                },
            ),
        }
    }
}

/// Traffic over a bridge goes to the bridge's own port of 127.0.0.1.
pub proof fn bridges_have_local_ports(bridge: BridgeEntry)
    ensures
        local_target(bridge).ip == IpAddr::V4((127 * 0x100_0000 + 1) as u32),
        local_target(bridge).port == bridge.listen_port,
{
}

/// The estimates: 22 ms to Dallas, 35 to New Jersey, 50 to Seattle, 110 to
/// Frankfurt, and 40 to any other bridge; the placeholder is 30 ms.
pub proof fn estimates_go_by_name(name: Seq<char>)
    ensures
        name == "dallas"@ ==> estimate(name) == 22 * 1_000_000,
        name == "nj"@ ==> estimate(name) == 35 * 1_000_000,
        name == "seattle"@ || name == "sea"@ ==> estimate(name) == 50 * 1_000_000,
        name == "frankfurt"@ || name == "fra"@ ==> estimate(name) == 110 * 1_000_000,
        name != "dallas"@ && name != "nj"@ && name != "seattle"@ && name != "sea"@ && name
            != "frankfurt"@ && name != "fra"@ ==> estimate(name) == 40 * 1_000_000,
        PLACEHOLDER_RTT_NS == 30 * 1_000_000,
{
    reveal_strlit("dallas");
    reveal_strlit("nj");
    reveal_strlit("seattle");
    reveal_strlit("sea");
    reveal_strlit("frankfurt");
    reveal_strlit("fra");
    assert("dallas"@[0] == 'd' && "nj"@[0] == 'n' && "seattle"@[0] == 's' && "sea"@[0] == 's'
        && "frankfurt"@[0] == 'f' && "fra"@[0] == 'f');
}

/// Recording what round trips are taken to be gives every bridge one, by its name
/// or the fixed one, and leaves other names alone.
pub proof fn every_bridge_gets_a_round_trip(
    pings: Map<Seq<char>, i64>,
    bridges: Seq<BridgeEntry>,
    fixed: Option<i64>,
    name: Seq<char>,
)
    ensures
        ({
            let after = with_rtts(pings, bridges, fixed);
            let listed = exists|i: int|
                0 <= i < bridges.len() && (#[trigger] bridges[i]).name@ == name;
            &&& listed ==> after.dom().contains(name)
            &&& listed ==> (fixed matches Some(rtt) ==> after[name] == rtt)
            &&& listed ==> (fixed is None ==> after[name] == estimate(name))
            &&& !listed ==> after.dom().contains(name) == pings.dom().contains(name)
            &&& !listed ==> after[name] == pings[name]
        }),
    decreases bridges.len(),
{
    if bridges.len() > 0 {
        let front = bridges.drop_last();
        let n = bridges.len() - 1;
        every_bridge_gets_a_round_trip(pings, front, fixed, name);
        assert(forall|i: int| 0 <= i < n ==> front[i] == bridges[i]);
        assert(bridges[n] == bridges.last());
        if exists|i: int| 0 <= i < front.len() && (#[trigger] front[i]).name@ == name {
            let i = choose|i: int| 0 <= i < front.len() && (#[trigger] front[i]).name@ == name;
            assert(bridges[i].name@ == name);
        }
    }
}

/// The direct round trip to an address is that of its region. An address for which
/// a bridge is picked is redirected to the bridge's own local port, whatever the
/// protocol; one that goes direct is left alone.
pub proof fn packets_follow_the_pick(
    resolver: SmartResolver,
    dst: SocketAddr,
    protocol: Protocol,
    now: u64,
)
    ensures
        ({
            let router = resolver.spec_router();
            let (route, _) = picked(
                router.cache(),
                dst.ip,
                router.fresh_decision(dst.ip, resolver.direct_rtt(dst.ip), now),
                now,
                router.interval(),
            );
            match route {
                Route::Direct => resolver.action(dst, protocol, now) == RouteAction::Passthrough,
                Route::ViaBridge(i) => resolver.action(dst, protocol, now)
                    == RouteAction::RewriteTo(
                    SocketAddr {
                        ip: IpAddr::V4(0x7F00_0001),
                        port: router.spec_bridges()[i as int].listen_port,
                    },
                ),
            }
        }),
        region_of(resolver.spec_router().ranges(), dst.ip) is None ==> resolver.direct_rtt(dst.ip)
            is None,
        region_of(resolver.spec_router().ranges(), dst.ip) matches Some(region) ==> {
            &&& resolver.direct_rtts().dom().contains(region) ==> resolver.direct_rtt(dst.ip)
                == Some(resolver.direct_rtts()[region])
            &&& !resolver.direct_rtts().dom().contains(region) ==> resolver.direct_rtt(dst.ip)
                is None
        },
{
}

/// Resolving a packet keeps the decision that was picked, and changes nothing else
/// of the resolver; recording round trips changes nothing but those.
pub proof fn resolving_keeps_the_pick(
    resolver: SmartResolver,
    after: SmartResolver,
    dst: SocketAddr,
    protocol: Protocol,
    now: u64,
)
    ensures
        resolver.leads_to(after, dst, protocol, now) ==> {
            let (was, is) = (resolver.spec_router(), after.spec_router());
            &&& is.cache() == picked(
                was.cache(),
                dst.ip,
                was.fresh_decision(dst.ip, resolver.direct_rtt(dst.ip), now),
                now,
                was.interval(),
            ).1
            &&& after.direct_rtts() == resolver.direct_rtts()
            &&& is.spec_bridges() == was.spec_bridges()
            &&& is.pings() == was.pings()
            &&& is.ranges() == was.ranges()
            &&& is.margin() == was.margin()
            &&& is.interval() == was.interval()
        },
        after.same_but_pings(resolver) ==> {
            let (was, is) = (resolver.spec_router(), after.spec_router());
            &&& after.direct_rtts() == resolver.direct_rtts()
            &&& is.spec_bridges() == was.spec_bridges()
            &&& is.ranges() == was.ranges()
            &&& is.cache() == was.cache()
            &&& is.margin() == was.margin()
            &&& is.interval() == was.interval()
        },
{
}

} // verus!
