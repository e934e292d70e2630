//! Packet capture and redirection.
//!
//! The model is destination NAT for selected flows:
//!
//! 1. For each outbound packet that a resolver redirects, the destination is
//!    rewritten to a local target, and the original destination is recorded
//!    under the packet's source port.
//! 2. For each inbound packet that comes back from the local target, the source
//!    is rewritten to the original destination, so that the game's socket sees
//!    the response as coming from the real game server.
//!
//! A capture works in one of two ways. By a fixed list of rules, the driver's
//! filter takes the packets that match a rule. By any other resolver, the filter
//! takes all outbound UDP packets but the client's own, and the resolver decides
//! on each.
//!
//! What a packet driver does with the packets, checksums among it, is outside.

use vstd::prelude::*;

use crate::addr::{IpAddr, SocketAddr};
use crate::bytes::{read_be, store_be};
use crate::table::{Stamped, Table};
use crate::text::{push_dec, push_dotted};
use vstd::slice::slice_to_vec;

verus! {

use crate::bytes::{
    be, be_value, four_bytes, lemma_be_len, lemma_be_value_bound, lemma_be_value_of_be,
    lemma_pow256_widths, two_bytes,
};
use crate::table::without_idle;
use crate::text::{dec, dotted};

/// A transport protocol that can be captured.
#[derive(Debug, Clone, Copy, PartialEq, Eq, Structural)]
pub enum Protocol {
    Tcp,
    Udp,
}

/// Packets to these ports of an address are redirected.
#[derive(Debug, Clone, Copy, PartialEq, Eq, Structural)]
pub struct RedirectRule {
    pub protocol: Protocol,
    pub dst_ip: IpAddr,
    /// Lowest and highest port, both included.
    pub dst_port_lo: u16,
    pub dst_port_hi: u16,
    /// Where to redirect to, typically a local port of the client.
    pub redirect_to_ip: IpAddr,
    pub redirect_to_port: u16,
}

impl RedirectRule {
    /// Whether the rule applies to packets of this sort.
    pub open spec fn applies(self, dst: SocketAddr, protocol: Protocol) -> bool {
        &&& self.protocol == protocol
        &&& self.dst_ip == dst.ip
        &&& self.dst_port_lo <= dst.port <= self.dst_port_hi
    }

    /// Where the rule redirects to.
    pub open spec fn spec_target(self) -> SocketAddr {
        SocketAddr { ip: self.redirect_to_ip, port: self.redirect_to_port }
    }

    pub fn target(&self) -> (target: SocketAddr)
        ensures
            target == self.spec_target(),
    {
        SocketAddr { ip: self.redirect_to_ip, port: self.redirect_to_port }
    }
}

#[derive(Debug)]
pub enum CaptureError {
    /// The driver could not be opened.
    DriverOpen(String),
    /// The driver refused the filter.
    FilterSyntax(String),
    Io(String),
    /// There is no capture on this platform.
    Unsupported,
    Other(String),
}

/// What a platform's capture has to offer. `start` returns once the capture is
/// running; `stop` is best-effort.
pub trait Redirector {
    fn start(&self) -> Result<(), CaptureError>;

    fn stop(&self) -> Result<(), CaptureError>;

    /// Counters for observability.
    fn stats(&self) -> RedirectStats;
}

#[derive(Debug, Clone, Copy, Default, PartialEq, Eq, Structural)]
pub struct RedirectStats {
    pub outbound_redirected: u64,
    pub inbound_rewritten: u64,
    pub dropped_unparseable: u64,
    pub active_flows: u64,
}

/// What is to be done with an outbound packet.
#[derive(Debug, Clone, Copy, PartialEq, Eq, Structural)]
pub enum RouteAction {
    /// Leave it alone.
    Passthrough,
    /// Send it to this address instead.
    RewriteTo(SocketAddr),
}

/// Decides, for each outbound packet, what is to be done with it.
pub trait RouteResolver: Sized {
    spec fn wf(&self) -> bool;

    /// The action for a packet of this sort at this time.
    spec fn action(&self, dst: SocketAddr, protocol: Protocol, now: u64) -> RouteAction;

    /// Whether resolving a packet of this sort at this time leaves the resolver
    /// as `after`.
    spec fn leads_to(&self, after: Self, dst: SocketAddr, protocol: Protocol, now: u64) -> bool;

    fn resolve(&mut self, dst: SocketAddr, protocol: Protocol, now: u64) -> (action: RouteAction)
        requires
            old(self).wf(),
        ensures
            final(self).wf(),
            action == old(self).action(dst, protocol, now),
            old(self).leads_to(*final(self), dst, protocol, now),
    ;
}

/// A resolver that goes by a fixed list of rules: the first that applies
/// decides.
#[derive(Debug)]
pub struct FixedResolver(pub Vec<RedirectRule>);

/// What a list of rules says of a packet: the first rule that applies decides.
pub open spec fn rule_action(rules: Seq<RedirectRule>, dst: SocketAddr, protocol: Protocol) -> RouteAction
    decreases rules.len(),
{
    if rules.len() == 0 {
        RouteAction::Passthrough
    } else if rules[0].applies(dst, protocol) {
        RouteAction::RewriteTo(rules[0].spec_target())
    } else {
        rule_action(rules.skip(1), dst, protocol)
    }
}

impl RouteResolver for FixedResolver {
    open spec fn wf(&self) -> bool {
        true
    }

    open spec fn action(&self, dst: SocketAddr, protocol: Protocol, now: u64) -> RouteAction {
        rule_action(self.0@, dst, protocol)
    }

    open spec fn leads_to(&self, after: Self, dst: SocketAddr, protocol: Protocol, now: u64) -> bool {
        after == *self
    }

    fn resolve(&mut self, dst: SocketAddr, protocol: Protocol, now: u64) -> (action: RouteAction) {
        let mut i: usize = 0;
        assert(self.0@.skip(0) =~= self.0@);
        while i < self.0.len()
            invariant
                *self == *old(self),
                i <= self.0@.len(),
                rule_action(self.0@, dst, protocol) == rule_action(
                    self.0@.skip(i as int),
                    dst,
                    protocol,
                ),
            decreases self.0@.len() - i,
        {
            let rule = self.0[i];
            if rule.protocol == protocol && rule.dst_ip == dst.ip && rule.dst_port_lo <= dst.port
                && dst.port <= rule.dst_port_hi {
                return RouteAction::RewriteTo(rule.target());
            }
            assert(self.0@.skip(i as int).skip(1) =~= self.0@.skip(i + 1));
            i += 1;
        }
        RouteAction::Passthrough
    }
}

/// The NAT entry of a flow, kept under the game's source port.
#[derive(Debug, Clone, Copy, PartialEq, Eq, Structural)]
pub struct FlowEntry {
    pub orig_dst_ip: u32,
    pub orig_dst_port: u16,
    /// Where outbound packets were redirected to.
    pub redirect_target: SocketAddr,
    pub last_seen: u64,
}

impl FlowEntry {
    /// The original destination.
    pub open spec fn spec_origin(self) -> SocketAddr {
        SocketAddr { ip: IpAddr::V4(self.orig_dst_ip), port: self.orig_dst_port }
    }

    pub fn origin(&self) -> (addr: SocketAddr)
        ensures
            addr == self.spec_origin(),
    {
        SocketAddr { ip: IpAddr::V4(self.orig_dst_ip), port: self.orig_dst_port }
    }

    /// The entry, seen again now.
    pub open spec fn seen_at(self, now: u64) -> FlowEntry {
        FlowEntry { last_seen: now, ..self }
    }
}

impl Stamped for FlowEntry {
    open spec fn spec_stamp(self) -> u64 {
        self.last_seen
    }

    fn stamp(&self) -> (at: u64) {
        self.last_seen
    }
}

// ---------- Packets ----------

/// What the redirection reads of an IPv4 packet.
#[derive(Debug, Clone, Copy, PartialEq, Eq, Structural)]
pub struct PacketInfo {
    pub header_len: usize,
    pub protocol: Protocol,
    pub src_ip: u32,
    pub dst_ip: u32,
    pub src_port: u16,
    pub dst_port: u16,
}

/// What the bytes of a packet say: IPv4, a header of at least 20 bytes, and TCP
/// or UDP behind it with at least 8 bytes.
pub open spec fn packet_info(data: Seq<u8>) -> Option<PacketInfo> {
    let header_len = (data[0] % 16 * 4) as int;
    if data.len() < 28 || data[0] / 16 != 4 || data[0] % 16 < 5 || data.len() < header_len + 8 || (
    data[9] != 6 && data[9] != 17) {
        None
    } else {
        Some(
            PacketInfo {
                header_len: header_len as usize,
                protocol: if data[9] == 6 {
                    Protocol::Tcp
                } else {
                    Protocol::Udp
                },
                src_ip: be_value(data.subrange(12, 16)) as u32,
                dst_ip: be_value(data.subrange(16, 20)) as u32,
                src_port: be_value(data.subrange(header_len, header_len + 2)) as u16,
                dst_port: be_value(data.subrange(header_len + 2, header_len + 4)) as u16,
            },
        )
    }
}

/// A packet with its destination replaced.
pub open spec fn with_destination(data: Seq<u8>, header_len: int, ip: u32, port: u16) -> Seq<u8> {
    data.take(16) + be(ip as nat, 4) + data.subrange(20, header_len + 2) + be(port as nat, 2)
        + data.skip(header_len + 4)
}

/// A packet with its source replaced.
pub open spec fn with_source(data: Seq<u8>, header_len: int, ip: u32, port: u16) -> Seq<u8> {
    data.take(12) + be(ip as nat, 4) + data.subrange(16, header_len) + be(port as nat, 2)
        + data.skip(header_len + 2)
}

/// Replacing the destination changes the destination, and nothing else that is
/// read of a packet.
pub proof fn destination_is_replaced(data: Seq<u8>, ip: u32, port: u16)
    ensures
        packet_info(data) matches Some(info) ==> packet_info(
            with_destination(data, info.header_len as int, ip, port),
        ) == Some(PacketInfo { dst_ip: ip, dst_port: port, ..info }),
{
    broadcast use lemma_be_len;

    if let Some(info) = packet_info(data) {
        let h = info.header_len as int;
        let out = with_destination(data, h, ip, port);
        lemma_pow256_widths();
        lemma_be_value_of_be(ip as nat, 4);
        lemma_be_value_of_be(port as nat, 2);
        assert(out.subrange(12, 16) =~= data.subrange(12, 16));
        assert(out.subrange(16, 20) =~= be(ip as nat, 4));
        assert(out.subrange(h, h + 2) =~= data.subrange(h, h + 2));
        assert(out.subrange(h + 2, h + 4) =~= be(port as nat, 2));
    }
}

/// Replacing the source changes the source, and nothing else that is read of a
/// packet.
pub proof fn source_is_replaced(data: Seq<u8>, ip: u32, port: u16)
    ensures
        packet_info(data) matches Some(info) ==> packet_info(
            with_source(data, info.header_len as int, ip, port),
        ) == Some(PacketInfo { src_ip: ip, src_port: port, ..info }),
{
    broadcast use lemma_be_len;

    if let Some(info) = packet_info(data) {
        let h = info.header_len as int;
        let out = with_source(data, h, ip, port);
        lemma_pow256_widths();
        lemma_be_value_of_be(ip as nat, 4);
        lemma_be_value_of_be(port as nat, 2);
        assert(out.subrange(12, 16) =~= be(ip as nat, 4));
        assert(out.subrange(16, 20) =~= data.subrange(16, 20));
        assert(out.subrange(h, h + 2) =~= be(port as nat, 2));
        assert(out.subrange(h + 2, h + 4) =~= data.subrange(h + 2, h + 4));
    }
}

/// Reads what the redirection needs of a packet.
pub fn read_packet(data: &[u8]) -> (info: Option<PacketInfo>)
    ensures
        info == packet_info(data@),
{
    if data.len() < 28 || data[0] / 16 != 4 || data[0] % 16 < 5 {
        return None;
    }
    let header_len: usize = (data[0] % 16) as usize * 4;
    if data.len() < header_len + 8 {
        return None;
    }
    let protocol = if data[9] == 6 {
        Protocol::Tcp
    } else if data[9] == 17 {
        Protocol::Udp
    } else {
        return None;
    };
    proof {
        let h = header_len as int;
        lemma_be_value_bound(data@.subrange(12, 16));
        lemma_be_value_bound(data@.subrange(16, 20));
        lemma_be_value_bound(data@.subrange(h, h + 2));
        lemma_be_value_bound(data@.subrange(h + 2, h + 4));
        lemma_pow256_widths();
    }
    Some(
        PacketInfo {
            header_len,
            protocol,
            src_ip: read_be(&data[12..16]) as u32,
            dst_ip: read_be(&data[16..20]) as u32,
            src_port: read_be(&data[header_len..header_len + 2]) as u16,
            dst_port: read_be(&data[header_len + 2..header_len + 4]) as u16,
        },
    )
}

/// The action, where it can be carried out: a packet is redirected to IPv4
/// addresses only.
pub open spec fn redirect_of(action: RouteAction) -> Option<(u32, SocketAddr)> {
    match action {
        RouteAction::RewriteTo(target) => match target.ip {
            IpAddr::V4(ip) => Some((ip, target)),
            IpAddr::V6(_) => None,
        },
        RouteAction::Passthrough => None,
    }
}

/// What becomes of an outbound packet, and of the flows, under an action.
pub open spec fn outbound_outcome(
    data: Seq<u8>,
    action: RouteAction,
    flows: Map<u16, FlowEntry>,
    now: u64,
) -> (Option<Seq<u8>>, Map<u16, FlowEntry>) {
    match (packet_info(data), redirect_of(action)) {
        (Some(info), Some((ip, target))) => (
            Some(with_destination(data, info.header_len as int, ip, target.port)),
            flows.insert(
                info.src_port,
                FlowEntry {
                    orig_dst_ip: info.dst_ip,
                    orig_dst_port: info.dst_port,
                    redirect_target: target,
                    last_seen: now,
                },
            ),
        ),
        _ => (None, flows),
    }
}

/// What becomes of an inbound packet, and of the flows.
pub open spec fn inbound_outcome(data: Seq<u8>, flows: Map<u16, FlowEntry>, now: u64) -> (
    Option<Seq<u8>>,
    Map<u16, FlowEntry>,
) {
    match packet_info(data) {
        Some(info) => if flows.dom().contains(info.dst_port) {
            let flow = flows[info.dst_port];
            (
                Some(
                    with_source(
                        data,
                        info.header_len as int,
                        flow.orig_dst_ip,
                        flow.orig_dst_port,
                    ),
                ),
                flows.insert(info.dst_port, flow.seen_at(now)),
            )
        } else {
            (None, flows)
        },
        None => (None, flows),
    }
}

/// A packet that is redirected goes to the target, and the flow remembers where
/// it was to go.
pub proof fn outbound_packet_goes_to_target(
    data: Seq<u8>,
    action: RouteAction,
    flows: Map<u16, FlowEntry>,
    now: u64,
)
    ensures
        match (outbound_outcome(data, action, flows, now), packet_info(data)) {
            ((Some(out), after), Some(info)) => {
                &&& redirect_of(action) matches Some((ip, target)) && packet_info(out) == Some(
                    PacketInfo { dst_ip: ip, dst_port: target.port, ..info },
                )
                &&& after.dom().contains(info.src_port)
                &&& after[info.src_port].spec_origin() == (SocketAddr {
                    ip: IpAddr::V4(info.dst_ip),
                    port: info.dst_port,
                })
            },
            ((None, after), _) => after == flows,
            _ => false,
        },
{
    if let (Some(info), Some((ip, target))) = (packet_info(data), redirect_of(action)) {
        destination_is_replaced(data, ip, target.port);
    }
}

/// A response undoes the redirection: if an outbound packet was redirected, a
/// packet that comes back to its source port appears to come from where the
/// outbound packet was to go, and is otherwise unchanged.
pub proof fn response_appears_from_origin(
    request: Seq<u8>,
    action: RouteAction,
    flows: Map<u16, FlowEntry>,
    sent_at: u64,
    response: Seq<u8>,
    received_at: u64,
)
    requires
        outbound_outcome(request, action, flows, sent_at).0 is Some,
        packet_info(response) is Some,
        packet_info(response)->Some_0.dst_port == packet_info(request)->Some_0.src_port,
    ensures
        ({
            let after = outbound_outcome(request, action, flows, sent_at).1;
            let sent = packet_info(request)->Some_0;
            let got = packet_info(response)->Some_0;
            inbound_outcome(response, after, received_at).0 matches Some(out) && packet_info(out)
                == Some(PacketInfo { src_ip: sent.dst_ip, src_port: sent.dst_port, ..got })
        }),
{
    let sent = packet_info(request)->Some_0;
    source_is_replaced(response, sent.dst_ip, sent.dst_port);
}

/// Rewrites a packet's destination.
fn replace_destination(data: &[u8], info: &PacketInfo, ip: u32, port: u16) -> (out: Vec<u8>)
    requires
        packet_info(data@) == Some(*info),
    ensures
        out@ == with_destination(data@, info.header_len as int, ip, port),
{
    broadcast use lemma_be_len;

    let mut out: Vec<u8> = slice_to_vec(data);
    store_be(&mut out, 16, ip as u128, 4);
    store_be(&mut out, info.header_len + 2, port as u128, 2);
    assert(out@ =~= with_destination(data@, info.header_len as int, ip, port));
    out
}

/// Rewrites a packet's source.
fn replace_source(data: &[u8], info: &PacketInfo, ip: u32, port: u16) -> (out: Vec<u8>)
    requires
        packet_info(data@) == Some(*info),
    ensures
        out@ == with_source(data@, info.header_len as int, ip, port),
{
    broadcast use lemma_be_len;

    let mut out: Vec<u8> = slice_to_vec(data);
    store_be(&mut out, 12, ip as u128, 4);
    store_be(&mut out, info.header_len, port as u128, 2);
    assert(out@ =~= with_source(data@, info.header_len as int, ip, port));
    out
}

/// The destination that a packet names.
pub open spec fn destination(info: PacketInfo) -> SocketAddr {
    SocketAddr { ip: IpAddr::V4(info.dst_ip), port: info.dst_port }
}

/// The action for an outbound packet; one that cannot be read is passed over.
pub open spec fn packet_action<R: RouteResolver>(resolver: R, data: Seq<u8>, now: u64) -> RouteAction {
    match packet_info(data) {
        Some(info) => resolver.action(destination(info), info.protocol, now),
        None => RouteAction::Passthrough,
    }
}

/// What becomes of a packet, and of the flows.
pub open spec fn packet_outcome<R: RouteResolver>(
    data: Seq<u8>,
    outbound: bool,
    resolver: R,
    flows: Map<u16, FlowEntry>,
    now: u64,
) -> (Option<Seq<u8>>, Map<u16, FlowEntry>) {
    if outbound {
        outbound_outcome(data, packet_action(resolver, data, now), flows, now)
    } else {
        inbound_outcome(data, flows, now)
    }
}

/// Whether a packet leaves the resolver as `after`: only outbound packets that
/// can be read are resolved.
pub open spec fn resolver_leads_to<R: RouteResolver>(
    resolver: R,
    after: R,
    data: Seq<u8>,
    outbound: bool,
    now: u64,
) -> bool {
    match packet_info(data) {
        Some(info) if outbound => resolver.leads_to(after, destination(info), info.protocol, now),
        _ => after == resolver,
    }
}

/// The bytes of a rewritten packet.
pub open spec fn packet_bytes(r: Option<Vec<u8>>) -> Option<Seq<u8>> {
    match r {
        Some(out) => Some(out@),
        None => None,
    }
}

/// Reads a packet and applies the redirection to it. Gives the rewritten
/// packet, or `None` where the packet is to be sent on as it is.
pub fn process_packet<R: RouteResolver>(
    data: &[u8],
    outbound: bool,
    resolver: &mut R,
    flows: &mut Table<u16, FlowEntry>,
    now: u64,
) -> (r: Option<Vec<u8>>)
    requires
        old(resolver).wf(),
        old(flows).wf(),
    ensures
        final(resolver).wf(),
        final(flows).wf(),
        (packet_bytes(r), final(flows)@) == packet_outcome(
            data@,
            outbound,
            *old(resolver),
            old(flows)@,
            now,
        ),
        resolver_leads_to(*old(resolver), *final(resolver), data@, outbound, now),
{
    let info = match read_packet(data) {
        Some(info) => info,
        None => {
            return None;
        },
    };
    if outbound {
        let dst = SocketAddr { ip: IpAddr::V4(info.dst_ip), port: info.dst_port };
        match resolver.resolve(dst, info.protocol, now) {
            RouteAction::RewriteTo(target) => match target.ip {
                IpAddr::V4(ip) => {
                    flows.insert(
                        info.src_port,
                        FlowEntry {
                            orig_dst_ip: info.dst_ip,
                            orig_dst_port: info.dst_port,
                            redirect_target: target,
                            last_seen: now,
                        },
                    );
                    Some(replace_destination(data, &info, ip, target.port))
                },
                IpAddr::V6(_) => None,
            },
            RouteAction::Passthrough => None,
        }
    } else {
        let flow = match flows.get(&info.dst_port) {
            Some(flow) => *flow,
            None => {
                return None;
            },
        };
        flows.insert(info.dst_port, FlowEntry { last_seen: now, ..flow });
        Some(replace_source(data, &info, flow.orig_dst_ip, flow.orig_dst_port))
    }
}

// ---------- The driver's filter ----------

/// The condition that a packet goes to an address.
pub open spec fn exclusion(ip: u32) -> Seq<char> {
    "ip.DstAddr == "@ + dotted(ip)
}

/// The condition that a packet comes from an address and port.
pub open spec fn source_clause(ip: u32, port: u16) -> Seq<char> {
    "(ip.SrcAddr == "@ + dotted(ip) + " and udp.SrcPort == "@ + dec(port as nat) + ")"@
}

/// The exclusions of a list of addresses. IPv6 addresses have none.
pub open spec fn exclusions(addrs: Seq<SocketAddr>) -> Seq<Seq<char>>
    decreases addrs.len(),
{
    if addrs.len() == 0 {
        Seq::empty()
    } else {
        match addrs.last().ip {
            IpAddr::V4(ip) => exclusions(addrs.drop_last()).push(exclusion(ip)),
            IpAddr::V6(_) => exclusions(addrs.drop_last()),
        }
    }
}

/// The source clauses of a list of addresses. IPv6 addresses have none.
pub open spec fn source_clauses(addrs: Seq<SocketAddr>) -> Seq<Seq<char>>
    decreases addrs.len(),
{
    if addrs.len() == 0 {
        Seq::empty()
    } else {
        match addrs.last().ip {
            IpAddr::V4(ip) => source_clauses(addrs.drop_last()).push(
                source_clause(ip, addrs.last().port),
            ),
            IpAddr::V6(_) => source_clauses(addrs.drop_last()),
        }
    }
}

/// Conditions of which one has to hold.
pub open spec fn alternatives(conditions: Seq<Seq<char>>) -> Seq<char>
    decreases conditions.len(),
{
    if conditions.len() == 0 {
        Seq::empty()
    } else if conditions.len() == 1 {
        conditions[0]
    } else {
        alternatives(conditions.drop_last()) + " or "@ + conditions.last()
    }
}

/// The filter of a capture whose resolver decides on every packet. Outbound it
/// takes every UDP packet but those to the bridges and to the redirect targets
/// themselves, which would loop; inbound, those that come from the redirect
/// targets.
pub open spec fn filter_text(bridges: Seq<SocketAddr>, targets: Seq<SocketAddr>) -> Seq<char> {
    let excluded = exclusions(bridges) + exclusions(targets);
    "(udp and outbound"@ + (if excluded.len() == 0 {
        Seq::empty()
    } else {
        " and not ("@ + alternatives(excluded) + ")"@
    }) + ") or (udp and inbound and ("@ + alternatives(source_clauses(targets)) + "))"@
}

/// What a filter calls a protocol.
pub open spec fn protocol_name(protocol: Protocol) -> Seq<char> {
    match protocol {
        Protocol::Tcp => "tcp"@,
        Protocol::Udp => "udp"@,
    }
}

/// The condition that a packet is of a protocol and goes to these ports of an
/// address.
pub open spec fn match_clause(protocol: Protocol, ip: u32, lo: u16, hi: u16) -> Seq<char> {
    let name = protocol_name(protocol);
    "("@ + name + " and ip.DstAddr == "@ + dotted(ip) + " and "@ + name + ".DstPort >= "@ + dec(
        lo as nat,
    ) + " and "@ + name + ".DstPort <= "@ + dec(hi as nat) + ")"@
}

/// The condition that a packet is of a protocol and comes from an address and
/// port.
pub open spec fn response_clause(protocol: Protocol, ip: u32, port: u16) -> Seq<char> {
    let name = protocol_name(protocol);
    "("@ + name + " and ip.SrcAddr == "@ + dotted(ip) + " and "@ + name + ".SrcPort == "@ + dec(
        port as nat,
    ) + ")"@
}

/// For each rule the condition that a packet matches it. Rules for IPv6
/// addresses have none.
pub open spec fn match_clauses(rules: Seq<RedirectRule>) -> Seq<Seq<char>>
    decreases rules.len(),
{
    if rules.len() == 0 {
        Seq::empty()
    } else {
        let r = rules.last();
        match r.dst_ip {
            IpAddr::V4(ip) => match_clauses(rules.drop_last()).push(
                match_clause(r.protocol, ip, r.dst_port_lo, r.dst_port_hi),
            ),
            IpAddr::V6(_) => match_clauses(rules.drop_last()),
        }
    }
}

/// For each rule the condition that a packet comes from where it redirects to.
/// Rules that redirect to IPv6 addresses have none.
pub open spec fn response_clauses(rules: Seq<RedirectRule>) -> Seq<Seq<char>>
    decreases rules.len(),
{
    if rules.len() == 0 {
        Seq::empty()
    } else {
        let r = rules.last();
        match r.redirect_to_ip {
            IpAddr::V4(ip) => response_clauses(rules.drop_last()).push(
                response_clause(r.protocol, ip, r.redirect_to_port),
            ),
            IpAddr::V6(_) => response_clauses(rules.drop_last()),
        }
    }
}

/// The condition that a packet does not go to an address, as a further one.
pub open spec fn difference(ip: u32) -> Seq<char> {
    " and ip.DstAddr != "@ + dotted(ip)
}

/// The conditions that a packet goes to none of a list of addresses. IPv6
/// addresses have none.
pub open spec fn differences(addrs: Seq<SocketAddr>) -> Seq<char>
    decreases addrs.len(),
{
    if addrs.len() == 0 {
        Seq::empty()
    } else {
        match addrs.last().ip {
            IpAddr::V4(ip) => differences(addrs.drop_last()) + difference(ip),
            IpAddr::V6(_) => differences(addrs.drop_last()),
        }
    }
}

/// The part of a filter by rules that takes outbound packets: those that match a
/// rule, but those to the bridges.
pub open spec fn outbound_part(bridges: Seq<SocketAddr>, rules: Seq<RedirectRule>) -> Seq<char> {
    "(outbound and ("@ + alternatives(match_clauses(rules)) + ")"@ + differences(bridges) + ")"@
}

/// The part of a filter by rules that takes inbound packets: those of a rule's
/// protocol that come from where the rule redirects to.
pub open spec fn inbound_part(rules: Seq<RedirectRule>) -> Seq<char> {
    "(inbound and ("@ + alternatives(response_clauses(rules)) + "))"@
}

/// The filter of a capture by rules. A part that no rule speaks of is left out;
/// without either, the filter takes nothing.
pub open spec fn rules_filter_text(bridges: Seq<SocketAddr>, rules: Seq<RedirectRule>) -> Seq<char> {
    let outbound = match_clauses(rules).len() > 0;
    let inbound = response_clauses(rules).len() > 0;
    if outbound && inbound {
        outbound_part(bridges, rules) + " or "@ + inbound_part(rules)
    } else if outbound {
        outbound_part(bridges, rules)
    } else if inbound {
        inbound_part(rules)
    } else {
        "false"@
    }
}

/// Every rule for IPv4 addresses is among those that the filter takes packets
/// by, and so is where it redirects to.
pub proof fn every_rule_is_captured(rules: Seq<RedirectRule>, r: RedirectRule)
    requires
        rules.contains(r),
    ensures
        r.dst_ip matches IpAddr::V4(ip) ==> match_clauses(rules).contains(
            match_clause(r.protocol, ip, r.dst_port_lo, r.dst_port_hi),
        ),
        r.redirect_to_ip matches IpAddr::V4(ip) ==> response_clauses(rules).contains(
            response_clause(r.protocol, ip, r.redirect_to_port),
        ),
    decreases rules.len(),
{
    let front = rules.drop_last();
    let i = choose|i: int| 0 <= i < rules.len() && rules[i] == r;
    if i == rules.len() - 1 {
        if let IpAddr::V4(ip) = r.dst_ip {
            assert(match_clauses(rules).last() == match_clause(
                r.protocol,
                ip,
                r.dst_port_lo,
                r.dst_port_hi,
            ));
        }
        if let IpAddr::V4(ip) = r.redirect_to_ip {
            assert(response_clauses(rules).last() == response_clause(
                r.protocol,
                ip,
                r.redirect_to_port,
            ));
        }
    } else {
        assert(front[i] == r);
        every_rule_is_captured(front, r);
        if let IpAddr::V4(ip) = r.dst_ip {
            let c = match_clause(r.protocol, ip, r.dst_port_lo, r.dst_port_hi);
            let k = choose|k: int|
                0 <= k < match_clauses(front).len() && match_clauses(front)[k] == c;
            assert(match_clauses(rules)[k] == c);
        }
        if let IpAddr::V4(ip) = r.redirect_to_ip {
            let c = response_clause(r.protocol, ip, r.redirect_to_port);
            let k = choose|k: int|
                0 <= k < response_clauses(front).len() && response_clauses(front)[k] == c;
            assert(response_clauses(rules)[k] == c);
        }
    }
}

/// The filter takes packets by nothing but rules.
pub proof fn only_rules_are_captured(rules: Seq<RedirectRule>, k: int)
    ensures
        0 <= k < match_clauses(rules).len() ==> exists|r: RedirectRule, ip: u32|
            rules.contains(r) && r.dst_ip == IpAddr::V4(ip) && match_clauses(rules)[k]
                == #[trigger] match_clause(r.protocol, ip, r.dst_port_lo, r.dst_port_hi),
        0 <= k < response_clauses(rules).len() ==> exists|r: RedirectRule, ip: u32|
            rules.contains(r) && r.redirect_to_ip == IpAddr::V4(ip) && response_clauses(rules)[k]
                == #[trigger] response_clause(r.protocol, ip, r.redirect_to_port),
    decreases rules.len(),
{
    if rules.len() > 0 {
        let front = rules.drop_last();
        let last = rules.last();
        only_rules_are_captured(front, k);
        assert(rules[rules.len() - 1] == last);
        assert forall|r: RedirectRule| front.contains(r) implies rules.contains(r) by {
            let i = choose|i: int| 0 <= i < front.len() && front[i] == r;
            assert(rules[i] == r);
        }
        if 0 <= k < match_clauses(front).len() {
            let (r, ip) = choose|r: RedirectRule, ip: u32|
                front.contains(r) && r.dst_ip == IpAddr::V4(ip) && match_clauses(front)[k]
                    == #[trigger] match_clause(r.protocol, ip, r.dst_port_lo, r.dst_port_hi);
            assert(match_clauses(rules)[k] == match_clause(
                r.protocol,
                ip,
                r.dst_port_lo,
                r.dst_port_hi,
            ));
        }
        if 0 <= k < response_clauses(front).len() {
            let (r, ip) = choose|r: RedirectRule, ip: u32|
                front.contains(r) && r.redirect_to_ip == IpAddr::V4(ip) && response_clauses(
                    front,
                )[k] == #[trigger] response_clause(r.protocol, ip, r.redirect_to_port);
            assert(response_clauses(rules)[k] == response_clause(
                r.protocol,
                ip,
                r.redirect_to_port,
            ));
        }
    }
}

proof fn lemma_exclusions_cover(addrs: Seq<SocketAddr>, addr: SocketAddr, ip: u32)
    requires
        addrs.contains(addr),
        addr.ip == IpAddr::V4(ip),
    ensures
        exclusions(addrs).contains(exclusion(ip)),
    decreases addrs.len(),
{
    let front = addrs.drop_last();
    let i = choose|i: int| 0 <= i < addrs.len() && addrs[i] == addr;
    if i == addrs.len() - 1 {
        assert(exclusions(addrs).last() == exclusion(ip));
    } else {
        assert(front[i] == addr);
        lemma_exclusions_cover(front, addr, ip);
        let listed = exclusions(front);
        let k = choose|k: int| 0 <= k < listed.len() && listed[k] == exclusion(ip);
        assert(exclusions(addrs)[k] == exclusion(ip));
    }
}

/// Where the resolver decides on every packet, what goes to a bridge or to a
/// redirect target is not captured outbound: its address is among those that the
/// filter excludes.
pub proof fn own_traffic_is_excluded(
    bridges: Seq<SocketAddr>,
    targets: Seq<SocketAddr>,
    addr: SocketAddr,
    ip: u32,
)
    requires
        bridges.contains(addr) || targets.contains(addr),
        addr.ip == IpAddr::V4(ip),
    ensures
        (exclusions(bridges) + exclusions(targets)).contains(exclusion(ip)),
{
    let (a, b) = (exclusions(bridges), exclusions(targets));
    if bridges.contains(addr) {
        lemma_exclusions_cover(bridges, addr, ip);
        let k = choose|k: int| 0 <= k < a.len() && a[k] == exclusion(ip);
        assert((a + b)[k] == exclusion(ip));
    } else {
        lemma_exclusions_cover(targets, addr, ip);
        let k = choose|k: int| 0 <= k < b.len() && b[k] == exclusion(ip);
        assert((a + b)[a.len() + k] == exclusion(ip));
    }
}

/// By rules, what goes to a bridge is not captured outbound: that it does not go
/// there is among the filter's conditions.
pub proof fn bridges_are_excluded_by_rules(
    bridges: Seq<SocketAddr>,
    addr: SocketAddr,
    ip: u32,
) -> (parts: (Seq<char>, Seq<char>))
    requires
        bridges.contains(addr),
        addr.ip == IpAddr::V4(ip),
    ensures
        differences(bridges) == parts.0 + difference(ip) + parts.1,
    decreases bridges.len(),
{
    let front = bridges.drop_last();
    let i = choose|i: int| 0 <= i < bridges.len() && bridges[i] == addr;
    if i == bridges.len() - 1 {
        assert(differences(bridges) =~= differences(front) + difference(ip) + Seq::empty());
        (differences(front), Seq::empty())
    } else {
        assert(front[i] == addr);
        let (before, behind) = bridges_are_excluded_by_rules(front, addr, ip);
        let rest = match bridges.last().ip {
            IpAddr::V4(last) => difference(last),
            IpAddr::V6(_) => Seq::empty(),
        };
        assert(differences(bridges) =~= before + difference(ip) + (behind + rest));
        (before, behind + rest)
    }
}

spec fn texts(list: Seq<String>) -> Seq<Seq<char>> {
    list.map_values(|s: String| s@)
}

fn push_exclusions(list: &mut Vec<String>, addrs: &Vec<SocketAddr>)
    ensures
        texts(final(list)@) == texts(old(list)@) + exclusions(addrs@),
{
    let mut i: usize = 0;
    assert(texts(list@) =~= texts(old(list)@) + exclusions(addrs@.take(0)));
    while i < addrs.len()
        invariant
            i <= addrs@.len(),
            texts(list@) == texts(old(list)@) + exclusions(addrs@.take(i as int)),
        decreases addrs@.len() - i,
    {
        let ghost so_far = texts(list@);
        assert(addrs@.take(i + 1).drop_last() =~= addrs@.take(i as int));
        if let IpAddr::V4(ip) = addrs[i].ip {
            let mut condition: String = "ip.DstAddr == ".to_owned();
            push_dotted(&mut condition, ip);
            list.push(condition);
            assert(texts(list@) =~= so_far.push(exclusion(ip)));
            assert(texts(list@) =~= texts(old(list)@) + exclusions(addrs@.take(i + 1)));
        }
        i += 1;
    }
    assert(addrs@.take(i as int) =~= addrs@);
}

fn list_source_clauses(addrs: &Vec<SocketAddr>) -> (list: Vec<String>)
    ensures
        texts(list@) == source_clauses(addrs@),
{
    let mut list: Vec<String> = Vec::new();
    let mut i: usize = 0;
    assert(texts(list@) =~= source_clauses(addrs@.take(0)));
    while i < addrs.len()
        invariant
            i <= addrs@.len(),
            texts(list@) == source_clauses(addrs@.take(i as int)),
        decreases addrs@.len() - i,
    {
        let ghost so_far = texts(list@);
        assert(addrs@.take(i + 1).drop_last() =~= addrs@.take(i as int));
        if let IpAddr::V4(ip) = addrs[i].ip {
            let mut condition: String = "(ip.SrcAddr == ".to_owned();
            push_dotted(&mut condition, ip);
            condition.append(" and udp.SrcPort == ");
            push_dec(&mut condition, addrs[i].port as u128);
            condition.append(")");
            list.push(condition);
            assert(texts(list@) =~= so_far.push(source_clause(ip, addrs@[i as int].port)));
        }
        i += 1;
    }
    assert(addrs@.take(i as int) =~= addrs@);
    list
}

fn name_of(protocol: Protocol) -> (name: &'static str)
    ensures
        name@ == protocol_name(protocol),
{
    match protocol {
        Protocol::Tcp => "tcp",
        Protocol::Udp => "udp",
    }
}

fn list_match_clauses(rules: &Vec<RedirectRule>) -> (list: Vec<String>)
    ensures
        texts(list@) == match_clauses(rules@),
{
    let mut list: Vec<String> = Vec::new();
    let mut i: usize = 0;
    assert(texts(list@) =~= match_clauses(rules@.take(0)));
    while i < rules.len()
        invariant
            i <= rules@.len(),
            texts(list@) == match_clauses(rules@.take(i as int)),
        decreases rules@.len() - i,
    {
        let ghost so_far = texts(list@);
        assert(rules@.take(i + 1).drop_last() =~= rules@.take(i as int));
        let r = rules[i];
        if let IpAddr::V4(ip) = r.dst_ip {
            let name = name_of(r.protocol);
            let mut clause: String = "(".to_owned();
            clause.append(name);
            clause.append(" and ip.DstAddr == ");
            push_dotted(&mut clause, ip);
            clause.append(" and ");
            clause.append(name);
            clause.append(".DstPort >= ");
            push_dec(&mut clause, r.dst_port_lo as u128);
            clause.append(" and ");
            clause.append(name);
            clause.append(".DstPort <= ");
            push_dec(&mut clause, r.dst_port_hi as u128);
            clause.append(")");
            list.push(clause);
            assert(texts(list@) =~= so_far.push(
                match_clause(r.protocol, ip, r.dst_port_lo, r.dst_port_hi),
            ));
        }
        i += 1;
    }
    assert(rules@.take(i as int) =~= rules@);
    list
}

fn list_response_clauses(rules: &Vec<RedirectRule>) -> (list: Vec<String>)
    ensures
        texts(list@) == response_clauses(rules@),
{
    let mut list: Vec<String> = Vec::new();
    let mut i: usize = 0;
    assert(texts(list@) =~= response_clauses(rules@.take(0)));
    while i < rules.len()
        invariant
            i <= rules@.len(),
            texts(list@) == response_clauses(rules@.take(i as int)),
        decreases rules@.len() - i,
    {
        let ghost so_far = texts(list@);
        assert(rules@.take(i + 1).drop_last() =~= rules@.take(i as int));
        let r = rules[i];
        if let IpAddr::V4(ip) = r.redirect_to_ip {
            let name = name_of(r.protocol);
            let mut clause: String = "(".to_owned();
            clause.append(name);
            clause.append(" and ip.SrcAddr == ");
            push_dotted(&mut clause, ip);
            clause.append(" and ");
            clause.append(name);
            clause.append(".SrcPort == ");
            push_dec(&mut clause, r.redirect_to_port as u128);
            clause.append(")");
            list.push(clause);
            assert(texts(list@) =~= so_far.push(
                response_clause(r.protocol, ip, r.redirect_to_port),
            ));
        }
        i += 1;
    }
    assert(rules@.take(i as int) =~= rules@);
    list
}

fn push_differences(text: &mut String, addrs: &Vec<SocketAddr>)
    ensures
        final(text)@ == old(text)@ + differences(addrs@),
{
    let mut i: usize = 0;
    assert(text@ =~= old(text)@ + differences(addrs@.take(0)));
    while i < addrs.len()
        invariant
            i <= addrs@.len(),
            text@ == old(text)@ + differences(addrs@.take(i as int)),
        decreases addrs@.len() - i,
    {
        assert(addrs@.take(i + 1).drop_last() =~= addrs@.take(i as int));
        if let IpAddr::V4(ip) = addrs[i].ip {
            text.append(" and ip.DstAddr != ");
            push_dotted(text, ip);
            assert(text@ =~= old(text)@ + differences(addrs@.take(i + 1)));
        }
        i += 1;
    }
    assert(addrs@.take(i as int) =~= addrs@);
}

/// The filter of a capture by rules.
fn rules_filter(bridges: &Vec<SocketAddr>, rules: &Vec<RedirectRule>) -> (filter: String)
    ensures
        filter@ == rules_filter_text(bridges@, rules@),
{
    let matches = list_match_clauses(rules);
    let responses = list_response_clauses(rules);
    assert(texts(matches@).len() == matches@.len());
    assert(texts(responses@).len() == responses@.len());
    if matches.len() == 0 && responses.len() == 0 {
        return "false".to_owned();
    }
    let mut filter: String = String::new();
    if matches.len() > 0 {
        filter.append("(outbound and (");
        filter.append(join_alternatives(&matches).as_str());
        filter.append(")");
        push_differences(&mut filter, bridges);
        filter.append(")");
        assert(filter@ =~= outbound_part(bridges@, rules@));
        if responses.len() > 0 {
            filter.append(" or ");
        }
    }
    if responses.len() > 0 {
        filter.append("(inbound and (");
        filter.append(join_alternatives(&responses).as_str());
        filter.append("))");
    }
    assert(filter@ =~= rules_filter_text(bridges@, rules@));
    filter
}

/// The filter of a capture whose resolver decides on every packet.
fn broad_filter(bridges: &Vec<SocketAddr>, targets: &Vec<SocketAddr>) -> (filter: String)
    ensures
        filter@ == filter_text(bridges@, targets@),
{
    let mut excluded: Vec<String> = Vec::new();
    push_exclusions(&mut excluded, bridges);
    push_exclusions(&mut excluded, targets);
    assert(texts(excluded@) =~= exclusions(bridges@) + exclusions(targets@));
    let mut filter: String = "(udp and outbound".to_owned();
    if excluded.len() > 0 {
        filter.append(" and not (");
        filter.append(join_alternatives(&excluded).as_str());
        filter.append(")");
    }
    filter.append(") or (udp and inbound and (");
    filter.append(join_alternatives(&list_source_clauses(targets)).as_str());
    filter.append("))");
    assert(filter@ =~= filter_text(bridges@, targets@));
    filter
}

fn join_alternatives(list: &Vec<String>) -> (text: String)
    ensures
        text@ == alternatives(texts(list@)),
{
    let ghost all = texts(list@);
    let mut text = String::new();
    let mut i: usize = 0;
    assert(text@ =~= alternatives(all.take(0)));
    while i < list.len()
        invariant
            i <= list@.len(),
            all == texts(list@),
            text@ == alternatives(all.take(i as int)),
        decreases list@.len() - i,
    {
        let ghost so_far = text@;
        proof {
            let next = all.take(i + 1);
            assert(next.drop_last() =~= all.take(i as int));
            assert(next.last() == list@[i as int]@);
        }
        if i > 0 {
            text.append(" or ");
        }
        text.append(list[i].as_str());
        assert(text@ =~= alternatives(all.take(i + 1)));
        i += 1;
    }
    assert(all.take(i as int) =~= all);
    text
}

// ---------- The capture ----------

/// How long a flow may be idle, in seconds.
pub const FLOW_IDLE_SECS: u64 = 120;

/// How long, in nanoseconds, the capture waits from one look for idle flows to
/// the next: 15 s.
pub const REAP_INTERVAL_NS: u64 = 15_000_000_000;

/// The state of a capture: what resolves packets, the flows, and the counters.
/// The packet driver is operated from outside.
pub struct WinDivertCapture<R: RouteResolver> {
    resolver: R,
    /// The rules, of a capture by rules.
    rules: Option<Vec<RedirectRule>>,
    redirect_targets: Vec<SocketAddr>,
    bridge_endpoints: Vec<SocketAddr>,
    flows: Table<u16, FlowEntry>,
    outbound_redirected: u64,
    inbound_rewritten: u64,
    dropped_unparseable: u64,
    running: bool,
    last_reap: u64,
}

/// The redirect targets of a list of rules.
pub open spec fn targets_of(rules: Seq<RedirectRule>) -> Seq<SocketAddr> {
    rules.map_values(|r: RedirectRule| r.spec_target())
}

/// A list of rules redirects to its redirect targets only.
pub proof fn rules_redirect_to_their_targets(
    rules: Seq<RedirectRule>,
    dst: SocketAddr,
    protocol: Protocol,
)
    ensures
        rule_action(rules, dst, protocol) matches RouteAction::RewriteTo(target) ==> targets_of(
            rules,
        ).contains(target),
    decreases rules.len(),
{
    if rules.len() > 0 {
        if rules[0].applies(dst, protocol) {
            assert(targets_of(rules)[0] == rules[0].spec_target());
        } else {
            rules_redirect_to_their_targets(rules.skip(1), dst, protocol);
            if let RouteAction::RewriteTo(target) = rule_action(rules.skip(1), dst, protocol) {
                let rest = targets_of(rules.skip(1));
                let k = choose|k: int| 0 <= k < rest.len() && rest[k] == target;
                assert(targets_of(rules)[k + 1] == target);
            }
        }
    }
}

impl WinDivertCapture<FixedResolver> {
    /// A capture by a fixed list of rules.
    pub fn new(rules: Vec<RedirectRule>) -> (capture: Self)
        ensures
            capture.wf(),
            capture.resolver().0@ == rules@,
            capture.fixed_rules() == Some(rules@),
            capture.targets() == targets_of(rules@),
            capture.bridges() == Seq::<SocketAddr>::empty(),
            capture.is_new(),
    {
        WinDivertCapture::with_rules(rules, Vec::new())
    }

    /// A capture by a fixed list of rules that leaves the traffic to some
    /// bridges alone.
    pub fn with_rules(rules: Vec<RedirectRule>, bridge_endpoints: Vec<SocketAddr>) -> (capture: Self)
        ensures
            capture.wf(),
            capture.resolver().0@ == rules@,
            capture.fixed_rules() == Some(rules@),
            capture.targets() == targets_of(rules@),
            capture.bridges() == bridge_endpoints@,
            capture.is_new(),
    {
        let mut copy: Vec<RedirectRule> = Vec::new();
        let mut targets: Vec<SocketAddr> = Vec::new();
        let mut i: usize = 0;
        while i < rules.len()
            invariant
                i <= rules@.len(),
                copy@ == rules@.take(i as int),
                targets@ == targets_of(rules@).take(i as int),
            decreases rules@.len() - i,
        {
            copy.push(rules[i]);
            targets.push(rules[i].target());
            assert(copy@ =~= rules@.take(i + 1));
            assert(targets@ =~= targets_of(rules@).take(i + 1));
            i += 1;
        }
        assert(copy@ =~= rules@);
        assert(targets@ =~= targets_of(rules@));
        let mut capture = WinDivertCapture::with_resolver(
            FixedResolver(rules),
            targets,
            bridge_endpoints,
        );
        capture.rules = Some(copy);
        capture
    }
}

impl<R: RouteResolver> WinDivertCapture<R> {
    pub closed spec fn wf(self) -> bool {
        self.flows.wf() && self.resolver.wf()
    }

    pub closed spec fn resolver(self) -> R {
        self.resolver
    }

    /// The rules of a capture by rules; `None` where the resolver decides on
    /// every packet.
    pub closed spec fn fixed_rules(self) -> Option<Seq<RedirectRule>> {
        match self.rules {
            Some(rules) => Some(rules@),
            None => None,
        }
    }

    pub closed spec fn targets(self) -> Seq<SocketAddr> {
        self.redirect_targets@
    }

    pub closed spec fn bridges(self) -> Seq<SocketAddr> {
        self.bridge_endpoints@
    }

    pub closed spec fn flows(self) -> Map<u16, FlowEntry> {
        self.flows@
    }

    pub closed spec fn spec_running(self) -> bool {
        self.running
    }

    pub closed spec fn last_reap(self) -> u64 {
        self.last_reap
    }

    /// The counters: redirected outbound, rewritten inbound, passed over.
    pub closed spec fn counters(self) -> (u64, u64, u64) {
        (self.outbound_redirected, self.inbound_rewritten, self.dropped_unparseable)
    }

    /// Nothing has been captured and nothing is running.
    pub open spec fn is_new(self) -> bool {
        &&& self.flows() == Map::<u16, FlowEntry>::empty()
        &&& self.counters() == (0u64, 0u64, 0u64)
        &&& !self.spec_running()
        &&& self.last_reap() == 0
    }

    /// The parts of the state that stay as they were made.
    pub open spec fn same_setup(self, other: Self) -> bool {
        &&& self.fixed_rules() == other.fixed_rules()
        &&& self.targets() == other.targets()
        &&& self.bridges() == other.bridges()
    }

    /// The filter of the driver.
    pub open spec fn filter(self) -> Seq<char> {
        match self.fixed_rules() {
            Some(rules) => rules_filter_text(self.bridges(), rules),
            None => filter_text(self.bridges(), self.targets()),
        }
    }

    /// A capture by any resolver, with the addresses it may redirect to and the
    /// bridges whose traffic is left alone.
    pub fn with_resolver(
        resolver: R,
        redirect_targets: Vec<SocketAddr>,
        bridge_endpoints: Vec<SocketAddr>,
    ) -> (capture: Self)
        requires
            resolver.wf(),
        ensures
            capture.wf(),
            capture.resolver() == resolver,
            capture.fixed_rules() is None,
            capture.targets() == redirect_targets@,
            capture.bridges() == bridge_endpoints@,
            capture.is_new(),
    {
        WinDivertCapture {
            resolver,
            rules: None,
            redirect_targets,
            bridge_endpoints,
            flows: Table::new(),
            outbound_redirected: 0,
            inbound_rewritten: 0,
            dropped_unparseable: 0,
            running: false,
            last_reap: 0,
        }
    }

    /// What resolves the packets.
    pub fn resolver_ref(&self) -> (resolver: &R)
        ensures
            *resolver == self.resolver(),
    {
        &self.resolver
    }

    /// The filter of the driver. Without redirect targets there is none, since
    /// no response could be captured.
    pub fn build_filter(&self) -> (r: Result<String, CaptureError>)
        ensures
            match r {
                Ok(filter) => self.targets().len() > 0 && filter@ == self.filter(),
                Err(CaptureError::Other(message)) => self.targets().len() == 0 && message@
                    == "no redirect targets — at least one is needed to capture inbound responses"@,
                Err(_) => false,
            },
    {
        if self.redirect_targets.len() == 0 {
            return Err(
                CaptureError::Other(
                    "no redirect targets — at least one is needed to capture inbound responses".to_owned(),
                ),
            );
        }
        let filter = match &self.rules {
            Some(rules) => rules_filter(&self.bridge_endpoints, rules),
            None => broad_filter(&self.bridge_endpoints, &self.redirect_targets),
        };
        Ok(filter)
    }

    /// Marks the capture as running, and gives the filter to open the driver
    /// with; `None` where it was running already. Where there is no filter, it is
    /// not started.
    pub fn start(&mut self, now: u64) -> (r: Result<Option<String>, CaptureError>)
        requires
            old(self).wf(),
        ensures
            final(self).wf(),
            final(self).spec_running() == (r is Ok),
            r is Err ==> *final(self) == *old(self),
            final(self).same_setup(*old(self)),
            final(self).resolver() == old(self).resolver(),
            final(self).flows() == old(self).flows(),
            final(self).counters() == old(self).counters(),
            final(self).last_reap() == (if r matches Ok(Some(_)) {
                now
            } else {
                old(self).last_reap()
            }),
            match r {
                Ok(None) => old(self).spec_running(),
                Ok(Some(filter)) => {
                    &&& !old(self).spec_running()
                    &&& old(self).targets().len() > 0
                    &&& filter@ == old(self).filter()
                },
                Err(CaptureError::Other(message)) => {
                    &&& !old(self).spec_running()
                    &&& old(self).targets().len() == 0
                    &&& message@
                        == "no redirect targets — at least one is needed to capture inbound responses"@
                },
                Err(_) => false,
            },
    {
        if self.running {
            return Ok(None);
        }
        match self.build_filter() {
            Ok(filter) => {
                self.running = true;
                self.last_reap = now;
                Ok(Some(filter))
            },
            Err(e) => Err(e),
        }
    }

    /// Marks the capture as stopped.
    pub fn stop(&mut self)
        requires
            old(self).wf(),
        ensures
            final(self).wf(),
            !final(self).spec_running(),
            final(self).same_setup(*old(self)),
            final(self).resolver() == old(self).resolver(),
            final(self).flows() == old(self).flows(),
            final(self).counters() == old(self).counters(),
            final(self).last_reap() == old(self).last_reap(),
    {
        self.running = false;
    }

    pub fn is_running(&self) -> (running: bool)
        ensures
            running == self.spec_running(),
    {
        self.running
    }

    /// The counters, and how many flows there are.
    pub fn stats(&self) -> (stats: RedirectStats)
        requires
            self.wf(),
        ensures
            (stats.outbound_redirected, stats.inbound_rewritten, stats.dropped_unparseable)
                == self.counters(),
            stats.active_flows == self.flows().len(),
    {
        RedirectStats {
            outbound_redirected: self.outbound_redirected,
            inbound_rewritten: self.inbound_rewritten,
            dropped_unparseable: self.dropped_unparseable,
            active_flows: self.flows.len() as u64,
        }
    }

    /// Where the game meant to send what it sent from a port.
    pub fn flow_origin(&self, game_src_port: u16) -> (origin: Option<SocketAddr>)
        requires
            self.wf(),
        ensures
            origin == (if self.flows().dom().contains(game_src_port) {
                Some(self.flows()[game_src_port].spec_origin())
            } else {
                None
            }),
    {
        match self.flows.get(&game_src_port) {
            Some(flow) => Some(flow.origin()),
            None => None,
        }
    }

    /// All source ports with a flow, each once, with the original destination.
    pub fn active_flows(&self) -> (list: Vec<(u16, SocketAddr)>)
        requires
            self.wf(),
        ensures
            list@.map_values(|f: (u16, SocketAddr)| f.0).no_duplicates(),
            list@.map_values(|f: (u16, SocketAddr)| f.0).to_set() == self.flows().dom(),
            forall|i: int|
                0 <= i < list@.len() ==> (#[trigger] list@[i]).1
                    == self.flows()[list@[i].0].spec_origin(),
    {
        let ports = self.flows.keys();
        let mut list: Vec<(u16, SocketAddr)> = Vec::new();
        let mut i: usize = 0;
        while i < ports.len()
            invariant
                self.wf(),
                ports@.to_set() == self.flows().dom(),
                i <= ports@.len(),
                list@.len() == i,
                forall|j: int|
                    0 <= j < i ==> (#[trigger] list@[j]).0 == ports@[j] && list@[j].1
                        == self.flows()[ports@[j]].spec_origin(),
            decreases ports@.len() - i,
        {
            let port: u16 = ports[i];
            assert(ports@.to_set().contains(port));
            if let Some(flow) = self.flows.get(&port) {
                list.push((port, flow.origin()));
            }
            i += 1;
        }
        assert(list@.map_values(|f: (u16, SocketAddr)| f.0) =~= ports@);
        list
    }

    /// Takes a captured packet. Gives what it is rewritten to; `None` where it
    /// is to be sent on as it is, which is counted.
    pub fn take_packet(&mut self, data: &[u8], outbound: bool, now: u64) -> (r: Option<Vec<u8>>)
        requires
            old(self).wf(),
        ensures
            final(self).wf(),
            final(self).same_setup(*old(self)),
            final(self).spec_running() == old(self).spec_running(),
            final(self).last_reap() == old(self).last_reap(),
            (packet_bytes(r), final(self).flows()) == packet_outcome(
                data@,
                outbound,
                old(self).resolver(),
                old(self).flows(),
                now,
            ),
            resolver_leads_to(
                old(self).resolver(),
                final(self).resolver(),
                data@,
                outbound,
                now,
            ),
            final(self).counters().0 == old(self).counters().0,
            final(self).counters().1 == old(self).counters().1,
            final(self).counters().2 == (if r is None {
                old(self).counters().2.wrapping_add(1)
            } else {
                old(self).counters().2
            }),
    {
        let r = process_packet(data, outbound, &mut self.resolver, &mut self.flows, now);
        if r.is_none() {
            self.dropped_unparseable = self.dropped_unparseable.wrapping_add(1);
        }
        r
    }

    /// Counts a packet that was rewritten and whose checksums are right again.
    pub fn count_rewritten(&mut self, outbound: bool)
        requires
            old(self).wf(),
        ensures
            final(self).wf(),
            final(self).same_setup(*old(self)),
            final(self).resolver() == old(self).resolver(),
            final(self).flows() == old(self).flows(),
            final(self).spec_running() == old(self).spec_running(),
            final(self).last_reap() == old(self).last_reap(),
            final(self).counters() == (if outbound {
                (
                    old(self).counters().0.wrapping_add(1),
                    old(self).counters().1,
                    old(self).counters().2,
                )
            } else {
                (
                    old(self).counters().0,
                    old(self).counters().1.wrapping_add(1),
                    old(self).counters().2,
                )
            }),
    {
        if outbound {
            self.outbound_redirected = self.outbound_redirected.wrapping_add(1);
        } else {
            self.inbound_rewritten = self.inbound_rewritten.wrapping_add(1);
        }
    }

    /// Drops the idle flows, once the last look for them is more than 15 s ago;
    /// how many were dropped.
    pub fn reap_flows(&mut self, now: u64) -> (dropped: usize)
        requires
            old(self).wf(),
        ensures
            final(self).wf(),
            final(self).same_setup(*old(self)),
            final(self).resolver() == old(self).resolver(),
            final(self).spec_running() == old(self).spec_running(),
            final(self).counters() == old(self).counters(),
            ({
                let due = now > old(self).last_reap() + REAP_INTERVAL_NS;
                &&& final(self).flows() == (if due {
                    without_idle(old(self).flows(), now, FLOW_IDLE_SECS)
                } else {
                    old(self).flows()
                })
                &&& final(self).last_reap() == (if due {
                    now
                } else {
                    old(self).last_reap()
                })
                &&& dropped == old(self).flows().dom().difference(final(self).flows().dom()).len()
            }),
    {
        if now as u128 > self.last_reap as u128 + REAP_INTERVAL_NS as u128 {
            let dropped = self.flows.drop_idle(now, FLOW_IDLE_SECS);
            self.last_reap = now;
            proof {
                dropped@.unique_seq_to_set();
            }
            dropped.len()
        } else {
            assert(self.flows@.dom().difference(self.flows@.dom()) =~= Set::<u16>::empty());
            0
        }
    }
}

// ---------- What the redirection does to packets and flows ----------

/// Replacing the destination is a change of six bytes: the four of the address
/// and the two of the port. The packet keeps its length and every other byte.
pub proof fn destination_is_six_bytes(data: Seq<u8>, ip: u32, port: u16, i: int)
    ensures
        packet_info(data) matches Some(info) ==> {
            let h = info.header_len as int;
            let out = with_destination(data, h, ip, port);
            &&& out.len() == data.len()
            &&& 0 <= i < data.len() && !(16 <= i < 20) && !(h + 2 <= i < h + 4) ==> out[i]
                == data[i]
            &&& out[16] * 0x100_0000 + out[17] * 0x1_0000 + out[18] * 0x100 + out[19] == ip
            &&& out[h + 2] * 0x100 + out[h + 3] == port
        },
{
    broadcast use lemma_be_len;

    if let Some(info) = packet_info(data) {
        let h = info.header_len as int;
        let out = with_destination(data, h, ip, port);
        lemma_address_bytes(out, 16, ip);
        lemma_port_bytes(out, h + 2, port);
        assert(out.subrange(16, 20) =~= be(ip as nat, 4));
        assert(out.subrange(h + 2, h + 4) =~= be(port as nat, 2));
    }
}

/// Replacing the source is a change of six bytes: the four of the address and
/// the two of the port. The packet keeps its length and every other byte.
pub proof fn source_is_six_bytes(data: Seq<u8>, ip: u32, port: u16, i: int)
    ensures
        packet_info(data) matches Some(info) ==> {
            let h = info.header_len as int;
            let out = with_source(data, h, ip, port);
            &&& out.len() == data.len()
            &&& 0 <= i < data.len() && !(12 <= i < 16) && !(h <= i < h + 2) ==> out[i] == data[i]
            &&& out[12] * 0x100_0000 + out[13] * 0x1_0000 + out[14] * 0x100 + out[15] == ip
            &&& out[h] * 0x100 + out[h + 1] == port
        },
{
    broadcast use lemma_be_len;

    if let Some(info) = packet_info(data) {
        let h = info.header_len as int;
        let out = with_source(data, h, ip, port);
        lemma_address_bytes(out, 12, ip);
        lemma_port_bytes(out, h, port);
        assert(out.subrange(12, 16) =~= be(ip as nat, 4));
        assert(out.subrange(h, h + 2) =~= be(port as nat, 2));
    }
}

proof fn lemma_address_bytes(s: Seq<u8>, at: int, ip: u32)
    ensures
        0 <= at && at + 4 <= s.len() && s.subrange(at, at + 4) == be(ip as nat, 4) ==> s[at]
            * 0x100_0000 + s[at + 1] * 0x1_0000 + s[at + 2] * 0x100 + s[at + 3] == ip,
{
    if 0 <= at && at + 4 <= s.len() {
        four_bytes(s.subrange(at, at + 4));
        lemma_pow256_widths();
        lemma_be_value_of_be(ip as nat, 4);
    }
}

proof fn lemma_port_bytes(s: Seq<u8>, at: int, port: u16)
    ensures
        0 <= at && at + 2 <= s.len() && s.subrange(at, at + 2) == be(port as nat, 2) ==> s[at]
            * 0x100 + s[at + 1] == port,
{
    if 0 <= at && at + 2 <= s.len() {
        two_bytes(s.subrange(at, at + 2));
        lemma_pow256_widths();
        lemma_be_value_of_be(port as nat, 2);
    }
}

/// A packet is read exactly where it is IPv4 with a header of at least five
/// words, holds TCP or UDP, and has eight bytes behind its header. Addresses
/// stand at bytes 12 and 16, ports behind the header.
pub proof fn packets_are_read_by_their_bytes(data: Seq<u8>)
    requires
        data.len() >= 28,
    ensures
        ({
            let h = (data[0] % 16) * 4;
            let readable = data[0] / 16 == 4 && h >= 20 && data.len() >= h + 8 && (data[9] == 6
                || data[9] == 17);
            &&& packet_info(data) is Some <==> readable
            &&& packet_info(data) matches Some(info) ==> {
                &&& info.header_len == h
                &&& info.protocol == Protocol::Tcp <==> data[9] == 6
                &&& info.src_ip == data[12] * 0x100_0000 + data[13] * 0x1_0000 + data[14] * 0x100
                    + data[15]
                &&& info.dst_ip == data[16] * 0x100_0000 + data[17] * 0x1_0000 + data[18] * 0x100
                    + data[19]
                &&& info.src_port == data[h as int] * 0x100 + data[h + 1]
                &&& info.dst_port == data[h + 2] * 0x100 + data[h + 3]
            }
        }),
{
    if let Some(info) = packet_info(data) {
        let h = info.header_len as int;
        four_bytes(data.subrange(12, 16));
        four_bytes(data.subrange(16, 20));
        two_bytes(data.subrange(h, h + 2));
        two_bytes(data.subrange(h + 2, h + 4));
    }
}

/// Packets of fewer than 28 bytes are not read.
pub proof fn short_packets_are_passed_over(data: Seq<u8>)
    requires
        data.len() < 28,
    ensures
        packet_info(data) is None,
{
}

/// An outbound packet is redirected exactly where it can be read and is to go to
/// an IPv4 address. Its flow then has where it was to go, where it goes, and when
/// it was seen; no other flow changes.
pub proof fn redirection_is_recorded(
    data: Seq<u8>,
    action: RouteAction,
    flows: Map<u16, FlowEntry>,
    now: u64,
    other: u16,
)
    ensures
        ({
            let (out, after) = outbound_outcome(data, action, flows, now);
            match (packet_info(data), action) {
                (Some(info), RouteAction::RewriteTo(SocketAddr { ip: IpAddr::V4(ip), port })) => {
                    &&& out == Some(with_destination(data, info.header_len as int, ip, port))
                    &&& after.dom() == flows.dom().insert(info.src_port)
                    &&& after[info.src_port].orig_dst_ip == info.dst_ip
                    &&& after[info.src_port].orig_dst_port == info.dst_port
                    &&& after[info.src_port].redirect_target.ip == IpAddr::V4(ip)
                    &&& after[info.src_port].redirect_target.port == port
                    &&& after[info.src_port].last_seen == now
                    &&& other != info.src_port ==> after[other] == flows[other]
                },
                _ => out is None && after == flows,
            }
        }),
{
    if let Some(info) = packet_info(data) {
        let after = outbound_outcome(data, action, flows, now).1;
        if let RouteAction::RewriteTo(target) = action {
            if let IpAddr::V4(_) = target.ip {
                assert(after.dom() =~= flows.dom().insert(info.src_port));
            }
        }
    }
}

/// An inbound packet is rewritten exactly where it can be read and comes to a
/// port with a flow: it then appears to come from where the flow was to go. The
/// flow counts as seen, and nothing else of the flows changes.
pub proof fn responses_go_by_their_flow(
    data: Seq<u8>,
    flows: Map<u16, FlowEntry>,
    now: u64,
    other: u16,
)
    ensures
        ({
            let (out, after) = inbound_outcome(data, flows, now);
            match packet_info(data) {
                Some(info) if flows.dom().contains(info.dst_port) => {
                    let (was, is) = (flows[info.dst_port], after[info.dst_port]);
                    &&& out == Some(
                        with_source(
                            data,
                            info.header_len as int,
                            was.orig_dst_ip,
                            was.orig_dst_port,
                        ),
                    )
                    &&& after.dom() == flows.dom()
                    &&& is.orig_dst_ip == was.orig_dst_ip
                    &&& is.orig_dst_port == was.orig_dst_port
                    &&& is.redirect_target == was.redirect_target
                    &&& is.last_seen == now
                    &&& other != info.dst_port ==> after[other] == flows[other]
                },
                _ => out is None && after == flows,
            }
        }),
{
    if let Some(info) = packet_info(data) {
        let after = inbound_outcome(data, flows, now).1;
        if flows.dom().contains(info.dst_port) {
            assert(after.dom() =~= flows.dom());
        }
    }
}

/// An outbound packet that can be read is resolved by its destination and
/// protocol; no other packet asks the resolver, or changes it.
pub proof fn packets_are_resolved_by_destination<R: RouteResolver>(
    data: Seq<u8>,
    resolver: R,
    after: R,
    flows: Map<u16, FlowEntry>,
    now: u64,
)
    ensures
        packet_info(data) matches Some(info) ==> {
            let dst = SocketAddr { ip: IpAddr::V4(info.dst_ip), port: info.dst_port };
            &&& packet_outcome(data, true, resolver, flows, now) == outbound_outcome(
                data,
                resolver.action(dst, info.protocol, now),
                flows,
                now,
            )
            &&& resolver_leads_to(resolver, after, data, true, now) ==> resolver.leads_to(
                after,
                dst,
                info.protocol,
                now,
            )
        },
        packet_info(data) is None ==> packet_outcome(data, true, resolver, flows, now) == (
            None::<Seq<u8>>,
            flows,
        ),
        packet_info(data) is None && resolver_leads_to(resolver, after, data, true, now) ==> after
            == resolver,
        packet_outcome(data, false, resolver, flows, now) == inbound_outcome(data, flows, now),
        resolver_leads_to(resolver, after, data, false, now) ==> after == resolver,
{
}

/// The first rule of a packet's protocol, address and ports decides where it is
/// redirected to; where there is none, it is passed on.
pub proof fn first_rule_decides(
    rules: Seq<RedirectRule>,
    dst: SocketAddr,
    protocol: Protocol,
    i: int,
)
    ensures
        ({
            let fits = |k: int|
                rules[k].protocol == protocol && rules[k].dst_ip == dst.ip && rules[k].dst_port_lo
                    <= dst.port && dst.port <= rules[k].dst_port_hi;
            &&& 0 <= i < rules.len() && fits(i) && (forall|k: int|
                0 <= k < i ==> !#[trigger] fits(k)) ==> rule_action(rules, dst, protocol)
                == RouteAction::RewriteTo(
                SocketAddr { ip: rules[i].redirect_to_ip, port: rules[i].redirect_to_port },
            )
            &&& (forall|k: int| 0 <= k < rules.len() ==> !#[trigger] fits(k)) ==> rule_action(
                rules,
                dst,
                protocol,
            ) == RouteAction::Passthrough
        }),
    decreases rules.len(),
{
    let fits = |k: int|
        rules[k].protocol == protocol && rules[k].dst_ip == dst.ip && rules[k].dst_port_lo
            <= dst.port && dst.port <= rules[k].dst_port_hi;
    if rules.len() > 0 {
        let rest = rules.skip(1);
        let rest_fits = |k: int|
            rest[k].protocol == protocol && rest[k].dst_ip == dst.ip && rest[k].dst_port_lo
                <= dst.port && dst.port <= rest[k].dst_port_hi;
        assert(fits(0) == rules[0].applies(dst, protocol));
        assert forall|k: int| 0 <= k < rest.len() implies #[trigger] rest_fits(k) == fits(
            k + 1,
        ) by {}
        first_rule_decides(rest, dst, protocol, i - 1);
        if 0 < i < rules.len() && (forall|k: int| 0 <= k < i ==> !#[trigger] fits(k)) {
            assert forall|k: int| 0 <= k < i - 1 implies !#[trigger] rest_fits(k) by {
                assert(!fits(k + 1));
            }
        }
        if 0 < i < rules.len() {
            assert(rest_fits(i - 1) == fits(i));
        }
        if forall|k: int| 0 <= k < rules.len() ==> !#[trigger] fits(k) {
            assert forall|k: int| 0 <= k < rest.len() implies !#[trigger] rest_fits(k) by {
                assert(!fits(k + 1));
            }
        }
    }
}

/// A capture by rules resolves by its rules at every time, and is not changed by
/// it.
pub proof fn rules_do_not_change(
    resolver: FixedResolver,
    after: FixedResolver,
    dst: SocketAddr,
    protocol: Protocol,
    now: u64,
)
    ensures
        resolver.action(dst, protocol, now) == rule_action(resolver.0@, dst, protocol),
        resolver.leads_to(after, dst, protocol, now) ==> after == resolver,
{
}

/// A flow is dropped exactly where nothing was seen of it for more than 120 s,
/// and the others stay as they are. Idle flows are looked for every 15 s.
pub proof fn idle_flows_are_dropped(flows: Map<u16, FlowEntry>, now: u64, port: u16)
    ensures
        without_idle(flows, now, FLOW_IDLE_SECS).dom().contains(port) <==> flows.dom().contains(
            port,
        ) && now <= flows[port].last_seen + 120_000_000_000,
        without_idle(flows, now, FLOW_IDLE_SECS).dom().contains(port) ==> without_idle(
            flows,
            now,
            FLOW_IDLE_SECS,
        )[port] == flows[port],
        REAP_INTERVAL_NS == 15 * 1_000_000_000,
{
}

/// The origin of a flow is where its packets were to go, and a rule redirects to
/// the address and port that it names.
pub proof fn addresses_are_whole(flow: FlowEntry, rule: RedirectRule, rules: Seq<RedirectRule>, i: int)
    ensures
        flow.spec_origin().ip == IpAddr::V4(flow.orig_dst_ip),
        flow.spec_origin().port == flow.orig_dst_port,
        rule.spec_target().ip == rule.redirect_to_ip,
        rule.spec_target().port == rule.redirect_to_port,
        targets_of(rules).len() == rules.len(),
        0 <= i < rules.len() ==> targets_of(rules)[i].ip == rules[i].redirect_to_ip
            && targets_of(rules)[i].port == rules[i].redirect_to_port,
{
}

/// A capture that is new has no flows, has counted nothing and is not running;
/// one of the same setup has the same rules, targets and bridges, and so the
/// same filter.
pub proof fn setup_is_rules_targets_and_bridges<R: RouteResolver>(
    a: WinDivertCapture<R>,
    b: WinDivertCapture<R>,
)
    ensures
        a.is_new() ==> a.flows().dom() == Set::<u16>::empty() && a.counters() == (0u64, 0u64, 0u64)
            && !a.spec_running() && a.last_reap() == 0,
        a.same_setup(b) ==> a.fixed_rules() == b.fixed_rules() && a.targets() == b.targets()
            && a.bridges() == b.bridges() && a.filter() == b.filter(),
        a.fixed_rules() is None ==> a.filter() == filter_text(a.bridges(), a.targets()),
        a.fixed_rules() matches Some(rules) ==> a.filter() == rules_filter_text(
            a.bridges(),
            rules,
        ),
{
}

// ---------- What a filter says ----------

/// The conditions of a filter name the protocol, the address and the ports.
pub proof fn conditions_name_what_they_test(ip: u32, lo: u16, hi: u16)
    ensures
        exclusion(ip) == "ip.DstAddr == "@ + dotted(ip),
        difference(ip) == " and ip.DstAddr != "@ + dotted(ip),
        source_clause(ip, lo) == "(ip.SrcAddr == "@ + dotted(ip) + " and udp.SrcPort == "@ + dec(
            lo as nat,
        ) + ")"@,
        match_clause(Protocol::Udp, ip, lo, hi) == "(udp and ip.DstAddr == "@ + dotted(ip)
            + " and udp.DstPort >= "@ + dec(lo as nat) + " and udp.DstPort <= "@ + dec(hi as nat)
            + ")"@,
        match_clause(Protocol::Tcp, ip, lo, hi) == "(tcp and ip.DstAddr == "@ + dotted(ip)
            + " and tcp.DstPort >= "@ + dec(lo as nat) + " and tcp.DstPort <= "@ + dec(hi as nat)
            + ")"@,
        response_clause(Protocol::Udp, ip, lo) == "(udp and ip.SrcAddr == "@ + dotted(ip)
            + " and udp.SrcPort == "@ + dec(lo as nat) + ")"@,
        response_clause(Protocol::Tcp, ip, lo) == "(tcp and ip.SrcAddr == "@ + dotted(ip)
            + " and tcp.SrcPort == "@ + dec(lo as nat) + ")"@,
{
    reveal_strlit("(");
    reveal_strlit("udp");
    reveal_strlit("tcp");
    reveal_strlit(" and ");
    reveal_strlit(" and ip.DstAddr == ");
    reveal_strlit(" and ip.SrcAddr == ");
    reveal_strlit(".DstPort >= ");
    reveal_strlit(".DstPort <= ");
    reveal_strlit(".SrcPort == ");
    reveal_strlit("(udp and ip.DstAddr == ");
    reveal_strlit("(tcp and ip.DstAddr == ");
    reveal_strlit("(udp and ip.SrcAddr == ");
    reveal_strlit("(tcp and ip.SrcAddr == ");
    reveal_strlit(" and udp.DstPort >= ");
    reveal_strlit(" and tcp.DstPort >= ");
    reveal_strlit(" and udp.DstPort <= ");
    reveal_strlit(" and tcp.DstPort <= ");
    reveal_strlit(" and udp.SrcPort == ");
    reveal_strlit(" and tcp.SrcPort == ");
    assert("(udp and ip.DstAddr == "@ =~= "("@ + "udp"@ + " and ip.DstAddr == "@);
    assert("(tcp and ip.DstAddr == "@ =~= "("@ + "tcp"@ + " and ip.DstAddr == "@);
    assert("(udp and ip.SrcAddr == "@ =~= "("@ + "udp"@ + " and ip.SrcAddr == "@);
    assert("(tcp and ip.SrcAddr == "@ =~= "("@ + "tcp"@ + " and ip.SrcAddr == "@);
    assert(" and udp.DstPort >= "@ =~= " and "@ + "udp"@ + ".DstPort >= "@);
    assert(" and tcp.DstPort >= "@ =~= " and "@ + "tcp"@ + ".DstPort >= "@);
    assert(" and udp.DstPort <= "@ =~= " and "@ + "udp"@ + ".DstPort <= "@);
    assert(" and tcp.DstPort <= "@ =~= " and "@ + "tcp"@ + ".DstPort <= "@);
    assert(" and udp.SrcPort == "@ =~= " and "@ + "udp"@ + ".SrcPort == "@);
    assert(" and tcp.SrcPort == "@ =~= " and "@ + "tcp"@ + ".SrcPort == "@);
    assert(match_clause(Protocol::Udp, ip, lo, hi) =~= "(udp and ip.DstAddr == "@ + dotted(ip)
        + " and udp.DstPort >= "@ + dec(lo as nat) + " and udp.DstPort <= "@ + dec(hi as nat)
        + ")"@);
    assert(match_clause(Protocol::Tcp, ip, lo, hi) =~= "(tcp and ip.DstAddr == "@ + dotted(ip)
        + " and tcp.DstPort >= "@ + dec(lo as nat) + " and tcp.DstPort <= "@ + dec(hi as nat)
        + ")"@);
    assert(response_clause(Protocol::Udp, ip, lo) =~= "(udp and ip.SrcAddr == "@ + dotted(ip)
        + " and udp.SrcPort == "@ + dec(lo as nat) + ")"@);
    assert(response_clause(Protocol::Tcp, ip, lo) =~= "(tcp and ip.SrcAddr == "@ + dotted(ip)
        + " and tcp.SrcPort == "@ + dec(lo as nat) + ")"@);
}

/// The conditions of two lists of addresses, one behind the other, are those of
/// the one behind those of the other; an address alone has one condition, if it
/// is IPv4.
pub proof fn conditions_follow_the_addresses(
    a: Seq<SocketAddr>,
    b: Seq<SocketAddr>,
    ip: u32,
    v6: u128,
    port: u16,
)
    ensures
        exclusions(a + b) == exclusions(a) + exclusions(b),
        source_clauses(a + b) == source_clauses(a) + source_clauses(b),
        differences(a + b) == differences(a) + differences(b),
        exclusions(seq![SocketAddr { ip: IpAddr::V4(ip), port }]) == seq![exclusion(ip)],
        source_clauses(seq![SocketAddr { ip: IpAddr::V4(ip), port }]) == seq![
            source_clause(ip, port),
        ],
        differences(seq![SocketAddr { ip: IpAddr::V4(ip), port }]) == difference(ip),
        exclusions(seq![SocketAddr { ip: IpAddr::V6(v6), port }]) == Seq::<Seq<char>>::empty(),
        source_clauses(seq![SocketAddr { ip: IpAddr::V6(v6), port }]) == Seq::<Seq<char>>::empty(),
        differences(seq![SocketAddr { ip: IpAddr::V6(v6), port }]) == Seq::<char>::empty(),
    decreases b.len(),
{
    reveal_with_fuel(exclusions, 2);
    reveal_with_fuel(source_clauses, 2);
    reveal_with_fuel(differences, 2);
    let one = seq![SocketAddr { ip: IpAddr::V4(ip), port }];
    let none = seq![SocketAddr { ip: IpAddr::V6(v6), port }];
    assert(one.drop_last() =~= Seq::<SocketAddr>::empty());
    assert(none.drop_last() =~= Seq::<SocketAddr>::empty());
    assert(exclusions(one) =~= seq![exclusion(ip)]);
    assert(source_clauses(one) =~= seq![source_clause(ip, port)]);
    assert(differences(one) =~= difference(ip));
    if b.len() == 0 {
        assert(a + b =~= a);
    } else {
        conditions_follow_the_addresses(a, b.drop_last(), ip, v6, port);
        assert((a + b).drop_last() =~= a + b.drop_last());
    }
    assert(exclusions(a + b) =~= exclusions(a) + exclusions(b));
    assert(source_clauses(a + b) =~= source_clauses(a) + source_clauses(b));
    assert(differences(a + b) =~= differences(a) + differences(b));
}

/// The conditions of two lists of rules, one behind the other, are those of the
/// one behind those of the other; a rule alone has one condition of either sort,
/// by its fields, if the address is IPv4.
pub proof fn conditions_follow_the_rules(
    a: Seq<RedirectRule>,
    b: Seq<RedirectRule>,
    r: RedirectRule,
)
    ensures
        match_clauses(a + b) == match_clauses(a) + match_clauses(b),
        response_clauses(a + b) == response_clauses(a) + response_clauses(b),
        match_clauses(seq![r]) == (match r.dst_ip {
            IpAddr::V4(ip) => seq![match_clause(r.protocol, ip, r.dst_port_lo, r.dst_port_hi)],
            IpAddr::V6(_) => Seq::empty(),
        }),
        response_clauses(seq![r]) == (match r.redirect_to_ip {
            IpAddr::V4(ip) => seq![response_clause(r.protocol, ip, r.redirect_to_port)],
            IpAddr::V6(_) => Seq::empty(),
        }),
    decreases b.len(),
{
    reveal_with_fuel(match_clauses, 2);
    reveal_with_fuel(response_clauses, 2);
    assert(seq![r].drop_last() =~= Seq::<RedirectRule>::empty());
    if let IpAddr::V4(ip) = r.dst_ip {
        assert(match_clauses(seq![r]) =~= seq![
            match_clause(r.protocol, ip, r.dst_port_lo, r.dst_port_hi),
        ]);
    }
    if let IpAddr::V4(ip) = r.redirect_to_ip {
        assert(response_clauses(seq![r]) =~= seq![
            response_clause(r.protocol, ip, r.redirect_to_port),
        ]);
    }
    if b.len() == 0 {
        assert(a + b =~= a);
    } else {
        conditions_follow_the_rules(a, b.drop_last(), r);
        assert((a + b).drop_last() =~= a + b.drop_last());
    }
    assert(match_clauses(a + b) =~= match_clauses(a) + match_clauses(b));
    assert(response_clauses(a + b) =~= response_clauses(a) + response_clauses(b));
}

/// Conditions of which one has to hold stand with "or" between them.
pub proof fn alternatives_are_joined(a: Seq<Seq<char>>, b: Seq<Seq<char>>, c: Seq<char>)
    requires
        a.len() > 0,
        b.len() > 0,
    ensures
        alternatives(a + b) == alternatives(a) + " or "@ + alternatives(b),
        alternatives(seq![c]) == c,
        alternatives(Seq::<Seq<char>>::empty()) == Seq::<char>::empty(),
    decreases b.len(),
{
    assert((a + b).drop_last() =~= a + b.drop_last());
    if b.len() == 1 {
        assert(b.drop_last() =~= Seq::<Seq<char>>::empty());
        assert(a + b.drop_last() =~= a);
    } else {
        alternatives_are_joined(a, b.drop_last(), c);
    }
    assert(alternatives(a + b) =~= alternatives(a) + " or "@ + alternatives(b));
}

/// The filter of a capture that decides on every packet takes outbound UDP
/// packets, but for those that go to a bridge or a target, and inbound ones that
/// come from a target.
pub proof fn broad_filter_has_two_parts(bridges: Seq<SocketAddr>, targets: Seq<SocketAddr>)
    ensures
        ({
            let own = exclusions(bridges + targets);
            let inbound = ") or (udp and inbound and ("@ + alternatives(source_clauses(targets))
                + "))"@;
            &&& own.len() == 0 ==> filter_text(bridges, targets) == "(udp and outbound"@ + inbound
            &&& own.len() > 0 ==> filter_text(bridges, targets) == "(udp and outbound and not ("@
                + alternatives(own) + ")"@ + inbound
        }),
{
    conditions_follow_the_addresses(bridges, targets, 0, 0, 0);
    let own = exclusions(bridges + targets);
    let inbound = ") or (udp and inbound and ("@ + alternatives(source_clauses(targets)) + "))"@;
    reveal_strlit("(udp and outbound");
    reveal_strlit(" and not (");
    reveal_strlit("(udp and outbound and not (");
    assert("(udp and outbound and not ("@ =~= "(udp and outbound"@ + " and not ("@);
    if own.len() == 0 {
        assert(filter_text(bridges, targets) =~= "(udp and outbound"@ + inbound);
    } else {
        assert(filter_text(bridges, targets) =~= "(udp and outbound and not ("@ + alternatives(own)
            + ")"@ + inbound);
    }
}

/// The filter of a capture by rules takes outbound packets that match a rule and
/// go to no bridge, and inbound ones that come from where a rule redirects to; a
/// part without conditions is left out.
pub proof fn rule_filter_has_two_parts(bridges: Seq<SocketAddr>, rules: Seq<RedirectRule>)
    ensures
        ({
            let outbound = "(outbound and ("@ + alternatives(match_clauses(rules)) + ")"@
                + differences(bridges) + ")"@;
            let inbound = "(inbound and ("@ + alternatives(response_clauses(rules)) + "))"@;
            let some_out = match_clauses(rules).len() > 0;
            let some_in = response_clauses(rules).len() > 0;
            let text = rules_filter_text(bridges, rules);
            &&& some_out && some_in ==> text == outbound + " or "@ + inbound
            &&& some_out && !some_in ==> text == outbound
            &&& !some_out && some_in ==> text == inbound
            &&& !some_out && !some_in ==> text == "false"@
        }),
{
}

/// A rewritten packet is given byte for byte.
pub proof fn packets_are_given_whole(r: Option<Vec<u8>>)
    ensures
        r matches Some(out) ==> packet_bytes(r) == Some(out@),
        r is None ==> packet_bytes(r) is None,
{
}

} // verus!
