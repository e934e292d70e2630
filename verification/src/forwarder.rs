//! The client's forwarding rules.
//!
//! A rule listens on a local address and forwards what comes in over a bridge
//! to a fixed destination. For TCP rules each local connection becomes one
//! tunnel; for UDP rules each local source does.

use vstd::prelude::*;

use crate::addr::{IpAddr, SocketAddr};
use crate::capture::{Protocol, RedirectRule};
use crate::protocol::TransportProtocol;
use crate::smart::SmartRoutingConfig;
use crate::text::same_text;

verus! {

pub fn default_proto() -> (protocol: String)
    ensures
        protocol@ == "tcp"@,
{
    "tcp".to_owned()
}

pub fn default_udp_idle() -> (secs: u64)
    ensures
        secs == 90,
{
    90
}

#[derive(Debug)]
pub struct Rule {
    pub listen: SocketAddr,
    pub bridge: SocketAddr,
    pub bridge_x25519_pubkey_hex: String,
    pub license_token: String,
    pub dest_ip: IpAddr,
    pub dest_port: u16,
    /// "tcp" or "udp", for the local side and for the destination.
    pub protocol: String,
    /// For UDP rules: after how many idle seconds a session is dropped.
    pub udp_idle_secs: u64,
    /// Whether outbound traffic to the destination is captured and redirected
    /// to `listen`.
    pub capture: bool,
    /// The ports whose traffic is captured: by default the destination's port,
    /// and by default a single one.
    pub capture_dst_port_lo: Option<u16>,
    pub capture_dst_port_hi: Option<u16>,
    /// The address whose traffic is captured: by default the destination's.
    pub capture_dst_ip: Option<IpAddr>,
}

/// The configuration of a client.
#[derive(Debug)]
pub struct Config {
    pub rules: Vec<Rule>,
    /// Routing over several bridges. Where it is present, it replaces the
    /// rules.
    pub smart_routing: Option<SmartRoutingConfig>,
}

/// The protocol that a text names.
pub open spec fn protocol_named(text: Seq<char>) -> Option<Protocol> {
    if text == "tcp"@ {
        Some(Protocol::Tcp)
    } else if text == "udp"@ {
        Some(Protocol::Udp)
    } else {
        None
    }
}

impl Rule {
    /// The redirection that captures this rule's traffic, if it asks for one.
    /// A rule whose protocol is not known is passed over.
    pub open spec fn redirect(self) -> Option<RedirectRule> {
        match protocol_named(self.protocol@) {
            Some(protocol) if self.capture => {
                let lo = match self.capture_dst_port_lo {
                    Some(port) => port,
                    None => self.dest_port,
                };
                Some(
                    RedirectRule {
                        protocol,
                        dst_ip: match self.capture_dst_ip {
                            Some(ip) => ip,
                            None => self.dest_ip,
                        },
                        dst_port_lo: lo,
                        dst_port_hi: match self.capture_dst_port_hi {
                            Some(port) => port,
                            None => lo,
                        },
                        redirect_to_ip: self.listen.ip,
                        redirect_to_port: self.listen.port,
                    },
                )
            },
            _ => None,
        }
    }

    /// The redirection that captures this rule's traffic, if it asks for one.
    pub fn redirect_rule(&self) -> (r: Option<RedirectRule>)
        ensures
            r == self.redirect(),
    {
        if !self.capture {
            return None;
        }
        let protocol = match parse_protocol(self.protocol.as_str()) {
            Some(protocol) => protocol,
            None => {
                return None;
            },
        };
        let dst_ip = match self.capture_dst_ip {
            Some(ip) => ip,
            None => self.dest_ip,
        };
        let dst_port_lo: u16 = match self.capture_dst_port_lo {
            Some(port) => port,
            None => self.dest_port,
        };
        let dst_port_hi: u16 = match self.capture_dst_port_hi {
            Some(port) => port,
            None => dst_port_lo,
        };
        Some(
            RedirectRule {
                protocol,
                dst_ip,
                dst_port_lo,
                dst_port_hi,
                redirect_to_ip: self.listen.ip,
                redirect_to_port: self.listen.port,
            },
        )
    }

    /// How the rule transports, or the complaint that its protocol is not
    /// known.
    pub fn transport(&self) -> (r: Result<TransportProtocol, String>)
        ensures
            match r {
                Ok(transport) => protocol_named(self.protocol@) == Some(
                    match transport {
                        TransportProtocol::Tcp => Protocol::Tcp,
                        TransportProtocol::Udp => Protocol::Udp,
                    },
                ),
                Err(message) => {
                    &&& protocol_named(self.protocol@) is None
                    &&& message@ == "unknown protocol: "@ + self.protocol@
                },
            },
    {
        match parse_protocol(self.protocol.as_str()) {
            Some(Protocol::Tcp) => Ok(TransportProtocol::Tcp),
            Some(Protocol::Udp) => Ok(TransportProtocol::Udp),
            None => {
                let mut message: String = "unknown protocol: ".to_owned();
                message.append(self.protocol.as_str());
                Err(message)
            },
        }
    }

    /// The rule's destination.
    pub fn dest(&self) -> (dest: SocketAddr)
        ensures
            dest == (SocketAddr { ip: self.dest_ip, port: self.dest_port }),
    {
        SocketAddr { ip: self.dest_ip, port: self.dest_port }
    }
}

fn parse_protocol(text: &str) -> (r: Option<Protocol>)
    ensures
        r == protocol_named(text@),
{
    proof {
        reveal_strlit("tcp");
        reveal_strlit("udp");
    }
    if same_text(text, "tcp") {
        Some(Protocol::Tcp)
    } else if same_text(text, "udp") {
        Some(Protocol::Udp)
    } else {
        None
    }
}

/// The redirections that a list of rules asks for, in its order.
pub open spec fn redirects(rules: Seq<Rule>) -> Seq<RedirectRule>
    decreases rules.len(),
{
    if rules.len() == 0 {
        Seq::empty()
    } else {
        match rules.last().redirect() {
            Some(r) => redirects(rules.drop_last()).push(r),
            None => redirects(rules.drop_last()),
        }
    }
}

/// Collects the redirections that the rules ask for. Where there are none, no
/// capture is needed.
pub fn install_capture(rules: &[Rule]) -> (list: Vec<RedirectRule>)
    ensures
        list@ == redirects(rules@),
{
    let mut list: Vec<RedirectRule> = Vec::new();
    let mut i: usize = 0;
    assert(rules@.take(0) =~= Seq::<Rule>::empty());
    while i < rules.len()
        invariant
            i <= rules@.len(),
            list@ == redirects(rules@.take(i as int)),
        decreases rules@.len() - i,
    {
        assert(rules@.take(i + 1).drop_last() =~= rules@.take(i as int));
        if let Some(r) = rules[i].redirect_rule() {
            list.push(r);
        }
        i += 1;
    }
    assert(rules@.take(i as int) =~= rules@);
    list
}

impl Config {
    /// Lets the first rule listen elsewhere. There has to be one.
    pub fn override_listen(&mut self, listen: SocketAddr) -> (r: Result<(), String>)
        ensures
            match r {
                Ok(()) => {
                    &&& old(self).rules@.len() > 0
                    &&& final(self).rules@ == old(self).rules@.update(
                        0,
                        Rule { listen, ..old(self).rules@[0] },
                    )
                },
                Err(message) => {
                    &&& old(self).rules@.len() == 0
                    &&& final(self).rules@ == old(self).rules@
                    &&& message@ == "--listen given but no rules in config"@
                },
            },
            final(self).smart_routing == old(self).smart_routing,
    {
        if self.rules.len() == 0 {
            return Err("--listen given but no rules in config".to_owned());
        }
        self.rules[0].listen = listen;
        Ok(())
    }
}

/// A rule that asks for it is captured, if its protocol is known: from the address
/// and ports it names for that, or else from its destination's, to where it
/// listens. A lowest port alone is a range of one.
pub proof fn rule_captures_its_destination(rule: Rule)
    ensures
        rule.redirect() is Some <==> rule.capture && (rule.protocol@ == "tcp"@ || rule.protocol@
            == "udp"@),
        rule.redirect() matches Some(r) ==> {
            &&& r.protocol == Protocol::Tcp <==> rule.protocol@ == "tcp"@
            &&& r.dst_ip == (if let Some(ip) = rule.capture_dst_ip {
                ip
            } else {
                rule.dest_ip
            })
            &&& r.dst_port_lo == (if let Some(lo) = rule.capture_dst_port_lo {
                lo
            } else {
                rule.dest_port
            })
            &&& r.dst_port_hi == (if let Some(hi) = rule.capture_dst_port_hi {
                hi
            } else {
                r.dst_port_lo
            })
            &&& r.redirect_to_ip == rule.listen.ip
            &&& r.redirect_to_port == rule.listen.port
        },
        protocol_named("tcp"@) == Some(Protocol::Tcp),
        protocol_named("udp"@) == Some(Protocol::Udp),
        protocol_named(rule.protocol@) is Some ==> rule.protocol@ == "tcp"@ || rule.protocol@
            == "udp"@,
{
    reveal_strlit("tcp");
    reveal_strlit("udp");
    assert("tcp"@[0] != "udp"@[0]);
}

/// The redirections of two lists of rules, one behind the other, are those of each;
/// a rule alone has its own, if any.
pub proof fn redirections_follow_the_rules(a: Seq<Rule>, b: Seq<Rule>, rule: Rule)
    ensures
        redirects(a + b) == redirects(a) + redirects(b),
        rule.redirect() matches Some(r) ==> redirects(seq![rule]) == seq![r],
        rule.redirect() is None ==> redirects(seq![rule]) == Seq::<RedirectRule>::empty(),
    decreases b.len(),
{
    reveal_with_fuel(redirects, 2);
    assert(seq![rule].drop_last() =~= Seq::<Rule>::empty());
    if let Some(r) = rule.redirect() {
        assert(redirects(seq![rule]) =~= seq![r]);
    }
    if b.len() == 0 {
        assert(a + b =~= a);
    } else {
        redirections_follow_the_rules(a, b.drop_last(), rule);
        assert((a + b).drop_last() =~= a + b.drop_last());
    }
    assert(redirects(a + b) =~= redirects(a) + redirects(b));
}

} // verus!
