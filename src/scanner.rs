//! What a scan reports: the outcome of probing one address, and the events
//! a scan session delivers.
use vstd::prelude::*;

use crate::text::{join_ports, joined_ports};

verus! {

/// Result of probing a single address.
///
/// `alive == false` means no reply came: `ping` then carries no latency and
/// `ports` is empty.
#[derive(Debug, Clone)]
pub struct ScannedIp {
    pub alive: bool,
    pub ip: u32,
    /// Round-trip time in milliseconds.
    pub ping: u128,
    /// Open ports, in the order in which they were configured.
    pub ports: Vec<u16>,
}

/// The mathematical value of a [`ScannedIp`].
pub struct ScannedIpView {
    pub alive: bool,
    pub ip: u32,
    pub ping: u128,
    pub ports: Seq<u16>,
}

impl View for ScannedIp {
    type V = ScannedIpView;

    open spec fn view(&self) -> ScannedIpView {
        ScannedIpView { alive: self.alive, ip: self.ip, ping: self.ping, ports: self.ports@ }
    }
}

impl ScannedIpView {
    /// A host that did not answer has no open ports.
    pub open spec fn wf(self) -> bool {
        !self.alive ==> self.ports.len() == 0
    }
}

/// An event of a scan session.
#[derive(Debug, Clone)]
pub enum ScanMessage {
    /// The outcome of one probe.
    Result(ScannedIp),
    /// Every probe has resolved; nothing follows.
    Complete,
}

pub enum ScanMessageView {
    Result(ScannedIpView),
    Complete,
}

impl View for ScanMessage {
    type V = ScanMessageView;

    open spec fn view(&self) -> ScanMessageView {
        match self {
            ScanMessage::Result(s) => ScanMessageView::Result(s@),
            ScanMessage::Complete => ScanMessageView::Complete,
        }
    }
}

/// The text shown for the open ports of an outcome.
pub open spec fn ports_text(ports: Seq<u16>) -> Seq<char> {
    if ports.len() == 0 {
        "<none>"@
    } else {
        joined_ports(ports)
    }
}

impl ScannedIp {
    pub fn new(ip: u32, alive: bool, ping: u128, ports: Vec<u16>) -> (r: Self)
        requires
            !alive ==> ports@.len() == 0,
        ensures
            r@ == (ScannedIpView { alive, ip, ping, ports: ports@ }),
            r@.wf(),
    {
        ScannedIp { alive, ip, ping, ports }
    }

    /// The open ports as a comma-separated list, or `<none>`.
    pub fn ports_to_string(&self) -> (r: String)
        ensures
            r@ == ports_text(self.ports@),
    {
        if self.ports.len() == 0 {
            String::from_str("<none>")
        } else {
            join_ports(&self.ports)
        }
    }
}

/// The configured ports whose connection attempt succeeded, in order. A
/// port without a recorded attempt counts as closed.
pub open spec fn open_ports(ports: Seq<u16>, open: Seq<bool>) -> Seq<u16>
    decreases ports.len(),
{
    if ports.len() == 0 {
        seq![]
    } else {
        let rest = open_ports(ports.drop_last(), open);
        let i = ports.len() - 1;
        if i < open.len() && open[i] {
            rest.push(ports.last())
        } else {
            rest
        }
    }
}

/// The outcome of a probe of `ip`: no reply makes the host dead, with no
/// latency and no ports; a reply after `reply_ms` milliseconds makes it
/// alive with the ports whose connection succeeded.
pub open spec fn outcome(ip: u32, reply_ms: Option<u128>, ports: Seq<u16>, open: Seq<bool>) -> ScannedIpView {
    match reply_ms {
        Some(ms) => ScannedIpView { alive: true, ip, ping: ms, ports: open_ports(ports, open) },
        None => ScannedIpView { alive: false, ip, ping: 0, ports: seq![] },
    }
}

/// Builds the outcome of a probe of `ip` from the echo reply (its
/// round-trip time, or `None` on timeout or any transport failure) and
/// the result of a connection attempt to each of `ports`.
pub fn probe_outcome(ip: u32, reply_ms: Option<u128>, ports: &Vec<u16>, open: &Vec<bool>) -> (r: ScannedIp)
    ensures
        r@ == outcome(ip, reply_ms, ports@, open@),
        r@.wf(),
{
    match reply_ms {
        Some(ms) => {
            let mut found: Vec<u16> = Vec::new();
            let mut i: usize = 0;
            while i < ports.len()
                invariant
                    i <= ports.len(),
                    found@ == open_ports(ports@.subrange(0, i as int), open@),
                decreases ports.len() - i,
            {
                proof {
                    assert(ports@.subrange(0, i + 1).drop_last() =~= ports@.subrange(0, i as int));
                }
                if i < open.len() && open[i] {
                    found.push(ports[i]);
                }
                i = i + 1;
            }
            proof {
                assert(ports@.subrange(0, ports.len() as int) =~= ports@);
            }
            ScannedIp { alive: true, ip, ping: ms, ports: found }
        },
        None => ScannedIp { alive: false, ip, ping: 0, ports: Vec::new() },
    }
}

} // verus!
