//! The media side of a relay: the local port pair, where media goes, and the
//! stream configuration that names it.
use vstd::prelude::*;
use vstd::string::StringExecFns;

verus! {

/// The first port of the range that the relay listens on by default.
pub const RTP_PORT_LOW: u16 = 40000;
/// The end (exclusive) of that range.
pub const RTP_PORT_HIGH: u16 = 50000;

/// Ports `p` and `p + 1` are both free, where `free[i]` tells whether port
/// `start + i` is.
pub open spec fn pair_free(free: Seq<bool>, start: u16, p: int) -> bool {
    free[p - start] && free[p + 1 - start]
}

/// The first port `p` of `range`, in ascending order, such that `p` and
/// `p + 1` are both free; `free[i]` tells whether port `range.start + i` can
/// be bound, for each port from `range.start` to `range.end` inclusive.
pub fn find_port_pair(range: std::ops::Range<u16>, free: &Vec<bool>) -> (r: Option<(u16, u16)>)
    requires
        range.start < range.end ==> free@.len() > range.end - range.start,
    ensures
        r matches Some((a, b)) ==> range.start <= a < range.end && b == a + 1 && pair_free(free@, range.start, a as int)
            && forall|p: int| range.start <= p < a ==> !pair_free(free@, range.start, p),
        r is None ==> forall|p: int| range.start <= p < range.end ==> !pair_free(free@, range.start, p),
{
    let start = range.start;
    let end = range.end;
    if start >= end {
        return None;
    }
    let mut p: u16 = start;
    while p < end
        invariant
            start <= p <= end,
            start < end,
            range.start == start,
            range.end == end,
            free@.len() > end - start,
            forall|q: int| start <= q < p ==> !pair_free(free@, start, q),
        decreases end - p,
    {
        let i = (p - start) as usize;
        if free[i] && free[i + 1] {
            return Some((p, p + 1));
        }
        p = p + 1;
    }
    None
}

/// An IP address.
#[derive(Debug, Clone, Copy, PartialEq, Eq, Structural)]
pub enum IpAddress {
    V4(u8, u8, u8, u8),
    V6(u128),
}

/// An IP address and a port.
#[derive(Debug, Clone, Copy, PartialEq, Eq, Structural)]
pub struct Endpoint {
    pub ip: IpAddress,
    pub port: u16,
}

/// Which of the two media streams a datagram belongs to.
#[derive(Debug, Clone, Copy, PartialEq, Eq, Structural)]
pub enum Channel {
    Rtp,
    Rtcp,
}

/// Where the reflector sends media: an RTP and an RTCP address, or nowhere.
#[derive(Debug)]
pub struct RtpDest {
    pub addresses: Option<(Endpoint, Endpoint)>,
}

/// The address that a datagram of `ch` goes to, if any.
pub open spec fn target_of(addresses: Option<(Endpoint, Endpoint)>, ch: Channel) -> Option<Endpoint> {
    match addresses {
        None => None,
        Some((rtp, rtcp)) => Some(if ch == Channel::Rtp { rtp } else { rtcp }),
    }
}

impl RtpDest {
    /// No destination: media is dropped.
    pub fn new() -> (r: RtpDest)
        ensures
            r.addresses is None,
    {
        RtpDest { addresses: None }
    }

    /// Replaces the destination.
    pub fn set(&mut self, addresses: Option<(Endpoint, Endpoint)>)
        ensures
            final(self).addresses == addresses,
    {
        self.addresses = addresses;
    }

    /// The address that a datagram of `ch` goes to now, if any.
    pub fn target(&self, ch: Channel) -> (r: Option<Endpoint>)
        ensures
            r == target_of(self.addresses, ch),
    {
        match self.addresses {
            None => None,
            Some((rtp, rtcp)) => Some(
                match ch {
                    Channel::Rtp => rtp,
                    Channel::Rtcp => rtcp,
                },
            ),
        }
    }

    /// What to do with a datagram of `ch`: send it unchanged to the current
    /// destination, or drop it where there is none.
    pub fn forward(&self, ch: Channel, data: Vec<u8>) -> (r: Option<(Endpoint, Vec<u8>)>)
        ensures
            r is Some <==> self.addresses is Some,
            r matches Some((to, out)) ==> Some(to) == target_of(self.addresses, ch) && out@ == data@,
    {
        match self.target(ch) {
            None => None,
            Some(to) => Some((to, data)),
        }
    }
}

/// Whatever the destination was before, once it is set to `after` RTP
/// datagrams go to its first address and RTCP datagrams to its second; once
/// it is cleared, datagrams of both streams are dropped.
pub proof fn lemma_destination_switch(after: Option<(Endpoint, Endpoint)>)
    ensures
        ({
            let d2 = RtpDest { addresses: after };
            &&& after matches Some((a, b)) ==> target_of(d2.addresses, Channel::Rtp) == Some(a)
                && target_of(d2.addresses, Channel::Rtcp) == Some(b)
            &&& after is None ==> target_of(d2.addresses, Channel::Rtp) is None
                && target_of(d2.addresses, Channel::Rtcp) is None
        }),
{
}

/// Datagrams as the reflector reads and writes them: the peer's address and
/// the payload.
pub struct RtpCodec;

impl RtpCodec {
    /// An inbound datagram from `addr`, its payload unchanged.
    pub fn decode(&mut self, addr: &Endpoint, buf: &[u8]) -> (r: (Endpoint, Vec<u8>))
        ensures
            r.0 == *addr,
            r.1@ == buf@,
    {
        (*addr, vstd::slice::slice_to_vec(buf))
    }

    /// Appends the payload of an outbound datagram to `into`, and gives its
    /// address.
    pub fn encode(&mut self, msg: (Endpoint, Vec<u8>), into: &mut Vec<u8>) -> (r: Endpoint)
        ensures
            r == msg.0,
            final(into)@ == old(into)@ + msg.1@,
    {
        let (addr, buf) = msg;
        let mut buf = buf;
        into.append(&mut buf);
        addr
    }
}

/// What the stream configuration says of the current stream: the gateway's
/// host name and RTP port, each where it is present and of the right type.
#[derive(Debug)]
pub struct StreamSelection {
    /// The key of the current stream, where there is one.
    pub current: Option<String>,
    /// `gateway_instance` of the entry that `current` names.
    pub gateway_instance: Option<String>,
    /// `stream_rtp_port` of that entry.
    pub stream_rtp_port: Option<u64>,
}

/// The gateway host and RTP port to send media to: a current stream whose
/// host is not empty and whose port leaves room for RTCP on the next one.
pub open spec fn stream_target_of(sel: StreamSelection) -> Option<(Seq<char>, u16)> {
    match (sel.current, sel.gateway_instance, sel.stream_rtp_port) {
        (Some(_), Some(host), Some(port)) => if host@.len() > 0 && 0 < port < 65535 {
            Some((host@, port as u16))
        } else {
            None
        },
        _ => None,
    }
}

/// The gateway that the stream configuration names, if it names a valid one.
pub fn stream_target(sel: &StreamSelection) -> (r: Option<(String, u16)>)
    ensures
        match stream_target_of(*sel) {
            None => r is None,
            Some((host, port)) => r matches Some((h, p)) && h@ == host && p == port,
        },
{
    match (&sel.current, &sel.gateway_instance, sel.stream_rtp_port) {
        (Some(_), Some(host), Some(port)) => {
            if !host.as_str().is_empty() && 0 < port && port < 65535 {
                Some((host.clone(), port as u16))
            } else {
                None
            }
        },
        _ => None,
    }
}

/// The RTP and RTCP addresses of a gateway at `ip` whose RTP port is `port`.
pub fn destination_pair(ip: IpAddress, port: u16) -> (r: (Endpoint, Endpoint))
    requires
        port < 65535,
    ensures
        r.0 == (Endpoint { ip, port }),
        r.1 == (Endpoint { ip, port: (port + 1) as u16 }),
{
    (Endpoint { ip, port }, Endpoint { ip, port: port + 1 })
}

} // verus!
