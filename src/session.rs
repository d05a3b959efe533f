//! The RTSP session controller: OPTIONS, DESCRIBE, SETUP, PLAY, then
//! GET_PARAMETER keepalives, one request answered before the next is sent.
//! The controller decides; whoever owns the connection sends, waits and
//! reports back.
use vstd::prelude::*;
use vstd::string::StringExecFns;
use crate::fetch_add_1;
use crate::message::{Request, RequestView, Response, ResponseView, HeaderView, request_of, cseq_header,
    has_session_of, session_id_of, session_raw_of, session_timeout_of};
use crate::number::{dec_chars, push_decimal};

verus! {

/// Where the controller stands in the protocol.
#[derive(Debug, Clone, Copy, PartialEq, Eq, Structural)]
pub enum Phase {
    Disconnected,
    OptionsSent,
    DescribeSent,
    SetupSent,
    PlaySent,
    Playing,
    KeepaliveSent,
    Terminated,
}

/// What happened since the last step.
#[derive(Debug)]
pub enum Event {
    /// The connection to the server is open.
    Connected,
    /// The answer to the request last sent.
    Response(Response),
    /// The keepalive interval has passed.
    Tick,
    /// Sending, receiving or parsing failed.
    Failed,
    /// The relay is being shut down.
    Stop,
}

/// What the owner of the connection is to do next.
#[derive(Debug)]
pub enum Action {
    /// Send this request and report its response.
    Send(Request),
    /// Wait this many seconds, then report a tick.
    Wait(u64),
    /// Close the connection: the session is over.
    Stop,
}

pub enum EventView {
    Connected,
    Response(ResponseView),
    Tick,
    Failed,
    Stop,
}

pub enum ActionView {
    Send(RequestView),
    Wait(u64),
    Stop,
}

impl View for Event {
    type V = EventView;

    open spec fn view(&self) -> EventView {
        match self {
            Event::Connected => EventView::Connected,
            Event::Response(r) => EventView::Response(r@),
            Event::Tick => EventView::Tick,
            Event::Failed => EventView::Failed,
            Event::Stop => EventView::Stop,
        }
    }
}

impl View for Action {
    type V = ActionView;

    open spec fn view(&self) -> ActionView {
        match self {
            Action::Send(r) => ActionView::Send(r@),
            Action::Wait(s) => ActionView::Wait(*s),
            Action::Stop => ActionView::Stop,
        }
    }
}

/// The session controller of one RTSP connection.
#[derive(Debug)]
pub struct Controller {
    pub uri: String,
    pub rtp_ports: (u16, u16),
    /// The sequence number of the next request.
    pub c_seq: usize,
    pub phase: Phase,
    /// The session id, once SETUP has been answered.
    pub session: String,
    /// The session timeout in seconds, once PLAY has been answered.
    pub session_timeout: u64,
}

pub struct ControllerView {
    pub uri: Seq<char>,
    pub rtp_ports: (u16, u16),
    pub c_seq: usize,
    pub phase: Phase,
    pub session: Seq<char>,
    pub session_timeout: u64,
}

impl View for Controller {
    type V = ControllerView;

    open spec fn view(&self) -> ControllerView {
        ControllerView {
            uri: self.uri@,
            rtp_ports: self.rtp_ports,
            c_seq: self.c_seq,
            phase: self.phase,
            session: self.session@,
            session_timeout: self.session_timeout,
        }
    }
}

/// `RTP/AVP;unicast;client_port=<rtp>-<rtcp>`
pub open spec fn transport_of(ports: (u16, u16)) -> Seq<char> {
    "RTP/AVP;unicast;client_port="@ + dec_chars(ports.0 as nat) + "-"@ + dec_chars(ports.1 as nat)
}

/// Three quarters of the session timeout, rounded down.
pub open spec fn keepalive_interval(timeout: u64) -> u64 {
    (timeout as int * 3 / 4) as u64
}

pub open spec fn with_phase(c: ControllerView, phase: Phase) -> ControllerView {
    ControllerView { phase, ..c }
}

pub open spec fn stopped(c: ControllerView) -> (ControllerView, ActionView) {
    (with_phase(c, Phase::Terminated), ActionView::Stop)
}

/// Sends `req` with the next sequence number and moves to `phase`; a
/// controller whose counter is spent stops instead.
pub open spec fn send(c: ControllerView, phase: Phase, req: RequestView) -> (ControllerView, ActionView) {
    if c.c_seq == usize::MAX {
        stopped(c)
    } else {
        (ControllerView { phase, c_seq: (c.c_seq + 1) as usize, ..c }, ActionView::Send(req))
    }
}

pub open spec fn with_cseq(method: Seq<char>, c: ControllerView, rest: Seq<HeaderView>) -> RequestView {
    request_of(method, c.uri, seq![cseq_header(c.c_seq)] + rest)
}

/// The controller's protocol: the next state and action for each event.
pub open spec fn transition(c: ControllerView, ev: EventView) -> (ControllerView, ActionView) {
    match ev {
        EventView::Failed | EventView::Stop => stopped(c),
        EventView::Connected => if c.phase == Phase::Disconnected {
            send(c, Phase::OptionsSent, with_cseq("OPTIONS"@, c, seq![]))
        } else {
            stopped(c)
        },
        EventView::Tick => if c.phase == Phase::Playing {
            send(c, Phase::KeepaliveSent, with_cseq("GET_PARAMETER"@, c, seq![HeaderView::Generic("Session"@, c.session)]))
        } else {
            stopped(c)
        },
        EventView::Response(resp) => {
            let raw = session_raw_of(resp.headers);
            if c.phase == Phase::OptionsSent {
                send(c, Phase::DescribeSent, with_cseq("DESCRIBE"@, c, seq![]))
            } else if c.phase == Phase::DescribeSent {
                send(c, Phase::SetupSent, with_cseq("SETUP"@, c, seq![HeaderView::Generic("Transport"@, transport_of(c.rtp_ports))]))
            } else if c.phase == Phase::SetupSent && !has_session_of(resp.headers) {
                stopped(c)
            } else if c.phase == Phase::SetupSent {
                let id = session_id_of(raw);
                let c2 = ControllerView { session: id, ..c };
                send(c2, Phase::PlaySent, with_cseq("PLAY"@, c2, seq![
                    HeaderView::Generic("Session"@, id),
                    HeaderView::Generic("Range"@, "npt=0.000-"@),
                ]))
            } else if c.phase == Phase::PlaySent {
                let t = session_timeout_of(raw);
                (
                    ControllerView { phase: Phase::Playing, session: session_id_of(raw), session_timeout: t, ..c },
                    ActionView::Wait(keepalive_interval(t)),
                )
            } else if c.phase == Phase::KeepaliveSent {
                (with_phase(c, Phase::Playing), ActionView::Wait(keepalive_interval(c.session_timeout)))
            } else {
                stopped(c)
            }
        },
    }
}

/// Three quarters of `timeout`, rounded down, without overflow.
pub fn keepalive_secs(timeout: u64) -> (r: u64)
    ensures
        r == keepalive_interval(timeout),
{
    let q = timeout / 4;
    let m = timeout % 4;
    assert(q * 3 + m * 3 / 4 == timeout as int * 3 / 4) by (nonlinear_arith)
        requires
            q == timeout as int / 4,
            m == timeout as int % 4,
    {
    }
    q * 3 + m * 3 / 4
}

/// `RTP/AVP;unicast;client_port=<rtp>-<rtcp>` for a port pair.
pub fn transport_header(ports: (u16, u16)) -> (r: String)
    ensures
        r@ == transport_of(ports),
{
    let mut s = String::from_str("RTP/AVP;unicast;client_port=");
    push_decimal(&mut s, ports.0 as u64);
    s.append("-");
    push_decimal(&mut s, ports.1 as u64);
    s
}

impl Controller {
    /// A controller for the stream at `uri` that will ask for media on `rtp_ports`.
    pub fn new(uri: &str, rtp_ports: (u16, u16)) -> (r: Controller)
        ensures
            r@.uri == uri@,
            r@.rtp_ports == rtp_ports,
            r@.c_seq == 1,
            r@.phase == Phase::Disconnected,
            r@.session == Seq::<char>::empty(),
            r@.session_timeout == crate::message::DEFAULT_SESSION_TIMEOUT,
    {
        Controller {
            uri: String::from_str(uri),
            rtp_ports,
            c_seq: 1,
            phase: Phase::Disconnected,
            session: String::new(),
            session_timeout: crate::message::DEFAULT_SESSION_TIMEOUT,
        }
    }

    fn stop(&mut self) -> (r: Action)
        ensures
            (final(self)@, r@) == stopped(old(self)@),
    {
        self.phase = Phase::Terminated;
        Action::Stop
    }

    /// Takes one event and says what to do next.
    pub fn step(&mut self, ev: Event) -> (r: Action)
        ensures
            (final(self)@, r@) == transition(old(self)@, ev@),
    {
        match ev {
            Event::Failed | Event::Stop => self.stop(),
            Event::Connected => {
                if self.phase != Phase::Disconnected || self.c_seq == usize::MAX {
                    return self.stop();
                }
                let n = fetch_add_1(&mut self.c_seq);
                self.phase = Phase::OptionsSent;
                let req = Request::options(self.uri.as_str(), n);
                assert(seq![cseq_header(n)] + Seq::<HeaderView>::empty() =~= seq![cseq_header(n)]);
                Action::Send(req)
            },
            Event::Tick => {
                if self.phase != Phase::Playing || self.c_seq == usize::MAX {
                    return self.stop();
                }
                let n = fetch_add_1(&mut self.c_seq);
                self.phase = Phase::KeepaliveSent;
                let req = Request::get_parameter(self.uri.as_str(), n, self.session.clone());
                assert(seq![cseq_header(n)] + seq![HeaderView::Generic("Session"@, self.session@)]
                    =~= seq![cseq_header(n), HeaderView::Generic("Session"@, self.session@)]);
                Action::Send(req)
            },
            Event::Response(resp) => {
                if self.phase == Phase::PlaySent {
                    self.session = resp.session();
                    self.session_timeout = resp.session_timeout();
                    self.phase = Phase::Playing;
                    return Action::Wait(keepalive_secs(self.session_timeout));
                }
                if self.phase == Phase::KeepaliveSent {
                    self.phase = Phase::Playing;
                    return Action::Wait(keepalive_secs(self.session_timeout));
                }
                if self.phase == Phase::SetupSent {
                    if !resp.has_session() {
                        return self.stop();
                    }
                    self.session = resp.session();
                }
                if !(self.phase == Phase::OptionsSent || self.phase == Phase::DescribeSent
                    || self.phase == Phase::SetupSent) || self.c_seq == usize::MAX {
                    return self.stop();
                }
                let n = fetch_add_1(&mut self.c_seq);
                if self.phase == Phase::OptionsSent {
                    self.phase = Phase::DescribeSent;
                    let req = Request::describe(self.uri.as_str(), n);
                    assert(seq![cseq_header(n)] + Seq::<HeaderView>::empty() =~= seq![cseq_header(n)]);
                    Action::Send(req)
                } else if self.phase == Phase::DescribeSent {
                    self.phase = Phase::SetupSent;
                    let transport = transport_header(self.rtp_ports);
                    let req = Request::setup(self.uri.as_str(), n, transport.as_str());
                    assert(seq![cseq_header(n)] + seq![HeaderView::Generic("Transport"@, transport@)]
                        =~= seq![cseq_header(n), HeaderView::Generic("Transport"@, transport@)]);
                    Action::Send(req)
                } else {
                    self.phase = Phase::PlaySent;
                    let req = Request::play(self.uri.as_str(), n, self.session.clone());
                    let ghost id = self.session@;
                    assert(seq![cseq_header(n)] + seq![
                        HeaderView::Generic("Session"@, id),
                        HeaderView::Generic("Range"@, "npt=0.000-"@),
                    ] =~= seq![
                        cseq_header(n),
                        HeaderView::Generic("Session"@, id),
                        HeaderView::Generic("Range"@, "npt=0.000-"@),
                    ]);
                    Action::Send(req)
                }
            },
        }
    }
}

/// The sequence number goes up by exactly one with each request sent, and
/// each request carries the number that stood before it as its first header.
pub proof fn lemma_cseq_step(c: ControllerView, ev: EventView)
    ensures
        ({
            let (c2, a) = transition(c, ev);
            &&& a matches ActionView::Send(req) ==> req.headers.len() > 0 && req.headers[0] == cseq_header(c.c_seq)
                && c2.c_seq == c.c_seq + 1
            &&& !(a is Send) ==> c2.c_seq == c.c_seq
        }),
{
}

/// A fresh controller that sees the connection open, four responses and a
/// keepalive tick sends OPTIONS, DESCRIBE, SETUP, PLAY and GET_PARAMETER with
/// the sequence numbers 1, 2, 3, 4 and 5, whatever the responses hold beyond
/// the `Session` header that the answer to SETUP must carry.
pub proof fn lemma_cseq_sequence(uri: Seq<char>, ports: (u16, u16), r1: ResponseView, r2: ResponseView, r3: ResponseView, r4: ResponseView)
    requires
        has_session_of(r3.headers),
    ensures
        ({
            let c0 = ControllerView {
                uri,
                rtp_ports: ports,
                c_seq: 1,
                phase: Phase::Disconnected,
                session: Seq::empty(),
                session_timeout: crate::message::DEFAULT_SESSION_TIMEOUT,
            };
            let (c1, a1) = transition(c0, EventView::Connected);
            let (c2, a2) = transition(c1, EventView::Response(r1));
            let (c3, a3) = transition(c2, EventView::Response(r2));
            let (c4, a4) = transition(c3, EventView::Response(r3));
            let (c5, a5) = transition(c4, EventView::Response(r4));
            let (c6, a6) = transition(c5, EventView::Tick);
            &&& a1 matches ActionView::Send(q) && q.method == "OPTIONS"@ && q.headers[0] == cseq_header(1)
            &&& a2 matches ActionView::Send(q) && q.method == "DESCRIBE"@ && q.headers[0] == cseq_header(2)
            &&& a3 matches ActionView::Send(q) && q.method == "SETUP"@ && q.headers[0] == cseq_header(3)
            &&& a4 matches ActionView::Send(q) && q.method == "PLAY"@ && q.headers[0] == cseq_header(4)
            &&& a5 is Wait
            &&& a6 matches ActionView::Send(q) && q.method == "GET_PARAMETER"@ && q.headers[0] == cseq_header(5)
            &&& c6.c_seq == 6
        }),
{
}

} // verus!
