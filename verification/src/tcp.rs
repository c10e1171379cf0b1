//! The per-flow TCP connection engine.
//!
//! A `Connection` is created by `accept` when a SYN reaches a bound port,
//! and stepped by `on_packet` for every later segment of its flow. Instead
//! of writing to the tunnel device itself, every egress path hands back a
//! [`Datagram`]; the caller owns the tunnel and sends the bytes.
use vstd::prelude::*;

use crate::codec::Datagram;
use crate::codec::Ipv4Meta;
use crate::codec::SegmentHeader;
use crate::codec::build_datagram;
use crate::codec::encodes;
use crate::wrap::add32;
use crate::wrap::between;
use crate::wrap::is_between_wrapped;
use crate::wrap::sub32;
use crate::wrap::wadd;
use crate::wrap::wlt;
use crate::wrap::wsub;

verus! {

/// Capacity of the `outgoing` byte queue.
pub const SEND_QUEUE_SIZE: usize = 1024;

/// Longest payload that fits one emitted segment: 1500 bytes total minus
/// the two 20-byte headers.
pub const MAX_SEGMENT_PAYLOAD: usize = 1460;

/// Connection states reached by the minimal engine.
#[derive(Clone, Copy, Debug, PartialEq, Eq, Structural)]
pub enum State {
    SyncRcvd,
    Estab,
    FinWait1,
    FinWait2,
    TimeWait,
}

impl State {
    /// A state is synchronized once the three-way handshake completed.
    pub fn is_synchronized(&self) -> (r: bool)
        ensures
            r == (*self != State::SyncRcvd),
    {
        match self {
            State::SyncRcvd => false,
            State::Estab | State::FinWait1 | State::FinWait2 | State::TimeWait => true,
        }
    }
}

/// The operations an application may now usefully attempt.
#[derive(Clone, Copy, Debug, PartialEq, Eq, Structural)]
pub struct Available {
    pub read: bool,
    pub write: bool,
}

/// RFC 793 send sequence space.
#[derive(Clone, Copy, Debug, PartialEq, Eq, Structural)]
pub struct SendSequenceSpace {
    /// Oldest unacknowledged sequence number.
    pub una: u32,
    /// Next sequence number to send.
    pub nxt: u32,
    /// Peer receive window last advertised.
    pub wnd: u16,
    /// Urgent pointer flag (carried, unused).
    pub up: bool,
    /// Sequence number of the last window update (reserved).
    pub wl1: usize,
    /// Acknowledgment of the last window update (reserved).
    pub wl2: usize,
    /// Initial send sequence number.
    pub iss: u32,
}

/// RFC 793 receive sequence space.
#[derive(Clone, Copy, Debug, PartialEq, Eq, Structural)]
pub struct RecvSequenceSpace {
    /// Next sequence number expected.
    pub nxt: u32,
    /// Our advertised receive window.
    pub wnd: u16,
    /// Urgent pointer flag (carried, unused).
    pub up: bool,
    /// Peer's initial sequence number.
    pub irs: u32,
}

/// Inputs the minimal engine cannot serve; the caller fails loudly on them.
#[derive(Clone, Copy, Debug, PartialEq, Eq, Structural)]
pub enum Fatal {
    /// A FIN arrived while the connection was not in FinWait2.
    UnexpectedFin,
    /// An acknowledged segment carried payload; data delivery is not wired.
    DataNotSupported,
}

/// What one call of `on_packet` decided.
pub struct SegmentResult {
    pub avail: Available,
    pub reply: Option<Datagram>,
    pub fatal: Option<Fatal>,
}

/// One TCP flow: state, sequence spaces, egress template, byte queues.
pub struct Connection {
    pub state: State,
    pub send: SendSequenceSpace,
    pub recv: RecvSequenceSpace,
    /// Our address on egress, big-endian.
    pub src_ip: u32,
    /// The peer's address on egress, big-endian.
    pub dst_ip: u32,
    /// Egress TCP header template; seq/ack are rewritten per segment, SYN
    /// and FIN are one-shot flags a caller sets right before emitting.
    pub tpl: SegmentHeader,
    /// In-order payload bytes not yet read by the application.
    pub incoming: Vec<u8>,
    /// Bytes accepted from the writer, not yet acknowledged by the peer.
    pub outgoing: Vec<u8>,
}

/// Segment length in sequence space: payload plus one for each of FIN, SYN.
pub open spec fn seg_len(h: SegmentHeader, plen: int) -> int {
    plen + (if h.fin { 1int } else { 0 }) + (if h.syn { 1int } else { 0 })
}

/// The RFC 793 acceptance table for a segment of length `slen` starting at
/// `seq`, against a receive window `[rcv_nxt, rcv_nxt + rcv_wnd)`.
pub open spec fn acceptable(rcv_nxt: u32, rcv_wnd: u16, seq: u32, slen: int) -> bool {
    let wend = add32(rcv_nxt, rcv_wnd as int);
    if slen == 0 {
        if rcv_wnd == 0 {
            seq == rcv_nxt
        } else {
            between(sub32(rcv_nxt, 1), seq, wend)
        }
    } else {
        if rcv_wnd == 0 {
            false
        } else {
            between(sub32(rcv_nxt, 1), seq, wend)
                || between(sub32(rcv_nxt, 1), add32(seq, slen - 1), wend)
        }
    }
}

impl Connection {
    /// Structural invariant: template one-shot flags are at rest, the send
    /// space stays coherent per state, and both byte queues respect their
    /// capacities (the incoming FIFO holds at most the advertised receive
    /// window).
    pub open spec fn wf(self) -> bool {
        &&& !self.tpl.syn
        &&& !self.tpl.fin
        &&& !self.tpl.rst
        &&& self.tpl.ack_flag
        &&& self.state != State::Estab
        &&& self.state == State::SyncRcvd ==> self.send.una == self.send.iss
            && self.send.nxt == add32(self.send.iss, 1)
        &&& self.state != State::SyncRcvd ==> self.send.nxt == add32(self.send.iss, 2)
            && sub32(self.send.nxt, self.send.una) <= 2
        &&& self.incoming@.len() <= self.recv.wnd
        &&& self.outgoing@.len() <= SEND_QUEUE_SIZE
    }

    /// Receive-space accounting: the next expected sequence number is the
    /// peer's initial one, plus one for its SYN, plus the bytes delivered
    /// in order, plus one once its FIN was taken.
    pub open spec fn recv_accounting(self) -> bool {
        self.recv.nxt == add32(
            self.recv.irs,
            1 + self.incoming@.len() + (if self.state == State::TimeWait { 1int } else { 0 }),
        )
    }

    /// The receive half is closed (peer FIN consumed).
    pub open spec fn spec_rcv_closed(self) -> bool {
        self.state == State::TimeWait
    }

    /// READ is available when buffered bytes exist or the peer closed;
    /// WRITE while the send queue has room and our FIN is not yet out.
    pub open spec fn spec_availability(self) -> Available {
        Available {
            read: self.spec_rcv_closed() || self.incoming@.len() > 0,
            write: self.outgoing@.len() < SEND_QUEUE_SIZE
                && (self.state == State::SyncRcvd || self.state == State::Estab),
        }
    }

    pub fn is_rcv_closed(&self) -> (r: bool)
        ensures
            r == self.spec_rcv_closed(),
    {
        match self.state {
            State::TimeWait => true,
            _ => false,
        }
    }

    pub fn availability(&self) -> (r: Available)
        ensures
            r == self.spec_availability(),
    {
        let read = self.is_rcv_closed() || self.incoming.len() > 0;
        let write = self.outgoing.len() < SEND_QUEUE_SIZE
            && (self.state == State::SyncRcvd || self.state == State::Estab);
        Available { read, write }
    }

    /// Build one egress segment from the template: seq/ack are stamped
    /// from the sequence spaces, the payload is truncated to fit a
    /// 1500-byte datagram, SND.NXT advances by the bytes written plus one
    /// for each one-shot SYN/FIN flag, and those flags are cleared.
    pub(crate) fn write(&mut self, payload: &[u8]) -> (r: Datagram)
        ensures
            ({
                let n = if payload@.len() > MAX_SEGMENT_PAYLOAD {
                    MAX_SEGMENT_PAYLOAD as int
                } else {
                    payload@.len() as int
                };
                let flags: int = (if old(self).tpl.syn { 1int } else { 0 })
                    + (if old(self).tpl.fin { 1int } else { 0 });
                &&& r.hdr == (SegmentHeader {
                    seq: old(self).send.nxt,
                    ack: old(self).recv.nxt,
                    ..old(self).tpl
                })
                &&& r.src_ip == old(self).src_ip
                &&& r.dst_ip == old(self).dst_ip
                &&& encodes(r.bytes@, old(self).src_ip, old(self).dst_ip, r.hdr,
                    payload@.subrange(0, n))
                &&& final(self).send == (SendSequenceSpace {
                    nxt: add32(old(self).send.nxt, n + flags),
                    ..old(self).send
                })
                &&& final(self).tpl == (SegmentHeader {
                    seq: old(self).send.nxt,
                    ack: old(self).recv.nxt,
                    syn: false,
                    fin: false,
                    ..old(self).tpl
                })
                &&& final(self).state == old(self).state
                &&& final(self).recv == old(self).recv
                &&& final(self).src_ip == old(self).src_ip
                &&& final(self).dst_ip == old(self).dst_ip
                &&& final(self).incoming@ == old(self).incoming@
                &&& final(self).outgoing@ == old(self).outgoing@
            }),
    {
        self.tpl.seq = self.send.nxt;
        self.tpl.ack = self.recv.nxt;
        let n: usize = if payload.len() > MAX_SEGMENT_PAYLOAD {
            MAX_SEGMENT_PAYLOAD
        } else {
            payload.len()
        };
        let data = vstd::slice::slice_subrange(payload, 0, n);
        let hdr = self.tpl;
        let bytes = build_datagram(self.src_ip, self.dst_ip, &hdr, data);
        self.send.nxt = wadd(self.send.nxt, n as u32);
        if self.tpl.syn {
            self.send.nxt = wadd(self.send.nxt, 1);
            self.tpl.syn = false;
        }
        if self.tpl.fin {
            self.send.nxt = wadd(self.send.nxt, 1);
            self.tpl.fin = false;
        }
        proof {
            crate::wrap::lemma_add32_chain(old(self).send.nxt, n as int, 1);
            crate::wrap::lemma_add32_chain(old(self).send.nxt, n as int + 1, 1);
        }
        Datagram { src_ip: self.src_ip, dst_ip: self.dst_ip, hdr, bytes }
    }

    /// Emit a reset: RST set, sequence and acknowledgment numbers zero.
    /// The connection itself is left untouched.
    pub fn send_rst(&self) -> (r: Datagram)
        ensures
            r.hdr == (SegmentHeader { seq: 0, ack: 0, rst: true, ..self.tpl }),
            r.src_ip == self.src_ip,
            r.dst_ip == self.dst_ip,
            encodes(r.bytes@, self.src_ip, self.dst_ip, r.hdr, Seq::<u8>::empty()),
    {
        let hdr = SegmentHeader { seq: 0, ack: 0, rst: true, ..self.tpl };
        let nothing: &[u8] = &[];
        let bytes = build_datagram(self.src_ip, self.dst_ip, &hdr, nothing);
        proof {
            assert(nothing@ =~= Seq::<u8>::empty());
        }
        Datagram { src_ip: self.src_ip, dst_ip: self.dst_ip, hdr, bytes }
    }

    /// Handle a segment that may open a connection: anything without SYN is
    /// dropped; a SYN yields a fresh connection in SynReceived together
    /// with the SYN|ACK to send (seq = ISS = 0, ack = IRS + 1, window 1024).
    pub fn accept(ip: &Ipv4Meta, tcp: &SegmentHeader, _payload: &[u8]) -> (r: Option<(Connection, Datagram)>)
        ensures
            r is Some <==> tcp.syn,
            r matches Some(p) ==> {
                let c = p.0;
                let d = p.1;
                &&& c.wf()
                &&& c.recv_accounting()
                &&& c.state == State::SyncRcvd
                &&& c.send == (SendSequenceSpace {
                    iss: 0,
                    una: 0,
                    nxt: 1,
                    wnd: 1024,
                    up: false,
                    wl1: 0,
                    wl2: 0,
                })
                &&& c.recv == (RecvSequenceSpace {
                    irs: tcp.seq,
                    nxt: add32(tcp.seq, 1),
                    wnd: tcp.window,
                    up: false,
                })
                &&& c.src_ip == ip.dst
                &&& c.dst_ip == ip.src
                &&& c.tpl == (SegmentHeader {
                    src_port: tcp.dst_port,
                    dst_port: tcp.src_port,
                    seq: 0,
                    ack: add32(tcp.seq, 1),
                    window: 1024,
                    fin: false,
                    syn: false,
                    rst: false,
                    psh: false,
                    ack_flag: true,
                    urg: false,
                })
                &&& c.incoming@.len() == 0
                &&& c.outgoing@.len() == 0
                &&& d.hdr == (SegmentHeader { syn: true, ..c.tpl })
                &&& d.src_ip == ip.dst
                &&& d.dst_ip == ip.src
                &&& encodes(d.bytes@, ip.dst, ip.src, d.hdr, Seq::<u8>::empty())
            },
    {
        if !tcp.syn {
            return None;
        }
        let iss: u32 = 0;
        let wnd: u16 = 1024;
        let mut connection = Connection {
            state: State::SyncRcvd,
            send: SendSequenceSpace {
                iss,
                una: iss,
                nxt: iss,
                wnd,
                up: false,
                wl1: 0,
                wl2: 0,
            },
            recv: RecvSequenceSpace {
                irs: tcp.seq,
                nxt: wadd(tcp.seq, 1),
                wnd: tcp.window,
                up: false,
            },
            src_ip: ip.dst,
            dst_ip: ip.src,
            tpl: SegmentHeader {
                src_port: tcp.dst_port,
                dst_port: tcp.src_port,
                seq: iss,
                ack: 0,
                window: wnd,
                fin: false,
                syn: true,
                rst: false,
                psh: false,
                ack_flag: true,
                urg: false,
            },
            incoming: Vec::new(),
            outgoing: Vec::new(),
        };
        let nothing: &[u8] = &[];
        let datagram = connection.write(nothing);
        proof {
            assert(nothing@.subrange(0, 0) =~= Seq::<u8>::empty());
        }
        Some((connection, datagram))
    }
}

/// Acceptance of the segment against the connection's receive space.
pub open spec fn s_ok(c: Connection, h: SegmentHeader, plen: int) -> bool {
    acceptable(c.recv.nxt, c.recv.wnd, h.seq, seg_len(h, plen))
}

/// State after the SynReceived acknowledgment check: a valid ACK of our
/// SYN moves the connection to Established.
pub open spec fn s_state1(c: Connection, h: SegmentHeader) -> State {
    if c.state == State::SyncRcvd {
        if between(sub32(c.send.una, 1), h.ack, add32(c.send.nxt, 1)) {
            State::Estab
        } else {
            State::SyncRcvd
        }
    } else {
        c.state
    }
}

/// SND.UNA after the acknowledgment-consumption step.
pub open spec fn s_una(c: Connection, h: SegmentHeader) -> u32 {
    let st1 = s_state1(c, h);
    if (st1 == State::Estab || st1 == State::FinWait1 || st1 == State::FinWait2)
        && between(c.send.una, h.ack, add32(c.send.nxt, 1)) {
        h.ack
    } else {
        c.send.una
    }
}

/// An acknowledged segment carries payload into a data state: the minimal
/// engine refuses it instead of delivering.
pub open spec fn s_fatal_data(c: Connection, h: SegmentHeader, plen: int) -> bool {
    let st1 = s_state1(c, h);
    plen > 0 && (st1 == State::Estab || st1 == State::FinWait1 || st1 == State::FinWait2)
}

/// Reaching Established makes the engine close at once: FIN out, FinWait1.
pub open spec fn s_autoclose(c: Connection, h: SegmentHeader) -> bool {
    s_state1(c, h) == State::Estab
}

/// State after the automatic close and the our-FIN-acknowledged check.
pub open spec fn s_state3(c: Connection, h: SegmentHeader) -> State {
    let st2 = if s_autoclose(c, h) {
        State::FinWait1
    } else {
        s_state1(c, h)
    };
    if st2 == State::FinWait1 && s_una(c, h) == add32(c.send.iss, 2) {
        State::FinWait2
    } else {
        st2
    }
}

/// A peer FIN anywhere but FinWait2 is beyond the minimal engine.
pub open spec fn s_fatal_fin(c: Connection, h: SegmentHeader) -> bool {
    h.fin && s_state3(c, h) != State::FinWait2
}

/// The verdict `on_packet` returns for a segment.
pub open spec fn s_fatal(c: Connection, h: SegmentHeader, plen: int) -> Option<Fatal> {
    if !(s_ok(c, h, plen) && h.ack_flag) {
        None
    } else if s_fatal_data(c, h, plen) {
        Some(Fatal::DataNotSupported)
    } else if s_fatal_fin(c, h) {
        Some(Fatal::UnexpectedFin)
    } else {
        None
    }
}

/// The header of the datagram `on_packet` answers with, if any: an empty
/// ACK for a rejected segment, our FIN on the automatic close, the final
/// ACK of the peer's FIN.
pub open spec fn step_reply_hdr(c: Connection, h: SegmentHeader, plen: int) -> Option<SegmentHeader> {
    if !s_ok(c, h, plen) {
        Some(SegmentHeader { seq: c.send.nxt, ack: c.recv.nxt, ..c.tpl })
    } else if !h.ack_flag || s_fatal(c, h, plen) is Some {
        None
    } else if s_autoclose(c, h) {
        Some(SegmentHeader {
            seq: c.send.nxt,
            ack: add32(h.seq, seg_len(h, plen)),
            fin: true,
            ..c.tpl
        })
    } else if h.fin {
        Some(SegmentHeader { seq: c.send.nxt, ack: add32(h.seq, seg_len(h, plen)), ..c.tpl })
    } else {
        None
    }
}

/// The connection state after `on_packet`.
pub open spec fn step_state(c: Connection, h: SegmentHeader, plen: int) -> State {
    if !s_ok(c, h, plen) || !h.ack_flag || s_fatal(c, h, plen) is Some {
        c.state
    } else if h.fin {
        State::TimeWait
    } else {
        s_state3(c, h)
    }
}

/// The send sequence space after `on_packet`.
pub open spec fn step_send(c: Connection, h: SegmentHeader, plen: int) -> SendSequenceSpace {
    if !s_ok(c, h, plen) || !h.ack_flag || s_fatal(c, h, plen) is Some {
        c.send
    } else {
        SendSequenceSpace {
            una: s_una(c, h),
            nxt: if s_autoclose(c, h) {
                add32(c.send.nxt, 1)
            } else {
                c.send.nxt
            },
            ..c.send
        }
    }
}

/// The receive sequence space after `on_packet`.
pub open spec fn step_recv(c: Connection, h: SegmentHeader, plen: int) -> RecvSequenceSpace {
    if !s_ok(c, h, plen) {
        c.recv
    } else if !h.ack_flag {
        RecvSequenceSpace {
            nxt: if h.syn {
                add32(h.seq, 1)
            } else {
                add32(h.seq, seg_len(h, plen))
            },
            ..c.recv
        }
    } else if s_fatal(c, h, plen) is Some {
        c.recv
    } else {
        RecvSequenceSpace { nxt: add32(h.seq, seg_len(h, plen)), ..c.recv }
    }
}

impl Connection {
    /// Process one inbound segment of an established flow.
    ///
    /// An unacceptable segment changes nothing and is answered with an
    /// empty ACK re-advertising our state. An acceptable one advances
    /// RCV.NXT, consumes a valid acknowledgment into SND.UNA, and walks
    /// the state machine: SynReceived to Established on a valid handshake
    /// ACK (the engine then closes at once: FIN out, FinWait1), FinWait1
    /// to FinWait2 once our FIN is acknowledged, FinWait2 to TimeWait on
    /// the peer's FIN (answered with a final ACK). Inputs the minimal
    /// engine cannot serve come back as a `fatal` verdict with the
    /// connection untouched.
    pub fn on_packet(&mut self, h: &SegmentHeader, payload: &[u8]) -> (r: SegmentResult)
        requires
            old(self).wf(),
            payload@.len() <= 1464,
        ensures
            final(self).wf(),
            final(self).state == step_state(*old(self), *h, payload@.len() as int),
            final(self).send == step_send(*old(self), *h, payload@.len() as int),
            final(self).recv == step_recv(*old(self), *h, payload@.len() as int),
            final(self).src_ip == old(self).src_ip,
            final(self).dst_ip == old(self).dst_ip,
            final(self).send.iss == old(self).send.iss,
            final(self).recv.irs == old(self).recv.irs,
            final(self).incoming@ == old(self).incoming@,
            final(self).outgoing@ == old(self).outgoing@,
            final(self).tpl == (SegmentHeader {
                seq: final(self).tpl.seq,
                ack: final(self).tpl.ack,
                ..old(self).tpl
            }),
            r.fatal == s_fatal(*old(self), *h, payload@.len() as int),
            r.avail == final(self).spec_availability(),
            final(self).send.una == old(self).send.una
                || wlt(old(self).send.una, final(self).send.una),
            ({
                let c = *old(self);
                let plen = payload@.len() as int;
                match r.reply {
                    Some(d) => {
                        &&& step_reply_hdr(c, *h, plen) == Some(d.hdr)
                        &&& d.src_ip == c.src_ip
                        &&& d.dst_ip == c.dst_ip
                        &&& encodes(d.bytes@, c.src_ip, c.dst_ip, d.hdr, Seq::<u8>::empty())
                    },
                    None => step_reply_hdr(c, *h, plen) is None,
                }
            }),
            ({
                let c = *old(self);
                let plen = payload@.len() as int;
                (c.recv_accounting() && plen == 0 && !h.syn && (h.fin ==> h.ack_flag)
                    && (s_ok(c, *h, plen) ==> h.seq == c.recv.nxt))
                    ==> final(self).recv_accounting()
            }),
    {
        let ghost c = *old(self);
        let ghost plen_i = payload@.len() as int;
        let plen: usize = payload.len();
        let mut slen: u32 = plen as u32;
        if h.fin {
            slen = slen + 1;
        }
        if h.syn {
            slen = slen + 1;
        }
        assert(slen as int == seg_len(*h, plen_i));
        let wend = wadd(self.recv.nxt, self.recv.wnd as u32);
        let okay: bool = if slen == 0 {
            if self.recv.wnd == 0 {
                h.seq == self.recv.nxt
            } else {
                is_between_wrapped(wsub(self.recv.nxt, 1), h.seq, wend)
            }
        } else {
            if self.recv.wnd == 0 {
                false
            } else {
                is_between_wrapped(wsub(self.recv.nxt, 1), h.seq, wend)
                    || is_between_wrapped(wsub(self.recv.nxt, 1), wadd(h.seq, slen - 1), wend)
            }
        };
        assert(okay == s_ok(c, *h, plen_i));
        if !okay {
            let nothing: &[u8] = &[];
            let d = self.write(nothing);
            proof {
                assert(nothing@.subrange(0, 0) =~= Seq::<u8>::empty());
            }
            let avail = self.availability();
            return SegmentResult { avail, reply: Some(d), fatal: None };
        }
        if !h.ack_flag {
            if h.syn {
                self.recv.nxt = wadd(h.seq, 1);
            } else {
                self.recv.nxt = wadd(h.seq, slen);
            }
            let avail = self.availability();
            return SegmentResult { avail, reply: None, fatal: None };
        }
        // Acknowledgment path: settle the whole trajectory before mutating,
        // so that a refused input leaves the connection untouched.
        let st1: State = if self.state == State::SyncRcvd {
            if is_between_wrapped(wsub(self.send.una, 1), h.ack, wadd(self.send.nxt, 1)) {
                State::Estab
            } else {
                State::SyncRcvd
            }
        } else {
            self.state
        };
        assert(st1 == s_state1(c, *h));
        let acked = st1 == State::Estab || st1 == State::FinWait1 || st1 == State::FinWait2;
        if acked && plen > 0 {
            let avail = self.availability();
            return SegmentResult { avail, reply: None, fatal: Some(Fatal::DataNotSupported) };
        }
        let una2: u32 = if acked && is_between_wrapped(self.send.una, h.ack, wadd(self.send.nxt, 1)) {
            h.ack
        } else {
            self.send.una
        };
        assert(una2 == s_una(c, *h));
        let autoclose = st1 == State::Estab;
        let st2: State = if autoclose {
            State::FinWait1
        } else {
            st1
        };
        let st3: State = if st2 == State::FinWait1 && una2 == wadd(self.send.iss, 2) {
            State::FinWait2
        } else {
            st2
        };
        assert(st3 == s_state3(c, *h));
        if h.fin && !(st3 == State::FinWait2) {
            let avail = self.availability();
            return SegmentResult { avail, reply: None, fatal: Some(Fatal::UnexpectedFin) };
        }
        self.recv.nxt = wadd(h.seq, slen);
        self.send.una = una2;
        let mut reply: Option<Datagram> = None;
        if autoclose {
            proof {
                // Our FIN is created only now, so it cannot already be
                // acknowledged: the FIN-acked check stays negative and a
                // peer FIN in the same segment was refused above.
                crate::wrap::lemma_add32_chain(c.send.iss, 1, 1);
                if between(c.send.una, h.ack, add32(c.send.nxt, 1)) {
                    crate::wrap::lemma_wlt_neq(h.ack, add32(c.send.nxt, 1));
                }
                crate::wrap::lemma_add_sub(c.send.iss, 2);
            }
            assert(st3 == State::FinWait1);
            self.tpl.fin = true;
            let nothing: &[u8] = &[];
            let d = self.write(nothing);
            proof {
                assert(nothing@.subrange(0, 0) =~= Seq::<u8>::empty());
            }
            reply = Some(d);
        }
        self.state = st3;
        if h.fin {
            let nothing: &[u8] = &[];
            let d = self.write(nothing);
            proof {
                assert(nothing@.subrange(0, 0) =~= Seq::<u8>::empty());
            }
            reply = Some(d);
            self.state = State::TimeWait;
        }
        proof {
            // The new left edge of the send window stays within two of
            // SND.NXT, so the structural invariant survives.
            if c.state == State::SyncRcvd {
                crate::wrap::lemma_add_sub(c.send.iss, 1);
                crate::wrap::lemma_add32_chain(c.send.iss, 1, 1);
                crate::wrap::lemma_add_sub(c.send.iss, 2);
            }
            crate::wrap::lemma_sub32_succ(c.send.nxt, c.send.una);
            if between(c.send.una, h.ack, add32(c.send.nxt, 1)) {
                crate::wrap::lemma_between_dist(c.send.una, h.ack, add32(c.send.nxt, 1));
                crate::wrap::lemma_sub32_succ(c.send.nxt, h.ack);
            }
        }
        let avail = self.availability();
        SegmentResult { avail, reply, fatal: None }
    }
}

/// Law: in every state, SND.NXT lies at least zero and at most the
/// outgoing capacity plus two (one each for the SYN and FIN control
/// bytes) past SND.UNA on the sequence circle.
pub proof fn lemma_send_window_bound(c: Connection)
    requires
        c.wf(),
    ensures
        0 <= sub32(c.send.nxt, c.send.una) <= SEND_QUEUE_SIZE + 2,
{
    if c.state == State::SyncRcvd {
        crate::wrap::lemma_add_sub(c.send.iss, 1);
    }
}

/// Law: replaying a segment that was just accepted and served changes no
/// state. The duplicate either fails the acceptance test or is consumed
/// as a no-op; in particular SND.UNA never moves backward.
pub proof fn lemma_replay_no_change(c: Connection, h: SegmentHeader, plen: int)
    requires
        c.wf(),
        0 <= plen <= 1464,
        s_ok(c, h, plen),
        s_fatal(c, h, plen) is None,
    ensures
        ({
            let c1 = Connection {
                state: step_state(c, h, plen),
                send: step_send(c, h, plen),
                recv: step_recv(c, h, plen),
                ..c
            };
            &&& step_state(c1, h, plen) == c1.state
            &&& step_send(c1, h, plen) == c1.send
            &&& step_recv(c1, h, plen) == c1.recv
        }),
{
    let slen = seg_len(h, plen);
    let c1 = Connection {
        state: step_state(c, h, plen),
        send: step_send(c, h, plen),
        recv: step_recv(c, h, plen),
        ..c
    };
    if slen > 0 {
        if h.ack_flag || !h.syn {
            // RCV.NXT moved to seq + slen, so both acceptance probes sit on
            // or before the new left edge: the duplicate is rejected.
            let x = add32(h.seq, (slen - 1) as int);
            crate::wrap::lemma_add32_chain(h.seq, slen - 1, 1);
            crate::wrap::lemma_cancel(x, 1);
            crate::wrap::lemma_add_sub(h.seq, slen - 1);
            assert(sub32(c1.recv.nxt, 1) == x);
            assert(!wlt(x, h.seq));
            assert(!wlt(x, x));
            assert(!s_ok(c1, h, plen));
        } else {
            // SYN without ACK: the resync wrote seq + 1 already; whether or
            // not the duplicate is accepted again, it writes the same value
            // and touches nothing else.
            assert(step_state(c1, h, plen) == c1.state);
            assert(step_send(c1, h, plen) == c1.send);
        }
    } else {
        // A zero-length segment: RCV.NXT is now exactly seq, the duplicate
        // is accepted again, and every step is a no-op.
        assert(c1.recv.nxt == h.seq);
        if h.ack_flag {
            let e = add32(c.send.nxt, 1);
            if c.state == State::SyncRcvd {
                crate::wrap::lemma_add_sub(c.send.iss, 1);
                crate::wrap::lemma_add32_chain(c.send.iss, 1, 1);
                crate::wrap::lemma_add_sub(c.send.iss, 2);
                crate::wrap::lemma_add32_chain(c.send.iss, 2, 1);
                crate::wrap::lemma_add_sub(c.send.iss, 3);
                if between(sub32(c.send.una, 1), h.ack, e) {
                    // the handshake ACK: pin h.ack to iss or iss + 1
                    crate::wrap::lemma_wlt_neq(h.ack, e);
                    if !between(c.send.una, h.ack, e) {
                        crate::wrap::lemma_pinch(c.send.una, h.ack);
                        assert(c1.send.una == c.send.una && h.ack == c.send.una);
                    } else {
                        crate::wrap::lemma_between_dist(c.send.una, h.ack, e);
                        assert(c1.send.una == h.ack);
                    }
                    assert(!wlt(c1.send.una, h.ack));
                } else {
                    assert(s_state1(c1, h) == c1.state);
                }
            } else {
                // FinWait1/FinWait2: a consumed acknowledgment cannot move
                // SND.UNA again; TimeWait ignores the acknowledgment.
                if (c.state == State::FinWait1 || c.state == State::FinWait2)
                    && between(c.send.una, h.ack, e) {
                    crate::wrap::lemma_sub32_succ(c.send.nxt, c.send.una);
                    crate::wrap::lemma_wlt_neq(h.ack, e);
                    crate::wrap::lemma_between_dist(c.send.una, h.ack, e);
                    assert(c1.send.una == h.ack);
                    assert(!wlt(c1.send.una, h.ack));
                }
            }
            assert(s_una(c1, h) == c1.send.una);
            assert(step_send(c1, h, plen) == c1.send);
            assert(step_state(c1, h, plen) == c1.state);
        }
        assert(step_recv(c1, h, plen) == c1.recv);
    }
}

} // verus!
