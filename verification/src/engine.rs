//! The demultiplexing coordinator.
//!
//! One instance per interface: it owns the map from four-tuple to
//! [`Connection`] and, for every bound port, the FIFO of four-tuples whose
//! handshake completed but which no accept call has consumed yet. The
//! packet loop feeds it raw frames through [`ConnectionCoordinator::on_frame`];
//! the socket-like API calls [`bind`](ConnectionCoordinator::bind),
//! [`poll_accept`](ConnectionCoordinator::poll_accept) and the stream
//! operations. Locking, blocking and the tunnel itself stay with the caller.
use vstd::prelude::*;

use crate::codec::Datagram;
use crate::codec::Decoded;
use crate::codec::SegmentHeader;
use crate::codec::can_decode;
use crate::codec::decode_segment;
use crate::codec::encodes;
use crate::tcp::Connection;
use crate::tcp::Fatal;
use crate::tcp::RecvSequenceSpace;
use crate::tcp::SEND_QUEUE_SIZE;
use crate::tcp::SendSequenceSpace;
use crate::tcp::State;
use crate::tcp::s_fatal;
use crate::tcp::step_recv;
use crate::tcp::step_reply_hdr;
use crate::tcp::step_send;
use crate::tcp::step_state;
use crate::wrap::add32;

verus! {

/// The four-tuple identifying one TCP flow; addresses are big-endian.
#[derive(Clone, Copy, Debug, PartialEq, Eq, Structural)]
pub struct Quad {
    pub src_ip: u32,
    pub src_port: u16,
    pub dst_ip: u32,
    pub dst_port: u16,
}

/// Errors the socket-like API surfaces to its callers.
#[derive(Clone, Copy, Debug, PartialEq, Eq, Structural)]
pub enum TcpError {
    /// The port already has a listener.
    AddrInUse,
    /// Nothing to do now; retry later.
    WouldBlock,
    /// The stream's four-tuple is no longer in the map.
    ConnectionAborted,
    /// The port has no listener.
    PortNotBound,
}

/// What one ingress frame produced.
pub struct FrameAction {
    /// Datagram to write back to the tunnel, if any.
    pub reply: Option<Datagram>,
    /// Four-tuple of a freshly accepted connection now waiting in its
    /// port's pending queue; waiters should be woken.
    pub accepted: Option<Quad>,
    /// An input the minimal engine cannot serve; the caller fails loudly.
    pub fatal: Option<Fatal>,
}

/// The quad under which an ingress segment is looked up.
pub open spec fn quad_of(src_ip: u32, dst_ip: u32, h: SegmentHeader) -> Quad {
    Quad { src_ip, src_port: h.src_port, dst_ip, dst_port: h.dst_port }
}

/// Some connection entry carries this quad.
pub open spec fn has_key(s: Seq<(Quad, Connection)>, q: Quad) -> bool {
    exists|i: int| 0 <= i < s.len() && (#[trigger] s[i]).0 == q
}

/// Index of the connection entry carrying this quad.
pub open spec fn key_idx(s: Seq<(Quad, Connection)>, q: Quad) -> int {
    choose|i: int| 0 <= i < s.len() && (#[trigger] s[i]).0 == q
}

/// Some pending entry carries this port.
pub open spec fn has_port(s: Seq<(u16, Vec<Quad>)>, p: u16) -> bool {
    exists|i: int| 0 <= i < s.len() && (#[trigger] s[i]).0 == p
}

/// Index of the pending entry carrying this port.
pub open spec fn port_idx(s: Seq<(u16, Vec<Quad>)>, p: u16) -> int {
    choose|i: int| 0 <= i < s.len() && (#[trigger] s[i]).0 == p
}

/// Process-wide routing state: connections by four-tuple, a pending FIFO
/// per bound port, and the teardown signal.
pub struct ConnectionCoordinator {
    pub terminate: bool,
    pub connections: Vec<(Quad, Connection)>,
    pub pending: Vec<(u16, Vec<Quad>)>,
}

/// How `on_frame` and `handle_segment` transform the coordinator for one
/// parsed segment: step the matching connection, or accept a SYN on a
/// bound port, or drop.
pub open spec fn routed(
    pre: ConnectionCoordinator,
    post: ConnectionCoordinator,
    src_ip: u32,
    dst_ip: u32,
    h: SegmentHeader,
    plen: int,
    r: FrameAction,
) -> bool {
    let q = quad_of(src_ip, dst_ip, h);
    if has_key(pre.connections@, q) {
        let i = key_idx(pre.connections@, q);
        let c0 = pre.connections@[i].1;
        &&& post.connections@.len() == pre.connections@.len()
        &&& post.connections@[i].0 == q
        &&& post.connections@[i].1.state == step_state(c0, h, plen)
        &&& post.connections@[i].1.send == step_send(c0, h, plen)
        &&& post.connections@[i].1.recv == step_recv(c0, h, plen)
        &&& forall|j: int| 0 <= j < pre.connections@.len() && j != i
            ==> post.connections@[j] == pre.connections@[j]
        &&& post.pending@ == pre.pending@
        &&& r.accepted is None
        &&& r.fatal == s_fatal(c0, h, plen)
        &&& match r.reply {
            Some(d) => {
                &&& step_reply_hdr(c0, h, plen) == Some(d.hdr)
                &&& d.src_ip == c0.src_ip
                &&& d.dst_ip == c0.dst_ip
                &&& encodes(d.bytes@, c0.src_ip, c0.dst_ip, d.hdr, Seq::<u8>::empty())
            },
            None => step_reply_hdr(c0, h, plen) is None,
        }
    } else if has_port(pre.pending@, h.dst_port) && h.syn {
        let pi = port_idx(pre.pending@, h.dst_port);
        let n = pre.connections@.len() as int;
        &&& post.connections@.len() == n + 1
        &&& post.connections@.subrange(0, n) == pre.connections@
        &&& post.connections@[n].0 == q
        &&& post.connections@[n].1.wf()
        &&& post.connections@[n].1.state == State::SyncRcvd
        &&& post.connections@[n].1.send == (SendSequenceSpace {
            iss: 0,
            una: 0,
            nxt: 1,
            wnd: 1024,
            up: false,
            wl1: 0,
            wl2: 0,
        })
        &&& post.connections@[n].1.recv == (RecvSequenceSpace {
            irs: h.seq,
            nxt: add32(h.seq, 1),
            wnd: h.window,
            up: false,
        })
        &&& post.connections@[n].1.src_ip == dst_ip
        &&& post.connections@[n].1.dst_ip == src_ip
        &&& post.pending@.len() == pre.pending@.len()
        &&& post.pending@[pi].0 == h.dst_port
        &&& post.pending@[pi].1@ == pre.pending@[pi].1@.push(q)
        &&& forall|j: int| 0 <= j < pre.pending@.len() && j != pi
            ==> post.pending@[j] == pre.pending@[j]
        &&& r.accepted == Some(q)
        &&& r.fatal is None
        &&& r.reply matches Some(d) && {
            &&& d.src_ip == dst_ip
            &&& d.dst_ip == src_ip
            &&& d.hdr.syn && d.hdr.ack_flag && !d.hdr.fin && !d.hdr.rst
            &&& d.hdr.seq == 0
            &&& d.hdr.ack == add32(h.seq, 1)
            &&& d.hdr.window == 1024
            &&& d.hdr.src_port == h.dst_port
            &&& d.hdr.dst_port == h.src_port
            &&& encodes(d.bytes@, dst_ip, src_ip, d.hdr, Seq::<u8>::empty())
        }
    } else {
        &&& post.connections@ == pre.connections@
        &&& post.pending@ == pre.pending@
        &&& r.reply is None
        &&& r.accepted is None
        &&& r.fatal is None
    }
}

impl ConnectionCoordinator {
    /// Well-formed routing state: connection quads unique, listening ports
    /// unique, every connection structurally sound.
    pub open spec fn wf(self) -> bool {
        &&& forall|i: int, j: int|
            #![trigger self.connections@[i], self.connections@[j]]
            0 <= i < j < self.connections@.len()
                ==> self.connections@[i].0 != self.connections@[j].0
        &&& forall|i: int, j: int|
            #![trigger self.pending@[i], self.pending@[j]]
            0 <= i < j < self.pending@.len() ==> self.pending@[i].0 != self.pending@[j].0
        &&& forall|i: int| 0 <= i < self.connections@.len()
            ==> (#[trigger] self.connections@[i]).1.wf()
    }

    /// A fresh coordinator: no connections, no listeners, not terminating.
    pub fn new() -> (r: ConnectionCoordinator)
        ensures
            r.wf(),
            !r.terminate,
            r.connections@.len() == 0,
            r.pending@.len() == 0,
    {
        ConnectionCoordinator { terminate: false, connections: Vec::new(), pending: Vec::new() }
    }

    /// Linear lookup of a connection by four-tuple.
    fn find_conn(&self, q: &Quad) -> (r: Option<usize>)
        requires
            self.wf(),
        ensures
            match r {
                Some(i) => i == key_idx(self.connections@, *q) && i < self.connections@.len()
                    && self.connections@[i as int].0 == *q,
                None => !has_key(self.connections@, *q),
            },
    {
        let mut i: usize = 0;
        while i < self.connections.len()
            invariant
                self.wf(),
                i <= self.connections@.len(),
                forall|k: int| 0 <= k < i ==> (#[trigger] self.connections@[k]).0 != *q,
            decreases self.connections@.len() - i,
        {
            if self.connections[i].0 == *q {
                proof {
                    assert(has_key(self.connections@, *q));
                    let w = key_idx(self.connections@, *q);
                    assert(self.connections@[w].0 == *q);
                    assert(w == i);
                }
                return Some(i);
            }
            i = i + 1;
        }
        None
    }

    /// Linear lookup of a pending queue by port.
    fn find_port(&self, p: u16) -> (r: Option<usize>)
        requires
            self.wf(),
        ensures
            match r {
                Some(i) => i == port_idx(self.pending@, p) && i < self.pending@.len()
                    && self.pending@[i as int].0 == p,
                None => !has_port(self.pending@, p),
            },
    {
        let mut i: usize = 0;
        while i < self.pending.len()
            invariant
                self.wf(),
                i <= self.pending@.len(),
                forall|k: int| 0 <= k < i ==> (#[trigger] self.pending@[k]).0 != p,
            decreases self.pending@.len() - i,
        {
            if self.pending[i].0 == p {
                proof {
                    assert(has_port(self.pending@, p));
                    let w = port_idx(self.pending@, p);
                    assert(self.pending@[w].0 == p);
                    assert(w == i);
                }
                return Some(i);
            }
            i = i + 1;
        }
        None
    }

    /// Install a listener: fails with address-in-use when the port already
    /// has one, otherwise adds an empty pending queue for it.
    pub fn bind(&mut self, port: u16) -> (r: Result<(), TcpError>)
        requires
            old(self).wf(),
        ensures
            final(self).wf(),
            final(self).terminate == old(self).terminate,
            final(self).connections@ == old(self).connections@,
            if has_port(old(self).pending@, port) {
                &&& r == Err::<(), TcpError>(TcpError::AddrInUse)
                &&& final(self).pending@ == old(self).pending@
            } else {
                &&& r == Ok::<(), TcpError>(())
                &&& final(self).pending@.len() == old(self).pending@.len() + 1
                &&& final(self).pending@.subrange(0, old(self).pending@.len() as int)
                    == old(self).pending@
                &&& final(self).pending@.last().0 == port
                &&& final(self).pending@.last().1@.len() == 0
            },
    {
        if self.find_port(port).is_some() {
            return Err(TcpError::AddrInUse);
        }
        let fifo: Vec<Quad> = Vec::new();
        self.pending.push((port, fifo));
        Ok(())
    }

    /// Tear a listener down: its pending queue is removed and handed back
    /// so the caller can dispose of the connections still waiting in it.
    pub fn unbind(&mut self, port: u16) -> (r: Option<Vec<Quad>>)
        requires
            old(self).wf(),
        ensures
            final(self).wf(),
            final(self).terminate == old(self).terminate,
            final(self).connections@ == old(self).connections@,
            if has_port(old(self).pending@, port) {
                let i = port_idx(old(self).pending@, port);
                &&& r matches Some(v) && v@ == old(self).pending@[i].1@
                &&& final(self).pending@ == old(self).pending@.remove(i)
            } else {
                &&& r is None
                &&& final(self).pending@ == old(self).pending@
            },
    {
        match self.find_port(port) {
            Some(i) => {
                let entry = self.pending.remove(i);
                Some(entry.1)
            },
            None => None,
        }
    }

    /// One accept poll: pop the oldest completed handshake of this port,
    /// if any; a port nobody bound is an error.
    pub fn poll_accept(&mut self, port: u16) -> (r: Result<Option<Quad>, TcpError>)
        requires
            old(self).wf(),
        ensures
            final(self).wf(),
            final(self).terminate == old(self).terminate,
            final(self).connections@ == old(self).connections@,
            if !has_port(old(self).pending@, port) {
                &&& r == Err::<Option<Quad>, TcpError>(TcpError::PortNotBound)
                &&& final(self).pending@ == old(self).pending@
            } else {
                let i = port_idx(old(self).pending@, port);
                let fifo = old(self).pending@[i].1@;
                if fifo.len() == 0 {
                    &&& r == Ok::<Option<Quad>, TcpError>(None)
                    &&& final(self).pending@ == old(self).pending@
                } else {
                    &&& r == Ok::<Option<Quad>, TcpError>(Some(fifo[0]))
                    &&& final(self).pending@.len() == old(self).pending@.len()
                    &&& final(self).pending@[i].0 == port
                    &&& final(self).pending@[i].1@ == fifo.subrange(1, fifo.len() as int)
                    &&& forall|j: int| 0 <= j < old(self).pending@.len() && j != i
                        ==> final(self).pending@[j] == old(self).pending@[j]
                }
            },
    {
        let i = match self.find_port(port) {
            Some(i) => i,
            None => { return Err(TcpError::PortNotBound); },
        };
        if self.pending[i].1.len() == 0 {
            return Ok(None);
        }
        let mut entry = self.pending.remove(i);
        let quad = entry.1.remove(0);
        let ghost ev = entry;
        self.pending.insert(i, entry);
        proof {
            lemma_remove_insert(old(self).pending@, i as int, ev);
        }
        Ok(Some(quad))
    }

    /// Route one parsed segment: step the connection that owns its
    /// four-tuple; otherwise, if its destination port is bound and it
    /// carries SYN, accept a new connection and queue it for the port.
    pub fn handle_segment(&mut self, seg: &Decoded) -> (r: FrameAction)
        requires
            old(self).wf(),
            seg.payload@.len() <= 1464,
        ensures
            final(self).wf(),
            final(self).terminate == old(self).terminate,
            routed(*old(self), *final(self), seg.ip.src, seg.ip.dst, seg.hdr,
                seg.payload@.len() as int, r),
    {
        let quad = Quad {
            src_ip: seg.ip.src,
            src_port: seg.hdr.src_port,
            dst_ip: seg.ip.dst,
            dst_port: seg.hdr.dst_port,
        };
        match self.find_conn(&quad) {
            Some(i) => {
                let mut entry = self.connections.remove(i);
                let res = entry.1.on_packet(&seg.hdr, payload_slice(seg));
                let ghost ev = entry;
                self.connections.insert(i, entry);
                proof {
                    lemma_remove_insert(old(self).connections@, i as int, ev);
                }
                FrameAction { reply: res.reply, accepted: None, fatal: res.fatal }
            },
            None => {
                let pi = match self.find_port(seg.hdr.dst_port) {
                    Some(pi) => pi,
                    None => {
                        return FrameAction { reply: None, accepted: None, fatal: None };
                    },
                };
                match Connection::accept(&seg.ip, &seg.hdr, payload_slice(seg)) {
                    Some((conn, datagram)) => {
                        self.connections.push((quad, conn));
                        proof {
                            assert(self.connections@.subrange(
                                0,
                                old(self).connections@.len() as int,
                            ) =~= old(self).connections@);
                        }
                        let mut entry = self.pending.remove(pi);
                        entry.1.push(quad);
                        let ghost ev = entry;
                        self.pending.insert(pi, entry);
                        proof {
                            lemma_remove_insert(old(self).pending@, pi as int, ev);
                        }
                        FrameAction {
                            reply: Some(datagram),
                            accepted: Some(quad),
                            fatal: None,
                        }
                    },
                    None => FrameAction { reply: None, accepted: None, fatal: None },
                }
            },
        }
    }

    /// The packet loop's whole per-frame step: parse the frame as
    /// IPv4-carrying-TCP (anything else is dropped silently) and route it.
    pub fn on_frame(&mut self, frame: &[u8]) -> (r: FrameAction)
        requires
            old(self).wf(),
            frame@.len() <= 1504,
        ensures
            final(self).wf(),
            final(self).terminate == old(self).terminate,
            !can_decode(frame@) ==> {
                &&& final(self).connections@ == old(self).connections@
                &&& final(self).pending@ == old(self).pending@
                &&& r.reply is None
                &&& r.accepted is None
                &&& r.fatal is None
            },
            can_decode(frame@) ==> ({
                let rest = frame@.subrange(
                    crate::codec::ip_hlen(frame@),
                    frame@.len() as int,
                );
                let h = crate::codec::tcp_fields(rest);
                routed(*old(self), *final(self), crate::codec::be32(frame@, 12),
                    crate::codec::be32(frame@, 16), h,
                    rest.len() - crate::codec::tcp_hlen(rest), r)
            }),
    {
        let seg = match decode_segment(frame) {
            Some(s) => s,
            None => {
                return FrameAction { reply: None, accepted: None, fatal: None };
            },
        };
        self.handle_segment(&seg)
    }

    /// Copy up to `max` bytes out of the connection's incoming queue.
    /// Empty queue: a zero-length result when the peer closed, else
    /// would-block. A four-tuple with no connection is aborted.
    pub fn stream_read(&mut self, quad: &Quad, max: usize) -> (r: Result<Vec<u8>, TcpError>)
        requires
            old(self).wf(),
        ensures
            final(self).wf(),
            final(self).terminate == old(self).terminate,
            final(self).pending@ == old(self).pending@,
            if !has_key(old(self).connections@, *quad) {
                &&& r == Err::<Vec<u8>, TcpError>(TcpError::ConnectionAborted)
                &&& final(self).connections@ == old(self).connections@
            } else {
                let i = key_idx(old(self).connections@, *quad);
                let c0 = old(self).connections@[i].1;
                if c0.incoming@.len() == 0 {
                    &&& final(self).connections@ == old(self).connections@
                    &&& if c0.spec_rcv_closed() {
                        r matches Ok(v) && v@.len() == 0
                    } else {
                        r == Err::<Vec<u8>, TcpError>(TcpError::WouldBlock)
                    }
                } else {
                    let n = if max <= c0.incoming@.len() {
                        max as int
                    } else {
                        c0.incoming@.len() as int
                    };
                    &&& r matches Ok(v) && v@ == c0.incoming@.subrange(0, n)
                    &&& final(self).connections@.len() == old(self).connections@.len()
                    &&& final(self).connections@[i].0 == *quad
                    &&& final(self).connections@[i].1 == (Connection {
                        incoming: final(self).connections@[i].1.incoming,
                        ..c0
                    })
                    &&& final(self).connections@[i].1.incoming@
                        == c0.incoming@.subrange(n, c0.incoming@.len() as int)
                    &&& forall|j: int| 0 <= j < old(self).connections@.len() && j != i
                        ==> final(self).connections@[j] == old(self).connections@[j]
                }
            },
    {
        let i = match self.find_conn(quad) {
            Some(i) => i,
            None => { return Err(TcpError::ConnectionAborted); },
        };
        if self.connections[i].1.incoming.len() == 0 {
            if self.connections[i].1.is_rcv_closed() {
                return Ok(Vec::new());
            }
            return Err(TcpError::WouldBlock);
        }
        let mut entry = self.connections.remove(i);
        let len = entry.1.incoming.len();
        let n: usize = if max <= len {
            max
        } else {
            len
        };
        let mut out: Vec<u8> = Vec::new();
        let mut k: usize = 0;
        proof {
            assert(out@ =~= entry.1.incoming@.subrange(0, 0));
        }
        while k < n
            invariant
                n <= len,
                len == entry.1.incoming@.len(),
                k <= n,
                out@ == entry.1.incoming@.subrange(0, k as int),
            decreases n - k,
        {
            out.push(entry.1.incoming[k]);
            proof {
                assert(out@ =~= entry.1.incoming@.subrange(0, k + 1 as int));
            }
            k = k + 1;
        }
        let mut rest: Vec<u8> = Vec::new();
        proof {
            assert(rest@ =~= entry.1.incoming@.subrange(n as int, n as int));
        }
        while k < len
            invariant
                n <= k <= len,
                len == entry.1.incoming@.len(),
                rest@ == entry.1.incoming@.subrange(n as int, k as int),
            decreases len - k,
        {
            rest.push(entry.1.incoming[k]);
            proof {
                assert(rest@ =~= entry.1.incoming@.subrange(n as int, k + 1 as int));
            }
            k = k + 1;
        }
        entry.1.incoming = rest;
        let ghost ev = entry;
        self.connections.insert(i, entry);
        proof {
            lemma_remove_insert(old(self).connections@, i as int, ev);
        }
        Ok(out)
    }

    /// Buffer bytes for transmission: appends up to the queue's remaining
    /// room and reports how many were taken; a full queue would block.
    pub fn stream_write(&mut self, quad: &Quad, buf: &[u8]) -> (r: Result<usize, TcpError>)
        requires
            old(self).wf(),
        ensures
            final(self).wf(),
            final(self).terminate == old(self).terminate,
            final(self).pending@ == old(self).pending@,
            if !has_key(old(self).connections@, *quad) {
                &&& r == Err::<usize, TcpError>(TcpError::ConnectionAborted)
                &&& final(self).connections@ == old(self).connections@
            } else {
                let i = key_idx(old(self).connections@, *quad);
                let c0 = old(self).connections@[i].1;
                if c0.outgoing@.len() >= SEND_QUEUE_SIZE {
                    &&& r == Err::<usize, TcpError>(TcpError::WouldBlock)
                    &&& final(self).connections@ == old(self).connections@
                } else {
                    let n = if buf@.len() <= SEND_QUEUE_SIZE - c0.outgoing@.len() {
                        buf@.len() as int
                    } else {
                        SEND_QUEUE_SIZE - c0.outgoing@.len()
                    };
                    &&& r == Ok::<usize, TcpError>(n as usize)
                    &&& final(self).connections@.len() == old(self).connections@.len()
                    &&& final(self).connections@[i].0 == *quad
                    &&& final(self).connections@[i].1 == (Connection {
                        outgoing: final(self).connections@[i].1.outgoing,
                        ..c0
                    })
                    &&& final(self).connections@[i].1.outgoing@
                        == c0.outgoing@ + buf@.subrange(0, n)
                    &&& forall|j: int| 0 <= j < old(self).connections@.len() && j != i
                        ==> final(self).connections@[j] == old(self).connections@[j]
                }
            },
    {
        let i = match self.find_conn(quad) {
            Some(i) => i,
            None => { return Err(TcpError::ConnectionAborted); },
        };
        if self.connections[i].1.outgoing.len() >= SEND_QUEUE_SIZE {
            return Err(TcpError::WouldBlock);
        }
        let mut entry = self.connections.remove(i);
        let room = SEND_QUEUE_SIZE - entry.1.outgoing.len();
        let n: usize = if buf.len() <= room {
            buf.len()
        } else {
            room
        };
        let ghost out0 = entry.1.outgoing@;
        let mut k: usize = 0;
        proof {
            assert(entry.1.outgoing@ =~= out0 + buf@.subrange(0, 0));
        }
        while k < n
            invariant
                n <= buf@.len(),
                k <= n,
                i < old(self).connections@.len(),
                entry.0 == old(self).connections@[i as int].0,
                entry.1 == (Connection {
                    outgoing: entry.1.outgoing,
                    ..old(self).connections@[i as int].1
                }),
                out0 == old(self).connections@[i as int].1.outgoing@,
                out0.len() + n <= SEND_QUEUE_SIZE,
                entry.1.outgoing@ == out0 + buf@.subrange(0, k as int),
            decreases n - k,
        {
            entry.1.outgoing.push(buf[k]);
            proof {
                assert(entry.1.outgoing@ =~= out0 + buf@.subrange(0, k + 1 as int));
            }
            k = k + 1;
        }
        let ghost ev = entry;
        self.connections.insert(i, entry);
        proof {
            lemma_remove_insert(old(self).connections@, i as int, ev);
        }
        Ok(n)
    }

    /// Flush succeeds only once the outgoing queue is empty.
    pub fn stream_flush(&mut self, quad: &Quad) -> (r: Result<(), TcpError>)
        requires
            old(self).wf(),
        ensures
            final(self).wf(),
            *final(self) == *old(self),
            if !has_key(old(self).connections@, *quad) {
                r == Err::<(), TcpError>(TcpError::ConnectionAborted)
            } else {
                let i = key_idx(old(self).connections@, *quad);
                if old(self).connections@[i].1.outgoing@.len() == 0 {
                    r == Ok::<(), TcpError>(())
                } else {
                    r == Err::<(), TcpError>(TcpError::WouldBlock)
                }
            },
    {
        let i = match self.find_conn(quad) {
            Some(i) => i,
            None => { return Err(TcpError::ConnectionAborted); },
        };
        if self.connections[i].1.outgoing.len() == 0 {
            Ok(())
        } else {
            Err(TcpError::WouldBlock)
        }
    }
}

/// Taking an entry out of a sequence and putting a new one back at the
/// same place updates that place and nothing else.
proof fn lemma_remove_insert<T>(pre: Seq<T>, i: int, x: T)
    requires
        0 <= i < pre.len(),
    ensures
        pre.remove(i).insert(i, x).len() == pre.len(),
        pre.remove(i).insert(i, x)[i] == x,
        forall|j: int| 0 <= j < pre.len() && j != i ==> pre.remove(i).insert(i, x)[j] == pre[j],
{
    let s1 = pre.remove(i);
    let post = s1.insert(i, x);
    assert forall|j: int| 0 <= j < pre.len() && j != i implies post[j] == pre[j] by {
        if j < i {
            assert(s1[j] == pre[j]);
            assert(post[j] == s1[j]);
        } else {
            assert(s1[j - 1] == pre[j]);
            assert(post[j] == s1[j - 1]);
        }
    }
}

/// The segment's payload as a slice.
fn payload_slice(seg: &Decoded) -> (r: &[u8])
    ensures
        r@ == seg.payload@,
{
    seg.payload.as_slice()
}

} // verus!
