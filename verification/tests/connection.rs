use usertcp::codec::decode_segment;
use usertcp::codec::Ipv4Meta;
use usertcp::codec::SegmentHeader;
use usertcp::tcp::Connection;
use usertcp::tcp::Fatal;
use usertcp::tcp::State;

const PEER_IP: u32 = 0x0a00_0002; // 10.0.0.2
const OUR_IP: u32 = 0x0a00_0001; // 10.0.0.1

fn syn_meta() -> Ipv4Meta {
    Ipv4Meta { src: PEER_IP, dst: OUR_IP, protocol: 6, header_len: 20 }
}

fn seg(seq: u32, ack: u32) -> SegmentHeader {
    SegmentHeader {
        src_port: 4000,
        dst_port: 5900,
        seq,
        ack,
        window: 2048,
        fin: false,
        syn: false,
        rst: false,
        psh: false,
        ack_flag: false,
        urg: false,
    }
}

/// Peer SYN with seq = 1000, window = 2048 — the opening of every scenario.
fn peer_syn() -> SegmentHeader {
    SegmentHeader { syn: true, ..seg(1000, 0) }
}

fn check_recv_accounting(c: &Connection) {
    let fin: u32 = if c.state == State::TimeWait { 1 } else { 0 };
    let delivered = c.incoming.len() as u32;
    assert_eq!(
        c.recv.nxt,
        c.recv.irs.wrapping_add(1).wrapping_add(delivered).wrapping_add(fin)
    );
}

fn check_send_window(c: &Connection) {
    assert!(c.send.nxt.wrapping_sub(c.send.una) <= 1026);
}

#[test]
fn handshake_emits_syn_ack_then_fin() {
    // the SYN is answered with SYN|ACK seq 0, ack 1001, window 1024
    let (mut conn, synack) = Connection::accept(&syn_meta(), &peer_syn(), &[]).unwrap();
    assert!(synack.hdr.syn && synack.hdr.ack_flag && !synack.hdr.fin && !synack.hdr.rst);
    assert_eq!(synack.hdr.seq, 0);
    assert_eq!(synack.hdr.ack, 1001);
    assert_eq!(synack.hdr.window, 1024);
    assert_eq!(conn.state, State::SyncRcvd);
    assert_eq!(conn.send.nxt, 1);
    assert_eq!(conn.send.una, 0);
    assert_eq!(conn.recv.nxt, 1001);
    check_recv_accounting(&conn);
    check_send_window(&conn);

    // the final ACK: SynReceived -> Established -> immediate FinWait1
    let ack = SegmentHeader { ack_flag: true, ..seg(1001, 1) };
    let res = conn.on_packet(&ack, &[]);
    assert!(res.fatal.is_none());
    let fin = res.reply.expect("the automatic close must emit our FIN");
    assert!(fin.hdr.fin && fin.hdr.ack_flag && !fin.hdr.syn);
    assert_eq!(fin.hdr.seq, 1);
    assert_eq!(fin.hdr.ack, 1001);
    assert_eq!(conn.state, State::FinWait1);
    assert_eq!(conn.send.una, 1);
    assert_eq!(conn.send.nxt, 2);
    assert!(res.avail.write == false);
    check_recv_accounting(&conn);
    check_send_window(&conn);
}

#[test]
fn accept_without_syn_is_dropped() {
    let plain = SegmentHeader { ack_flag: true, ..seg(1000, 0) };
    assert!(Connection::accept(&syn_meta(), &plain, &[]).is_none());
}

#[test]
fn duplicate_syn_is_answered_with_plain_ack() {
    let (mut conn, _synack) = Connection::accept(&syn_meta(), &peer_syn(), &[]).unwrap();
    // the peer retransmits its SYN before the final ACK
    let res = conn.on_packet(&peer_syn(), &[]);
    assert!(res.fatal.is_none());
    let d = res.reply.expect("a rejected segment is answered with an ACK");
    // the SYN one-shot was already consumed: the re-emission carries no SYN
    assert!(!d.hdr.syn && d.hdr.ack_flag);
    assert_eq!(d.hdr.seq, 1);
    assert_eq!(d.hdr.ack, 1001);
    assert_eq!(conn.state, State::SyncRcvd);
    assert_eq!(conn.recv.nxt, 1001);
    check_recv_accounting(&conn);
}

#[test]
fn out_of_window_segment_changes_nothing() {
    let (mut conn, _) = Connection::accept(&syn_meta(), &peer_syn(), &[]).unwrap();
    let ack = SegmentHeader { ack_flag: true, ..seg(1001, 1) };
    conn.on_packet(&ack, &[]);

    let state0 = conn.state;
    let send0 = conn.send;
    let recv0 = conn.recv;
    // far outside RCV.NXT .. RCV.NXT + window
    let stray = SegmentHeader { ack_flag: true, ..seg(5000, 1) };
    let res = conn.on_packet(&stray, &[]);
    assert!(res.fatal.is_none());
    let d = res.reply.expect("out-of-window segments are answered with an ACK");
    assert_eq!(d.hdr.ack, 1001, "the ACK re-advertises RCV.NXT");
    assert!(!d.hdr.fin && !d.hdr.syn && !d.hdr.rst);
    assert_eq!(conn.state, state0);
    assert_eq!(conn.send, send0);
    assert_eq!(conn.recv, recv0);
}

#[test]
fn clean_close_from_peer() {
    let (mut conn, _) = Connection::accept(&syn_meta(), &peer_syn(), &[]).unwrap();
    let ack = SegmentHeader { ack_flag: true, ..seg(1001, 1) };
    conn.on_packet(&ack, &[]);
    assert_eq!(conn.state, State::FinWait1);

    // the peer acknowledges our FIN: FinWait1 -> FinWait2
    let ack_fin = SegmentHeader { ack_flag: true, ..seg(1001, 2) };
    let res = conn.on_packet(&ack_fin, &[]);
    assert!(res.fatal.is_none() && res.reply.is_none());
    assert_eq!(conn.state, State::FinWait2);
    assert_eq!(conn.send.una, 2);

    // the peer's FIN: FinWait2 -> TimeWait, answered with a final ACK
    let fin = SegmentHeader { fin: true, ack_flag: true, ..seg(1001, 2) };
    let res = conn.on_packet(&fin, &[]);
    assert!(res.fatal.is_none());
    let d = res.reply.expect("the peer's FIN is acknowledged");
    assert_eq!(d.hdr.ack, 1002);
    assert_eq!(conn.state, State::TimeWait);
    assert_eq!(conn.recv.nxt, 1002);
    assert!(res.avail.read, "a closed receive half is readable");
    check_recv_accounting(&conn);
    check_send_window(&conn);
}

#[test]
fn template_one_shot_flags_are_clear_after_every_emission() {
    let (mut conn, synack) = Connection::accept(&syn_meta(), &peer_syn(), &[]).unwrap();
    assert!(synack.hdr.syn, "the emitted segment carries the one-shot SYN");
    assert!(!conn.tpl.syn && !conn.tpl.fin, "the template is clear again");

    let ack = SegmentHeader { ack_flag: true, ..seg(1001, 1) };
    let res = conn.on_packet(&ack, &[]);
    assert!(res.reply.unwrap().hdr.fin);
    assert!(!conn.tpl.syn && !conn.tpl.fin);
}

#[test]
fn reset_carries_zero_sequence_numbers() {
    let (conn, _) = Connection::accept(&syn_meta(), &peer_syn(), &[]).unwrap();
    let rst = conn.send_rst();
    assert!(rst.hdr.rst);
    assert_eq!(rst.hdr.seq, 0);
    assert_eq!(rst.hdr.ack, 0);
    assert!(!conn.tpl.rst, "the template itself stays clean");
    let dec = decode_segment(&rst.bytes).unwrap();
    assert!(dec.hdr.rst);
}

#[test]
fn replaying_an_accepted_segment_changes_no_state() {
    let (mut conn, _) = Connection::accept(&syn_meta(), &peer_syn(), &[]).unwrap();
    let ack = SegmentHeader { ack_flag: true, ..seg(1001, 1) };
    conn.on_packet(&ack, &[]);

    let state1 = conn.state;
    let send1 = conn.send;
    let recv1 = conn.recv;
    // the very same ACK again
    let res = conn.on_packet(&ack, &[]);
    assert!(res.fatal.is_none());
    assert_eq!(conn.state, state1);
    assert_eq!(conn.send, send1, "SND.UNA never moves backward");
    assert_eq!(conn.recv, recv1);
}

#[test]
fn replayed_fin_after_time_wait_is_rejected() {
    let (mut conn, _) = Connection::accept(&syn_meta(), &peer_syn(), &[]).unwrap();
    conn.on_packet(&SegmentHeader { ack_flag: true, ..seg(1001, 1) }, &[]);
    conn.on_packet(&SegmentHeader { ack_flag: true, ..seg(1001, 2) }, &[]);
    let fin = SegmentHeader { fin: true, ack_flag: true, ..seg(1001, 2) };
    conn.on_packet(&fin, &[]);
    assert_eq!(conn.state, State::TimeWait);

    let send1 = conn.send;
    let recv1 = conn.recv;
    let res = conn.on_packet(&fin, &[]);
    assert!(res.fatal.is_none());
    let d = res.reply.expect("the duplicate FIN fails acceptance and is ACKed");
    assert_eq!(d.hdr.ack, 1002);
    assert_eq!(conn.state, State::TimeWait);
    assert_eq!(conn.send, send1);
    assert_eq!(conn.recv, recv1);
}

#[test]
fn payload_into_data_states_is_refused() {
    let (mut conn, _) = Connection::accept(&syn_meta(), &peer_syn(), &[]).unwrap();
    let state0 = conn.state;
    let recv0 = conn.recv;
    let ack = SegmentHeader { ack_flag: true, ..seg(1001, 1) };
    let res = conn.on_packet(&ack, b"ab");
    assert_eq!(res.fatal, Some(Fatal::DataNotSupported));
    assert!(res.reply.is_none());
    assert_eq!(conn.state, state0, "a refused input leaves the connection untouched");
    assert_eq!(conn.recv, recv0);
}

#[test]
fn fin_outside_fin_wait_2_is_refused() {
    let (mut conn, _) = Connection::accept(&syn_meta(), &peer_syn(), &[]).unwrap();
    let state0 = conn.state;
    // FIN arriving together with the handshake ACK: our own FIN is only
    // being created, so it cannot already be acknowledged
    let finack = SegmentHeader { fin: true, ack_flag: true, ..seg(1001, 1) };
    let res = conn.on_packet(&finack, &[]);
    assert_eq!(res.fatal, Some(Fatal::UnexpectedFin));
    assert!(res.reply.is_none());
    assert_eq!(conn.state, state0);
}

#[test]
fn serializing_then_parsing_an_egress_segment_round_trips() {
    let (mut conn, synack) = Connection::accept(&syn_meta(), &peer_syn(), &[]).unwrap();
    let ack = SegmentHeader { ack_flag: true, ..seg(1001, 1) };
    let fin = conn.on_packet(&ack, &[]).reply.unwrap();

    for d in [synack, fin] {
        let dec = decode_segment(&d.bytes).expect("our own egress bytes must parse");
        assert_eq!(dec.ip.src, d.src_ip);
        assert_eq!(dec.ip.dst, d.dst_ip);
        assert_eq!(dec.ip.protocol, 6);
        assert_eq!(dec.hdr, d.hdr);
        assert!(dec.payload.is_empty());
        assert_eq!(d.bytes.len(), 40);
    }
}

#[test]
fn ack_less_segments_advance_only_the_receive_edge() {
    let (mut conn, _) = Connection::accept(&syn_meta(), &peer_syn(), &[]).unwrap();
    conn.on_packet(&SegmentHeader { ack_flag: true, ..seg(1001, 1) }, &[]);
    // an empty segment without the ACK bit: accepted as a no-op, unanswered
    let res = conn.on_packet(&seg(1001, 0), &[]);
    assert!(res.reply.is_none() && res.fatal.is_none());
    assert_eq!(conn.recv.nxt, 1001);
    assert_eq!(conn.state, State::FinWait1);
}

#[test]
fn handshake_works_across_the_sequence_wrap() {
    let syn = SegmentHeader { syn: true, ..seg(0xFFFF_FFFF, 0) };
    let (mut conn, synack) = Connection::accept(&syn_meta(), &syn, &[]).unwrap();
    assert_eq!(conn.recv.irs, 0xFFFF_FFFF);
    assert_eq!(conn.recv.nxt, 0, "IRS + 1 wraps to zero");
    assert_eq!(synack.hdr.ack, 0);

    let ack = SegmentHeader { ack_flag: true, ..seg(0, 1) };
    let res = conn.on_packet(&ack, &[]);
    assert!(res.fatal.is_none());
    assert_eq!(res.reply.unwrap().hdr.ack, 0);
    assert_eq!(conn.state, State::FinWait1);
    check_recv_accounting(&conn);
    check_send_window(&conn);
}

#[test]
fn is_synchronized_only_after_handshake() {
    let (mut conn, _) = Connection::accept(&syn_meta(), &peer_syn(), &[]).unwrap();
    assert!(!conn.state.is_synchronized());
    conn.on_packet(&SegmentHeader { ack_flag: true, ..seg(1001, 1) }, &[]);
    assert!(conn.state.is_synchronized());
}

#[test]
fn availability_reads_only_after_close() {
    let (mut conn, _) = Connection::accept(&syn_meta(), &peer_syn(), &[]).unwrap();
    let a = conn.availability();
    assert!(!a.read && a.write);
    conn.on_packet(&SegmentHeader { ack_flag: true, ..seg(1001, 1) }, &[]);
    let a = conn.availability();
    assert!(!a.read && !a.write, "the send half closed with our FIN");
    conn.on_packet(&SegmentHeader { ack_flag: true, ..seg(1001, 2) }, &[]);
    conn.on_packet(&SegmentHeader { fin: true, ack_flag: true, ..seg(1001, 2) }, &[]);
    let a = conn.availability();
    assert!(a.read && !a.write);
}
