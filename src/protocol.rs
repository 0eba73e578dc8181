use vstd::prelude::*;
use vstd::slice::slice_subrange;

use crate::packet::{encode, FrameView, J1939Packet};

verus! {

/// Ask the peer to answer with the same payload.
pub const PING_CMD: u8 = 1;

/// Ask the peer to receive a run of data frames.
pub const RX_CMD: u8 = 2;

/// Ask the peer to send a run of data frames.
pub const TX_CMD: u8 = 3;

/// One frame of a run, carrying its sequence number.
pub const DATA_CMD: u8 = 4;

/// Ask the peer to stop.
pub const EXIT_CMD: u8 = 5;

/// J1939 priority of every frame of the test protocol.
pub const PRIORITY: u8 = 6;

/// Largest PGN that a frame can carry (18 bits).
pub const MAX_PGN: u32 = 0x3FFFF;

/// Length of a control payload: command, three zero bytes, a big-endian parameter.
pub const CONTROL_LEN: usize = 8;

/// A 32-bit value as four big-endian bytes.
pub open spec fn be_bytes(v: u32) -> Seq<u8> {
    seq![
        (v / 0x100_0000) as u8,
        ((v / 0x1_0000) % 256) as u8,
        ((v / 256) % 256) as u8,
        (v % 256) as u8,
    ]
}

/// The value of four big-endian bytes.
pub open spec fn be_value(b: Seq<u8>) -> u32 {
    (((b[0] as nat * 256 + b[1] as nat) * 256 + b[2] as nat) * 256 + b[3] as nat) as u32
}

/// A control payload: the command, three zero bytes, then the parameter.
pub open spec fn control_payload(cmd: u8, param: u32) -> Seq<u8> {
    seq![cmd, 0u8, 0u8, 0u8] + be_bytes(param)
}

/// The parameter that a control payload carries, if it is long enough.
pub open spec fn parameter_of(payload: Seq<u8>) -> Option<u32> {
    if payload.len() >= CONTROL_LEN {
        Some(be_value(payload.subrange(4, 8)))
    } else {
        None
    }
}

/// The sequence number that follows `seq`; after the largest comes 0.
pub open spec fn next_expected(seq: u32) -> u32 {
    if seq == u32::MAX {
        0
    } else {
        (seq + 1) as u32
    }
}

/// The parameter written into a control payload is the one read back from it.
pub proof fn lemma_control_round_trip(cmd: u8, v: u32)
    ensures
        be_value(be_bytes(v)) == v,
        parameter_of(control_payload(cmd, v)) == Some(v),
{
    let b = be_bytes(v);
    assert(((((v / 0x100_0000) as u8) as nat * 256 + (((v / 0x1_0000) % 256) as u8) as nat) * 256
        + (((v / 256) % 256) as u8) as nat) * 256 + ((v % 256) as u8) as nat == v)
        by (nonlinear_arith);
    assert(control_payload(cmd, v).subrange(4, 8) =~= b);
}

/// A control payload.
pub fn control(cmd: u8, param: u32) -> (r: Vec<u8>)
    ensures
        r@ == control_payload(cmd, param),
{
    let mut v: Vec<u8> = Vec::new();
    v.push(cmd);
    v.push(0);
    v.push(0);
    v.push(0);
    v.push((param / 0x100_0000) as u8);
    v.push(((param / 0x1_0000) % 256) as u8);
    v.push(((param / 256) % 256) as u8);
    v.push((param % 256) as u8);
    assert(v@ =~= control_payload(cmd, param));
    v
}

/// The big-endian parameter in bytes 4 to 7 of a control payload; `None` when the
/// payload is shorter than eight bytes.
pub fn parameter(payload: &[u8]) -> (r: Option<u32>)
    ensures
        r == parameter_of(payload@),
{
    if payload.len() < CONTROL_LEN {
        None
    } else {
        let b = slice_subrange(payload, 4, 8);
        let v: u32 = ((b[0] as u32 * 256 + b[1] as u32) * 256 + b[2] as u32) * 256 + b[3] as u32;
        Some(v)
    }
}

/// A frame of the test protocol from `address` to `dest` on `pgn`.
pub open spec fn protocol_frame(pgn: u32, dest: u8, address: u8, payload: Seq<u8>) -> FrameView {
    encode(PRIORITY, pgn, dest, address, payload)
}

/// The request that announces a run of `count` frames: `RX_CMD` asks the peer to
/// receive them, `TX_CMD` to send them.
pub fn request_frame(cmd: u8, count: u32, pgn: u32, dest: u8, address: u8) -> (r: J1939Packet)
    requires
        pgn <= MAX_PGN,
    ensures
        r@ == protocol_frame(pgn, dest, address, control_payload(cmd, count)),
{
    J1939Packet::new_packet(PRIORITY, pgn, dest, address, control(cmd, count).as_slice())
}

/// Ping number `i`.
pub fn ping_frame(i: u32, pgn: u32, dest: u8, address: u8) -> (r: J1939Packet)
    requires
        pgn <= MAX_PGN,
    ensures
        r@ == protocol_frame(pgn, dest, address, control_payload(PING_CMD, i)),
{
    J1939Packet::new_packet(PRIORITY, pgn, dest, address, control(PING_CMD, i).as_slice())
}

/// Data frame number `seq` of a run.
pub fn data_frame(seq: u32, pgn: u32, dest: u8, address: u8) -> (r: J1939Packet)
    requires
        pgn <= MAX_PGN,
    ensures
        r@ == protocol_frame(pgn, dest, address, control_payload(DATA_CMD, seq)),
{
    J1939Packet::new_packet(PRIORITY, pgn, dest, address, control(DATA_CMD, seq).as_slice())
}

/// The request that asks a responder to stop.
pub fn exit_frame(pgn: u32, dest: u8, address: u8) -> (r: J1939Packet)
    requires
        pgn <= MAX_PGN,
    ensures
        r@ == protocol_frame(pgn, dest, address, control_payload(EXIT_CMD, 0)),
{
    J1939Packet::new_packet(PRIORITY, pgn, dest, address, control(EXIT_CMD, 0).as_slice())
}

/// The answer to a ping: its payload, sent back to where it came from.
pub fn pong_frame(ping: &J1939Packet, pgn: u32, address: u8) -> (r: J1939Packet)
    requires
        pgn <= MAX_PGN,
    ensures
        r@ == protocol_frame(pgn, ping@.source(), address, ping@.payload()),
{
    J1939Packet::new_packet(PRIORITY, pgn, ping.source(), address, ping.data())
}

/// The first payload byte, if there is one, is `cmd`.
pub open spec fn carries(f: FrameView, cmd: u8) -> bool {
    f.payload().len() > 0 && f.payload()[0] == cmd
}

fn first_byte_is(frame: &J1939Packet, cmd: u8) -> (r: bool)
    ensures
        r == carries(frame@, cmd),
{
    let d = frame.data();
    d.len() > 0 && d[0] == cmd
}

/// Whether `frame` answers a ping sent to `dest` on `pgn`.
pub fn is_pong(frame: &J1939Packet, dest: u8, pgn: u32) -> (r: bool)
    ensures
        r == (frame@.source() == dest && frame@.pgn() == pgn && carries(frame@, PING_CMD)),
{
    frame.source() == dest && frame.pgn() == pgn && first_byte_is(frame, PING_CMD)
}

/// Whether `frame` is the adapter's copy of `sent`: the two carry the same payload.
pub fn is_echo_of(frame: &J1939Packet, sent: &J1939Packet) -> (r: bool)
    ensures
        r == (frame@.payload() == sent@.payload()),
{
    let a = frame.data();
    let b = sent.data();
    if a.len() != b.len() {
        return false;
    }
    let mut i: usize = 0;
    while i < a.len()
        invariant
            i <= a@.len(),
            a@.len() == b@.len(),
            a@ == frame@.payload(),
            b@ == sent@.payload(),
            forall|j: int| 0 <= j < i ==> a@[j] == b@[j],
        decreases a@.len() - i,
    {
        if a[i] != b[i] {
            assert(a@ != b@) by {
                if a@ == b@ {
                    assert(a@[i as int] == b@[i as int]);
                }
            }
            return false;
        }
        i = i + 1;
    }
    assert(a@ =~= b@);
    true
}

/// What a responder does with a frame.
pub enum ServerAction {
    /// Not for this responder, or a data frame outside a run.
    Ignore,
    /// Answer a ping with this frame.
    Pong(J1939Packet),
    /// Receive a run of `count` data frames from `source`.
    Receive { source: u8, count: u32 },
    /// Send a run of `count` data frames to `dest`.
    Transmit { dest: u8, count: u32 },
    /// Stop.
    Exit,
    /// A request too short to carry its count.
    Malformed,
    /// A command that this protocol does not know, or an empty payload.
    Unknown,
}

/// Decides what a responder at `address`, listening on `pgn`, does with `frame`: it
/// takes frames on its PGN from other addresses, and acts on the first payload byte.
pub fn server_action(frame: &J1939Packet, address: u8, pgn: u32) -> (r: ServerAction)
    requires
        pgn <= MAX_PGN,
    ensures
        frame@.pgn() != pgn || frame@.source() == address ==> r is Ignore,
        frame@.pgn() == pgn && frame@.source() != address ==> {
            let p = frame@.payload();
            let src = frame@.source();
            if p.len() == 0 {
                r is Unknown
            } else if p[0] == PING_CMD {
                r matches ServerAction::Pong(f) && f@ == protocol_frame(pgn, src, address, p)
            } else if p[0] == RX_CMD {
                match parameter_of(p) {
                    Some(n) => r == (ServerAction::Receive { source: src, count: n }),
                    None => r is Malformed,
                }
            } else if p[0] == TX_CMD {
                match parameter_of(p) {
                    Some(n) => r == (ServerAction::Transmit { dest: src, count: n }),
                    None => r is Malformed,
                }
            } else if p[0] == DATA_CMD {
                r is Ignore
            } else if p[0] == EXIT_CMD {
                r is Exit
            } else {
                r is Unknown
            }
        },
{
    if frame.pgn() != pgn || frame.source() == address {
        return ServerAction::Ignore;
    }
    let d = frame.data();
    if d.len() == 0 {
        return ServerAction::Unknown;
    }
    let cmd = d[0];
    if cmd == PING_CMD {
        ServerAction::Pong(pong_frame(frame, pgn, address))
    } else if cmd == RX_CMD {
        match parameter(d) {
            Some(n) => ServerAction::Receive { source: frame.source(), count: n },
            None => ServerAction::Malformed,
        }
    } else if cmd == TX_CMD {
        match parameter(d) {
            Some(n) => ServerAction::Transmit { dest: frame.source(), count: n },
            None => ServerAction::Malformed,
        }
    } else if cmd == DATA_CMD {
        ServerAction::Ignore
    } else if cmd == EXIT_CMD {
        ServerAction::Exit
    } else {
        ServerAction::Unknown
    }
}

/// A data frame whose sequence number is not the one expected.
#[derive(Debug, Clone, Copy, PartialEq, Eq, Structural)]
pub struct SeqMismatch {
    pub expected: u32,
    pub received: u32,
}

/// What a receiving run made of a frame.
#[derive(Debug, Clone, Copy, PartialEq, Eq, Structural)]
pub enum RxEvent {
    /// Not a data frame of this run, or the run is complete.
    Skipped,
    /// The expected data frame.
    InSequence(u32),
    /// A data frame with another sequence number; the run follows it from there.
    OutOfSequence(SeqMismatch),
    /// A data frame too short to carry its sequence number; it counts as received.
    Malformed,
}

/// A frame that a run receiving from `source` on `pgn` takes.
pub open spec fn is_run_frame(f: FrameView, pgn: u32, source: u8) -> bool {
    f.source() == source && f.pgn() == pgn && carries(f, DATA_CMD)
}

/// The mismatch, if any, of receiving `seq` where `expected` was due.
pub open spec fn check_seq(expected: u32, seq: u32) -> Seq<SeqMismatch> {
    if seq == expected {
        Seq::empty()
    } else {
        seq![SeqMismatch { expected, received: seq }]
    }
}

/// The sequence number due after receiving `seqs`, starting from `start`.
pub open spec fn expected_after(start: u32, seqs: Seq<u32>) -> u32 {
    if seqs.len() == 0 {
        start
    } else {
        next_expected(seqs.last())
    }
}

/// The mismatches of receiving `seqs` in order, starting from `start`.
pub open spec fn mismatches_of(start: u32, seqs: Seq<u32>) -> Seq<SeqMismatch>
    decreases seqs.len(),
{
    if seqs.len() == 0 {
        Seq::empty()
    } else {
        mismatches_of(start, seqs.drop_last()) + check_seq(
            expected_after(start, seqs.drop_last()),
            seqs.last(),
        )
    }
}

/// Feeding one more sequence number to a run is one more step of `mismatches_of`:
/// what `RxRun::feed` adds to the mismatches and to the expected number is what
/// receiving `seqs` and then `seq` yields over receiving `seqs` alone.
pub proof fn lemma_feed_step(start: u32, seqs: Seq<u32>, seq: u32)
    ensures
        mismatches_of(start, seqs.push(seq)) == mismatches_of(start, seqs) + check_seq(
            expected_after(start, seqs),
            seq,
        ),
        expected_after(start, seqs.push(seq)) == next_expected(seq),
{
    assert(seqs.push(seq).drop_last() =~= seqs);
}

/// The sequence numbers `0, 1, ..., n - 1`.
pub open spec fn in_order(n: nat) -> Seq<u32> {
    Seq::new(n, |i: int| i as u32)
}

/// A run fed the sequence numbers `0, 1, ..., n - 1` in order finds no mismatch.
pub proof fn lemma_in_order_no_mismatch(n: nat)
    requires
        n <= 0x1_0000_0000,
    ensures
        mismatches_of(0, in_order(n)) == Seq::<SeqMismatch>::empty(),
    decreases n,
{
    if n > 0 {
        let s = in_order(n);
        assert(s.drop_last() =~= in_order((n - 1) as nat));
        lemma_in_order_no_mismatch((n - 1) as nat);
        if n >= 2 {
            assert(s.drop_last().last() == (n - 2) as u32);
        }
        assert(expected_after(0, s.drop_last()) == s.last());
        assert(mismatches_of(0, s) =~= Seq::<SeqMismatch>::empty());
    }
}

/// The sequence numbers `from, from + 1, ..., from + n - 1`.
pub open spec fn counting_from(from: nat, n: nat) -> Seq<u32> {
    Seq::new(n, |i: int| (from + i) as u32)
}

/// A run fed `0, ..., k - 1` and then `k + 1, ..., k + m` (one number skipped) finds
/// exactly one mismatch: `k` expected, `k + 1` received.
pub proof fn lemma_one_gap(k: nat, m: nat)
    requires
        m >= 1,
        k + 1 + m <= 0x1_0000_0000,
    ensures
        mismatches_of(0, in_order(k) + counting_from(k + 1, m)) == seq![
            SeqMismatch { expected: k as u32, received: (k + 1) as u32 },
        ],
    decreases m,
{
    let s = in_order(k) + counting_from(k + 1, m);
    if m == 1 {
        lemma_in_order_no_mismatch(k);
        assert(s.drop_last() =~= in_order(k));
        if k > 0 {
            assert(in_order(k).last() == (k - 1) as u32);
        }
        assert(expected_after(0, in_order(k)) == k as u32);
        assert(mismatches_of(0, s) =~= seq![
            SeqMismatch { expected: k as u32, received: (k + 1) as u32 },
        ]);
    } else {
        let prev = in_order(k) + counting_from(k + 1, (m - 1) as nat);
        assert(s.drop_last() =~= prev);
        lemma_one_gap(k, (m - 1) as nat);
        assert(prev.last() == (k + m - 1) as u32);
        assert(expected_after(0, prev) == s.last());
        assert(mismatches_of(0, s) =~= mismatches_of(0, prev));
    }
}

/// Receiving side of a bandwidth run: takes `count` data frames from `source` on
/// `pgn`, checks that their sequence numbers follow each other from 0, and records
/// each mismatch before following the new number.
pub struct RxRun {
    pub pgn: u32,
    pub source: u8,
    pub count: u32,
    pub received: u32,
    pub expected: u32,
    pub mismatches: Vec<SeqMismatch>,
}

impl RxRun {
    pub fn new(pgn: u32, source: u8, count: u32) -> (r: RxRun)
        ensures
            r.pgn == pgn && r.source == source && r.count == count,
            r.received == 0 && r.expected == 0,
            r.mismatches@ == Seq::<SeqMismatch>::empty(),
    {
        RxRun { pgn, source, count, received: 0, expected: 0, mismatches: Vec::new() }
    }

    /// Whether all `count` frames have been received.
    pub fn done(&self) -> (r: bool)
        ensures
            r == (self.received >= self.count),
    {
        self.received >= self.count
    }

    /// Takes `frame` if it is the next data frame of the run.
    pub fn feed(&mut self, frame: &J1939Packet) -> (r: RxEvent)
        ensures
            final(self).pgn == old(self).pgn,
            final(self).source == old(self).source,
            final(self).count == old(self).count,
            !is_run_frame(frame@, old(self).pgn, old(self).source) || old(self).received >= old(
                self,
            ).count ==> {
                &&& r is Skipped
                &&& final(self).received == old(self).received
                &&& final(self).expected == old(self).expected
                &&& final(self).mismatches@ == old(self).mismatches@
            },
            is_run_frame(frame@, old(self).pgn, old(self).source) && old(self).received < old(
                self,
            ).count ==> {
                &&& final(self).received == old(self).received + 1
                &&& match parameter_of(frame@.payload()) {
                    None => {
                        &&& r is Malformed
                        &&& final(self).expected == old(self).expected
                        &&& final(self).mismatches@ == old(self).mismatches@
                    },
                    Some(seq) => {
                        &&& final(self).expected == next_expected(seq)
                        &&& final(self).mismatches@ == old(self).mismatches@ + check_seq(
                            old(self).expected,
                            seq,
                        )
                        &&& r == if seq == old(self).expected {
                            RxEvent::InSequence(seq)
                        } else {
                            RxEvent::OutOfSequence(
                                SeqMismatch { expected: old(self).expected, received: seq },
                            )
                        }
                    },
                }
            },
    {
        if self.received >= self.count || frame.source() != self.source || frame.pgn() != self.pgn
            || !first_byte_is(frame, DATA_CMD) {
            return RxEvent::Skipped;
        }
        self.received = self.received + 1;
        match parameter(frame.data()) {
            None => RxEvent::Malformed,
            Some(seq) => {
                let expected = self.expected;
                self.expected = seq.wrapping_add(1);
                if seq == expected {
                    assert(self.mismatches@ =~= old(self).mismatches@ + check_seq(expected, seq));
                    RxEvent::InSequence(seq)
                } else {
                    let m = SeqMismatch { expected, received: seq };
                    self.mismatches.push(m);
                    assert(self.mismatches@ =~= old(self).mismatches@ + check_seq(expected, seq));
                    RxEvent::OutOfSequence(m)
                }
            },
        }
    }
}

} // verus!
