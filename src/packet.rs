use vstd::prelude::*;
use vstd::slice::{slice_subrange, slice_to_vec};
use vstd::string::StringExecFns;

use crate::text::{
    decimal, decimal_char, decimal_len, digit_char, hex_byte, push_char, push_decimal,
    push_hex_byte, push_spaces, right_aligned,
};

verus! {

/// Length of the J1939 header that every frame carries: PS, PF, data page, priority,
/// source address, destination address.
pub const HEADER_LEN: usize = 6;

/// Bytes that an adapter capture carries ahead of the header: a big-endian device
/// timestamp and an echo flag.
pub const CAPTURE_PREFIX_LEN: usize = 5;

/// Smallest PGN of the broadcast (PDU2) range.
pub const PDU2_START: u32 = 0xF000;

/// Raw bytes as exchanged with an adapter.
#[derive(Debug, Clone)]
pub struct Packet {
    pub data: Vec<u8>,
}

impl Packet {
    /// A packet holding a copy of `data`.
    pub fn new_rp1210(data: &[u8]) -> (r: Packet)
        ensures
            r.data@ == data@,
    {
        Packet { data: slice_to_vec(data) }
    }

    /// The bytes in decimal, each followed by `, `.
    pub fn to_string(&self) -> (r: String)
        ensures
            r@ == decimal_list(self.data@),
    {
        let mut s = String::new();
        let mut i: usize = 0;
        while i < self.data.len()
            invariant
                i <= self.data@.len(),
                s@ == decimal_list(self.data@.take(i as int)),
            decreases self.data@.len() - i,
        {
            push_decimal(&mut s, self.data[i] as u64);
            push_char(&mut s, ',');
            push_char(&mut s, ' ');
            proof {
                assert(self.data@.take(i + 1).drop_last() =~= self.data@.take(i as int));
            }
            i = i + 1;
            assert(s@ =~= decimal_list(self.data@.take(i as int)));
        }
        assert(self.data@.take(self.data@.len() as int) =~= self.data@);
        s
    }
}

/// Bytes in decimal, each followed by a comma and a space.
pub open spec fn decimal_list(bytes: Seq<u8>) -> Seq<char>
    decreases bytes.len(),
{
    if bytes.len() == 0 {
        Seq::empty()
    } else {
        decimal_list(bytes.drop_last()) + decimal(bytes.last() as nat) + seq![',', ' ']
    }
}

/// A capture shorter than the header it must carry.
#[derive(Debug, Clone, Copy, PartialEq, Eq, Structural)]
pub struct MalformedFrame {
    /// Length of the rejected buffer.
    pub len: usize,
}

/// What a frame is: its raw bytes, whether it was built here (`tx`), and the
/// adapter's timestamp weight in microseconds per tick.
pub struct FrameView {
    pub data: Seq<u8>,
    pub tx: bool,
    pub weight: u32,
}

/// Where the header starts: at once for a frame built here, after the timestamp and
/// echo flag for a capture.
pub open spec fn header_offset(tx: bool) -> int {
    if tx {
        0
    } else {
        CAPTURE_PREFIX_LEN as int
    }
}

/// The PGN as J1939 tools show it: for the destination-specific range the destination
/// address fills the low byte.
pub open spec fn fold_destination(pgn: u32, destination: u8) -> u32 {
    if pgn < PDU2_START {
        pgn | (destination as u32)
    } else {
        pgn
    }
}

/// The destination address that is encoded: none for a broadcast PGN.
pub open spec fn encoded_destination(pgn: u32, destination: u8) -> u8 {
    if pgn >= PDU2_START {
        0
    } else {
        destination
    }
}

/// The header that a frame built from these fields carries.
pub open spec fn encode_header(priority: u8, pgn: u32, destination: u8, source: u8) -> Seq<u8> {
    seq![
        (pgn % 256) as u8,
        ((pgn / 256) % 256) as u8,
        (pgn / 65536) as u8,
        priority,
        source,
        encoded_destination(pgn, destination),
    ]
}

/// The frame that is built from these fields.
pub open spec fn encode(
    priority: u8,
    pgn: u32,
    destination: u8,
    source: u8,
    payload: Seq<u8>,
) -> FrameView {
    FrameView {
        data: encode_header(priority, pgn, destination, source) + payload,
        tx: true,
        weight: 0,
    }
}

/// The header of a frame built from a 29-bit CAN identifier.
pub open spec fn header_of_id(head: u32) -> Seq<u8> {
    let top = head / 0x100_0000;
    let pf = (head / 0x1_0000) % 256;
    let ps = (head / 256) % 256;
    let pdu1 = (head / 256) % 0x1_0000 < PDU2_START;
    seq![
        ps as u8,
        pf as u8,
        (top % 4) as u8,
        (top / 4) as u8,
        (head % 256) as u8,
        if pdu1 { ps as u8 } else { 0u8 },
    ]
}

impl FrameView {
    pub open spec fn offset(self) -> int {
        header_offset(self.tx)
    }

    /// The buffer is long enough for its header.
    pub open spec fn wf(self) -> bool {
        self.data.len() >= HEADER_LEN + self.offset()
    }

    pub open spec fn source(self) -> u8 {
        self.data[self.offset() + 4]
    }

    pub open spec fn destination(self) -> u8 {
        self.data[self.offset() + 5]
    }

    pub open spec fn priority(self) -> u8 {
        self.data[self.offset() + 3] & 7
    }

    /// The PGN as the PS, PF and data page bytes give it.
    pub open spec fn raw_pgn(self) -> u32 {
        ((self.data[self.offset() + 2] as u32) * 0x1_0000 + (self.data[self.offset() + 1] as u32)
            * 256 + (self.data[self.offset()] as u32)) as u32
    }

    pub open spec fn pgn(self) -> u32 {
        fold_destination(self.raw_pgn(), self.destination())
    }

    pub open spec fn payload(self) -> Seq<u8> {
        self.data.skip(self.offset() + HEADER_LEN)
    }

    pub open spec fn echo(self) -> bool {
        self.tx || self.data[4] != 0
    }

    /// The adapter's timestamp, in ticks.
    pub open spec fn device_time(self) -> nat {
        ((self.data[0] as nat * 256 + self.data[1] as nat) * 256 + self.data[2] as nat) * 256
            + self.data[3] as nat
    }

    /// The time of a capture in microseconds; 0 for a frame built here.
    pub open spec fn time(self) -> nat {
        if self.tx {
            0
        } else {
            self.device_time() * self.weight as nat
        }
    }

    /// The number that the header shows ahead of the source address.
    pub open spec fn header_id(self) -> u32 {
        ((self.priority() as u32) << 18) | self.pgn()
    }

    /// Hexadecimal identifier: priority and PGN in six digits, then the source address.
    pub open spec fn header_text(self) -> Seq<char> {
        let v = self.header_id();
        hex_byte((v / 0x1_0000) as u8) + hex_byte(((v / 256) % 256) as u8) + hex_byte(
            (v % 256) as u8,
        ) + hex_byte(self.source())
    }

    /// One line of a traffic log: time in milliseconds, header, payload length, payload
    /// bytes and, for an echo, the mark ` (TX)`.
    pub open spec fn display(self) -> Seq<char> {
        time_text(self.time()) + seq![' '] + self.header_text() + seq![' ', '['] + decimal(
            self.payload().len(),
        ) + seq![']', ' '] + hex_spaced(self.payload()) + if self.echo() {
            seq![' ', '(', 'T', 'X', ')']
        } else {
            Seq::empty()
        }
    }
}

/// Bytes as upper-case hexadecimal pairs separated by single spaces.
pub open spec fn hex_spaced(bytes: Seq<u8>) -> Seq<char>
    decreases bytes.len(),
{
    if bytes.len() == 0 {
        Seq::empty()
    } else if bytes.len() == 1 {
        hex_byte(bytes[0])
    } else {
        hex_spaced(bytes.drop_last()) + seq![' '] + hex_byte(bytes.last())
    }
}

/// Microseconds as milliseconds with four decimals, right-aligned in twelve columns.
pub open spec fn time_text(us: nat) -> Seq<char> {
    let f = (us % 1000) * 10;
    right_aligned(
        decimal(us / 1000) + seq![
            '.',
            decimal_char(f / 1000),
            decimal_char((f / 100) % 10),
            decimal_char((f / 10) % 10),
            decimal_char(f % 10),
        ],
        12,
    )
}

/// Round trip: a frame built from a priority of 0 to 7, an 18-bit PGN, a destination,
/// a source and a payload reads back the same priority, source and payload, the PGN with
/// the destination folded in below `0xF000`, and the encoded destination. The same holds
/// of the adapter's capture of that frame, whatever timestamp and echo flag precede it.
pub proof fn lemma_round_trip(
    priority: u8,
    pgn: u32,
    destination: u8,
    source: u8,
    payload: Seq<u8>,
    prefix: Seq<u8>,
    weight: u32,
)
    requires
        priority <= 7,
        pgn <= 0x3FFFF,
        prefix.len() == CAPTURE_PREFIX_LEN,
    ensures
        ({
            let sent = encode(priority, pgn, destination, source, payload);
            let captured = FrameView { data: prefix + sent.data, tx: false, weight };
            &&& sent.wf() && captured.wf()
            &&& sent.priority() == priority && captured.priority() == priority
            &&& sent.pgn() == fold_destination(pgn, destination)
            &&& captured.pgn() == fold_destination(pgn, destination)
            &&& sent.source() == source && captured.source() == source
            &&& sent.destination() == encoded_destination(pgn, destination)
            &&& captured.destination() == encoded_destination(pgn, destination)
            &&& sent.payload() == payload && captured.payload() == payload
        }),
{
    let sent = encode(priority, pgn, destination, source, payload);
    let captured = FrameView { data: prefix + sent.data, tx: false, weight };
    assert(priority & 7 == priority) by (bit_vector)
        requires
            priority <= 7,
    ;
    assert(((pgn / 65536) as u8) as u32 * 0x1_0000 + (((pgn / 256) % 256) as u8) as u32 * 256 + (
    (pgn % 256) as u8) as u32 == pgn) by (nonlinear_arith)
        requires
            pgn <= 0x3FFFF,
    ;
    assert(sent.raw_pgn() == pgn);
    assert(captured.data.skip(CAPTURE_PREFIX_LEN + HEADER_LEN) =~= payload);
    assert(sent.data.skip(HEADER_LEN as int) =~= payload);
    assert(captured.raw_pgn() == pgn);
    if pgn >= PDU2_START {
        assert(sent.destination() == 0);
    }
}

/// A frame built with a broadcast PGN (`0xF000` and above) reads back destination 0,
/// whatever destination it was given.
pub proof fn lemma_broadcast_destination(
    priority: u8,
    pgn: u32,
    destination: u8,
    source: u8,
    payload: Seq<u8>,
)
    requires
        pgn >= PDU2_START,
    ensures
        encode(priority, pgn, destination, source, payload).destination() == 0,
{
}

/// Echo detection: a frame built here is always an echo; a capture is one exactly
/// when its echo flag (the byte after the timestamp) is not zero.
pub proof fn lemma_echo(
    priority: u8,
    pgn: u32,
    destination: u8,
    source: u8,
    payload: Seq<u8>,
    capture: Seq<u8>,
    weight: u32,
)
    requires
        capture.len() >= CAPTURE_PREFIX_LEN + HEADER_LEN,
    ensures
        encode(priority, pgn, destination, source, payload).echo(),
        (FrameView { data: capture, tx: false, weight }).echo() <==> capture[4] != 0,
{
}

/// Bytes as upper-case hexadecimal pairs separated by single spaces.
pub fn as_hex(data: &[u8]) -> (r: String)
    ensures
        r@ == hex_spaced(data@),
{
    let mut s = String::new();
    let mut i: usize = 0;
    while i < data.len()
        invariant
            i <= data@.len(),
            s@ == hex_spaced(data@.take(i as int)),
        decreases data@.len() - i,
    {
        if i > 0 {
            push_char(&mut s, ' ');
        }
        push_hex_byte(&mut s, data[i]);
        proof {
            let t = data@.take(i + 1);
            assert(t.drop_last() =~= data@.take(i as int));
            if i == 0 {
                assert(data@.take(0) =~= Seq::<u8>::empty());
            }
        }
        i = i + 1;
    }
    assert(data@.take(data@.len() as int) =~= data@);
    s
}

fn push_time(s: &mut String, us: u64)
    ensures
        final(s)@ == old(s)@ + time_text(us as nat),
{
    let whole = us / 1000;
    let f = (us % 1000) * 10;
    let n = decimal_len(whole) + 5;
    if n < 12 {
        push_spaces(s, 12 - n);
    }
    push_decimal(s, whole);
    push_char(s, '.');
    push_char(s, digit_char((f / 1000) as u8));
    push_char(s, digit_char(((f / 100) % 10) as u8));
    push_char(s, digit_char(((f / 10) % 10) as u8));
    push_char(s, digit_char((f % 10) as u8));
    assert(final(s)@ =~= old(s)@ + time_text(us as nat));
}

/// A J1939 frame: either built here for sending, or captured by an adapter.
#[derive(Debug)]
pub struct J1939Packet {
    packet: Packet,
    tx: bool,
    time_stamp_weight: u32,
}

impl View for J1939Packet {
    type V = FrameView;

    closed spec fn view(&self) -> FrameView {
        FrameView { data: self.packet.data@, tx: self.tx, weight: self.time_stamp_weight }
    }
}

impl J1939Packet {
    #[verifier::type_invariant]
    spec fn inv(self) -> bool {
        self@.wf()
    }

    /// Decodes an adapter capture: a big-endian device timestamp, an echo flag, the
    /// header and the payload. `time_stamp_weight` is the adapter's number of
    /// microseconds per timestamp tick.
    pub fn new_rp1210(data: &[u8], time_stamp_weight: u32) -> (r: Result<
        J1939Packet,
        MalformedFrame,
    >)
        ensures
            data@.len() < CAPTURE_PREFIX_LEN + HEADER_LEN <==> r is Err,
            r matches Err(e) ==> e.len == data@.len(),
            r matches Ok(p) ==> p@ == (FrameView { data: data@, tx: false, weight: time_stamp_weight }),
    {
        if data.len() < CAPTURE_PREFIX_LEN + HEADER_LEN {
            Err(MalformedFrame { len: data.len() })
        } else {
            Ok(
                J1939Packet {
                    packet: Packet::new_rp1210(data),
                    tx: false,
                    time_stamp_weight,
                },
            )
        }
    }

    /// The whole buffer, as it goes to the adapter or came from it.
    pub fn raw(&self) -> (r: &[u8])
        ensures
            r@ == self@.data,
    {
        self.packet.data.as_slice()
    }

    /// A frame with the same bytes, direction and weight.
    pub fn duplicate(&self) -> (r: J1939Packet)
        ensures
            r@ == self@,
    {
        proof {
            use_type_invariant(self);
        }
        J1939Packet {
            packet: Packet::new_rp1210(self.packet.data.as_slice()),
            tx: self.tx,
            time_stamp_weight: self.time_stamp_weight,
        }
    }

    fn offset(&self) -> (r: usize)
        ensures
            r == self@.offset(),
    {
        if self.tx {
            0
        } else {
            CAPTURE_PREFIX_LEN
        }
    }

    /// Number of payload bytes.
    pub fn length(&self) -> (r: usize)
        ensures
            r == self@.payload().len(),
    {
        proof {
            use_type_invariant(self);
        }
        self.packet.data.len() - HEADER_LEN - self.offset()
    }

    /// Encodes a frame for sending. For a broadcast PGN (`pgn >= 0xF000`) the
    /// destination is replaced by 0.
    pub fn new_packet(priority: u8, pgn: u32, da: u8, sa: u8, data: &[u8]) -> (r: J1939Packet)
        requires
            priority <= 7,
            pgn <= 0x3FFFF,
        ensures
            r@ == encode(priority, pgn, da, sa, data@),
    {
        let da = if pgn >= PDU2_START {
            0
        } else {
            da
        };
        let mut buf: Vec<u8> = Vec::new();
        buf.push((pgn % 256) as u8);
        buf.push(((pgn / 256) % 256) as u8);
        buf.push((pgn / 65536) as u8);
        buf.push(priority);
        buf.push(sa);
        buf.push(da);
        let mut i: usize = 0;
        while i < data.len()
            invariant
                i <= data@.len(),
                buf@ == encode_header(priority, pgn, da, sa) + data@.take(i as int),
                da == encoded_destination(pgn, da),
            decreases data@.len() - i,
        {
            buf.push(data[i]);
            i = i + 1;
            assert(buf@ =~= encode_header(priority, pgn, da, sa) + data@.take(i as int));
        }
        assert(data@.take(data@.len() as int) =~= data@);
        let r = J1939Packet { packet: Packet { data: buf }, tx: true, time_stamp_weight: 0 };
        assert(r@.data =~= encode(priority, pgn, da, sa, data@).data);
        r
    }

    /// Builds a frame for sending from a 29-bit CAN identifier: the priority and data
    /// page in the top byte, then PF, PS and the source address. In the
    /// destination-specific range the PS byte is also the destination.
    pub fn new(head: u32, data: &[u8]) -> (r: J1939Packet)
        ensures
            r@ == (FrameView { data: header_of_id(head) + data@, tx: true, weight: 0 }),
    {
        let top = head / 0x100_0000;
        let pf = (head / 0x1_0000) % 256;
        let ps = (head / 256) % 256;
        let da: u32 = if (head / 256) % 0x1_0000 < PDU2_START {
            ps
        } else {
            0
        };
        let mut buf: Vec<u8> = Vec::new();
        buf.push(ps as u8);
        buf.push(pf as u8);
        buf.push((top % 4) as u8);
        buf.push((top / 4) as u8);
        buf.push((head % 256) as u8);
        buf.push(da as u8);
        assert(buf@ =~= header_of_id(head));
        let mut i: usize = 0;
        while i < data.len()
            invariant
                i <= data@.len(),
                buf@ == header_of_id(head) + data@.take(i as int),
            decreases data@.len() - i,
        {
            buf.push(data[i]);
            i = i + 1;
            assert(buf@ =~= header_of_id(head) + data@.take(i as int));
        }
        assert(data@.take(data@.len() as int) =~= data@);
        J1939Packet { packet: Packet { data: buf }, tx: true, time_stamp_weight: 0 }
    }

    /// Time of a capture in microseconds: the device timestamp times the adapter's
    /// weight. A frame built here has time 0.
    pub fn time(&self) -> (r: u64)
        ensures
            r == self@.time(),
    {
        proof {
            use_type_invariant(self);
        }
        if self.tx {
            0
        } else {
            let d = &self.packet.data;
            let ticks: u32 = ((d[0] as u32 * 256 + d[1] as u32) * 256 + d[2] as u32) * 256
                + d[3] as u32;
            proof {
                assert(ticks <= 0xFFFF_FFFF);
                assert(ticks as nat * self.time_stamp_weight as nat <= 0xFFFF_FFFF * 0xFFFF_FFFF)
                    by (nonlinear_arith)
                    requires
                        ticks <= 0xFFFF_FFFF,
                        self.time_stamp_weight <= 0xFFFF_FFFF,
                ;
            }
            ticks as u64 * self.time_stamp_weight as u64
        }
    }

    /// A capture whose echo flag is set is the adapter's copy of a frame that this
    /// client sent; a frame built here counts as sent.
    pub fn echo(&self) -> (r: bool)
        ensures
            r == self@.echo(),
    {
        proof {
            use_type_invariant(self);
        }
        self.tx || self.packet.data[4] != 0
    }

    pub fn source(&self) -> (r: u8)
        ensures
            r == self@.source(),
    {
        proof {
            use_type_invariant(self);
        }
        self.packet.data[4 + self.offset()]
    }

    /// Destination address; meaningful for a PGN below `0xF000` only.
    pub fn destination(&self) -> (r: u8)
        ensures
            r == self@.destination(),
    {
        proof {
            use_type_invariant(self);
        }
        self.packet.data[5 + self.offset()]
    }

    /// The PGN; below `0xF000` the destination address is folded into its low byte.
    pub fn pgn(&self) -> (r: u32)
        ensures
            r == self@.pgn(),
    {
        proof {
            use_type_invariant(self);
        }
        let off = self.offset();
        let d = &self.packet.data;
        let pgn: u32 = (d[off + 2] as u32) * 0x1_0000 + (d[off + 1] as u32) * 256 + (
        d[off] as u32);
        if pgn < PDU2_START {
            pgn | (d[off + 5] as u32)
        } else {
            pgn
        }
    }

    pub fn priority(&self) -> (r: u8)
        ensures
            r == self@.priority(),
            r <= 7,
    {
        proof {
            use_type_invariant(self);
        }
        let p = self.packet.data[3 + self.offset()];
        assert(p & 7 <= 7) by (bit_vector);
        p & 7
    }

    /// Priority and PGN as six hexadecimal digits, then the source address as two.
    pub fn header(&self) -> (r: String)
        ensures
            r@ == self@.header_text(),
    {
        let p = self.priority();
        let pgn = self.pgn();
        proof {
            use_type_invariant(self);
            let d2 = self@.data[self@.offset() + 2];
            assert(pgn < 0x100_0000) by {
                let raw = self@.raw_pgn();
                let dest = self@.destination() as u32;
                assert(raw < 0x100_0000);
                if raw < PDU2_START {
                    assert(raw < 0xF000 && dest <= 255 ==> raw | dest < 0x100_0000)
                        by (bit_vector);
                }
            }
        }
        let v: u32 = ((p as u32) << 18) | pgn;
        assert(v < 0x100_0000) by (bit_vector)
            requires
                v == ((p as u32) << 18) | pgn,
                p <= 7,
                pgn < 0x100_0000,
        ;
        let mut s = String::new();
        push_hex_byte(&mut s, (v / 0x1_0000) as u8);
        push_hex_byte(&mut s, ((v / 256) % 256) as u8);
        push_hex_byte(&mut s, (v % 256) as u8);
        push_hex_byte(&mut s, self.source());
        assert(s@ =~= self@.header_text());
        s
    }

    /// The payload as hexadecimal pairs separated by spaces.
    pub fn data_str(&self) -> (r: String)
        ensures
            r@ == hex_spaced(self@.payload()),
    {
        as_hex(self.data())
    }

    /// The payload: what follows the header.
    pub fn data(&self) -> (r: &[u8])
        ensures
            r@ == self@.payload(),
    {
        proof {
            use_type_invariant(self);
        }
        let s = self.packet.data.as_slice();
        slice_subrange(s, self.offset() + HEADER_LEN, s.len())
    }

    /// One line of a traffic log, such as `      0.0000 18FFAAFA [3] 01 02 03 (TX)`.
    pub fn to_string(&self) -> (r: String)
        ensures
            r@ == self@.display(),
    {
        let mut s = String::new();
        push_time(&mut s, self.time());
        push_char(&mut s, ' ');
        let h = self.header();
        s.append(h.as_str());
        push_char(&mut s, ' ');
        push_char(&mut s, '[');
        push_decimal(&mut s, self.length() as u64);
        push_char(&mut s, ']');
        push_char(&mut s, ' ');
        let d = self.data_str();
        s.append(d.as_str());
        if self.echo() {
            push_char(&mut s, ' ');
            push_char(&mut s, '(');
            push_char(&mut s, 'T');
            push_char(&mut s, 'X');
            push_char(&mut s, ')');
        }
        assert(s@ =~= self@.display());
        s
    }
}

} // verus!
