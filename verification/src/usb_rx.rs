//! The dongle's reader of host frames on its USB serial port: `AA 55 72` and 114 wire
//! bytes, resynchronising on any other byte.
use vstd::prelude::*;
use crate::frame::{header_from_bytes, lemma_packet_roundtrip, packet_bytes, packet_denoted, valid_network_tag, MeshPacket, is_valid_network_tag};
use crate::transport::HOST_TO_DONGLE_FRAME_HEADER;

verus! {

/// Where the reader stands in a frame.
#[derive(Debug, Clone, Copy, PartialEq, Eq, Structural)]
pub enum UsbRxState {
    /// Waiting for the first sync byte `AA`.
    Sync0,
    /// Waiting for the second sync byte `55`.
    Sync1,
    /// Waiting for the length byte `72` (114).
    Length,
    /// Collecting the 114 wire bytes.
    Payload,
}

/// Wire bytes in a host frame.
pub const USB_FRAME_PAYLOAD_LEN: usize = 114;

/// One byte of input: the next state, the wire bytes collected, and the wire bytes of a
/// frame that this byte completes.
pub open spec fn rx_step(st: UsbRxState, got: Seq<u8>, b: u8) -> (UsbRxState, Seq<u8>, Option<Seq<u8>>) {
    match st {
        UsbRxState::Sync0 => if b == 0xAA {
            (UsbRxState::Sync1, Seq::empty(), None)
        } else {
            (UsbRxState::Sync0, Seq::empty(), None)
        },
        UsbRxState::Sync1 => if b == 0x55 {
            (UsbRxState::Length, Seq::empty(), None)
        } else if b == 0xAA {
            (UsbRxState::Sync1, Seq::empty(), None)
        } else {
            (UsbRxState::Sync0, Seq::empty(), None)
        },
        UsbRxState::Length => if b == 0x72 {
            (UsbRxState::Payload, Seq::empty(), None)
        } else if b == 0xAA {
            (UsbRxState::Sync1, Seq::empty(), None)
        } else {
            (UsbRxState::Sync0, Seq::empty(), None)
        },
        UsbRxState::Payload => if got.len() + 1 == USB_FRAME_PAYLOAD_LEN {
            (UsbRxState::Sync0, Seq::empty(), Some(got.push(b)))
        } else {
            (UsbRxState::Payload, got.push(b), None)
        },
    }
}

/// The frames completed while reading `bytes`, in order, and the reader's state after.
pub open spec fn rx_run(st: UsbRxState, got: Seq<u8>, bytes: Seq<u8>) -> (UsbRxState, Seq<u8>, Seq<Seq<u8>>)
    decreases bytes.len(),
{
    if bytes.len() == 0 {
        (st, got, Seq::empty())
    } else {
        let (st1, got1, out) = rx_step(st, got, bytes[0]);
        let (st2, got2, rest) = rx_run(st1, got1, bytes.drop_first());
        (
            st2,
            got2,
            match out {
                Some(f) => seq![f] + rest,
                None => rest,
            },
        )
    }
}

proof fn lemma_payload_run(got: Seq<u8>, rest: Seq<u8>)
    requires
        got.len() + rest.len() == USB_FRAME_PAYLOAD_LEN,
        rest.len() >= 1,
    ensures
        rx_run(UsbRxState::Payload, got, rest) == (UsbRxState::Sync0, Seq::<u8>::empty(), seq![got + rest]),
    decreases rest.len(),
{
    if rest.len() == 1 {
        assert(got.push(rest[0]) =~= got + rest);
        assert(rest.drop_first() =~= Seq::<u8>::empty());
        assert(rx_step(UsbRxState::Payload, got, rest[0]) == (
            UsbRxState::Sync0,
            Seq::<u8>::empty(),
            Some(got.push(rest[0])),
        ));
        assert(rx_run(UsbRxState::Sync0, Seq::<u8>::empty(), rest.drop_first()) == (
            UsbRxState::Sync0,
            Seq::<u8>::empty(),
            Seq::<Seq<u8>>::empty(),
        ));
        assert(seq![got.push(rest[0])] + Seq::<Seq<u8>>::empty() =~= seq![got + rest]);
    } else {
        lemma_payload_run(got.push(rest[0]), rest.drop_first());
        assert(got.push(rest[0]) + rest.drop_first() =~= got + rest);
        assert(rx_step(UsbRxState::Payload, got, rest[0]) == (UsbRxState::Payload, got.push(rest[0]), None::<Seq<u8>>));
    }
}

/// A packet framed for the dongle, read from a reader waiting for a frame, is read as
/// exactly its wire bytes, which decode to that packet alone; the reader then waits for
/// the next frame.
pub proof fn lemma_dongle_frame_roundtrip(p: MeshPacket, q: MeshPacket)
    ensures
        rx_run(UsbRxState::Sync0, Seq::empty(), HOST_TO_DONGLE_FRAME_HEADER@ + packet_bytes(p))
            == (UsbRxState::Sync0, Seq::<u8>::empty(), seq![packet_bytes(p)]),
        packet_denoted(packet_bytes(p), q) <==> q == p,
{
    lemma_packet_roundtrip(p, q);
    let w = packet_bytes(p);
    let bytes = HOST_TO_DONGLE_FRAME_HEADER@ + w;
    assert(bytes[0] == 0xAA && bytes[1] == 0x55 && bytes[2] == 0x72);
    assert(bytes.drop_first().drop_first().drop_first() =~= w);
    let e = Seq::<u8>::empty();
    lemma_payload_run(e, w);
    assert(e + w =~= w);
    let b1 = bytes.drop_first();
    let b2 = b1.drop_first();
    let b3 = b2.drop_first();
    assert(b1[0] == 0x55);
    assert(b2[0] == 0x72);
    assert(rx_run(UsbRxState::Payload, e, b3) == (UsbRxState::Sync0, e, seq![w]));
    assert(rx_step(UsbRxState::Length, e, b2[0]) == (UsbRxState::Payload, e, None::<Seq<u8>>));
    assert(rx_run(UsbRxState::Length, e, b2) == (UsbRxState::Sync0, e, seq![w]));
    assert(rx_step(UsbRxState::Sync1, e, b1[0]) == (UsbRxState::Length, e, None::<Seq<u8>>));
    assert(rx_run(UsbRxState::Sync1, e, b1) == (UsbRxState::Sync0, e, seq![w]));
    assert(rx_step(UsbRxState::Sync0, e, bytes[0]) == (UsbRxState::Sync1, e, None::<Seq<u8>>));
}

/// The reader of host frames.
pub struct UsbFrameParser {
    state: UsbRxState,
    buf: [u8; USB_FRAME_PAYLOAD_LEN],
    idx: usize,
}

impl UsbFrameParser {
    #[verifier::type_invariant]
    spec fn index_in_buffer(self) -> bool {
        self.idx < USB_FRAME_PAYLOAD_LEN
    }

    /// Where the reader stands.
    pub closed spec fn state(&self) -> UsbRxState {
        self.state
    }

    /// The wire bytes collected of the current frame.
    pub closed spec fn collected(&self) -> Seq<u8> {
        if self.state == UsbRxState::Payload {
            self.buf@.take(self.idx as int)
        } else {
            Seq::empty()
        }
    }

    /// A reader waiting for a frame.
    pub fn new() -> (r: Self)
        ensures
            r.state() == UsbRxState::Sync0,
            r.collected() == Seq::<u8>::empty(),
    {
        UsbFrameParser { state: UsbRxState::Sync0, buf: [0u8; USB_FRAME_PAYLOAD_LEN], idx: 0 }
    }

    /// Reads one byte; a completed frame whose packet carries a valid network tag is
    /// returned, one with another tag is dropped.
    pub fn feed(&mut self, b: u8) -> (r: Option<MeshPacket>)
        ensures
            ({
                let (st, got, out) = rx_step(old(self).state(), old(self).collected(), b);
                &&& final(self).state() == st
                &&& final(self).collected() == got
                &&& match out {
                    Some(w) => if valid_network_tag(header_from_bytes(w.subrange(0, 18)).network_tag) {
                        r matches Some(p) && packet_denoted(w, p)
                    } else {
                        r is None
                    },
                    None => r is None,
                }
            }),
    {
        proof { use_type_invariant(&*self); }
        match self.state {
            UsbRxState::Sync0 => {
                if b == 0xAA {
                    self.state = UsbRxState::Sync1;
                }
                None
            },
            UsbRxState::Sync1 => {
                if b == 0x55 {
                    self.state = UsbRxState::Length;
                } else if b != 0xAA {
                    self.state = UsbRxState::Sync0;
                }
                None
            },
            UsbRxState::Length => {
                if b == 0x72 {
                    self.idx = 0;
                    self.state = UsbRxState::Payload;
                } else if b == 0xAA {
                    self.state = UsbRxState::Sync1;
                } else {
                    self.state = UsbRxState::Sync0;
                }
                None
            },
            UsbRxState::Payload => {
                let i = self.idx;
                let ghost before = self.buf@.take(i as int);
                self.buf[i] = b;
                assert(self.buf@.take(i + 1) =~= before.push(b));
                if i + 1 == USB_FRAME_PAYLOAD_LEN {
                    let packet = MeshPacket::deserialize_payload(&self.buf);
                    assert(self.buf@.take(114) =~= self.buf@);
                    self.idx = 0;
                    self.state = UsbRxState::Sync0;
                    if is_valid_network_tag(packet.header.network_tag) {
                        Some(packet)
                    } else {
                        None
                    }
                } else {
                    self.idx = i + 1;
                    None
                }
            },
        }
    }
}

} // verus!
