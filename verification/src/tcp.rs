//! The TCP dissector: a 20-byte fixed header followed by options, which are
//! consumed opaquely — the layer claims `4 × data-offset` bytes in all.
//! Payload dissection is out of scope, so the hint is always `Undecoded`.

use vstd::prelude::*;

use crate::pkt::LayerHint;
use crate::pkt::LayerModel;
use crate::strfmt;
use crate::strfmt::spec_dec;
use crate::tree::LayerTreeItem;
use crate::util;
use crate::util::spec_u16_be;
use crate::util::spec_u32_be;

verus! {

/// The minimum length of a TCP header (data offset = 5, no options).
pub const TCP_MIN_HEADER_LEN: usize = 20;

/// A TCP header.
#[derive(Clone, Debug, PartialEq, Eq)]
pub struct Tcp {
    pub source_port: u16,
    pub dest_port: u16,
    pub sequence_num: u32,
    pub ack_num: u32,
    pub header_len: u8,
    pub resrv_0: u8,
    pub flags: u8,
    pub window_size: u16,
    pub tcp_xsum: u16,
    pub urg_ptr: u16,
}

/// The model of the TCP layer decoded from the start of `bytes`.
pub open spec fn spec_tcp_model(bytes: Seq<u8>) -> LayerModel {
    LayerModel::Tcp {
        source_port: spec_u16_be(bytes.subrange(0, 2)) as u16,
        dest_port: spec_u16_be(bytes.subrange(2, 4)) as u16,
        sequence_num: spec_u32_be(bytes.subrange(4, 8)) as u32,
        ack_num: spec_u32_be(bytes.subrange(8, 12)) as u32,
        header_len: (bytes[12] & 0xf0) >> 4,
        resrv_0: bytes[12] & 0x0f,
        flags: bytes[13],
        window_size: spec_u16_be(bytes.subrange(14, 16)) as u16,
        tcp_xsum: spec_u16_be(bytes.subrange(16, 18)) as u16,
        urg_ptr: spec_u16_be(bytes.subrange(18, 20)) as u16,
    }
}

/// The count of bytes a TCP layer decoded from `bytes` claims:
/// `4 × data-offset`, options included.
pub open spec fn spec_tcp_consumed(bytes: Seq<u8>) -> nat {
    4 * (((bytes[12] & 0xf0) >> 4) as nat)
}

impl Tcp {
    /// The layer as its mathematical description.
    pub open spec fn model(self) -> LayerModel {
        LayerModel::Tcp {
            source_port: self.source_port,
            dest_port: self.dest_port,
            sequence_num: self.sequence_num,
            ack_num: self.ack_num,
            header_len: self.header_len,
            resrv_0: self.resrv_0,
            flags: self.flags,
            window_size: self.window_size,
            tcp_xsum: self.tcp_xsum,
            urg_ptr: self.urg_ptr,
        }
    }

    /// An all-zero header.
    pub fn new() -> (r: Self)
        ensures
            r.source_port == 0,
            r.dest_port == 0,
            r.sequence_num == 0,
            r.ack_num == 0,
            r.header_len == 0,
            r.resrv_0 == 0,
            r.flags == 0,
            r.window_size == 0,
            r.tcp_xsum == 0,
            r.urg_ptr == 0,
    {
        Tcp {
            source_port: 0,
            dest_port: 0,
            sequence_num: 0,
            ack_num: 0,
            header_len: 0,
            resrv_0: 0,
            flags: 0,
            window_size: 0,
            tcp_xsum: 0,
            urg_ptr: 0,
        }
    }

    /// Decodes the fixed header at the start of `bytes`. All multi-byte
    /// fields are big-endian. The layer claims `4 × data-offset` bytes
    /// (options are opaque padding); the payload is left undecoded.
    pub fn from_bytes(_next_byte: usize, bytes: &[u8]) -> (r: (Self, usize, LayerHint))
        requires
            bytes@.len() >= TCP_MIN_HEADER_LEN,
        ensures
            r.0.model() == spec_tcp_model(bytes@),
            r.1 == spec_tcp_consumed(bytes@),
            r.1 <= 60,
            r.2 == LayerHint::Undecoded,
    {
        let source_port = util::two_bytes_to_u16(&bytes[0..2]);
        let dest_port = util::two_bytes_to_u16(&bytes[2..4]);
        let sequence_num = util::four_bytes_to_u32(&bytes[4..8]);
        let ack_num = util::four_bytes_to_u32(&bytes[8..12]);

        let header_len = (bytes[12] & 0xf0u8) >> 4;
        let resrv_0 = bytes[12] & 0x0fu8;

        let flags = bytes[13];
        let window_size = util::two_bytes_to_u16(&bytes[14..16]);
        let tcp_xsum = util::two_bytes_to_u16(&bytes[16..18]);
        let urg_ptr = util::two_bytes_to_u16(&bytes[18..20]);

        let tcp_layer = Tcp {
            source_port,
            dest_port,
            sequence_num,
            ack_num,
            header_len,
            resrv_0,
            flags,
            window_size,
            tcp_xsum,
            urg_ptr,
        };

        proof {
            let b12: u8 = bytes@[12];
            assert((b12 & 0xf0u8) >> 4u8 <= 0x0f) by (bit_vector);
        }
        let consumed: usize = 4 * (header_len as usize);

        (tcp_layer, consumed, LayerHint::Undecoded)
    }

    /// The one-line description of this layer.
    pub open spec fn spec_summary(self) -> Seq<char> {
        "Transmission Control Protocol, Src Port: "@ + spec_dec(self.source_port as nat)
            + ", Dst Port: "@ + spec_dec(self.dest_port as nat) + ", Seq: "@ + spec_dec(
            self.sequence_num as nat,
        ) + ", Ack: "@ + spec_dec(self.ack_num as nat) + ", Len: xx"@
    }

    /// Renders the one-line description.
    pub fn summary(&self) -> (r: String)
        ensures
            r@ == self.spec_summary(),
    {
        let mut r = String::new();
        r.append("Transmission Control Protocol, Src Port: ");
        strfmt::push_dec(&mut r, self.source_port as u64);
        r.append(", Dst Port: ");
        strfmt::push_dec(&mut r, self.dest_port as u64);
        r.append(", Seq: ");
        strfmt::push_dec(&mut r, self.sequence_num as u64);
        r.append(", Ack: ");
        strfmt::push_dec(&mut r, self.ack_num as u64);
        r.append(", Len: xx");
        assert(r@ =~= self.spec_summary());
        r
    }

    /// The layer as a node of the display tree (no detail rows yet).
    pub fn to_tree_item_verbose(&self) -> (r: LayerTreeItem)
        ensures
            r.label@ == self.spec_summary(),
            r.fields@.len() == 0,
    {
        LayerTreeItem { label: self.summary(), fields: Vec::new() }
    }

    /// The layer as a node of the display tree (no detail rows yet).
    pub fn to_tree_item(&self) -> (r: LayerTreeItem)
        ensures
            r.label@ == self.spec_summary(),
            r.fields@.len() == 0,
    {
        LayerTreeItem { label: self.summary(), fields: Vec::new() }
    }
}

} // verus!
