//! The IPv4 dissector: a 20-byte fixed header followed by options, which are
//! consumed opaquely — the layer claims `4 × IHL` bytes in all. Protocol
//! number 6 hands the payload to the TCP dissector; every other protocol
//! falls through to `Undecoded`.

use vstd::prelude::*;

use crate::pkt::LayerHint;
use crate::pkt::LayerModel;
use crate::strfmt;
use crate::strfmt::spec_dec;
use crate::strfmt::spec_hex_pad;
use crate::strfmt::spec_hex_pad_upper;
use crate::strfmt::spec_ipaddr;
use crate::tree::LayerTreeItem;
use crate::util::spec_u16_be;

verus! {

/// The minimum length of an IPv4 header (IHL = 5, no options).
pub const IPV4_MIN_HEADER_LEN: usize = 20;

/// An IPv4 header.
#[derive(Clone, Debug, PartialEq, Eq)]
pub struct IPv4 {
    pub version: u8,
    pub header_len: u8,
    pub diffserv: u8,
    pub congestion_notification: u8,
    pub total_length: u16,
    pub identification: u16,
    pub flags: u8,
    pub fragment_offset: u16,
    pub ttl: u8,
    pub protocol: u8,
    pub header_xsum: u16,
    pub source_addr: [u8; 4],
    pub dest_addr: [u8; 4],
}

/// The model of the IPv4 layer decoded from the start of `bytes`.
pub open spec fn spec_ipv4_model(bytes: Seq<u8>) -> LayerModel {
    LayerModel::IPv4 {
        version: (bytes[0] >> 4) & 0x0f,
        header_len: bytes[0] & 0x0f,
        diffserv: (bytes[1] >> 2) & 0x3f,
        congestion_notification: bytes[1] & 0x03,
        total_length: spec_u16_be(bytes.subrange(2, 4)) as u16,
        identification: spec_u16_be(bytes.subrange(4, 6)) as u16,
        flags: (bytes[6] >> 5) & 0x07,
        fragment_offset: (256 * (bytes[6] & 0x1f) + bytes[7]) as u16,
        ttl: bytes[8],
        protocol: bytes[9],
        header_xsum: spec_u16_be(bytes.subrange(10, 12)) as u16,
        source_addr: bytes.subrange(12, 16),
        dest_addr: bytes.subrange(16, 20),
    }
}

/// The count of bytes an IPv4 layer decoded from `bytes` claims:
/// `4 × IHL`, options included.
pub open spec fn spec_ipv4_consumed(bytes: Seq<u8>) -> nat {
    4 * (bytes[0] & 0x0f) as nat
}

/// The hint an IPv4 layer decoded from `bytes` leaves for its payload.
pub open spec fn spec_ipv4_hint(bytes: Seq<u8>) -> LayerHint {
    if bytes[9] == 6 {
        LayerHint::Tcp
    } else {
        LayerHint::Undecoded
    }
}

impl IPv4 {
    /// The layer as its mathematical description.
    pub open spec fn model(self) -> LayerModel {
        LayerModel::IPv4 {
            version: self.version,
            header_len: self.header_len,
            diffserv: self.diffserv,
            congestion_notification: self.congestion_notification,
            total_length: self.total_length,
            identification: self.identification,
            flags: self.flags,
            fragment_offset: self.fragment_offset,
            ttl: self.ttl,
            protocol: self.protocol,
            header_xsum: self.header_xsum,
            source_addr: self.source_addr@,
            dest_addr: self.dest_addr@,
        }
    }

    /// An all-zero header.
    pub fn new() -> (r: Self)
        ensures
            r.version == 0,
            r.header_len == 0,
            r.diffserv == 0,
            r.congestion_notification == 0,
            r.total_length == 0,
            r.identification == 0,
            r.flags == 0,
            r.fragment_offset == 0,
            r.ttl == 0,
            r.protocol == 0,
            r.header_xsum == 0,
            r.source_addr@ =~= seq![0u8, 0u8, 0u8, 0u8],
            r.dest_addr@ =~= seq![0u8, 0u8, 0u8, 0u8],
    {
        IPv4 {
            version: 0,
            header_len: 0,
            diffserv: 0,
            congestion_notification: 0,
            total_length: 0,
            identification: 0,
            flags: 0,
            fragment_offset: 0,
            ttl: 0,
            protocol: 0,
            header_xsum: 0,
            source_addr: [0; 4],
            dest_addr: [0; 4],
        }
    }

    /// Decodes the fixed header at the start of `bytes`. All multi-byte
    /// fields are big-endian. The layer claims `4 × IHL` bytes (options are
    /// opaque padding); protocol 6 picks the TCP dissector next.
    pub fn from_bytes(_next_byte: usize, bytes: &[u8]) -> (r: (Self, usize, LayerHint))
        requires
            bytes@.len() >= IPV4_MIN_HEADER_LEN,
        ensures
            r.0.model() == spec_ipv4_model(bytes@),
            r.1 == spec_ipv4_consumed(bytes@),
            r.1 <= 60,
            r.2 == spec_ipv4_hint(bytes@),
    {
        let version = (bytes[0] >> 4) & 0x0f;
        let header_len = bytes[0] & 0x0f;
        let diffserv = (bytes[1] >> 2) & 0x3f;
        let congestion_notification = bytes[1] & 0x03;
        let total_length = 256u16 * (bytes[2] as u16) + (bytes[3] as u16);
        let identification = 256u16 * (bytes[4] as u16) + (bytes[5] as u16);
        let flags = (bytes[6] >> 5) & 0x07;
        let fragment_offset = 256u16 * ((bytes[6] & 0x1f) as u16) + (bytes[7] as u16);
        let ttl = bytes[8];
        let protocol = bytes[9];
        let header_xsum = 256u16 * (bytes[10] as u16) + (bytes[11] as u16);
        let source_addr: [u8; 4] = [bytes[12], bytes[13], bytes[14], bytes[15]];
        let dest_addr: [u8; 4] = [bytes[16], bytes[17], bytes[18], bytes[19]];

        let ip_layer = IPv4 {
            version,
            header_len,
            diffserv,
            congestion_notification,
            total_length,
            identification,
            flags,
            fragment_offset,
            ttl,
            protocol,
            header_xsum,
            source_addr,
            dest_addr,
        };

        proof {
            let b0: u8 = bytes@[0];
            assert(b0 & 0x0f <= 0x0f) by (bit_vector);
            assert(ip_layer.source_addr@ =~= bytes@.subrange(12, 16));
            assert(ip_layer.dest_addr@ =~= bytes@.subrange(16, 20));
        }
        let consumed: usize = 4 * (header_len as usize);

        let layer_hint = if protocol == 6 {
            LayerHint::Tcp
        } else {
            LayerHint::Undecoded
        };

        (ip_layer, consumed, layer_hint)
    }

    /// The one-line description of this layer.
    pub open spec fn spec_summary(self) -> Seq<char> {
        "Internet Protocol Version 4, Src: "@ + spec_ipaddr(self.source_addr@) + ", Dst: "@
            + spec_ipaddr(self.dest_addr@)
    }

    /// Renders the one-line description.
    pub fn summary(&self) -> (r: String)
        ensures
            r@ == self.spec_summary(),
    {
        let mut r = String::new();
        r.append("Internet Protocol Version 4, Src: ");
        let src = strfmt::ipaddr_to_string(&self.source_addr);
        r.append(src.as_str());
        r.append(", Dst: ");
        let dst = strfmt::ipaddr_to_string(&self.dest_addr);
        r.append(dst.as_str());
        assert(r@ =~= self.spec_summary());
        r
    }

    /// The detail row reporting the header length, in bytes and in 32-bit
    /// words.
    pub open spec fn spec_header_len_row(self) -> Seq<char> {
        "Header Length: "@ + spec_dec(4 * self.header_len as nat) + " bytes ("@ + spec_dec(
            self.header_len as nat,
        ) + ")"@
    }

    /// Renders the header-length detail row.
    fn header_len_row(&self) -> (r: String)
        ensures
            r@ == self.spec_header_len_row(),
    {
        let mut r = String::from_str("Header Length: ");
        strfmt::push_dec(&mut r, 4 * (self.header_len as u64));
        r.append(" bytes (");
        strfmt::push_dec(&mut r, self.header_len as u64);
        r.append(")");
        assert(r@ =~= self.spec_header_len_row());
        r
    }

    /// The detail row reporting the version.
    pub open spec fn spec_version_row(self) -> Seq<char> {
        "Version: "@ + spec_dec(self.version as nat)
    }

    /// Renders the version detail row.
    fn version_row(&self) -> (r: String)
        ensures
            r@ == self.spec_version_row(),
    {
        let mut r = String::from_str("Version: ");
        strfmt::push_dec(&mut r, self.version as u64);
        r
    }

    /// The layer as a node of the display tree with the two headline detail
    /// rows.
    pub fn to_tree_item_verbose(&self) -> (r: LayerTreeItem)
        ensures
            r.label@ == self.spec_summary(),
            r.fields@.len() == 2,
            r.fields@[0]@ == self.spec_version_row(),
            r.fields@[1]@ == self.spec_header_len_row(),
    {
        let mut fields: Vec<String> = Vec::new();
        fields.push(self.version_row());
        fields.push(self.header_len_row());
        LayerTreeItem { label: self.summary(), fields }
    }


    /// The detail rows of this layer, one per field, in display order.
    pub open spec fn spec_field_rows(self) -> Seq<Seq<char>> {
        seq![
            self.spec_version_row(),
            self.spec_header_len_row(),
            "Differentiated Services Field: 0x"@ + spec_hex_pad_upper(self.diffserv as nat, 2),
            "Total Length: "@ + spec_dec(self.total_length as nat),
            "Identification: 0x"@ + spec_hex_pad(self.identification as nat, 4),
            "Flags: 0x"@ + spec_hex_pad(self.flags as nat, 4),
            "Time to live: "@ + spec_dec(self.ttl as nat),
            "Protocol: "@ + spec_dec(self.protocol as nat),
            "Header checksum: 0x"@ + spec_hex_pad(self.header_xsum as nat, 4),
            "Source: "@ + spec_ipaddr(self.source_addr@),
            "Destination: "@ + spec_ipaddr(self.dest_addr@),
        ]
    }

    /// The layer as a node of the display tree, one detail row per field.
    pub fn to_tree_item(&self) -> (r: LayerTreeItem)
        ensures
            r.label@ == self.spec_summary(),
            r.fields@.len() == 11,
            r.fields@[0]@ == self.spec_version_row(),
            r.fields@[1]@ == self.spec_header_len_row(),
            r.fields@[2]@ == "Differentiated Services Field: 0x"@ + spec_hex_pad_upper(
                self.diffserv as nat,
                2,
            ),
            r.fields@[3]@ == "Total Length: "@ + spec_dec(self.total_length as nat),
            r.fields@[4]@ == "Identification: 0x"@ + spec_hex_pad(self.identification as nat, 4),
            r.fields@[5]@ == "Flags: 0x"@ + spec_hex_pad(self.flags as nat, 4),
            r.fields@[6]@ == "Time to live: "@ + spec_dec(self.ttl as nat),
            r.fields@[7]@ == "Protocol: "@ + spec_dec(self.protocol as nat),
            r.fields@[8]@ == "Header checksum: 0x"@ + spec_hex_pad(self.header_xsum as nat, 4),
            r.fields@[9]@ == "Source: "@ + spec_ipaddr(self.source_addr@),
            r.fields@[10]@ == "Destination: "@ + spec_ipaddr(self.dest_addr@),
            r.fields@.map_values(|s: String| s@) == self.spec_field_rows(),
    {
        let mut fields: Vec<String> = Vec::new();
        fields.push(self.version_row());
        fields.push(self.header_len_row());

        let mut diffserv_row = String::from_str("Differentiated Services Field: 0x");
        strfmt::push_hex_pad_upper(&mut diffserv_row, self.diffserv as u64, 2);
        fields.push(diffserv_row);

        let mut total_length_row = String::from_str("Total Length: ");
        strfmt::push_dec(&mut total_length_row, self.total_length as u64);
        fields.push(total_length_row);

        let mut identification_row = String::from_str("Identification: 0x");
        strfmt::push_hex_pad(&mut identification_row, self.identification as u64, 4);
        fields.push(identification_row);

        let mut flags_row = String::from_str("Flags: 0x");
        strfmt::push_hex_pad(&mut flags_row, self.flags as u64, 4);
        fields.push(flags_row);

        let mut ttl_row = String::from_str("Time to live: ");
        strfmt::push_dec(&mut ttl_row, self.ttl as u64);
        fields.push(ttl_row);

        let mut protocol_row = String::from_str("Protocol: ");
        strfmt::push_dec(&mut protocol_row, self.protocol as u64);
        fields.push(protocol_row);

        let mut xsum_row = String::from_str("Header checksum: 0x");
        strfmt::push_hex_pad(&mut xsum_row, self.header_xsum as u64, 4);
        fields.push(xsum_row);

        let mut source_row = String::from_str("Source: ");
        let src = strfmt::ipaddr_to_string(&self.source_addr);
        source_row.append(src.as_str());
        fields.push(source_row);

        let mut dest_row = String::from_str("Destination: ");
        let dst = strfmt::ipaddr_to_string(&self.dest_addr);
        dest_row.append(dst.as_str());
        fields.push(dest_row);

        proof {
            assert(fields@.map_values(|s: String| s@) =~= self.spec_field_rows());
        }
        LayerTreeItem { label: self.summary(), fields }
    }
}

} // verus!
