//! The Ethernet dissector: a fixed 14-byte header of destination MAC,
//! source MAC and EtherType. EtherType 0x0800 hands the payload to the IPv4
//! dissector; every other value (VLAN tagging included) falls through to
//! `Undecoded`.

use vstd::prelude::*;

use crate::pkt::LayerHint;
use crate::pkt::LayerModel;
use crate::strfmt;
use crate::strfmt::spec_mac;
use crate::tree::LayerTreeItem;
use crate::util;
use crate::util::spec_u16_be;

verus! {

/// The minimum (and only) length of an Ethernet header.
pub const ETHERNET_HEADER_LEN: usize = 14;

/// The EtherType values this engine distinguishes.
#[derive(Clone, Copy, Debug, PartialEq, Eq, Structural)]
pub enum Ethertype {
    IPV4,
    Unidentified,
}

impl Ethertype {
    /// The display name of the EtherType.
    pub open spec fn spec_name(self) -> Seq<char> {
        match self {
            Ethertype::IPV4 => "IPV4"@,
            Ethertype::Unidentified => "Unidentified"@,
        }
    }

    /// Renders the display name.
    pub fn name(&self) -> (r: String)
        ensures
            r@ == self.spec_name(),
    {
        match self {
            Ethertype::IPV4 => String::from_str("IPV4"),
            Ethertype::Unidentified => String::from_str("Unidentified"),
        }
    }
}

/// The EtherType named by a 16-bit value: 0x0800 is IPv4, everything else is
/// unidentified.
pub open spec fn spec_ethertype_of(value: int) -> Ethertype {
    if value == 0x0800 {
        Ethertype::IPV4
    } else {
        Ethertype::Unidentified
    }
}

/// An Ethernet header.
#[derive(Clone, Debug, PartialEq, Eq)]
pub struct Ethernet {
    pub destination_mac: [u8; 6],
    pub source_mac: [u8; 6],
    pub ether_type_raw: [u8; 2],
    pub ether_type: Ethertype,
}

/// The model of the Ethernet layer decoded from the start of `bytes`.
pub open spec fn spec_ethernet_model(bytes: Seq<u8>) -> LayerModel {
    LayerModel::Ethernet {
        dst: bytes.subrange(0, 6),
        src: bytes.subrange(6, 12),
        type_raw: bytes.subrange(12, 14),
        ether_type: spec_ethertype_of(spec_u16_be(bytes.subrange(12, 14))),
    }
}

/// The hint an Ethernet layer decoded from `bytes` leaves for the bytes that
/// follow it.
pub open spec fn spec_ethernet_hint(bytes: Seq<u8>) -> LayerHint {
    if spec_u16_be(bytes.subrange(12, 14)) == 0x0800 {
        LayerHint::IPv4
    } else {
        LayerHint::Undecoded
    }
}

impl Ethernet {
    /// The layer as its mathematical description.
    pub open spec fn model(self) -> LayerModel {
        LayerModel::Ethernet {
            dst: self.destination_mac@,
            src: self.source_mac@,
            type_raw: self.ether_type_raw@,
            ether_type: self.ether_type,
        }
    }

    /// An all-zero header with an unidentified EtherType.
    pub fn new() -> (r: Self)
        ensures
            r.destination_mac@ =~= seq![0u8, 0u8, 0u8, 0u8, 0u8, 0u8],
            r.source_mac@ =~= seq![0u8, 0u8, 0u8, 0u8, 0u8, 0u8],
            r.ether_type_raw@ =~= seq![0u8, 0u8],
            r.ether_type == Ethertype::Unidentified,
    {
        Ethernet {
            destination_mac: [0; 6],
            source_mac: [0; 6],
            ether_type_raw: [0; 2],
            ether_type: Ethertype::Unidentified,
        }
    }

    /// Decodes the 14-byte header at the start of `bytes`: destination MAC,
    /// source MAC, then the big-endian EtherType, which also picks the next
    /// dissector (IPv4 for 0x0800, otherwise undecoded).
    pub fn from_bytes(_next_byte: usize, bytes: &[u8]) -> (r: (Self, usize, LayerHint))
        requires
            bytes@.len() >= ETHERNET_HEADER_LEN,
        ensures
            r.0.model() == spec_ethernet_model(bytes@),
            r.1 == ETHERNET_HEADER_LEN,
            r.2 == spec_ethernet_hint(bytes@),
    {
        let destination_mac: [u8; 6] = [bytes[0], bytes[1], bytes[2], bytes[3], bytes[4], bytes[5]];
        let source_mac: [u8; 6] = [bytes[6], bytes[7], bytes[8], bytes[9], bytes[10], bytes[11]];
        let ether_type_raw: [u8; 2] = [bytes[12], bytes[13]];

        let ethtype_value: u16 = util::two_bytes_to_u16(&bytes[12..14]);
        let ether_type = if ethtype_value == 0x0800 {
            Ethertype::IPV4
        } else {
            Ethertype::Unidentified
        };

        let layer_hint = if ethtype_value == 0x0800 {
            LayerHint::IPv4
        } else {
            LayerHint::Undecoded
        };

        let ethlayer = Ethernet { destination_mac, source_mac, ether_type_raw, ether_type };
        proof {
            assert(ethlayer.destination_mac@ =~= bytes@.subrange(0, 6));
            assert(ethlayer.source_mac@ =~= bytes@.subrange(6, 12));
            assert(ethlayer.ether_type_raw@ =~= bytes@.subrange(12, 14));
        }
        (ethlayer, ETHERNET_HEADER_LEN, layer_hint)
    }

    /// The one-line description of this layer.
    pub open spec fn spec_summary(self) -> Seq<char> {
        "Ethernet Data [Destination: "@ + spec_mac(self.destination_mac@) + " | Source: "@
            + spec_mac(self.source_mac@) + " | Type: "@ + self.ether_type.spec_name() + "]"@
    }

    /// Renders the one-line description.
    pub fn summary(&self) -> (r: String)
        ensures
            r@ == self.spec_summary(),
    {
        let mut r = String::new();
        r.append("Ethernet Data [Destination: ");
        let dst = strfmt::mac_to_string(&self.destination_mac);
        r.append(dst.as_str());
        r.append(" | Source: ");
        let src = strfmt::mac_to_string(&self.source_mac);
        r.append(src.as_str());
        r.append(" | Type: ");
        let name = self.ether_type.name();
        r.append(name.as_str());
        r.append("]");
        assert(r@ =~= self.spec_summary());
        r
    }

    /// The layer as a node of the display tree, one detail row per field.
    pub fn to_tree_item_verbose(&self) -> (r: LayerTreeItem)
        ensures
            r.label@ == self.spec_summary(),
            r.fields@.len() == 3,
            r.fields@[0]@ == "Destination Mac Address: "@ + spec_mac(self.destination_mac@),
            r.fields@[1]@ == "Source Mac Address:      "@ + spec_mac(self.source_mac@),
            r.fields@[2]@ == "Ethertype: "@ + self.ether_type.spec_name(),
    {
        let mut fields: Vec<String> = Vec::new();

        let mut dst_row = String::from_str("Destination Mac Address: ");
        let dst = strfmt::mac_to_string(&self.destination_mac);
        dst_row.append(dst.as_str());
        fields.push(dst_row);

        let mut src_row = String::from_str("Source Mac Address:      ");
        let src = strfmt::mac_to_string(&self.source_mac);
        src_row.append(src.as_str());
        fields.push(src_row);

        let mut type_row = String::from_str("Ethertype: ");
        let name = self.ether_type.name();
        type_row.append(name.as_str());
        fields.push(type_row);

        LayerTreeItem { label: self.summary(), fields }
    }

    /// The layer as a leaf of the display tree.
    pub fn to_tree_item(&self) -> (r: LayerTreeItem)
        ensures
            r.label@ == self.spec_summary(),
            r.fields@.len() == 0,
    {
        LayerTreeItem { label: self.summary(), fields: Vec::new() }
    }
}

} // verus!
