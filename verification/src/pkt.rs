//! The dissection engine: a packet owns a byte buffer and, once decoded, an
//! ordered chain of protocol layers that exactly partitions that buffer. The
//! decode loop is driven by per-layer hints naming the next dissector; a
//! malformed remainder is absorbed by an `Undecoded` layer, so decoding never
//! fails and never loops.

use vstd::prelude::*;

use crate::ethernet;
use crate::ethernet::Ethernet;
use crate::hexdump::BytePool;
use crate::ipv4;
use crate::ipv4::IPv4;
use crate::strfmt;
use crate::strfmt::spec_dec;
use crate::tcp;
use crate::tcp::Tcp;
use crate::tree::LayerTreeItem;
use crate::tree::PacketTreeItem;
use crate::undecoded;
use crate::undecoded::Undecoded;

verus! {

/// The link type a capture file declares for Ethernet framing.
pub const LINKTYPE_ETHERNET: i32 = 1;

/// The link type used before a capture header has been seen.
pub const LINKTYPE_NULL: i32 = 0;

/// Names the dissector that should run on the bytes that follow a layer.
#[derive(Clone, Copy, Debug, PartialEq, Eq, Structural)]
pub enum LayerHint {
    Ethernet,
    IPv4,
    Tcp,
    Undecoded,
}

/// The mathematical description of one decoded layer: every field a
/// dissector stores, over sequences and plain integers. Contracts and the
/// decode specification speak in these terms.
pub ghost enum LayerModel {
    Ethernet { dst: Seq<u8>, src: Seq<u8>, type_raw: Seq<u8>, ether_type: ethernet::Ethertype },
    IPv4 {
        version: u8,
        header_len: u8,
        diffserv: u8,
        congestion_notification: u8,
        total_length: u16,
        identification: u16,
        flags: u8,
        fragment_offset: u16,
        ttl: u8,
        protocol: u8,
        header_xsum: u16,
        source_addr: Seq<u8>,
        dest_addr: Seq<u8>,
    },
    Tcp {
        source_port: u16,
        dest_port: u16,
        sequence_num: u32,
        ack_num: u32,
        header_len: u8,
        resrv_0: u8,
        flags: u8,
        window_size: u16,
        tcp_xsum: u16,
        urg_ptr: u16,
    },
    Undecoded { start_offset: nat, length: nat },
}

/// How many bytes of the buffer a layer accounts for.
pub open spec fn model_consumed(m: LayerModel) -> nat {
    match m {
        LayerModel::Ethernet { .. } => 14,
        LayerModel::IPv4 { header_len, .. } => 4 * header_len as nat,
        LayerModel::Tcp { header_len, .. } => 4 * header_len as nat,
        LayerModel::Undecoded { length, .. } => length,
    }
}

/// One decoded protocol layer of a packet.
#[derive(Clone, Debug, PartialEq, Eq)]
pub enum Layer {
    Ethernet(Ethernet),
    IPv4(IPv4),
    Tcp(Tcp),
    Undecoded(Undecoded),
}

impl Layer {
    /// The layer as its mathematical description.
    pub open spec fn model(self) -> LayerModel {
        match self {
            Layer::Ethernet(inner) => inner.model(),
            Layer::IPv4(inner) => inner.model(),
            Layer::Tcp(inner) => inner.model(),
            Layer::Undecoded(inner) => inner.model(),
        }
    }

    /// The one-line description of the layer.
    pub open spec fn spec_summary(self) -> Seq<char> {
        match self {
            Layer::Ethernet(inner) => inner.spec_summary(),
            Layer::IPv4(inner) => inner.spec_summary(),
            Layer::Tcp(inner) => inner.spec_summary(),
            Layer::Undecoded(inner) => inner.spec_summary(),
        }
    }

    /// Renders the one-line description.
    pub fn summary(&self) -> (r: String)
        ensures
            r@ == self.spec_summary(),
    {
        match self {
            Layer::Ethernet(inner) => inner.summary(),
            Layer::IPv4(inner) => inner.summary(),
            Layer::Tcp(inner) => inner.summary(),
            Layer::Undecoded(inner) => inner.summary(),
        }
    }

    /// The detail rows shown under the layer's node: one per decoded
    /// field for IPv4, none yet for the other layers.
    pub open spec fn spec_tree_fields(self) -> Seq<Seq<char>> {
        match self {
            Layer::IPv4(inner) => inner.spec_field_rows(),
            _ => Seq::<Seq<char>>::empty(),
        }
    }

    /// The layer as a node of the display tree.
    pub fn to_tree_item(&self) -> (r: LayerTreeItem)
        ensures
            r.label@ == self.spec_summary(),
            r.fields@.map_values(|s: String| s@) == self.spec_tree_fields(),
    {
        let r = match self {
            Layer::Ethernet(inner) => inner.to_tree_item(),
            Layer::IPv4(inner) => inner.to_tree_item(),
            Layer::Tcp(inner) => inner.to_tree_item(),
            Layer::Undecoded(inner) => inner.to_tree_item(),
        };
        proof {
            if !(self is IPv4) {
                assert(r.fields@.map_values(|s: String| s@) =~= Seq::<Seq<char>>::empty());
            }
        }
        r
    }
}

/// A layer is determined by its mathematical description.
pub proof fn lemma_layer_model_injective(a: Layer, b: Layer)
    requires
        a.model() == b.model(),
    ensures
        a == b,
{
    broadcast use vstd::array::group_array_axioms;

    match (a, b) {
        (Layer::Ethernet(x), Layer::Ethernet(y)) => {
            assert(x.destination_mac =~= y.destination_mac);
            assert(x.source_mac =~= y.source_mac);
            assert(x.ether_type_raw =~= y.ether_type_raw);
        },
        (Layer::IPv4(x), Layer::IPv4(y)) => {
            assert(x.source_addr =~= y.source_addr);
            assert(x.dest_addr =~= y.dest_addr);
        },
        (Layer::Tcp(x), Layer::Tcp(y)) => {
        },
        (Layer::Undecoded(x), Layer::Undecoded(y)) => {
        },
        _ => {
        },
    }
}

/// The dissector selected by a capture's link type before any layer has
/// been decoded: Ethernet framing for the Ethernet link type, everything
/// else undecoded.
pub open spec fn spec_initial_hint(linktype: i32) -> LayerHint {
    if linktype == LINKTYPE_ETHERNET {
        LayerHint::Ethernet
    } else {
        LayerHint::Undecoded
    }
}

/// The chain of layers decoded from `bytes` starting at `offset` with the
/// given hint. Each step consumes the bytes its dissector claims; a slice
/// shorter than the dissector's fixed-header minimum, a zero-byte claim, or
/// a claim past the end of the buffer is malformed and becomes a final
/// `Undecoded` layer covering the remainder.
pub open spec fn spec_decode_from(bytes: Seq<u8>, offset: nat, hint: LayerHint) -> Seq<LayerModel>
    decreases bytes.len() - offset,
{
    if offset >= bytes.len() {
        seq![]
    } else {
        let rest = bytes.subrange(offset as int, bytes.len() as int);
        let undecoded_rest = undecoded::spec_undecoded_model(offset, (bytes.len() - offset) as nat);
        match hint {
            LayerHint::Ethernet => {
                if rest.len() < 14 {
                    seq![undecoded_rest]
                } else {
                    seq![ethernet::spec_ethernet_model(rest)] + spec_decode_from(
                        bytes,
                        offset + 14,
                        ethernet::spec_ethernet_hint(rest),
                    )
                }
            },
            LayerHint::IPv4 => {
                if rest.len() < 20 {
                    seq![undecoded_rest]
                } else {
                    let consumed = ipv4::spec_ipv4_consumed(rest);
                    if consumed == 0 || consumed > rest.len() {
                        seq![undecoded_rest]
                    } else {
                        seq![ipv4::spec_ipv4_model(rest)] + spec_decode_from(
                            bytes,
                            offset + consumed,
                            ipv4::spec_ipv4_hint(rest),
                        )
                    }
                }
            },
            LayerHint::Tcp => {
                if rest.len() < 20 {
                    seq![undecoded_rest]
                } else {
                    let consumed = tcp::spec_tcp_consumed(rest);
                    if consumed == 0 || consumed > rest.len() {
                        seq![undecoded_rest]
                    } else {
                        seq![tcp::spec_tcp_model(rest)] + spec_decode_from(
                            bytes,
                            offset + consumed,
                            LayerHint::Undecoded,
                        )
                    }
                }
            },
            LayerHint::Undecoded => seq![undecoded_rest],
        }
    }
}

/// The chain of layers decoded from a whole buffer under a link type.
pub open spec fn spec_decode(bytes: Seq<u8>, linktype: i32) -> Seq<LayerModel> {
    spec_decode_from(bytes, 0, spec_initial_hint(linktype))
}

/// The sum of the byte counts the layers account for, in order.
pub open spec fn models_total(ms: Seq<LayerModel>) -> nat
    decreases ms.len(),
{
    if ms.len() == 0 {
        0
    } else {
        model_consumed(ms[0]) + models_total(ms.subrange(1, ms.len() as int))
    }
}

/// Splitting a chain splits its byte count: the layers before position `i`
/// and the layers from position `i` on account for the whole. With the
/// partition law below, layer `i` therefore covers exactly the range from
/// `models_total(ms.take(i))` to `models_total(ms.take(i + 1))`: ranges are
/// contiguous and never overlap.
pub proof fn lemma_models_total_split(ms: Seq<LayerModel>, i: int)
    requires
        0 <= i <= ms.len(),
    ensures
        models_total(ms) == models_total(ms.take(i)) + models_total(ms.skip(i)),
    decreases i,
{
    if i == 0 {
        assert(ms.take(0) =~= Seq::<LayerModel>::empty());
        assert(ms.skip(0) =~= ms);
    } else {
        assert(ms.len() > 0);
        lemma_models_total_split(ms.subrange(1, ms.len() as int), i - 1);
        assert(ms.subrange(1, ms.len() as int).take(i - 1) =~= ms.take(i).subrange(
            1,
            ms.take(i).len() as int,
        ));
        assert(ms.subrange(1, ms.len() as int).skip(i - 1) =~= ms.skip(i));
        assert(ms.take(i)[0] == ms[0]);
        assert(ms.take(i).len() == i);
    }
}

/// The partition law: the layers decoded from `offset` on account for
/// exactly the bytes from `offset` to the end of the buffer — no gap, no
/// overlap, whatever the input bytes are.
pub proof fn lemma_decode_partitions_from(bytes: Seq<u8>, offset: nat, hint: LayerHint)
    requires
        offset <= bytes.len(),
    ensures
        models_total(spec_decode_from(bytes, offset, hint)) == bytes.len() - offset,
    decreases bytes.len() - offset,
{
    if offset >= bytes.len() {
    } else {
        let rest = bytes.subrange(offset as int, bytes.len() as int);
        let ms = spec_decode_from(bytes, offset, hint);
        match hint {
            LayerHint::Ethernet => {
                if rest.len() < 14 {
                    lemma_models_total_singleton(ms);
                } else {
                    let tail = spec_decode_from(bytes, offset + 14, ethernet::spec_ethernet_hint(rest));
                    lemma_decode_partitions_from(bytes, offset + 14, ethernet::spec_ethernet_hint(rest));
                    lemma_models_total_cons(ethernet::spec_ethernet_model(rest), tail);
                }
            },
            LayerHint::IPv4 => {
                if rest.len() < 20 {
                    lemma_models_total_singleton(ms);
                } else {
                    let consumed = ipv4::spec_ipv4_consumed(rest);
                    if consumed == 0 || consumed > rest.len() {
                        lemma_models_total_singleton(ms);
                    } else {
                        let tail = spec_decode_from(bytes, offset + consumed, ipv4::spec_ipv4_hint(rest));
                        lemma_decode_partitions_from(bytes, offset + consumed, ipv4::spec_ipv4_hint(rest));
                        lemma_models_total_cons(ipv4::spec_ipv4_model(rest), tail);
                    }
                }
            },
            LayerHint::Tcp => {
                if rest.len() < 20 {
                    lemma_models_total_singleton(ms);
                } else {
                    let consumed = tcp::spec_tcp_consumed(rest);
                    if consumed == 0 || consumed > rest.len() {
                        lemma_models_total_singleton(ms);
                    } else {
                        let tail = spec_decode_from(bytes, offset + consumed, LayerHint::Undecoded);
                        lemma_decode_partitions_from(bytes, offset + consumed, LayerHint::Undecoded);
                        lemma_models_total_cons(tcp::spec_tcp_model(rest), tail);
                    }
                }
            },
            LayerHint::Undecoded => {
                lemma_models_total_singleton(ms);
            },
        }
    }
}

/// The byte count of a one-layer chain is that layer's.
proof fn lemma_models_total_singleton(ms: Seq<LayerModel>)
    requires
        ms.len() == 1,
    ensures
        models_total(ms) == model_consumed(ms[0]),
{
    assert(ms.subrange(1, ms.len() as int) =~= Seq::<LayerModel>::empty());
    assert(models_total(Seq::<LayerModel>::empty()) == 0);
}

/// The byte count of a chain with a first layer in front.
proof fn lemma_models_total_cons(m: LayerModel, tail: Seq<LayerModel>)
    ensures
        models_total(seq![m] + tail) == model_consumed(m) + models_total(tail),
{
    let ms = seq![m] + tail;
    assert(ms[0] == m);
    assert(ms.subrange(1, ms.len() as int) =~= tail);
}

/// The partition law for a whole packet: the decoded layers' byte counts
/// sum to the buffer length.
pub proof fn lemma_decode_partitions(bytes: Seq<u8>, linktype: i32)
    ensures
        models_total(spec_decode(bytes, linktype)) == bytes.len(),
{
    lemma_decode_partitions_from(bytes, 0, spec_initial_hint(linktype));
}

/// The partition law at the packet level: after a decode, the layers'
/// byte counts sum to the packet's buffer length.
pub proof fn lemma_packet_partition(pre: Packet, post: Packet)
    requires
        spec_decode_post(pre, post),
    ensures
        models_total(post.layer_models()) == post.bytepool@.len(),
{
    lemma_decode_partitions(pre.bytepool@, pre.linktype);
}

/// The progress law: a dissector handed a slice meeting its fixed-header
/// minimum, with a well-formed length field where the protocol has one,
/// claims at least its minimum header — never zero bytes. The undecoded
/// fallback claims every remaining byte.
pub proof fn lemma_dissector_progress(bytes: Seq<u8>)
    ensures
        bytes.len() >= 14 ==> 14nat > 0,
        bytes.len() >= 20 && (bytes[0] & 0x0f) >= 5 ==> ipv4::spec_ipv4_consumed(bytes) >= 20,
        bytes.len() >= 20 && ((bytes[12] & 0xf0) >> 4) >= 5 ==> tcp::spec_tcp_consumed(bytes)
            >= 20,
{
}

/// One captured frame: its ordinal position in the capture, its bytes, the
/// capture's link type, and — once `decode` has run — the layer chain.
#[derive(Clone, Debug)]
pub struct Packet {
    pub num: usize,
    pub bytepool: BytePool,
    pub linktype: i32,
    pub decoded: bool,
    pub layers: Vec<Layer>,
}

/// What `Packet::decode` does: everything but `decoded` and `layers` is
/// untouched, and the layer chain is exactly the decode of the buffer under
/// the packet's link type.
pub open spec fn spec_decode_post(pre: Packet, post: Packet) -> bool {
    &&& post.num == pre.num
    &&& post.bytepool@ == pre.bytepool@
    &&& post.linktype == pre.linktype
    &&& post.decoded
    &&& post.layer_models() == spec_decode(pre.bytepool@, pre.linktype)
}

impl Packet {
    /// The layer chain as its mathematical description.
    pub open spec fn layer_models(self) -> Seq<LayerModel> {
        self.layers@.map_values(|l: Layer| l.model())
    }

    /// An empty, undecoded packet.
    pub fn new() -> (r: Self)
        ensures
            r.num == 0,
            r.bytepool@ =~= Seq::<u8>::empty(),
            r.linktype == LINKTYPE_NULL,
            !r.decoded,
            r.layers@.len() == 0,
    {
        Packet {
            num: 0,
            bytepool: BytePool::new(),
            linktype: LINKTYPE_NULL,
            decoded: false,
            layers: Vec::new(),
        }
    }

    /// Decodes the buffer into its layer chain. The cursor starts at zero
    /// with the dissector picked by the link type; each step appends the
    /// decoded layer, advances by the bytes it claimed, and follows its
    /// hint. A malformed remainder (short slice, zero-byte claim, or claim
    /// past the buffer end) becomes a final `Undecoded` layer, so the chain
    /// always partitions the buffer. Re-running resets the chain first:
    /// decoding is idempotent.
    pub fn decode(&mut self)
        ensures
            spec_decode_post(*old(self), *final(self)),
    {
        let ghost target = spec_decode(old(self).bytepool@, old(self).linktype);
        self.layers = Vec::new();
        self.decoded = true;

        let num_bytes = self.bytepool.len();
        let mut next_byte: usize = 0;
        let mut hint: LayerHint = if self.linktype == LINKTYPE_ETHERNET {
            LayerHint::Ethernet
        } else {
            LayerHint::Undecoded
        };

        proof {
            assert(self.layer_models() =~= Seq::<LayerModel>::empty());
            assert(self.layer_models() + spec_decode_from(self.bytepool@, 0, hint) =~= target);
        }

        while next_byte < num_bytes
            invariant
                next_byte <= num_bytes,
                num_bytes == self.bytepool@.len(),
                self.bytepool@ == old(self).bytepool@,
                self.num == old(self).num,
                self.linktype == old(self).linktype,
                self.decoded,
                self.layer_models() + spec_decode_from(self.bytepool@, next_byte as nat, hint)
                    == target,
            decreases num_bytes - next_byte,
        {
            let ghost prev_models = self.layer_models();
            let ghost spec_rest = self.bytepool@.subrange(next_byte as int, num_bytes as int);
            let rest: &[u8] = vstd::slice::slice_subrange(
                self.bytepool.as_slice(),
                next_byte,
                num_bytes,
            );
            let remaining = num_bytes - next_byte;

            let (layer, consumed): (Layer, usize) = match hint {
                LayerHint::Ethernet => {
                    if remaining < 14 {
                        let (inner, consumed, next_hint) = Undecoded::from_bytes(next_byte, rest);
                        hint = next_hint;
                        (Layer::Undecoded(inner), consumed)
                    } else {
                        let (inner, consumed, next_hint) = Ethernet::from_bytes(next_byte, rest);
                        hint = next_hint;
                        (Layer::Ethernet(inner), consumed)
                    }
                },
                LayerHint::IPv4 => {
                    if remaining < 20 {
                        let (inner, consumed, next_hint) = Undecoded::from_bytes(next_byte, rest);
                        hint = next_hint;
                        (Layer::Undecoded(inner), consumed)
                    } else {
                        let (inner, consumed, next_hint) = IPv4::from_bytes(next_byte, rest);
                        if consumed == 0 || consumed > remaining {
                            let (inner, consumed, next_hint) = Undecoded::from_bytes(
                                next_byte,
                                rest,
                            );
                            hint = next_hint;
                            (Layer::Undecoded(inner), consumed)
                        } else {
                            hint = next_hint;
                            (Layer::IPv4(inner), consumed)
                        }
                    }
                },
                LayerHint::Tcp => {
                    if remaining < 20 {
                        let (inner, consumed, next_hint) = Undecoded::from_bytes(next_byte, rest);
                        hint = next_hint;
                        (Layer::Undecoded(inner), consumed)
                    } else {
                        let (inner, consumed, next_hint) = Tcp::from_bytes(next_byte, rest);
                        if consumed == 0 || consumed > remaining {
                            let (inner, consumed, next_hint) = Undecoded::from_bytes(
                                next_byte,
                                rest,
                            );
                            hint = next_hint;
                            (Layer::Undecoded(inner), consumed)
                        } else {
                            hint = next_hint;
                            (Layer::Tcp(inner), consumed)
                        }
                    }
                },
                LayerHint::Undecoded => {
                    let (inner, consumed, next_hint) = Undecoded::from_bytes(next_byte, rest);
                    hint = next_hint;
                    (Layer::Undecoded(inner), consumed)
                },
            };

            self.layers.push(layer);
            proof {
                assert(self.layer_models() =~= prev_models + seq![layer.model()]);
                assert(prev_models + (seq![layer.model()] + spec_decode_from(
                    self.bytepool@,
                    (next_byte + consumed) as nat,
                    hint,
                )) =~= (prev_models + seq![layer.model()]) + spec_decode_from(
                    self.bytepool@,
                    (next_byte + consumed) as nat,
                    hint,
                ));
            }
            next_byte = next_byte + consumed;
        }

        proof {
            assert(spec_decode_from(self.bytepool@, next_byte as nat, hint) =~= Seq::<
                LayerModel,
            >::empty());
            assert(self.layer_models() + Seq::<LayerModel>::empty() =~= self.layer_models());
        }
    }

    /// The idempotence law: decoding an already-decoded packet leaves the
    /// very same layer chain (the chain is reset, then rebuilt from the
    /// unchanged bytes and link type).
    pub proof fn lemma_decode_idempotent(start: Packet, once: Packet, twice: Packet)
        requires
            spec_decode_post(start, once),
            spec_decode_post(once, twice),
        ensures
            twice.layers@ == once.layers@,
    {
        assert(twice.layer_models() == once.layer_models());
        assert(once.layers@.len() == once.layer_models().len());
        assert forall|i: int| 0 <= i < once.layers@.len() implies twice.layers@[i]
            == once.layers@[i] by {
            assert(once.layer_models()[i] == once.layers@[i].model());
            assert(twice.layer_models()[i] == twice.layers@[i].model());
            lemma_layer_model_injective(once.layers@[i], twice.layers@[i]);
        }
        assert(twice.layers@ =~= once.layers@);
    }

    /// The one-line description of the packet.
    pub open spec fn spec_summary(self) -> Seq<char> {
        "Packet Num "@ + spec_dec(self.num as nat) + " [ "@ + spec_dec(self.bytepool@.len())
            + "B ]"@
    }

    /// Renders the one-line description.
    pub fn summary(&self) -> (r: String)
        ensures
            r@ == self.spec_summary(),
    {
        let mut r = String::new();
        r.append("Packet Num ");
        strfmt::push_dec(&mut r, self.num as u64);
        r.append(" [ ");
        strfmt::push_dec(&mut r, self.bytepool.len() as u64);
        r.append("B ]");
        assert(r@ =~= self.spec_summary());
        r
    }

    /// The packet as a top-level node of the display tree, one child per
    /// decoded layer.
    pub fn to_tree_item(&self) -> (r: PacketTreeItem)
        ensures
            r.label@ == self.spec_summary(),
            r.layers@.len() == self.layers@.len(),
            forall|i: int|
                0 <= i < self.layers@.len() ==> r.layers@[i].label@
                    == self.layers@[i].spec_summary() && r.layers@[i].fields@.map_values(
                    |s: String| s@,
                ) == self.layers@[i].spec_tree_fields(),
    {
        let mut children: Vec<LayerTreeItem> = Vec::new();
        let mut i: usize = 0;
        while i < self.layers.len()
            invariant
                i <= self.layers@.len(),
                children@.len() == i,
                forall|j: int|
                    0 <= j < i as int ==> children@[j].label@ == self.layers@[j].spec_summary()
                        && children@[j].fields@.map_values(|s: String| s@)
                        == self.layers@[j].spec_tree_fields(),
            decreases self.layers@.len() - i,
        {
            children.push(self.layers[i].to_tree_item());
            i = i + 1;
        }
        PacketTreeItem { label: self.summary(), layers: children }
    }
}

/// Builds the capture, record by record, as the capture file is read: a
/// header record updates the link type for the frames that follow; a data
/// record becomes a packet numbered by its ordinal position among data
/// records. Non-data, non-header records leave the state untouched by
/// simply not being reported here.
pub struct CaptureBuilder {
    pub linktype: i32,
    pub packets: Vec<Packet>,
}

impl CaptureBuilder {
    /// An empty capture with the null link type.
    pub fn new() -> (r: Self)
        ensures
            r.linktype == LINKTYPE_NULL,
            r.packets@.len() == 0,
    {
        CaptureBuilder { linktype: LINKTYPE_NULL, packets: Vec::new() }
    }

    /// Records a capture header: the link type it declares governs the
    /// frames that follow. No packet is created.
    pub fn on_link_type_header(&mut self, linktype: i32)
        ensures
            final(self).linktype == linktype,
            final(self).packets@ == old(self).packets@,
    {
        self.linktype = linktype;
    }

    /// Records one data record: a new, not-yet-decoded packet owning the
    /// record's bytes, numbered by the count of data records seen before
    /// it, under the current link type.
    pub fn on_data_record(&mut self, bytes: Vec<u8>)
        ensures
            final(self).linktype == old(self).linktype,
            final(self).packets@.len() == old(self).packets@.len() + 1,
            forall|i: int|
                0 <= i < old(self).packets@.len() ==> final(self).packets@[i] == old(
                    self,
                ).packets@[i],
            final(self).packets@.last().num == old(self).packets@.len(),
            final(self).packets@.last().bytepool@ == bytes@,
            final(self).packets@.last().linktype == old(self).linktype,
            !final(self).packets@.last().decoded,
            final(self).packets@.last().layers@.len() == 0,
    {
        let num = self.packets.len();
        let pkt = Packet {
            num,
            bytepool: BytePool::from_vec(bytes),
            linktype: self.linktype,
            decoded: false,
            layers: Vec::new(),
        };
        self.packets.push(pkt);
    }
}

} // verus!
