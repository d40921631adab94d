//! The fallback dissector: it claims the whole remaining slice, records
//! where that slice started and how long it was, and always hints that
//! whatever follows (nothing) is again undecoded. The engine also uses it to
//! absorb a malformed remainder.

use vstd::prelude::*;

use crate::pkt::LayerHint;
use crate::pkt::LayerModel;
use crate::strfmt;
use crate::strfmt::spec_dec;
use crate::tree::LayerTreeItem;

verus! {

/// A byte range no dissector could interpret.
#[derive(Clone, Debug, PartialEq, Eq)]
pub struct Undecoded {
    pub start_offset: usize,
    pub length: usize,
}

/// The model of the undecoded layer covering `length` bytes from
/// `start_offset`.
pub open spec fn spec_undecoded_model(start_offset: nat, length: nat) -> LayerModel {
    LayerModel::Undecoded { start_offset, length }
}

impl Undecoded {
    /// The layer as its mathematical description.
    pub open spec fn model(self) -> LayerModel {
        spec_undecoded_model(self.start_offset as nat, self.length as nat)
    }

    /// An empty range at offset zero.
    pub fn new() -> (r: Self)
        ensures
            r.start_offset == 0,
            r.length == 0,
    {
        Undecoded { start_offset: 0, length: 0 }
    }

    /// Consumes the entire remaining slice starting at `next_byte` within
    /// the frame; the hint stays `Undecoded` (terminal).
    pub fn from_bytes(next_byte: usize, bytes: &[u8]) -> (r: (Self, usize, LayerHint))
        ensures
            r.0.model() == spec_undecoded_model(next_byte as nat, bytes@.len()),
            r.1 == bytes@.len(),
            r.2 == LayerHint::Undecoded,
    {
        (Undecoded { start_offset: next_byte, length: bytes.len() }, bytes.len(), LayerHint::Undecoded)
    }

    /// The one-line description of this layer.
    pub open spec fn spec_summary(self) -> Seq<char> {
        "Undecoded Data [Starts: "@ + spec_dec(self.start_offset as nat) + ", Len: "@ + spec_dec(
            self.length as nat,
        ) + "]"@
    }

    /// Renders the one-line description.
    pub fn summary(&self) -> (r: String)
        ensures
            r@ == self.spec_summary(),
    {
        let mut r = String::new();
        r.append("Undecoded Data [Starts: ");
        strfmt::push_dec(&mut r, self.start_offset as u64);
        r.append(", Len: ");
        strfmt::push_dec(&mut r, self.length as u64);
        r.append("]");
        assert(r@ =~= self.spec_summary());
        r
    }

    /// The layer as a leaf of the display tree.
    pub fn to_tree_item(&self) -> (r: LayerTreeItem)
        ensures
            r.label@ == self.spec_summary(),
            r.fields@.len() == 0,
    {
        LayerTreeItem { label: self.summary(), fields: Vec::new() }
    }
}

} // verus!
