//! Display-tree items produced by the packet and layer types. A packet is a
//! top-level node, each of its layers is a child node, and a layer may carry
//! detail rows (one line per decoded field). The terminal front end renders
//! these items; nothing here depends on it.

use vstd::prelude::*;

verus! {

/// One layer's node in the display tree: a summary label plus one line per
/// decoded field shown when the node is expanded.
pub struct LayerTreeItem {
    pub label: String,
    pub fields: Vec<String>,
}

/// One packet's node in the display tree: a summary label plus one child per
/// decoded layer.
pub struct PacketTreeItem {
    pub label: String,
    pub layers: Vec<LayerTreeItem>,
}

} // verus!
