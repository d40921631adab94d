//! The tree navigation model: which nodes of the capture tree are expanded
//! and which single node is selected. A node is named by its path — frame
//! index, then layer index, then field index. The flattened view lists the
//! visible rows in depth-first pre-order: a node's children appear exactly
//! when its path is in the open set. Selection always addresses a visible
//! row, so a path through a closed ancestor is never selected (closed
//! ancestors are not auto-opened).

use vstd::prelude::*;

use crate::tree::PacketTreeItem;

verus! {

/// One visible row of the flattened view.
pub struct FlatRow {
    pub depth: usize,
    pub path: Vec<usize>,
    pub label: String,
    pub expandable: bool,
}

/// Whether `p` is one of the open paths.
pub open spec fn path_in(open: Seq<Vec<usize>>, p: Seq<usize>) -> bool {
    exists|k: int| 0 <= k < open.len() && open[k]@ == p
}

/// Whether the node at `p` is a row of the flattened view: its indices are
/// in range and every proper ancestor is open.
pub open spec fn spec_visible(
    items: Seq<PacketTreeItem>,
    open: Seq<Vec<usize>>,
    p: Seq<usize>,
) -> bool {
    ||| (p.len() == 1 && p[0] < items.len())
    ||| (p.len() == 2 && p[0] < items.len() && path_in(open, seq![p[0]]) && p[1]
        < items[p[0] as int].layers@.len())
    ||| (p.len() == 3 && p[0] < items.len() && path_in(open, seq![p[0]]) && p[1]
        < items[p[0] as int].layers@.len() && path_in(open, seq![p[0], p[1]]) && p[2]
        < items[p[0] as int].layers@[p[1] as int].fields@.len())
}

/// Whether the node at `p` has children to reveal.
pub open spec fn spec_expandable(items: Seq<PacketTreeItem>, p: Seq<usize>) -> bool {
    if p.len() == 1 {
        items[p[0] as int].layers@.len() > 0
    } else if p.len() == 2 {
        items[p[0] as int].layers@[p[1] as int].fields@.len() > 0
    } else {
        false
    }
}

/// The field rows of one layer, from field `k` on.
pub open spec fn spec_flat_fields(nfields: int, f: usize, l: usize, k: int) -> Seq<Seq<usize>>
    decreases nfields - k,
{
    if k < 0 || k >= nfields {
        seq![]
    } else {
        seq![seq![f, l, k as usize]] + spec_flat_fields(nfields, f, l, k + 1)
    }
}

/// The layer rows of one frame, from layer `l` on, each followed by its
/// field rows when it is open.
pub open spec fn spec_flat_layers(
    items: Seq<PacketTreeItem>,
    open: Seq<Vec<usize>>,
    f: usize,
    l: int,
) -> Seq<Seq<usize>>
    decreases items[f as int].layers@.len() - l,
{
    let layers = items[f as int].layers@;
    if l < 0 || l >= layers.len() {
        seq![]
    } else {
        seq![seq![f, l as usize]] + (if path_in(open, seq![f, l as usize]) {
            spec_flat_fields(layers[l].fields@.len() as int, f, l as usize, 0)
        } else {
            seq![]
        }) + spec_flat_layers(items, open, f, l + 1)
    }
}

/// The frame rows from frame `f` on, each followed by its layer rows when
/// it is open.
pub open spec fn spec_flat_frames(
    items: Seq<PacketTreeItem>,
    open: Seq<Vec<usize>>,
    f: int,
) -> Seq<Seq<usize>>
    decreases items.len() - f,
{
    if f < 0 || f >= items.len() {
        seq![]
    } else {
        seq![seq![f as usize]] + (if path_in(open, seq![f as usize]) {
            spec_flat_layers(items, open, f as usize, 0)
        } else {
            seq![]
        }) + spec_flat_frames(items, open, f + 1)
    }
}

/// The paths of the flattened view, in depth-first pre-order.
pub open spec fn spec_flat_paths(items: Seq<PacketTreeItem>, open: Seq<Vec<usize>>) -> Seq<
    Seq<usize>,
> {
    spec_flat_frames(items, open, 0)
}

/// Membership in a concatenation is membership in either part.
proof fn lemma_contains_concat<A>(a: Seq<A>, b: Seq<A>, x: A)
    ensures
        (a + b).contains(x) <==> a.contains(x) || b.contains(x),
{
    if a.contains(x) {
        let i = choose|i: int| 0 <= i < a.len() && a[i] == x;
        assert((a + b)[i] == x);
    }
    if b.contains(x) {
        let i = choose|i: int| 0 <= i < b.len() && b[i] == x;
        assert((a + b)[a.len() + i] == x);
    }
    if (a + b).contains(x) {
        let i = choose|i: int| 0 <= i < (a + b).len() && (a + b)[i] == x;
        if i < a.len() {
            assert(a[i] == x);
        } else {
            assert(b[i - a.len()] == x);
        }
    }
}

/// Which paths the field rows hold.
proof fn lemma_flat_fields_contains(nfields: int, f: usize, l: usize, k: int, q: Seq<usize>)
    requires
        0 <= k,
        nfields <= usize::MAX,
    ensures
        spec_flat_fields(nfields, f, l, k).contains(q) <==> (q.len() == 3 && q[0] == f && q[1] == l
            && k <= q[2] < nfields),
    decreases nfields - k,
{
    if k >= nfields {
    } else {
        lemma_flat_fields_contains(nfields, f, l, k + 1, q);
        lemma_contains_concat(seq![seq![f, l, k as usize]], spec_flat_fields(nfields, f, l, k + 1), q);
        if q.len() == 3 && q[0] == f && q[1] == l && q[2] == k as usize {
            assert(q =~= seq![f, l, k as usize]);
            assert(seq![seq![f, l, k as usize]][0] == q);
        }
        if seq![seq![f, l, k as usize]].contains(q) {
            assert(q == seq![f, l, k as usize]);
        }
    }
}

/// Which paths the layer rows (and their field rows) hold.
proof fn lemma_flat_layers_contains(
    items: Seq<PacketTreeItem>,
    open: Seq<Vec<usize>>,
    f: usize,
    l: int,
    q: Seq<usize>,
)
    requires
        0 <= l,
        f < items.len(),
    ensures
        spec_flat_layers(items, open, f, l).contains(q) <==> ({
            let layers = items[f as int].layers@;
            ||| (q.len() == 2 && q[0] == f && l <= q[1] < layers.len())
            ||| (q.len() == 3 && q[0] == f && l <= q[1] < layers.len() && path_in(
                open,
                seq![f, q[1]],
            ) && q[2] < layers[q[1] as int].fields@.len())
        }),
    decreases items[f as int].layers@.len() - l,
{
    let layers = items[f as int].layers@;
    assert(layers.len() == items[f as int].layers.len());
    if l >= layers.len() {
    } else {
        assert(layers[l].fields@.len() == layers[l].fields.len());
        let head = seq![seq![f, l as usize]];
        let mid = if path_in(open, seq![f, l as usize]) {
            spec_flat_fields(layers[l].fields@.len() as int, f, l as usize, 0)
        } else {
            seq![]
        };
        let rest = spec_flat_layers(items, open, f, l + 1);
        lemma_flat_layers_contains(items, open, f, l + 1, q);
        lemma_flat_fields_contains(layers[l].fields@.len() as int, f, l as usize, 0, q);
        lemma_contains_concat(head + mid, rest, q);
        lemma_contains_concat(head, mid, q);
        assert(spec_flat_layers(items, open, f, l) == (head + mid) + rest);
        if q.len() == 2 && q[0] == f && q[1] == l as usize {
            assert(q =~= seq![f, l as usize]);
            assert(head[0] == q);
        }
        if head.contains(q) {
            assert(q == seq![f, l as usize]);
        }
        if q.len() == 3 && q[0] == f && q[1] == l as usize {
            assert(seq![f, q[1]] =~= seq![f, l as usize]);
        }
    }
}

/// Which paths the frame rows (and everything under them) hold.
proof fn lemma_flat_frames_contains(
    items: Seq<PacketTreeItem>,
    open: Seq<Vec<usize>>,
    f: int,
    q: Seq<usize>,
)
    requires
        0 <= f,
        items.len() <= usize::MAX,
    ensures
        spec_flat_frames(items, open, f).contains(q) <==> ({
            ||| (q.len() == 1 && f <= q[0] < items.len())
            ||| (q.len() == 2 && f <= q[0] < items.len() && path_in(open, seq![q[0]]) && q[1]
                < items[q[0] as int].layers@.len())
            ||| (q.len() == 3 && f <= q[0] < items.len() && path_in(open, seq![q[0]]) && q[1]
                < items[q[0] as int].layers@.len() && path_in(open, seq![q[0], q[1]]) && q[2]
                < items[q[0] as int].layers@[q[1] as int].fields@.len())
        }),
    decreases items.len() - f,
{
    if f >= items.len() {
    } else {
        let head = seq![seq![f as usize]];
        let mid = if path_in(open, seq![f as usize]) {
            spec_flat_layers(items, open, f as usize, 0)
        } else {
            seq![]
        };
        let rest = spec_flat_frames(items, open, f + 1);
        lemma_flat_frames_contains(items, open, f + 1, q);
        lemma_flat_layers_contains(items, open, f as usize, 0, q);
        lemma_contains_concat(head + mid, rest, q);
        lemma_contains_concat(head, mid, q);
        assert(spec_flat_frames(items, open, f) == (head + mid) + rest);
        if q.len() == 1 && q[0] == f as usize {
            assert(q =~= seq![f as usize]);
            assert(head[0] == q);
        }
        if head.contains(q) {
            assert(q == seq![f as usize]);
        }
        if q.len() >= 2 && q[0] == f as usize {
            assert(seq![q[0]] =~= seq![f as usize]);
        }
        if q.len() == 3 && q[0] == f as usize {
            assert(seq![f as usize, q[1]] =~= seq![q[0], q[1]]);
        }
    }
}

/// A path is a row of the flattened view exactly when it is visible: in
/// range, with every proper ancestor open.
pub proof fn lemma_flat_contains(
    items: Seq<PacketTreeItem>,
    open: Seq<Vec<usize>>,
    q: Seq<usize>,
)
    requires
        items.len() <= usize::MAX,
    ensures
        spec_flat_paths(items, open).contains(q) <==> spec_visible(items, open, q),
{
    lemma_flat_frames_contains(items, open, 0, q);
}


/// The paths of a row list, in order.
pub open spec fn spec_row_paths(rows: Seq<FlatRow>) -> Seq<Seq<usize>> {
    rows.map_values(|r: FlatRow| r.path@)
}

/// What a well-formed row shows for its path: its depth, its label drawn
/// from the item it names, and whether it can expand.
pub open spec fn spec_row_ok(items: Seq<PacketTreeItem>, r: FlatRow) -> bool {
    let p = r.path@;
    &&& r.depth + 1 == p.len()
    &&& r.expandable == spec_expandable(items, p)
    &&& if p.len() == 1 {
        r.label@ == items[p[0] as int].label@
    } else if p.len() == 2 {
        r.label@ == items[p[0] as int].layers@[p[1] as int].label@
    } else {
        r.label@ == items[p[0] as int].layers@[p[1] as int].fields@[p[2] as int]@
    }
}

/// Compares two paths.
fn paths_equal(a: &Vec<usize>, b: &Vec<usize>) -> (r: bool)
    ensures
        r == (a@ == b@),
{
    if a.len() != b.len() {
        return false;
    }
    let mut i: usize = 0;
    while i < a.len()
        invariant
            i <= a.len(),
            a@.len() == b@.len(),
            forall|j: int| 0 <= j < i ==> a@[j] == b@[j],
        decreases a.len() - i,
    {
        if a[i] != b[i] {
            return false;
        }
        i = i + 1;
    }
    proof {
        assert(a@ =~= b@);
    }
    true
}

/// Copies a path.
fn clone_path(p: &Vec<usize>) -> (r: Vec<usize>)
    ensures
        r@ == p@,
{
    let mut r: Vec<usize> = Vec::new();
    let mut i: usize = 0;
    while i < p.len()
        invariant
            i <= p.len(),
            r@ == p@.take(i as int),
        decreases p.len() - i,
    {
        r.push(p[i]);
        proof {
            assert(p@.take(i as int).push(p@[i as int]) =~= p@.take(i + 1));
        }
        i = i + 1;
    }
    proof {
        assert(p@.take(p@.len() as int) =~= p@);
    }
    r
}

/// Whether `p` is one of the open paths.
fn contains_path(open_set: &Vec<Vec<usize>>, p: &Vec<usize>) -> (r: bool)
    ensures
        r == path_in(open_set@, p@),
{
    let mut i: usize = 0;
    while i < open_set.len()
        invariant
            i <= open_set.len(),
            forall|j: int| 0 <= j < i ==> open_set@[j]@ != p@,
        decreases open_set.len() - i,
    {
        if paths_equal(&open_set[i], p) {
            return true;
        }
        i = i + 1;
    }
    false
}

/// The first row holding the given path, if any.
fn find_path(rows: &Vec<FlatRow>, p: &Vec<usize>) -> (r: Option<usize>)
    ensures
        match r {
            Some(i) => 0 <= i < rows@.len() && rows@[i as int].path@ == p@ && forall|j: int|
                0 <= j < i ==> rows@[j].path@ != p@,
            None => forall|j: int| 0 <= j < rows@.len() ==> rows@[j].path@ != p@,
        },
{
    let mut i: usize = 0;
    while i < rows.len()
        invariant
            i <= rows.len(),
            forall|j: int| 0 <= j < i ==> rows@[j].path@ != p@,
        decreases rows.len() - i,
    {
        if paths_equal(&rows[i].path, p) {
            return Some(i);
        }
        i = i + 1;
    }
    None
}

/// The navigation state over one capture: the display items, the set of
/// open (expanded) node paths, and the selected node's path — empty when
/// nothing is selected. Selection only ever addresses a visible row.
pub struct StatefulTree {
    pub items: Vec<PacketTreeItem>,
    pub open_set: Vec<Vec<usize>>,
    pub selected_path: Vec<usize>,
}

impl StatefulTree {
    /// The navigation invariant: either nothing is selected, or the
    /// selected path addresses a row of the flattened view.
    pub open spec fn wf(&self) -> bool {
        self.selected_path@.len() == 0 || spec_visible(
            self.items@,
            self.open_set@,
            self.selected_path@,
        )
    }

    /// A fresh state over the given items: nothing open, nothing selected.
    pub fn with_items(items: Vec<PacketTreeItem>) -> (r: Self)
        ensures
            r.items@ == items@,
            r.open_set@.len() == 0,
            r.selected_path@.len() == 0,
            r.wf(),
    {
        StatefulTree { items, open_set: Vec::new(), selected_path: Vec::new() }
    }

    /// Appends the field rows of layer `l` of frame `f`.
    fn flatten_fields(rows: &mut Vec<FlatRow>, fields: &Vec<String>, f: usize, l: usize)
        ensures
            spec_row_paths(final(rows)@) == spec_row_paths(old(rows)@) + spec_flat_fields(
                fields@.len() as int,
                f,
                l,
                0,
            ),
            forall|i: int| 0 <= i < old(rows)@.len() ==> final(rows)@[i] == old(rows)@[i],
            final(rows)@.len() == old(rows)@.len() + fields@.len(),
            forall|i: int|
                old(rows)@.len() <= i < final(rows)@.len() ==> {
                    let r = #[trigger] final(rows)@[i];
                    let k = i - old(rows)@.len();
                    &&& r.path@ == seq![f, l, k as usize]
                    &&& r.depth == 2
                    &&& r.label@ == fields@[k]@
                    &&& !r.expandable
                },
    {
        let ghost n0 = rows@.len();
        let mut k: usize = 0;
        while k < fields.len()
            invariant
                k <= fields@.len(),
                rows@.len() == n0 + k,
                forall|i: int| 0 <= i < n0 ==> rows@[i] == old(rows)@[i],
                spec_row_paths(rows@) == spec_row_paths(old(rows)@) + spec_flat_fields(
                    fields@.len() as int,
                    f,
                    l,
                    0,
                ).take(k as int),
                forall|i: int|
                    n0 <= i < rows@.len() ==> {
                        let r = #[trigger] rows@[i];
                        let kk = i - n0;
                        &&& r.path@ == seq![f, l, kk as usize]
                        &&& r.depth == 2
                        &&& r.label@ == fields@[kk]@
                        &&& !r.expandable
                    },
            decreases fields@.len() - k,
        {
            let ghost rows_before = rows@;
            let mut path: Vec<usize> = Vec::new();
            path.push(f);
            path.push(l);
            path.push(k);
            assert(path@ =~= seq![f, l, k]);
            let row = FlatRow {
                depth: 2,
                path,
                label: fields[k].clone(),
                expandable: false,
            };
            rows.push(row);
            proof {
                lemma_flat_fields_take(fields@.len() as int, f, l, k as int);
                assert(spec_row_paths(rows@) =~= spec_row_paths(rows_before).push(
                    seq![f, l, k as usize],
                ));
                assert(spec_row_paths(rows_before).push(seq![f, l, k as usize]) =~= spec_row_paths(
                    old(rows)@,
                ) + spec_flat_fields(fields@.len() as int, f, l, 0).take(k + 1));
            }
            k = k + 1;
        }
        proof {
            assert(spec_flat_fields(fields@.len() as int, f, l, 0).take(
                spec_flat_fields(fields@.len() as int, f, l, 0).len() as int,
            ) =~= spec_flat_fields(fields@.len() as int, f, l, 0));
            lemma_flat_fields_len(fields@.len() as int, f, l, 0);
            assert(k == fields@.len());
        }
    }
}

/// The field-row list from `k` on has one row per remaining field.
proof fn lemma_flat_fields_len(nfields: int, f: usize, l: usize, k: int)
    requires
        0 <= k,
    ensures
        spec_flat_fields(nfields, f, l, k).len() == if k < nfields {
            nfields - k
        } else {
            0
        },
    decreases nfields - k,
{
    if k < nfields {
        lemma_flat_fields_len(nfields, f, l, k + 1);
    }
}

/// The first `k + 1` field rows are the first `k` plus row `k`.
proof fn lemma_flat_fields_take(nfields: int, f: usize, l: usize, k: int)
    requires
        0 <= k < nfields,
        nfields <= usize::MAX,
    ensures
        spec_flat_fields(nfields, f, l, 0).take(k + 1) == spec_flat_fields(
            nfields,
            f,
            l,
            0,
        ).take(k).push(seq![f, l, k as usize]),
{
    lemma_flat_fields_index(nfields, f, l, 0, k);
    lemma_flat_fields_len(nfields, f, l, 0);
    assert(spec_flat_fields(nfields, f, l, 0).take(k + 1) =~= spec_flat_fields(
        nfields,
        f,
        l,
        0,
    ).take(k).push(seq![f, l, k as usize]));
}

/// Field row `i - k` of the list from `k` on is the path ending in `i`.
proof fn lemma_flat_fields_index(nfields: int, f: usize, l: usize, k: int, i: int)
    requires
        0 <= k <= i < nfields,
        nfields <= usize::MAX,
    ensures
        spec_flat_fields(nfields, f, l, k)[i - k] == seq![f, l, i as usize],
    decreases i - k,
{
    let s = spec_flat_fields(nfields, f, l, k);
    assert(s == seq![seq![f, l, k as usize]] + spec_flat_fields(nfields, f, l, k + 1));
    if k < i {
        lemma_flat_fields_index(nfields, f, l, k + 1, i);
        lemma_flat_fields_len(nfields, f, l, k + 1);
        assert(s[i - k] == spec_flat_fields(nfields, f, l, k + 1)[i - k - 1]);
    } else {
        assert(s[0] == seq![f, l, k as usize]);
    }
}


/// Removes every copy of `p` from the open set, keeping everything else.
fn remove_path(open_set: &Vec<Vec<usize>>, p: &Vec<usize>) -> (r: Vec<Vec<usize>>)
    ensures
        forall|q: Seq<usize>| #[trigger]
            path_in(r@, q) <==> (path_in(open_set@, q) && q != p@),
{
    let mut kept: Vec<Vec<usize>> = Vec::new();
    let mut i: usize = 0;
    while i < open_set.len()
        invariant
            i <= open_set@.len(),
            forall|j: int|
                0 <= j < kept@.len() ==> (#[trigger] kept@[j])@ != p@ && path_in(
                    open_set@,
                    kept@[j]@,
                ),
            forall|k: int|
                0 <= k < i ==> (#[trigger] open_set@[k])@ == p@ || path_in(
                    kept@,
                    open_set@[k]@,
                ),
        decreases open_set@.len() - i,
    {
        let ghost kept_before = kept@;
        if !paths_equal(&open_set[i], p) {
            kept.push(clone_path(&open_set[i]));
            proof {
                assert(kept@.last()@ == open_set@[i as int]@);
                assert forall|k: int| 0 <= k < i + 1 implies (#[trigger] open_set@[k])@ == p@
                    || path_in(kept@, open_set@[k]@) by {
                    if k < i {
                        if open_set@[k]@ != p@ {
                            let j = choose|j: int|
                                0 <= j < kept_before.len() && kept_before[j]@ == open_set@[k]@;
                            assert(kept@[j]@ == open_set@[k]@);
                        }
                    } else {
                        assert(kept@[kept@.len() - 1]@ == open_set@[k]@);
                    }
                }
            }
        }
        i = i + 1;
    }
    proof {
        assert forall|q: Seq<usize>| #[trigger]
            path_in(kept@, q) implies (path_in(open_set@, q) && q != p@) by {
            let j = choose|j: int| 0 <= j < kept@.len() && kept@[j]@ == q;
            assert(kept@[j]@ != p@);
        }
        assert forall|q: Seq<usize>| path_in(open_set@, q) && q != p@ implies #[trigger]
            path_in(kept@, q) by {
            let k = choose|k: int| 0 <= k < open_set@.len() && open_set@[k]@ == q;
            assert(open_set@[k]@ != p@);
            assert(path_in(kept@, open_set@[k]@));
        }
    }
    kept
}

/// Appends the layer rows of frame `f`, each followed by its field rows
/// when it is open.
fn flatten_layers(
    items: &Vec<PacketTreeItem>,
    open_set: &Vec<Vec<usize>>,
    rows: &mut Vec<FlatRow>,
    f: usize,
)
    requires
        f < items@.len(),
    ensures
        spec_row_paths(final(rows)@) == spec_row_paths(old(rows)@) + spec_flat_layers(
            items@,
            open_set@,
            f,
            0,
        ),
        forall|i: int| 0 <= i < old(rows)@.len() ==> final(rows)@[i] == old(rows)@[i],
        old(rows)@.len() <= final(rows)@.len(),
        forall|i: int|
            old(rows)@.len() <= i < final(rows)@.len() ==> spec_row_ok(
                items@,
                #[trigger] final(rows)@[i],
            ),
{
    let ghost n0 = rows@.len();
    let ghost items_v = items@;
    let ghost open_v = open_set@;
    let nlayers = items[f].layers.len();
    let mut l: usize = 0;
    proof {
        assert(spec_row_paths(rows@) + spec_flat_layers(items_v, open_v, f, 0) =~= spec_row_paths(
            old(rows)@,
        ) + spec_flat_layers(items_v, open_v, f, 0));
    }
    while l < nlayers
        invariant
            l <= nlayers,
            f < items_v.len(),
            items_v == items@,
            open_v == open_set@,
            nlayers == items_v[f as int].layers@.len(),
            n0 <= rows@.len(),
            forall|i: int| 0 <= i < n0 ==> rows@[i] == old(rows)@[i],
            forall|i: int|
                n0 <= i < rows@.len() ==> spec_row_ok(items_v, #[trigger] rows@[i]),
            spec_row_paths(rows@) + spec_flat_layers(items_v, open_v, f, l as int)
                == spec_row_paths(old(rows)@) + spec_flat_layers(items_v, open_v, f, 0),
        decreases nlayers - l,
    {
        let ghost rows_before = rows@;
        let mut path: Vec<usize> = Vec::new();
        path.push(f);
        path.push(l);
        assert(path@ =~= seq![f, l]);
        let nfields = items[f].layers[l].fields.len();
        let row = FlatRow {
            depth: 1,
            path,
            label: items[f].layers[l].label.clone(),
            expandable: nfields > 0,
        };
        rows.push(row);
        proof {
            assert(spec_row_paths(rows@) =~= spec_row_paths(rows_before).push(seq![f, l]));
        }
        let mut open_probe: Vec<usize> = Vec::new();
        open_probe.push(f);
        open_probe.push(l);
        assert(open_probe@ =~= seq![f, l]);
        let ghost rows_mid = rows@;
        let is_open = contains_path(open_set, &open_probe);
        if is_open {
            StatefulTree::flatten_fields(rows, &items[f].layers[l].fields, f, l);
        }
        proof {
            let mid = if path_in(open_v, seq![f, l]) {
                spec_flat_fields(items_v[f as int].layers@[l as int].fields@.len() as int, f, l, 0)
            } else {
                Seq::<Seq<usize>>::empty()
            };
            assert(spec_row_paths(rows@) =~= spec_row_paths(rows_mid) + mid);
            assert(spec_flat_layers(items_v, open_v, f, l as int) =~= (seq![seq![f, l]] + mid)
                + spec_flat_layers(items_v, open_v, f, l + 1));
            assert(spec_row_paths(rows@) + spec_flat_layers(items_v, open_v, f, l + 1)
                =~= spec_row_paths(rows_before) + spec_flat_layers(items_v, open_v, f, l as int));
            assert forall|i: int|
                n0 <= i < rows@.len() implies spec_row_ok(items_v, #[trigger] rows@[i]) by {
                if i < rows_before.len() {
                } else if i == rows_before.len() {
                    assert(rows@[i].path@ == seq![f, l]);
                } else {
                    assert(rows@[i].path@ == seq![
                        f,
                        l,
                        (i - rows_mid.len()) as usize,
                    ]);
                }
            }
        }
        l = l + 1;
    }
    proof {
        assert(spec_flat_layers(items_v, open_v, f, nlayers as int) =~= Seq::<Seq<usize>>::empty());
        assert(spec_row_paths(rows@) + Seq::<Seq<usize>>::empty() =~= spec_row_paths(rows@));
    }
}


impl StatefulTree {
    /// The flattened view: the visible rows, in depth-first pre-order. A
    /// node's children are included exactly when its path is open.
    /// Recomputed on demand; nothing here is cached.
    pub fn flatten(&self) -> (rows: Vec<FlatRow>)
        ensures
            spec_row_paths(rows@) == spec_flat_paths(self.items@, self.open_set@),
            forall|i: int| 0 <= i < rows@.len() ==> spec_row_ok(self.items@, #[trigger] rows@[i]),
    {
        let ghost items_v = self.items@;
        let ghost open_v = self.open_set@;
        let mut rows: Vec<FlatRow> = Vec::new();
        let nframes = self.items.len();
        let mut f: usize = 0;
        proof {
            assert(spec_row_paths(rows@) =~= Seq::<Seq<usize>>::empty());
            assert(spec_row_paths(rows@) + spec_flat_frames(items_v, open_v, 0) =~= spec_flat_paths(
                items_v,
                open_v,
            ));
        }
        while f < nframes
            invariant
                f <= nframes,
                nframes == items_v.len(),
                items_v == self.items@,
                open_v == self.open_set@,
                forall|i: int| 0 <= i < rows@.len() ==> spec_row_ok(items_v, #[trigger] rows@[i]),
                spec_row_paths(rows@) + spec_flat_frames(items_v, open_v, f as int)
                    == spec_flat_paths(items_v, open_v),
            decreases nframes - f,
        {
            let ghost rows_before = rows@;
            let mut path: Vec<usize> = Vec::new();
            path.push(f);
            assert(path@ =~= seq![f]);
            let row = FlatRow {
                depth: 0,
                path,
                label: self.items[f].label.clone(),
                expandable: self.items[f].layers.len() > 0,
            };
            rows.push(row);
            proof {
                assert(spec_row_paths(rows@) =~= spec_row_paths(rows_before).push(seq![f]));
            }
            let mut open_probe: Vec<usize> = Vec::new();
            open_probe.push(f);
            assert(open_probe@ =~= seq![f]);
            let ghost rows_mid = rows@;
            let is_open = contains_path(&self.open_set, &open_probe);
            if is_open {
                flatten_layers(&self.items, &self.open_set, &mut rows, f);
            }
            proof {
                let mid = if path_in(open_v, seq![f]) {
                    spec_flat_layers(items_v, open_v, f, 0)
                } else {
                    Seq::<Seq<usize>>::empty()
                };
                assert(spec_row_paths(rows@) =~= spec_row_paths(rows_mid) + mid);
                assert(spec_flat_frames(items_v, open_v, f as int) =~= (seq![seq![f]] + mid)
                    + spec_flat_frames(items_v, open_v, f + 1));
                assert(spec_row_paths(rows@) + spec_flat_frames(items_v, open_v, f + 1)
                    =~= spec_row_paths(rows_before) + spec_flat_frames(items_v, open_v, f as int));
                assert forall|i: int|
                    0 <= i < rows@.len() implies spec_row_ok(items_v, #[trigger] rows@[i]) by {
                    if i == rows_before.len() {
                        assert(rows@[i].path@ == seq![f]);
                    }
                }
            }
            f = f + 1;
        }
        proof {
            assert(spec_flat_frames(items_v, open_v, nframes as int) =~= Seq::<
                Seq<usize>,
            >::empty());
            assert(spec_row_paths(rows@) + Seq::<Seq<usize>>::empty() =~= spec_row_paths(rows@));
        }
        rows
    }


    /// Decides the navigation invariant at run time: whether the selected
    /// path (if any) addresses a visible row.
    pub fn check_wf(&self) -> (r: bool)
        ensures
            r == self.wf(),
    {
        let n = self.selected_path.len();
        if n == 0 {
            return true;
        }
        let p0 = self.selected_path[0];
        if n == 1 {
            return p0 < self.items.len();
        }
        if p0 >= self.items.len() {
            return false;
        }
        let mut probe0: Vec<usize> = Vec::new();
        probe0.push(p0);
        assert(probe0@ =~= seq![p0]);
        if !contains_path(&self.open_set, &probe0) {
            return false;
        }
        let p1 = self.selected_path[1];
        if n == 2 {
            return p1 < self.items[p0].layers.len();
        }
        if p1 >= self.items[p0].layers.len() {
            return false;
        }
        if n > 3 {
            return false;
        }
        let mut probe1: Vec<usize> = Vec::new();
        probe1.push(p0);
        probe1.push(p1);
        assert(probe1@ =~= seq![p0, p1]);
        if !contains_path(&self.open_set, &probe1) {
            return false;
        }
        let p2 = self.selected_path[2];
        p2 < self.items[p0].layers[p1].fields.len()
    }

    /// Moves the selection to the next row of the flattened view; selects
    /// the first row when nothing is selected; no-op on the last row.
    pub fn down(&mut self)
        requires
            old(self).wf(),
        ensures
            final(self).wf(),
            final(self).items@ == old(self).items@,
            final(self).open_set@ == old(self).open_set@,
            ({
                let fl = spec_flat_paths(old(self).items@, old(self).open_set@);
                if old(self).selected_path@.len() == 0 {
                    &&& (fl.len() > 0 ==> final(self).selected_path@ == fl[0])
                    &&& (fl.len() == 0 ==> final(self).selected_path@ == old(self).selected_path@)
                } else {
                    exists|i: int|
                        #![trigger fl[i]]
                        0 <= i < fl.len() && fl[i] == old(self).selected_path@ && (forall|j: int|
                            0 <= j < i ==> fl[j] != old(self).selected_path@) && final(self).selected_path@ == if i + 1 < fl.len() {
                            fl[i + 1]
                        } else {
                            fl[i]
                        }
                }
            }),
    {
        let ghost fl = spec_flat_paths(self.items@, self.open_set@);
        let rows = self.flatten();
        if self.selected_path.len() == 0 {
            if rows.len() > 0 {
                self.selected_path = clone_path(&rows[0].path);
                proof {
                    assert(self.items@.len() == self.items.len());
                    assert(fl[0] == rows@[0].path@);
                    assert(fl.contains(self.selected_path@));
                    lemma_flat_contains(self.items@, self.open_set@, self.selected_path@);
                }
            }
        } else {
            match find_path(&rows, &self.selected_path) {
                Some(i) => {
                    let ghost i_v = i as int;
                    proof {
                        assert(fl[i_v] == rows@[i_v].path@);
                        assert forall|j: int| 0 <= j < i_v implies fl[j] != old(self).selected_path@ by {
                            assert(fl[j] == rows@[j].path@);
                        }
                    }
                    proof {
                        assert(rows@.len() == rows.len());
                    }
                    if i + 1 < rows.len() {
                        self.selected_path = clone_path(&rows[i + 1].path);
                        proof {
                            assert(self.items@.len() == self.items.len());
                            assert(fl[i_v + 1] == rows@[i_v + 1].path@);
                            assert(fl.contains(self.selected_path@));
                            lemma_flat_contains(self.items@, self.open_set@, self.selected_path@);
                        }
                    }
                },
                None => {
                    proof {
                        assert(self.items@.len() == self.items.len());
                        lemma_flat_contains(self.items@, self.open_set@, self.selected_path@);
                        let j = choose|j: int| 0 <= j < fl.len() && fl[j] == self.selected_path@;
                        assert(rows@[j].path@ == self.selected_path@);
                        assert(false);
                    }
                },
            }
        }
    }

    /// Moves the selection to the previous row of the flattened view;
    /// no-op on the first row or when nothing is selected.
    pub fn up(&mut self)
        requires
            old(self).wf(),
        ensures
            final(self).wf(),
            final(self).items@ == old(self).items@,
            final(self).open_set@ == old(self).open_set@,
            ({
                let fl = spec_flat_paths(old(self).items@, old(self).open_set@);
                if old(self).selected_path@.len() == 0 {
                    final(self).selected_path@ == old(self).selected_path@
                } else {
                    exists|i: int|
                        #![trigger fl[i]]
                        0 <= i < fl.len() && fl[i] == old(self).selected_path@ && (forall|j: int|
                            0 <= j < i ==> fl[j] != old(self).selected_path@) && final(self).selected_path@ == if i > 0 {
                            fl[i - 1]
                        } else {
                            fl[i]
                        }
                }
            }),
    {
        let ghost fl = spec_flat_paths(self.items@, self.open_set@);
        let rows = self.flatten();
        if self.selected_path.len() == 0 {
            return ;
        }
        match find_path(&rows, &self.selected_path) {
            Some(i) => {
                let ghost i_v = i as int;
                proof {
                    assert(fl[i_v] == rows@[i_v].path@);
                    assert forall|j: int| 0 <= j < i_v implies fl[j] != old(self).selected_path@ by {
                        assert(fl[j] == rows@[j].path@);
                    }
                }
                if i > 0 {
                    self.selected_path = clone_path(&rows[i - 1].path);
                    proof {
                        assert(self.items@.len() == self.items.len());
                        assert(fl[i_v - 1] == rows@[i_v - 1].path@);
                        assert(fl.contains(self.selected_path@));
                        lemma_flat_contains(self.items@, self.open_set@, self.selected_path@);
                    }
                }
            },
            None => {
                proof {
                    assert(self.items@.len() == self.items.len());
                    lemma_flat_contains(self.items@, self.open_set@, self.selected_path@);
                    let j = choose|j: int| 0 <= j < fl.len() && fl[j] == self.selected_path@;
                    assert(rows@[j].path@ == self.selected_path@);
                    assert(false);
                }
            },
        }
    }

    /// Opens the selected node if it is expandable and closed (selection
    /// stays); moves to its first child if it is already open; selects the
    /// first row when nothing is selected; no-op on a leaf.
    pub fn right(&mut self)
        requires
            old(self).wf(),
        ensures
            final(self).wf(),
            final(self).items@ == old(self).items@,
            ({
                let fl = spec_flat_paths(old(self).items@, old(self).open_set@);
                if old(self).selected_path@.len() == 0 {
                    &&& final(self).open_set@ == old(self).open_set@
                    &&& (fl.len() > 0 ==> final(self).selected_path@ == fl[0])
                    &&& (fl.len() == 0 ==> final(self).selected_path@ == old(self).selected_path@)
                } else if !spec_expandable(old(self).items@, old(self).selected_path@) {
                    &&& final(self).open_set@ == old(self).open_set@
                    &&& final(self).selected_path@ == old(self).selected_path@
                } else if !path_in(old(self).open_set@, old(self).selected_path@) {
                    &&& final(self).selected_path@ == old(self).selected_path@
                    &&& forall|q: Seq<usize>| #[trigger]
                        path_in(final(self).open_set@, q) <==> (path_in(old(self).open_set@, q)
                            || q == old(self).selected_path@)
                } else {
                    &&& final(self).open_set@ == old(self).open_set@
                    &&& final(self).selected_path@ == old(self).selected_path@.push(0)
                }
            }),
    {
        if self.selected_path.len() == 0 {
            let ghost fl = spec_flat_paths(self.items@, self.open_set@);
            let rows = self.flatten();
            if rows.len() > 0 {
                self.selected_path = clone_path(&rows[0].path);
                proof {
                    assert(self.items@.len() == self.items.len());
                    assert(fl[0] == rows@[0].path@);
                    assert(fl.contains(self.selected_path@));
                    lemma_flat_contains(self.items@, self.open_set@, self.selected_path@);
                }
            }
            return ;
        }

        let p0 = self.selected_path[0];
        let expandable = if self.selected_path.len() == 1 {
            self.items[p0].layers.len() > 0
        } else if self.selected_path.len() == 2 {
            let p1 = self.selected_path[1];
            self.items[p0].layers[p1].fields.len() > 0
        } else {
            false
        };
        if !expandable {
            return ;
        }

        if !contains_path(&self.open_set, &self.selected_path) {
            let ghost open_before = self.open_set@;
            let cp = clone_path(&self.selected_path);
            self.open_set.push(cp);
            proof {
                assert forall|q: Seq<usize>| #[trigger]
                    path_in(self.open_set@, q) <==> (path_in(open_before, q) || q
                        == self.selected_path@) by {
                    if path_in(self.open_set@, q) {
                        let k = choose|k: int|
                            0 <= k < self.open_set@.len() && self.open_set@[k]@ == q;
                        if k < open_before.len() {
                            assert(open_before[k]@ == q);
                        }
                    }
                    if path_in(open_before, q) {
                        let k = choose|k: int| 0 <= k < open_before.len() && open_before[k]@ == q;
                        assert(self.open_set@[k]@ == q);
                    }
                    if q == self.selected_path@ {
                        assert(self.open_set@[self.open_set@.len() - 1]@ == q);
                    }
                }
            }
        } else {
            self.selected_path.push(0);
            proof {
                let p = self.selected_path@;
                let old_p = old(self).selected_path@;
                assert(p == old_p.push(0));
                assert(p[0] == old_p[0]);
                if old_p.len() == 1 {
                    assert(seq![p[0]] =~= old_p);
                    assert(p[1] == 0usize);
                } else {
                    assert(old_p.len() == 2);
                    assert(p[1] == old_p[1]);
                    assert(seq![p[0]] =~= seq![old_p[0]]);
                    assert(seq![p[0], p[1]] =~= old_p);
                    assert(p[2] == 0usize);
                }
            }
        }
    }

    /// Closes the selected node if it is open (selection stays); otherwise
    /// moves the selection to its parent; no-op on a top-level closed row
    /// or when nothing is selected.
    pub fn left(&mut self)
        requires
            old(self).wf(),
        ensures
            final(self).wf(),
            final(self).items@ == old(self).items@,
            ({
                if old(self).selected_path@.len() == 0 {
                    &&& final(self).open_set@ == old(self).open_set@
                    &&& final(self).selected_path@ == old(self).selected_path@
                } else if path_in(old(self).open_set@, old(self).selected_path@) {
                    &&& final(self).selected_path@ == old(self).selected_path@
                    &&& forall|q: Seq<usize>| #[trigger]
                        path_in(final(self).open_set@, q) <==> (path_in(old(self).open_set@, q)
                            && q != old(self).selected_path@)
                } else if old(self).selected_path@.len() >= 2 {
                    &&& final(self).open_set@ == old(self).open_set@
                    &&& final(self).selected_path@ == old(self).selected_path@.drop_last()
                } else {
                    &&& final(self).open_set@ == old(self).open_set@
                    &&& final(self).selected_path@ == old(self).selected_path@
                }
            }),
    {
        if self.selected_path.len() == 0 {
            return ;
        }
        if contains_path(&self.open_set, &self.selected_path) {
            let kept = remove_path(&self.open_set, &self.selected_path);
            self.open_set = kept;
            proof {
                let p = self.selected_path@;
                let open_new = self.open_set@;
                let open_old = old(self).open_set@;
                if p.len() == 2 {
                    assert(seq![p[0]].len() != p.len());
                    assert(path_in(open_new, seq![p[0]]));
                } else if p.len() == 3 {
                    assert(path_in(open_new, seq![p[0]]));
                    assert(path_in(open_new, seq![p[0], p[1]]));
                }
            }
        } else if self.selected_path.len() >= 2 {
            let _ = self.selected_path.pop();
            proof {
                let p = self.selected_path@;
                let old_p = old(self).selected_path@;
                assert(p == old_p.drop_last());
                assert(p.len() == old_p.len() - 1);
                assert(p[0] == old_p[0]);
                if p.len() == 2 {
                    assert(p[1] == old_p[1]);
                    assert(seq![p[0]] =~= seq![old_p[0]]);
                }
            }
        }
    }
}

/// The navigation-consistency law: in any well-formed state with a
/// selection, the selected path is one of the rows of the flattened view
/// computed from the current items and open set. Every movement operation
/// preserves well-formedness, so this holds after any sequence of them.
pub proof fn lemma_navigation_consistency(t: &StatefulTree)
    requires
        t.wf(),
        t.selected_path@.len() > 0,
    ensures
        spec_flat_paths(t.items@, t.open_set@).contains(t.selected_path@),
{
    assert(t.items@.len() == t.items.len());
    lemma_flat_contains(t.items@, t.open_set@, t.selected_path@);
}

} // verus!
