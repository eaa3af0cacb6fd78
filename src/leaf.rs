//! A page read as a leaf node: a header, then an array of (key, row) cells.
use vstd::prelude::*;
use crate::layout::{
    le_u32, lemma_le_u32_round_trip, read_u32, splice, u32_le, write_u32, LEAF_NODE_CELL_SIZE,
    LEAF_NODE_HEADER_SIZE, LEAF_NODE_KEY_SIZE, LEAF_NODE_MAX_CELLS, LEAF_NODE_NUM_CELLS_OFFSET,
    LEAF_NODE_NUM_CELLS_SIZE, LEAF_NODE_VALUE_OFFSET, PAGE_SIZE, ROW_SIZE,
};
use crate::row::{lemma_row_round_trip, row_bytes, row_of_bytes, Row, RowView};

verus! {

/// Where cell `i` starts in a leaf page.
pub open spec fn cell_start(i: int) -> int {
    LEAF_NODE_HEADER_SIZE + i * LEAF_NODE_CELL_SIZE
}

/// The cell counter stored in a leaf header.
pub open spec fn num_cells_of(node: Seq<u8>) -> nat {
    le_u32(
        node.subrange(
            LEAF_NODE_NUM_CELLS_OFFSET as int,
            LEAF_NODE_NUM_CELLS_OFFSET + LEAF_NODE_NUM_CELLS_SIZE,
        ),
    ) as nat
}

/// The bytes of cell `i`.
pub open spec fn cell_of(node: Seq<u8>, i: int) -> Seq<u8> {
    node.subrange(cell_start(i), cell_start(i + 1))
}

/// The encoding of one cell: the key, then the row.
pub open spec fn cell_bytes(key: u32, r: RowView) -> Seq<u8> {
    u32_le(key) + row_bytes(r)
}

/// A full page whose cell counter is within the capacity of a leaf.
pub open spec fn leaf_wf(node: Seq<u8>) -> bool {
    &&& node.len() == PAGE_SIZE
    &&& num_cells_of(node) <= LEAF_NODE_MAX_CELLS
}

/// The valid cells of a leaf, in slot order.
pub open spec fn leaf_cells(node: Seq<u8>) -> Seq<Seq<u8>> {
    Seq::new(num_cells_of(node), |i: int| cell_of(node, i))
}

/// The rows held in the valid cells of a leaf, in slot order.
pub open spec fn leaf_rows(node: Seq<u8>) -> Seq<RowView> {
    Seq::new(num_cells_of(node), |i: int| row_of_bytes(cell_of(node, i).skip(LEAF_NODE_KEY_SIZE as int)))
}

/// A leaf with cells `c..n` moved one slot right, the cell (`key`, `r`)
/// written into slot `c`, and the counter raised to `n + 1`.
pub open spec fn leaf_inserted(node: Seq<u8>, c: int, key: u32, r: RowView) -> Seq<u8> {
    let n = num_cells_of(node) as int;
    let moved = splice(node, cell_start(c + 1), node.subrange(cell_start(c), cell_start(n)));
    let placed = splice(moved, cell_start(c), cell_bytes(key, r));
    splice(placed, LEAF_NODE_NUM_CELLS_OFFSET as int, u32_le((n + 1) as u32))
}

/// The capacity of a leaf, and the end of its last slot.
pub proof fn lemma_leaf_capacity()
    ensures
        LEAF_NODE_MAX_CELLS == 13,
        LEAF_NODE_CELL_SIZE == 295,
        LEAF_NODE_HEADER_SIZE == 10,
        forall|i: int| #[trigger] cell_start(i) == 10 + 295 * i,
        cell_start(LEAF_NODE_MAX_CELLS as int) <= PAGE_SIZE,
        cell_start(LEAF_NODE_MAX_CELLS as int + 1) > PAGE_SIZE,
{
    assert(LEAF_NODE_MAX_CELLS == 13) by (nonlinear_arith);
}

/// Byte `k` of a splice comes from `b` inside the replaced range and from `s` elsewhere.
pub proof fn lemma_splice_index(s: Seq<u8>, at: int, b: Seq<u8>)
    requires
        0 <= at,
        at + b.len() <= s.len(),
    ensures
        splice(s, at, b).len() == s.len(),
        forall|k: int|
            0 <= k < s.len() ==> #[trigger] splice(s, at, b)[k] == if k < at {
                s[k]
            } else if k < at + b.len() {
                b[k - at]
            } else {
                s[k]
            },
{
}

/// Inserting a cell into a leaf with room puts it into the cell sequence at
/// its slot, and its row into the row sequence there.
pub proof fn lemma_leaf_inserted(node: Seq<u8>, c: int, key: u32, r: RowView)
    requires
        leaf_wf(node),
        num_cells_of(node) < LEAF_NODE_MAX_CELLS,
        0 <= c <= num_cells_of(node),
        r.wf(),
    ensures
        leaf_wf(leaf_inserted(node, c, key, r)),
        num_cells_of(leaf_inserted(node, c, key, r)) == num_cells_of(node) + 1,
        leaf_cells(leaf_inserted(node, c, key, r)) == leaf_cells(node).insert(c, cell_bytes(key, r)),
        leaf_rows(leaf_inserted(node, c, key, r)) == leaf_rows(node).insert(c, r),
{
    let n = num_cells_of(node) as int;
    let moved = splice(node, cell_start(c + 1), node.subrange(cell_start(c), cell_start(n)));
    let placed = splice(moved, cell_start(c), cell_bytes(key, r));
    let res = leaf_inserted(node, c, key, r);
    lemma_leaf_capacity();
    lemma_row_round_trip(r);
    lemma_le_u32_round_trip((n + 1) as u32);
    lemma_le_u32_round_trip(key);
    lemma_splice_index(node, cell_start(c + 1), node.subrange(cell_start(c), cell_start(n)));
    lemma_splice_index(moved, cell_start(c), cell_bytes(key, r));
    lemma_splice_index(placed, LEAF_NODE_NUM_CELLS_OFFSET as int, u32_le((n + 1) as u32));
    assert(res.subrange(6, 10) =~= u32_le((n + 1) as u32));
    assert(num_cells_of(res) == n + 1);
    assert forall|j: int| 0 <= j < n + 1 implies #[trigger] cell_of(res, j) == leaf_cells(node).insert(
        c,
        cell_bytes(key, r),
    )[j] by {
        if j < c {
            assert(cell_of(res, j) =~= cell_of(node, j));
        } else if j == c {
            assert(cell_of(res, j) =~= cell_bytes(key, r));
        } else {
            assert(cell_of(res, j) =~= cell_of(node, j - 1));
        }
    }
    assert(leaf_cells(res) =~= leaf_cells(node).insert(c, cell_bytes(key, r)));
    assert forall|j: int| 0 <= j < n + 1 implies #[trigger] leaf_rows(res)[j] == leaf_rows(node).insert(c, r)[j] by {
        assert(leaf_rows(res)[j] == row_of_bytes(leaf_cells(res)[j].skip(4)));
        if j == c {
            assert(cell_bytes(key, r).skip(4) =~= row_bytes(r));
        } else if j < c {
            assert(leaf_cells(res)[j] == leaf_cells(node)[j]);
        } else {
            assert(leaf_cells(res)[j] == leaf_cells(node)[j - 1]);
        }
    }
    assert(leaf_rows(res) =~= leaf_rows(node).insert(c, r));
}

/// Reads the cell counter of a leaf.
pub fn leaf_node_num_cells(node: &[u8]) -> (r: u32)
    requires
        LEAF_NODE_HEADER_SIZE <= node@.len(),
    ensures
        r == num_cells_of(node@),
{
    read_u32(node, LEAF_NODE_NUM_CELLS_OFFSET)
}

/// Writes the cell counter of a leaf.
pub fn leaf_node_set_num_cells(node: &mut Vec<u8>, num_cells: u32)
    requires
        LEAF_NODE_HEADER_SIZE <= old(node)@.len(),
    ensures
        final(node)@ == splice(old(node)@, LEAF_NODE_NUM_CELLS_OFFSET as int, u32_le(num_cells)),
        num_cells_of(final(node)@) == num_cells,
{
    write_u32(node, LEAF_NODE_NUM_CELLS_OFFSET, num_cells);
    proof {
        lemma_le_u32_round_trip(num_cells);
        assert(final(node)@.subrange(6, 10) =~= u32_le(num_cells));
    }
}

/// The byte range `(start, end)` of cell `cell_num`.
pub fn leaf_node_cell(node: &[u8], cell_num: u32) -> (r: (usize, usize))
    requires
        cell_start(cell_num + 1) <= node@.len(),
    ensures
        r.0 == cell_start(cell_num as int),
        r.1 == cell_start(cell_num + 1),
        cell_of(node@, cell_num as int) == node@.subrange(r.0 as int, r.1 as int),
{
    proof {
        lemma_leaf_capacity();
    }
    let len = node.len();
    assert(cell_start(cell_num + 1) <= len);
    let start = LEAF_NODE_HEADER_SIZE + cell_num as usize * LEAF_NODE_CELL_SIZE;
    (start, start + LEAF_NODE_CELL_SIZE)
}

/// Copies `v[from..from + len]` onto `v[to..to + len]`, as a block move: the
/// source is read as it was before the copy, also where the ranges overlap.
pub fn copy_within_a_slice(v: &mut Vec<u8>, from: usize, to: usize, len: usize)
    requires
        from + len <= old(v)@.len(),
        to + len <= old(v)@.len(),
    ensures
        final(v)@ == splice(old(v)@, to as int, old(v)@.subrange(from as int, from + len)),
{
    let ghost src = old(v)@;
    let total = v.len();
    if from > to {
        let mut i: usize = 0;
        while i < len
            invariant
                from > to,
                i <= len,
                from + len <= total,
                to + len <= total,
                v@.len() == total,
                src.len() == total,
                forall|k: int| to <= k < to + i ==> #[trigger] v@[k] == src[k - to + from],
                forall|k: int| 0 <= k < total && !(to <= k < to + i) ==> v@[k] == src[k],
            decreases len - i,
        {
            let b = v[from + i];
            v[to + i] = b;
            i = i + 1;
        }
    } else {
        let mut i: usize = len;
        while i > 0
            invariant
                from <= to,
                i <= len,
                from + len <= total,
                to + len <= total,
                v@.len() == total,
                src.len() == total,
                forall|k: int| to + i <= k < to + len ==> #[trigger] v@[k] == src[k - to + from],
                forall|k: int| 0 <= k < total && !(to + i <= k < to + len) ==> v@[k] == src[k],
            decreases i,
        {
            let b = v[from + i - 1];
            v[to + i - 1] = b;
            i = i - 1;
        }
    }
    assert(v@ =~= splice(src, to as int, src.subrange(from as int, from + len)));
}

/// Copies cell `cell_num - 1` into the slot of cell `cell_num`.
pub fn shift_cell_right(node: &mut Vec<u8>, cell_num: u32)
    requires
        1 <= cell_num,
        cell_start(cell_num + 1) <= old(node)@.len(),
    ensures
        final(node)@ == splice(
            old(node)@,
            cell_start(cell_num as int),
            old(node)@.subrange(cell_start(cell_num - 1), cell_start(cell_num as int)),
        ),
{
    proof {
        lemma_leaf_capacity();
    }
    let len = node.len();
    assert(cell_start(cell_num + 1) <= len);
    let start1 = LEAF_NODE_HEADER_SIZE + cell_num as usize * LEAF_NODE_CELL_SIZE;
    let start2 = LEAF_NODE_HEADER_SIZE + (cell_num - 1) as usize * LEAF_NODE_CELL_SIZE;
    copy_within_a_slice(node, start2, start1, LEAF_NODE_CELL_SIZE);
}

/// Reads the key of cell `cell_num`.
pub fn leaf_node_key(node: &[u8], cell_num: u32) -> (r: u32)
    requires
        cell_start(cell_num + 1) <= node@.len(),
    ensures
        r == le_u32(cell_of(node@, cell_num as int)),
{
    proof {
        lemma_leaf_capacity();
    }
    let (start, _end) = leaf_node_cell(node, cell_num);
    let r = read_u32(node, start);
    assert(node@.subrange(start as int, start + 4) =~= cell_of(node@, cell_num as int).subrange(0, 4));
    r
}

/// Writes the key of cell `cell_num`.
pub fn leaf_node_set_key(node: &mut Vec<u8>, cell_num: u32, key: u32)
    requires
        cell_start(cell_num + 1) <= old(node)@.len(),
    ensures
        final(node)@ == splice(old(node)@, cell_start(cell_num as int), u32_le(key)),
{
    proof {
        lemma_leaf_capacity();
    }
    let (start, _end) = leaf_node_cell(node.as_slice(), cell_num);
    write_u32(node, start, key);
}

/// The byte range `(start, end)` of the row held in cell `cell_num`.
pub fn leaf_node_value(node: &[u8], cell_num: u32) -> (r: (usize, usize))
    requires
        cell_start(cell_num + 1) <= node@.len(),
    ensures
        r.0 == cell_start(cell_num as int) + LEAF_NODE_VALUE_OFFSET,
        r.1 == cell_start(cell_num + 1),
        r.1 - r.0 == ROW_SIZE,
{
    proof {
        lemma_leaf_capacity();
    }
    let (start, end) = leaf_node_cell(node, cell_num);
    (start + LEAF_NODE_VALUE_OFFSET, end)
}

/// Makes `node` an empty leaf: its cell counter becomes zero.
pub fn initialize_leaf_node(node: &mut Vec<u8>)
    requires
        old(node)@.len() == PAGE_SIZE,
    ensures
        final(node)@ == splice(old(node)@, LEAF_NODE_NUM_CELLS_OFFSET as int, u32_le(0)),
        leaf_wf(final(node)@),
        leaf_cells(final(node)@) == Seq::<Seq<u8>>::empty(),
        leaf_rows(final(node)@) == Seq::<RowView>::empty(),
{
    leaf_node_set_num_cells(node, 0);
    assert(leaf_cells(node@) =~= Seq::<Seq<u8>>::empty());
    assert(leaf_rows(node@) =~= Seq::<RowView>::empty());
}

/// Inserts the cell (`key`, `value`) at slot `cell_num` of a leaf with room:
/// the cells from that slot on move one slot right first.
pub fn leaf_node_insert(node: &mut Vec<u8>, cell_num: u32, key: u32, value: &Row)
    requires
        leaf_wf(old(node)@),
        num_cells_of(old(node)@) < LEAF_NODE_MAX_CELLS,
        cell_num <= num_cells_of(old(node)@),
        value@.wf(),
    ensures
        final(node)@ == leaf_inserted(old(node)@, cell_num as int, key, value@),
        leaf_wf(final(node)@),
        leaf_rows(final(node)@) == leaf_rows(old(node)@).insert(cell_num as int, value@),
{
    let ghost orig = old(node)@;
    proof {
        lemma_leaf_capacity();
        lemma_leaf_inserted(orig, cell_num as int, key, value@);
    }
    let num_cells = leaf_node_num_cells(node.as_slice());
    let ghost n = num_cells as int;
    let mut i: u32 = num_cells;
    assert(orig =~= splice(orig, cell_start(n + 1), orig.subrange(cell_start(n), cell_start(n))));
    while i > cell_num
        invariant
            cell_num <= i <= num_cells,
            num_cells == n,
            n < LEAF_NODE_MAX_CELLS,
            orig.len() == PAGE_SIZE,
            node@ == splice(orig, cell_start(i + 1), orig.subrange(cell_start(i as int), cell_start(n))),
        decreases i,
    {
        proof {
            lemma_leaf_capacity();
            lemma_splice_index(orig, cell_start(i + 1), orig.subrange(cell_start(i as int), cell_start(n)));
        }
        shift_cell_right(node, i);
        i = i - 1;
        proof {
            lemma_splice_index(orig, cell_start(i + 1), orig.subrange(cell_start(i as int), cell_start(n)));
        }
        assert(node@ =~= splice(orig, cell_start(i + 1), orig.subrange(cell_start(i as int), cell_start(n))));
    }
    let ghost moved = node@;
    leaf_node_set_key(node, cell_num, key);
    let (start, _end) = leaf_node_value(node.as_slice(), cell_num);
    value.serialize(node, start);
    proof {
        lemma_row_round_trip(value@);
        lemma_le_u32_round_trip(key);
    }
    assert(node@ =~= splice(moved, cell_start(cell_num as int), cell_bytes(key, value@)));
    leaf_node_set_num_cells(node, num_cells + 1);
}

} // verus!
