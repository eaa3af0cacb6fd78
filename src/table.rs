//! The table: a pager whose page 0 is the root leaf, cursors over it, and
//! the table's lifecycle (open, insert, select, close).
use vstd::prelude::*;
use crate::layout::{
    LEAF_NODE_MAX_CELLS, LEAF_NODE_VALUE_OFFSET, PAGE_SIZE, ROW_SIZE, TABLE_MAX_PAGES,
};
use crate::leaf::{
    cell_of, cell_start, initialize_leaf_node, leaf_inserted, leaf_node_insert,
    leaf_node_num_cells, leaf_node_value, leaf_rows, leaf_wf, lemma_leaf_capacity,
    lemma_leaf_inserted, num_cells_of,
};
use crate::pager::{lemma_written_stored_page, stored_page, written, OpenError, Pager};
use crate::row::{Row, RowView};

verus! {

#[derive(Debug, Clone, Copy, PartialEq, Eq)]
pub enum ExecuteError {
    /// The root leaf holds as many cells as a leaf can.
    TableFull,
}

/// The store after pages `0..k` that are resident have been flushed, in order.
pub open spec fn flushed_upto(p: Pager, k: nat) -> Seq<u8>
    decreases k,
{
    if k == 0 {
        p.store@
    } else {
        let s = flushed_upto(p, (k - 1) as nat);
        if p.resident(k - 1) {
            written(s, k - 1, p.page_content(k - 1))
        } else {
            s
        }
    }
}

/// The store once every resident page has been flushed.
pub open spec fn closed_store(p: Pager) -> Seq<u8> {
    flushed_upto(p, TABLE_MAX_PAGES as nat)
}

/// A store that a table can be opened on.
pub open spec fn opens(store: Seq<u8>) -> bool {
    &&& store.len() % PAGE_SIZE as nat == 0
    &&& (store.len() == 0 || num_cells_of(stored_page(store, 0)) <= LEAF_NODE_MAX_CELLS)
}

/// The rows of a table opened on `store`.
pub open spec fn opened_rows(store: Seq<u8>) -> Seq<RowView> {
    if store.len() == 0 {
        Seq::empty()
    } else {
        leaf_rows(stored_page(store, 0))
    }
}

/// A leaf with the row `r` appended after its last cell, keyed by its id.
pub open spec fn appended(node: Seq<u8>, r: RowView) -> Seq<u8> {
    leaf_inserted(node, num_cells_of(node) as int, r.id, r)
}

/// A leaf with the rows `rs` appended one after another.
pub open spec fn appended_all(node: Seq<u8>, rs: Seq<RowView>) -> Seq<u8>
    decreases rs.len(),
{
    if rs.len() == 0 {
        node
    } else {
        appended(appended_all(node, rs.drop_last()), rs.last())
    }
}

/// After flushing the resident pages among `0..k`, the store holds each of
/// those pages' contents, and what it held before for the others.
pub proof fn lemma_flushed_upto(p: Pager, k: nat)
    requires
        p.wf(),
        k <= TABLE_MAX_PAGES,
    ensures
        flushed_upto(p, k).len() % PAGE_SIZE as nat == 0,
        flushed_upto(p, k).len() >= p.store@.len(),
        k > 0 && p.resident(0) ==> flushed_upto(p, k).len() >= PAGE_SIZE,
        forall|m: int|
            0 <= m < TABLE_MAX_PAGES ==> #[trigger] stored_page(flushed_upto(p, k), m) == if m < k {
                p.page_content(m)
            } else {
                stored_page(p.store@, m)
            },
    decreases k,
{
    if k > 0 {
        let j = (k - 1) as nat;
        lemma_flushed_upto(p, j);
        let s = flushed_upto(p, j);
        if p.resident(j as int) {
            lemma_written_stored_page(s, j as int, p.page_content(j as int));
        }
        assert forall|m: int| 0 <= m < TABLE_MAX_PAGES implies #[trigger] stored_page(flushed_upto(p, k), m) == if m < k {
            p.page_content(m)
        } else {
            stored_page(p.store@, m)
        } by {
            if m == j && !p.resident(m) {
                assert(stored_page(flushed_upto(p, k), m) == stored_page(s, m));
            }
        }
    }
}

/// Rows appended one after another come back, after those already there,
/// in the order they were appended.
pub proof fn lemma_insert_then_select(node: Seq<u8>, rs: Seq<RowView>)
    requires
        leaf_wf(node),
        num_cells_of(node) + rs.len() <= LEAF_NODE_MAX_CELLS,
        forall|i: int| 0 <= i < rs.len() ==> (#[trigger] rs[i]).wf(),
    ensures
        leaf_wf(appended_all(node, rs)),
        num_cells_of(appended_all(node, rs)) == num_cells_of(node) + rs.len(),
        leaf_rows(appended_all(node, rs)) == leaf_rows(node) + rs,
    decreases rs.len(),
{
    if rs.len() == 0 {
        assert(leaf_rows(node) + rs =~= leaf_rows(node));
    } else {
        let init = rs.drop_last();
        lemma_insert_then_select(node, init);
        let mid = appended_all(node, init);
        assert(rs.last() == rs[rs.len() - 1]);
        lemma_leaf_inserted(mid, num_cells_of(mid) as int, rs.last().id, rs.last());
        assert(leaf_rows(mid).insert(num_cells_of(mid) as int, rs.last()) =~= leaf_rows(mid).push(rs.last()));
        assert(leaf_rows(node) + init + seq![rs.last()] =~= leaf_rows(node) + rs);
    }
}

/// Starting from an empty leaf, each of `LEAF_NODE_MAX_CELLS` appends finds
/// room, and afterwards the leaf is full, so that one more is refused.
pub proof fn lemma_capacity(node: Seq<u8>, rs: Seq<RowView>)
    requires
        leaf_wf(node),
        num_cells_of(node) == 0,
        rs.len() == LEAF_NODE_MAX_CELLS,
        forall|i: int| 0 <= i < rs.len() ==> (#[trigger] rs[i]).wf(),
    ensures
        forall|k: int|
            0 <= k < LEAF_NODE_MAX_CELLS ==> #[trigger] num_cells_of(appended_all(node, rs.take(k)))
                < LEAF_NODE_MAX_CELLS,
        num_cells_of(appended_all(node, rs)) == LEAF_NODE_MAX_CELLS,
        leaf_rows(appended_all(node, rs)) == rs,
{
    assert forall|k: int| 0 <= k < LEAF_NODE_MAX_CELLS implies #[trigger] num_cells_of(
        appended_all(node, rs.take(k)),
    ) < LEAF_NODE_MAX_CELLS by {
        lemma_insert_then_select(node, rs.take(k));
    }
    lemma_insert_then_select(node, rs);
    assert(leaf_rows(node) =~= Seq::<RowView>::empty());
    assert(leaf_rows(node) + rs =~= rs);
}

/// Closing a table and opening one on the store it leaves gives the same rows.
pub proof fn lemma_persistence(t: Table)
    requires
        t.wf(),
    ensures
        opens(closed_store(t.pager)),
        opened_rows(closed_store(t.pager)) == t.rows(),
{
    lemma_flushed_upto(t.pager, TABLE_MAX_PAGES as nat);
    assert(stored_page(closed_store(t.pager), 0) == t.pager.page_content(0));
}

pub struct Table {
    pub root_page_num: u32,
    pub pager: Pager,
}

/// A position in the table: a page, a cell slot in it, and whether it is past the last cell.
#[derive(Debug, Clone, Copy, PartialEq, Eq)]
pub struct Cursor {
    pub page_num: usize,
    pub cell_num: usize,
    pub end_of_table: bool,
}

impl Table {
    pub open spec fn wf(&self) -> bool {
        &&& self.pager.wf()
        &&& self.root_page_num == 0
        &&& (self.pager.store@.len() > 0 || self.pager.resident(0))
        &&& leaf_wf(self.pager.page_content(0))
    }

    /// The root leaf's bytes.
    pub open spec fn root(&self) -> Seq<u8> {
        self.pager.page_content(0)
    }

    /// The table's rows, in cell order.
    pub open spec fn rows(&self) -> Seq<RowView> {
        leaf_rows(self.root())
    }

    /// Opens a table on `store`, the contents of its file. An empty store
    /// gets page 0 as an empty root leaf; a nonempty one is left on the
    /// store, no page resident, to be loaded on first access.
    ///
    /// Fails on a store that is not a whole number of pages, and on one whose
    /// root leaf claims more cells than a leaf holds, since reading such a
    /// leaf's cells would run past the end of the page.
    pub fn new(store: Vec<u8>) -> (r: Result<Table, OpenError>)
        ensures
            r is Ok <==> opens(store@),
            store@.len() % PAGE_SIZE as nat != 0 ==> r == Err::<Table, OpenError>(
                OpenError::NotWholePages,
            ),
            store@.len() % PAGE_SIZE as nat == 0 && !opens(store@) ==> r == Err::<Table, OpenError>(
                OpenError::RootTooManyCells,
            ),
            r matches Ok(t) ==> {
                &&& t.wf()
                &&& t.pager.store@ == store@
                &&& t.rows() == opened_rows(store@)
                &&& store@.len() == 0 ==> {
                    &&& t.pager.num_pages == 1
                    &&& t.pager.resident(0)
                    &&& num_cells_of(t.root()) == 0
                }
                &&& store@.len() > 0 ==> {
                    &&& t.pager.num_pages == store@.len() / PAGE_SIZE as nat
                    &&& forall|n: int| 0 <= n < TABLE_MAX_PAGES ==> !#[trigger] t.pager.resident(n)
                }
            },
    {
        let ghost s = store@;
        let mut pager = match Pager::open(store) {
            Ok(p) => p,
            Err(e) => {
                return Err(e);
            },
        };
        if pager.num_pages == 0 {
            assert(s.len() == 0);
            let loaded = pager.get_page(0);
            assert(loaded is Ok);
            let ghost p1 = pager;
            initialize_leaf_node(pager.page_mut(0));
            assert(pager.resident(0));
            assert forall|n: int| 0 <= n < TABLE_MAX_PAGES && #[trigger] pager.resident(n) implies {
                &&& pager.pages@[n]->0@.len() == PAGE_SIZE
                &&& n < pager.num_pages
            } by {
                if n != 0 {
                    assert(p1.resident(n));
                }
            }
        } else {
            let num_cells = leaf_node_num_cells(pager.store.as_slice());
            assert(s.subrange(6, 10) =~= stored_page(s, 0).subrange(6, 10));
            if num_cells as usize > LEAF_NODE_MAX_CELLS {
                return Err(OpenError::RootTooManyCells);
            }
        }
        Ok(Table { root_page_num: 0, pager })
    }

    /// Appends `row` after the last cell of the root leaf, keyed by its id,
    /// or reports `TableFull` where the leaf is full, changing no page's contents.
    pub fn insert(&mut self, row: &Row) -> (r: Result<(), ExecuteError>)
        requires
            old(self).wf(),
            row@.wf(),
        ensures
            final(self).wf(),
            r is Err <==> old(self).rows().len() >= LEAF_NODE_MAX_CELLS,
            r is Err ==> r == Err::<(), ExecuteError>(ExecuteError::TableFull)
                && final(self).pager.same_contents(&old(self).pager),
            r is Ok ==> final(self).root() == appended(old(self).root(), row@),
            r is Ok ==> final(self).rows() == old(self).rows().push(row@),
            final(self).pager.store@ == old(self).pager.store@,
            forall|n: int|
                1 <= n < TABLE_MAX_PAGES ==> #[trigger] final(self).pager.page_content(n)
                    == old(self).pager.page_content(n),
    {
        let loaded = self.pager.get_page(0);
        assert(loaded is Ok);
        let num_cells = leaf_node_num_cells(self.pager.page(0).as_slice());
        if num_cells as usize >= LEAF_NODE_MAX_CELLS {
            return Err(ExecuteError::TableFull);
        }
        let cursor = Cursor::table_end(self);
        let ghost before = self.root();
        let ghost mid = self.pager;
        proof {
            lemma_leaf_inserted(before, num_cells as int, row.id, row@);
        }
        let node = self.pager.page_mut(cursor.page_num);
        leaf_node_insert(node, cursor.cell_num as u32, row.id, row);
        assert(leaf_rows(before).insert(num_cells as int, row@) =~= leaf_rows(before).push(row@));
        assert forall|n: int| 0 <= n < TABLE_MAX_PAGES && #[trigger] self.pager.resident(n) implies {
            &&& self.pager.pages@[n]->0@.len() == PAGE_SIZE
            &&& n < self.pager.num_pages
        } by {
            assert(mid.resident(n));
        }
        assert forall|n: int| 1 <= n < TABLE_MAX_PAGES implies #[trigger] self.pager.page_content(n)
            == old(self).pager.page_content(n) by {
            assert(self.pager.pages@[n] == mid.pages@[n]);
            assert(mid.page_content(n) == old(self).pager.page_content(n));
        }
        Ok(())
    }

    /// The rows of the table in cell order, read by walking a cursor from
    /// the start of the table to its end. Pages may load; none changes.
    pub fn select(&mut self) -> (r: Vec<Row>)
        requires
            old(self).wf(),
        ensures
            final(self).wf(),
            final(self).pager.same_contents(&old(self).pager),
            r@.map_values(|x: Row| x@) == old(self).rows(),
    {
        let ghost rows0 = self.rows();
        let ghost p0 = self.pager;
        let ghost n = rows0.len();
        let mut cursor = Cursor::table_start(self);
        let mut rows: Vec<Row> = Vec::new();
        while !cursor.end_of_table
            invariant
                self.wf(),
                self.pager.same_contents(&p0),
                rows0 == leaf_rows(p0.page_content(0)),
                n == rows0.len(),
                n <= LEAF_NODE_MAX_CELLS,
                cursor.page_num == 0,
                cursor.cell_num <= n,
                cursor.end_of_table == (cursor.cell_num == n),
                rows@.map_values(|x: Row| x@) == rows0.take(cursor.cell_num as int),
            decreases n - cursor.cell_num,
        {
            proof {
                lemma_leaf_capacity();
            }
            let (start, _end) = cursor.value(self);
            let page = self.pager.page(0);
            assert(page@ == p0.page_content(0));
            let row = Row::deserialize(page.as_slice(), start);
            let ghost c = cursor.cell_num as int;
            proof {
                assert(page@.subrange(start as int, start + 291) =~= cell_of(page@, c).skip(4));
            }
            assert(row@ == rows0[c]);
            let ghost before = rows@;
            rows.push(row);
            assert(rows@.map_values(|x: Row| x@) =~= before.map_values(|x: Row| x@).push(row@));
            cursor.advance(self);
            assert(rows@.map_values(|x: Row| x@) =~= rows0.take(c + 1));
        }
        assert(rows0.take(n as int) =~= rows0);
        rows
    }

    /// Flushes every resident page into the store. Page contents do not change.
    pub fn close(&mut self)
        requires
            old(self).wf(),
        ensures
            final(self).wf(),
            final(self).pager.store@ == closed_store(old(self).pager),
            final(self).pager.pages == old(self).pager.pages,
            final(self).rows() == old(self).rows(),
            forall|n: int|
                0 <= n < TABLE_MAX_PAGES ==> #[trigger] final(self).pager.page_content(n)
                    == old(self).pager.page_content(n),
    {
        let ghost p0 = self.pager;
        proof {
            lemma_flushed_upto(p0, TABLE_MAX_PAGES as nat);
        }
        let mut i: usize = 0;
        while i < TABLE_MAX_PAGES
            invariant
                p0.wf(),
                i <= TABLE_MAX_PAGES,
                self.root_page_num == 0,
                self.pager.wf(),
                self.pager.pages == p0.pages,
                self.pager.num_pages == p0.num_pages,
                self.pager.store@ == flushed_upto(p0, i as nat),
            decreases TABLE_MAX_PAGES - i,
        {
            if self.pager.pages[i].is_some() {
                proof {
                    lemma_flushed_upto(p0, i as nat);
                }
                assert(self.pager.page_content(i as int) == p0.page_content(i as int));
                let _ = self.pager.flush(i);
            }
            i = i + 1;
        }
        assert forall|n: int| 0 <= n < TABLE_MAX_PAGES implies #[trigger] self.pager.page_content(n)
            == p0.page_content(n) by {
            if !p0.resident(n) {
                assert(stored_page(closed_store(p0), n) == stored_page(p0.store@, n));
            }
        }
    }
}

impl Cursor {
    /// A cursor at the first cell of the root leaf; past the end where the
    /// table is empty. Loads the root page.
    pub fn table_start(table: &mut Table) -> (r: Cursor)
        requires
            old(table).wf(),
        ensures
            final(table).wf(),
            final(table).root_page_num == old(table).root_page_num,
            final(table).pager.same_contents(&old(table).pager),
            final(table).pager.resident(0),
            r.page_num == old(table).root_page_num,
            r.cell_num == 0,
            r.end_of_table == (old(table).rows().len() == 0),
    {
        let page_num = table.root_page_num as usize;
        let loaded = table.pager.get_page(page_num);
        assert(loaded is Ok);
        let num_cells = leaf_node_num_cells(table.pager.page(page_num).as_slice());
        Cursor { page_num, cell_num: 0, end_of_table: num_cells == 0 }
    }

    /// A cursor one past the last cell of the root leaf. Loads the root page.
    pub fn table_end(table: &mut Table) -> (r: Cursor)
        requires
            old(table).wf(),
        ensures
            final(table).wf(),
            final(table).root_page_num == old(table).root_page_num,
            final(table).pager.same_contents(&old(table).pager),
            final(table).pager.resident(0),
            r.page_num == old(table).root_page_num,
            r.cell_num == old(table).rows().len(),
            r.end_of_table,
    {
        let page_num = table.root_page_num as usize;
        let loaded = table.pager.get_page(page_num);
        assert(loaded is Ok);
        let num_cells = leaf_node_num_cells(table.pager.page(page_num).as_slice());
        Cursor { page_num, cell_num: num_cells as usize, end_of_table: true }
    }

    /// Moves to the next cell. The cursor is past the end once its index
    /// reaches the cell count of its page, and stays so. Loads that page.
    pub fn advance(&mut self, table: &mut Table)
        requires
            old(table).wf(),
            old(self).page_num < TABLE_MAX_PAGES,
            old(self).cell_num < usize::MAX,
        ensures
            final(table).wf(),
            final(table).root_page_num == old(table).root_page_num,
            final(table).pager.same_contents(&old(table).pager),
            final(table).pager.resident(old(self).page_num as int),
            final(self).page_num == old(self).page_num,
            final(self).cell_num == old(self).cell_num + 1,
            final(self).end_of_table == (old(self).end_of_table || final(self).cell_num
                >= num_cells_of(old(table).pager.page_content(old(self).page_num as int))),
    {
        let loaded = table.pager.get_page(self.page_num);
        assert(loaded is Ok);
        let num_cells = leaf_node_num_cells(table.pager.page(self.page_num).as_slice());
        self.cell_num = self.cell_num + 1;
        self.end_of_table = self.end_of_table || self.cell_num >= num_cells as usize;
    }

    /// The byte range `(start, end)`, in the cursor's page, of the row in
    /// the current cell. Loads that page.
    pub fn value(&self, table: &mut Table) -> (r: (usize, usize))
        requires
            old(table).wf(),
            self.page_num < TABLE_MAX_PAGES,
            self.cell_num < LEAF_NODE_MAX_CELLS,
        ensures
            final(table).wf(),
            final(table).root_page_num == old(table).root_page_num,
            final(table).pager.same_contents(&old(table).pager),
            final(table).pager.resident(self.page_num as int),
            r.0 == cell_start(self.cell_num as int) + LEAF_NODE_VALUE_OFFSET,
            r.1 == cell_start(self.cell_num + 1),
            r.1 - r.0 == ROW_SIZE,
            r.1 <= PAGE_SIZE,
    {
        proof {
            lemma_leaf_capacity();
        }
        let loaded = table.pager.get_page(self.page_num);
        assert(loaded is Ok);
        let page = table.pager.page(self.page_num);
        leaf_node_value(page.as_slice(), self.cell_num as u32)
    }
}

} // verus!
