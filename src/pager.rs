//! A cache of fixed-size pages over a backing byte store (the table file's
//! contents): pages load on first access and are written back on flush.
use vstd::prelude::*;
use crate::layout::{read_bytes, splice, write_bytes, PAGE_SIZE, TABLE_MAX_PAGES};
use crate::row::zero_padded;

verus! {

#[derive(Debug, Clone, Copy, PartialEq, Eq)]
pub enum PagerError {
    /// The page number is not below the maximum page count.
    PageNumberOutOfBounds,
    /// A flush of a page that has no resident buffer.
    EmptyPageFlush,
}

#[derive(Debug, Clone, Copy, PartialEq, Eq)]
pub enum OpenError {
    /// The store's length is not a whole number of pages.
    NotWholePages,
    /// The root leaf claims more cells than a leaf can hold.
    RootTooManyCells,
}

/// The bytes of page `n` as the store holds them; bytes past its end read as zero.
pub open spec fn stored_page(store: Seq<u8>, n: int) -> Seq<u8> {
    Seq::new(
        PAGE_SIZE as nat,
        |k: int| if n * PAGE_SIZE + k < store.len() { store[n * PAGE_SIZE + k] } else { 0u8 },
    )
}

/// The store after page `n` is written into it with contents `page`; it
/// grows, zero-filled, where it ends before that page does.
pub open spec fn written(store: Seq<u8>, n: int, page: Seq<u8>) -> Seq<u8> {
    let end = (n + 1) * PAGE_SIZE;
    let grown = if store.len() < end { zero_padded(store, end as nat) } else { store };
    splice(grown, n * PAGE_SIZE, page)
}

/// Writing page `n` sets what the store holds for that page and for no other.
pub proof fn lemma_written_stored_page(store: Seq<u8>, n: int, page: Seq<u8>)
    requires
        store.len() % PAGE_SIZE as nat == 0,
        page.len() == PAGE_SIZE,
        0 <= n,
    ensures
        written(store, n, page).len() % PAGE_SIZE as nat == 0,
        written(store, n, page).len() >= store.len(),
        written(store, n, page).len() >= (n + 1) * PAGE_SIZE,
        stored_page(written(store, n, page), n) == page,
        forall|m: int| 0 <= m && m != n ==> #[trigger] stored_page(written(store, n, page), m) == stored_page(store, m),
{
    let end = (n + 1) * PAGE_SIZE;
    let grown = if store.len() < end { zero_padded(store, end as nat) } else { store };
    let w = written(store, n, page);
    assert(w.len() == grown.len());
    assert(grown.len() % 4096 == 0) by (nonlinear_arith)
        requires
            grown.len() == if store.len() < (n + 1) * 4096 { (n + 1) * 4096 } else { store.len() as int },
            store.len() % 4096 == 0,
            n >= 0;
    assert(stored_page(w, n) =~= page);
    assert forall|m: int| 0 <= m && m != n implies #[trigger] stored_page(w, m) == stored_page(store, m) by {
        assert forall|k: int| 0 <= k < PAGE_SIZE implies stored_page(w, m)[k] == stored_page(store, m)[k] by {
            if m < n {
                assert(m * 4096 + k < n * 4096);
            } else {
                assert(m * 4096 + k >= (n + 1) * 4096);
            }
        }
        assert(stored_page(w, m) =~= stored_page(store, m));
    }
}

pub struct Pager {
    /// The backing store: the whole content of the table file.
    pub store: Vec<u8>,
    /// The number of pages the file holds or that have been accessed.
    pub num_pages: u64,
    /// The resident buffer of each page number, if any.
    pub pages: Vec<Option<Vec<u8>>>,
}

impl Pager {
    pub open spec fn resident(&self, n: int) -> bool {
        self.pages@[n] is Some
    }

    /// The current contents of page `n`: its resident buffer, or else what the store holds.
    pub open spec fn page_content(&self, n: int) -> Seq<u8> {
        if self.resident(n) {
            self.pages@[n]->0@
        } else {
            stored_page(self.store@, n)
        }
    }

    /// Both pagers hold the same store and the same contents for every page.
    pub open spec fn same_contents(&self, o: &Pager) -> bool {
        &&& self.store@ == o.store@
        &&& forall|n: int|
            0 <= n < TABLE_MAX_PAGES ==> #[trigger] self.page_content(n) == o.page_content(n)
    }

    pub open spec fn wf(&self) -> bool {
        &&& self.pages@.len() == TABLE_MAX_PAGES
        &&& self.store@.len() % PAGE_SIZE as nat == 0
        &&& self.store@.len() / PAGE_SIZE as nat <= self.num_pages
        &&& forall|n: int|
            0 <= n < TABLE_MAX_PAGES && #[trigger] self.resident(n) ==> {
                &&& self.pages@[n]->0@.len() == PAGE_SIZE
                &&& n < self.num_pages
            }
    }

    /// A pager over `store` with no resident page, or `NotWholePages` where
    /// the store is not a whole number of pages.
    pub fn open(store: Vec<u8>) -> (r: Result<Pager, OpenError>)
        ensures
            r is Err <==> store@.len() % PAGE_SIZE as nat != 0,
            r is Err ==> r == Err::<Pager, OpenError>(OpenError::NotWholePages),
            r matches Ok(p) ==> {
                &&& p.wf()
                &&& p.store@ == store@
                &&& p.num_pages == store@.len() / PAGE_SIZE as nat
                &&& forall|n: int| 0 <= n < TABLE_MAX_PAGES ==> !#[trigger] p.resident(n)
            },
    {
        let file_length = store.len();
        if file_length % PAGE_SIZE != 0 {
            return Err(OpenError::NotWholePages);
        }
        let mut pages: Vec<Option<Vec<u8>>> = Vec::with_capacity(TABLE_MAX_PAGES);
        let mut i: usize = 0;
        while i < TABLE_MAX_PAGES
            invariant
                i <= TABLE_MAX_PAGES,
                pages@.len() == i,
                forall|n: int| 0 <= n < i ==> pages@[n] is None,
            decreases TABLE_MAX_PAGES - i,
        {
            pages.push(None);
            i = i + 1;
        }
        Ok(Pager { store, num_pages: (file_length / PAGE_SIZE) as u64, pages })
    }

    /// The length of the backing store in bytes.
    pub fn file_length(&self) -> (r: u64)
        ensures
            r == self.store@.len(),
    {
        self.store.len() as u64
    }

    /// Makes page `page_num` resident, loading it from the store on first access.
    /// Loading changes no page's contents.
    pub fn get_page(&mut self, page_num: usize) -> (r: Result<(), PagerError>)
        requires
            old(self).wf(),
        ensures
            r is Err <==> page_num >= TABLE_MAX_PAGES,
            r is Err ==> r == Err::<(), PagerError>(PagerError::PageNumberOutOfBounds),
            r is Err ==> *final(self) == *old(self),
            final(self).wf(),
            final(self).store@ == old(self).store@,
            r is Ok ==> final(self).resident(page_num as int),
            r is Ok ==> final(self).num_pages == if page_num as int >= old(self).num_pages {
                page_num as int + 1
            } else {
                old(self).num_pages as int
            },
            forall|n: int|
                0 <= n < TABLE_MAX_PAGES ==> #[trigger] final(self).page_content(n)
                    == old(self).page_content(n),
            forall|n: int|
                0 <= n < TABLE_MAX_PAGES && n != page_num ==> #[trigger] final(self).resident(n)
                    == old(self).resident(n),
    {
        if page_num >= TABLE_MAX_PAGES {
            return Err(PagerError::PageNumberOutOfBounds);
        }
        assert(self.resident(page_num as int) ==> page_num < self.num_pages);
        if self.pages[page_num].is_none() {
            let file_length = self.store.len();
            let persisted = file_length / PAGE_SIZE;
            let page = if page_num < persisted {
                read_bytes(self.store.as_slice(), page_num * PAGE_SIZE, PAGE_SIZE)
            } else {
                vec![0u8; PAGE_SIZE]
            };
            assert(page@ =~= stored_page(self.store@, page_num as int));
            self.pages.set(page_num, Some(page));
            if page_num as u64 >= self.num_pages {
                self.num_pages = page_num as u64 + 1;
            }
            assert forall|n: int| 0 <= n < TABLE_MAX_PAGES && #[trigger] self.resident(n) implies {
                &&& self.pages@[n]->0@.len() == PAGE_SIZE
                &&& n < self.num_pages
            } by {
                if n != page_num {
                    assert(old(self).resident(n));
                }
            }
            assert forall|n: int| 0 <= n < TABLE_MAX_PAGES implies #[trigger] self.page_content(n)
                == old(self).page_content(n) by {
                if n != page_num {
                    assert(self.pages@[n] == old(self).pages@[n]);
                }
            }
        }
        Ok(())
    }

    /// The resident buffer of page `page_num`.
    pub fn page(&self, page_num: usize) -> (r: &Vec<u8>)
        requires
            page_num < TABLE_MAX_PAGES,
            self.pages@.len() == TABLE_MAX_PAGES,
            self.resident(page_num as int),
        ensures
            r@ == self.page_content(page_num as int),
    {
        self.pages[page_num].as_ref().unwrap()
    }

    /// The resident buffer of page `page_num`, for writing.
    pub fn page_mut(&mut self, page_num: usize) -> (r: &mut Vec<u8>)
        requires
            page_num < TABLE_MAX_PAGES,
            old(self).pages@.len() == TABLE_MAX_PAGES,
            old(self).resident(page_num as int),
        ensures
            r@ == old(self).page_content(page_num as int),
            final(self).store == old(self).store,
            final(self).num_pages == old(self).num_pages,
            final(self).pages@ == old(self).pages@.update(page_num as int, Some(*final(r))),
    {
        self.pages[page_num].as_mut().unwrap()
    }

    /// Writes the resident buffer of page `page_num` into the store at its page offset.
    pub fn flush(&mut self, page_num: usize) -> (r: Result<(), PagerError>)
        requires
            old(self).wf(),
        ensures
            page_num >= TABLE_MAX_PAGES ==> r == Err::<(), PagerError>(
                PagerError::PageNumberOutOfBounds,
            ),
            page_num < TABLE_MAX_PAGES && !old(self).resident(page_num as int) ==> r == Err::<
                (),
                PagerError,
            >(PagerError::EmptyPageFlush),
            r is Ok <==> page_num < TABLE_MAX_PAGES && old(self).resident(page_num as int),
            r is Err ==> *final(self) == *old(self),
            r is Ok ==> final(self).store@ == written(
                old(self).store@,
                page_num as int,
                old(self).page_content(page_num as int),
            ),
            final(self).wf(),
            final(self).pages == old(self).pages,
            final(self).num_pages == old(self).num_pages,
    {
        if page_num >= TABLE_MAX_PAGES {
            return Err(PagerError::PageNumberOutOfBounds);
        }
        if self.pages[page_num].is_none() {
            return Err(PagerError::EmptyPageFlush);
        }
        let ghost s0 = self.store@;
        let end = (page_num + 1) * PAGE_SIZE;
        let mut len = self.store.len();
        assert(s0 =~= zero_padded(s0, len as nat));
        while len < end
            invariant
                len == self.store@.len(),
                s0.len() <= len,
                len <= end || len == s0.len(),
                self.store@ == zero_padded(s0, len as nat),
                self.pages == old(self).pages,
                self.num_pages == old(self).num_pages,
            decreases end - len,
        {
            self.store.push(0u8);
            len = len + 1;
            assert(self.store@ =~= zero_padded(s0, len as nat));
        }
        proof {
            if s0.len() >= end {
                assert(self.store@ =~= s0);
            }
        }
        assert(old(self).resident(page_num as int));
        assert(page_num < self.num_pages);
        assert(len >= end);
        assert(s0.len() < end ==> len == end);
        assert(s0.len() >= end ==> len == s0.len());
        let page = self.pages[page_num].as_ref().unwrap();
        write_bytes(&mut self.store, page_num * PAGE_SIZE, page.as_slice());
        proof {
            let n = page_num as int;
            assert(self.store@.len() % PAGE_SIZE as nat == 0) by (nonlinear_arith)
                requires
                    self.store@.len() == if s0.len() < (n + 1) * 4096 { (n + 1) * 4096 } else { s0.len() as int },
                    s0.len() % 4096 == 0,
                    n >= 0;
            assert(self.store@.len() / 4096 <= self.num_pages) by (nonlinear_arith)
                requires
                    self.store@.len() == if s0.len() < (n + 1) * 4096 { (n + 1) * 4096 } else { s0.len() as int },
                    s0.len() / 4096 <= self.num_pages,
                    n < self.num_pages,
                    n >= 0;
        }
        assert forall|n: int| 0 <= n < TABLE_MAX_PAGES && #[trigger] self.resident(n) implies {
            &&& self.pages@[n]->0@.len() == PAGE_SIZE
            &&& n < self.num_pages
        } by {
            assert(old(self).resident(n));
        }
        Ok(())
    }
}

} // verus!
