use rowstore::layout::{LEAF_NODE_MAX_CELLS, PAGE_SIZE, ROW_SIZE, TABLE_MAX_PAGES};
use rowstore::leaf::{
    copy_within_a_slice, initialize_leaf_node, leaf_node_cell, leaf_node_insert, leaf_node_key,
    leaf_node_num_cells, leaf_node_set_key, leaf_node_set_num_cells, leaf_node_value,
    shift_cell_right,
};
use rowstore::pager::{OpenError, Pager, PagerError};
use rowstore::row::{str_from_array, Row};
use rowstore::table::{Cursor, ExecuteError, Table};

fn row(id: u32, username: &str, email: &str) -> Row {
    Row::from_fields(id, username.as_bytes(), email.as_bytes()).unwrap()
}

fn text(field: &[u8]) -> String {
    String::from_utf8(str_from_array(field)).unwrap()
}

fn triple(r: &Row) -> (u32, String, String) {
    (r.id, text(&r.username), text(&r.email))
}

#[test]
fn row_round_trip() {
    let r = row(42, "alice", "alice@x.com");
    let mut buf = vec![0xAAu8; ROW_SIZE + 10];
    r.serialize(&mut buf, 5);
    assert_eq!(&buf[0..5], &[0xAA; 5]);
    assert_eq!(&buf[5 + ROW_SIZE..], &[0xAA; 5]);
    assert_eq!(&buf[5..9], &[42, 0, 0, 0]);
    assert_eq!(&buf[9..14], b"alice");
    assert_eq!(buf[14], 0);
    assert_eq!(&buf[41..52], b"alice@x.com");
    let back = Row::deserialize(&buf, 5);
    assert_eq!(back, r);
}

#[test]
fn row_round_trip_full_width_fields() {
    let username = "u".repeat(32);
    let email = "e".repeat(255);
    let r = row(u32::MAX, &username, &email);
    let mut buf = vec![0u8; ROW_SIZE];
    r.serialize(&mut buf, 0);
    let back = Row::deserialize(&buf, 0);
    assert_eq!(back, r);
    assert_eq!(text(&back.username), username);
    assert_eq!(text(&back.email), email);
}

#[test]
fn from_fields_rejects_long_fields() {
    assert!(Row::from_fields(1, &[b'a'; 33], b"x").is_none());
    assert!(Row::from_fields(1, b"x", &[b'a'; 256]).is_none());
    let r = Row::from_fields(7, b"bob", b"").unwrap();
    assert_eq!(r.username.len(), 32);
    assert_eq!(r.email, vec![0u8; 255]);
}

#[test]
fn str_from_array_stops_at_first_zero() {
    assert_eq!(str_from_array(b"ab\0cd"), b"ab".to_vec());
    assert_eq!(str_from_array(b"abc"), b"abc".to_vec());
    assert_eq!(str_from_array(b"\0abc"), Vec::<u8>::new());
    assert_eq!(str_from_array(b""), Vec::<u8>::new());
}

#[test]
fn leaf_header_and_cells() {
    let mut node = vec![0u8; PAGE_SIZE];
    initialize_leaf_node(&mut node);
    assert_eq!(leaf_node_num_cells(&node), 0);
    leaf_node_set_num_cells(&mut node, 0x01020304);
    assert_eq!(&node[6..10], &[4, 3, 2, 1]);
    assert_eq!(leaf_node_num_cells(&node), 0x01020304);
    assert_eq!(leaf_node_cell(&node, 0), (10, 305));
    assert_eq!(leaf_node_cell(&node, 2), (600, 895));
    assert_eq!(leaf_node_value(&node, 1), (309, 600));
    leaf_node_set_key(&mut node, 1, 77);
    assert_eq!(leaf_node_key(&node, 1), 77);
    assert_eq!(&node[305..309], &[77, 0, 0, 0]);
    assert_eq!(LEAF_NODE_MAX_CELLS, 13);
}

#[test]
fn copy_within_overlapping_ranges() {
    let mut v: Vec<u8> = (0..10).collect();
    copy_within_a_slice(&mut v, 0, 2, 5);
    assert_eq!(v, vec![0, 1, 0, 1, 2, 3, 4, 7, 8, 9]);
    let mut w: Vec<u8> = (0..10).collect();
    copy_within_a_slice(&mut w, 3, 1, 5);
    assert_eq!(w, vec![0, 3, 4, 5, 6, 7, 6, 7, 8, 9]);
}

#[test]
fn shift_cell_right_copies_previous_cell() {
    let mut node = vec![0u8; PAGE_SIZE];
    leaf_node_set_key(&mut node, 0, 5);
    leaf_node_set_key(&mut node, 1, 9);
    shift_cell_right(&mut node, 1);
    assert_eq!(leaf_node_key(&node, 1), 5);
    assert_eq!(leaf_node_key(&node, 0), 5);
}

#[test]
fn leaf_insert_in_the_middle_shifts_later_cells() {
    let mut node = vec![0u8; PAGE_SIZE];
    initialize_leaf_node(&mut node);
    leaf_node_insert(&mut node, 0, 1, &row(1, "a", "a@x"));
    leaf_node_insert(&mut node, 1, 3, &row(3, "c", "c@x"));
    leaf_node_insert(&mut node, 1, 2, &row(2, "b", "b@x"));
    assert_eq!(leaf_node_num_cells(&node), 3);
    assert_eq!(leaf_node_key(&node, 0), 1);
    assert_eq!(leaf_node_key(&node, 1), 2);
    assert_eq!(leaf_node_key(&node, 2), 3);
    let (start, _) = leaf_node_value(&node, 2);
    assert_eq!(triple(&Row::deserialize(&node, start)), (3, "c".to_string(), "c@x".to_string()));
}

#[test]
fn insert_then_select_keeps_insertion_order() {
    let mut t = Table::new(Vec::new()).unwrap();
    let ids = [5u32, 1, 9, 3];
    for id in ids {
        t.insert(&row(id, &format!("user{}", id), &format!("user{}@x.com", id))).unwrap();
    }
    let rows = t.select();
    let got: Vec<u32> = rows.iter().map(|r| r.id).collect();
    assert_eq!(got, ids.to_vec());
    assert_eq!(text(&rows[2].username), "user9");
}

#[test]
fn capacity_boundary() {
    let mut t = Table::new(Vec::new()).unwrap();
    for i in 0..LEAF_NODE_MAX_CELLS as u32 {
        assert_eq!(t.insert(&row(i, "name", "mail")), Ok(()));
    }
    assert_eq!(t.insert(&row(99, "extra", "extra")), Err(ExecuteError::TableFull));
    assert_eq!(leaf_node_num_cells(t.pager.page(0)), LEAF_NODE_MAX_CELLS as u32);
    assert_eq!(t.select().len(), LEAF_NODE_MAX_CELLS);
}

#[test]
fn persistence_across_close_and_reopen() {
    let mut t = Table::new(Vec::new()).unwrap();
    t.insert(&row(1, "alice", "alice@x.com")).unwrap();
    t.insert(&row(2, "bob", "bob@x.com")).unwrap();
    t.insert(&row(3, "carol", "carol@x.com")).unwrap();
    t.close();
    let store = t.pager.store.clone();
    assert_eq!(store.len(), PAGE_SIZE);
    let mut reopened = Table::new(store).unwrap();
    let rows: Vec<(u32, String, String)> = reopened.select().iter().map(triple).collect();
    assert_eq!(
        rows,
        vec![
            (1, "alice".to_string(), "alice@x.com".to_string()),
            (2, "bob".to_string(), "bob@x.com".to_string()),
            (3, "carol".to_string(), "carol@x.com".to_string()),
        ]
    );
}

#[test]
fn corrupt_length_is_rejected() {
    assert_eq!(Table::new(vec![0u8; 100]).err(), Some(OpenError::NotWholePages));
    assert_eq!(Table::new(vec![0u8; PAGE_SIZE + 1]).err(), Some(OpenError::NotWholePages));
    assert_eq!(Pager::open(vec![0u8; 4095]).err(), Some(OpenError::NotWholePages));
}

#[test]
fn root_with_too_many_cells_is_rejected() {
    let mut store = vec![0u8; PAGE_SIZE];
    store[6] = 14;
    assert_eq!(Table::new(store).err(), Some(OpenError::RootTooManyCells));
}

#[test]
fn two_rows_scenario() {
    let mut t = Table::new(Vec::new()).unwrap();
    t.insert(&row(1, "alice", "alice@x.com")).unwrap();
    t.insert(&row(2, "bob", "bob@x.com")).unwrap();
    let rows: Vec<(u32, String, String)> = t.select().iter().map(triple).collect();
    assert_eq!(
        rows,
        vec![
            (1, "alice".to_string(), "alice@x.com".to_string()),
            (2, "bob".to_string(), "bob@x.com".to_string()),
        ]
    );
}

#[test]
fn empty_file_selects_nothing() {
    let mut t = Table::new(Vec::new()).unwrap();
    assert!(t.select().is_empty());
    let c = Cursor::table_start(&mut t);
    assert!(c.end_of_table);
    assert_eq!(c.cell_num, 0);
}

#[test]
fn cursor_walks_cells() {
    let mut t = Table::new(Vec::new()).unwrap();
    t.insert(&row(1, "a", "a")).unwrap();
    t.insert(&row(2, "b", "b")).unwrap();
    let mut c = Cursor::table_start(&mut t);
    assert!(!c.end_of_table);
    assert_eq!(c.value(&mut t), (14, 305));
    c.advance(&mut t);
    assert!(!c.end_of_table);
    c.advance(&mut t);
    assert!(c.end_of_table);
    let e = Cursor::table_end(&mut t);
    assert_eq!((e.page_num, e.cell_num, e.end_of_table), (0, 2, true));
}

#[test]
fn pager_loads_flushes_and_bounds() {
    let mut store = vec![0u8; 2 * PAGE_SIZE];
    store[PAGE_SIZE + 3] = 7;
    let mut p = Pager::open(store).unwrap();
    assert_eq!(p.num_pages, 2);
    assert_eq!(p.file_length(), 2 * PAGE_SIZE as u64);
    assert_eq!(p.get_page(TABLE_MAX_PAGES), Err(PagerError::PageNumberOutOfBounds));
    assert_eq!(p.flush(1), Err(PagerError::EmptyPageFlush));
    assert_eq!(p.flush(TABLE_MAX_PAGES), Err(PagerError::PageNumberOutOfBounds));
    assert_eq!(p.get_page(1), Ok(()));
    assert_eq!(p.page(1)[3], 7);
    assert_eq!(p.get_page(4), Ok(()));
    assert_eq!(p.num_pages, 5);
    assert!(p.page(4).iter().all(|b| *b == 0));
    p.page_mut(4)[0] = 9;
    assert_eq!(p.flush(4), Ok(()));
    assert_eq!(p.store.len(), 5 * PAGE_SIZE);
    assert_eq!(p.store[4 * PAGE_SIZE], 9);
    assert_eq!(p.store[3 * PAGE_SIZE], 0);
}

#[test]
fn advance_keeps_the_end_flag() {
    let mut t = Table::new(Vec::new()).unwrap();
    for i in 0..3u32 {
        t.insert(&row(i, "n", "m")).unwrap();
    }
    let mut c = Cursor { page_num: 0, cell_num: 0, end_of_table: true };
    c.advance(&mut t);
    assert_eq!(c.cell_num, 1);
    assert!(c.end_of_table);
}

#[test]
fn cursor_value_on_another_page() {
    let mut t = Table::new(Vec::new()).unwrap();
    let c = Cursor { page_num: 3, cell_num: 12, end_of_table: false };
    assert_eq!(c.value(&mut t), (3554, 3845));
    assert!(t.pager.pages[3].is_some());
    assert_eq!(t.pager.num_pages, 4);
}

#[test]
fn open_is_lazy_on_a_nonempty_store() {
    let mut first = Table::new(Vec::new()).unwrap();
    assert_eq!(first.pager.num_pages, 1);
    assert!(first.pager.pages[0].is_some());
    assert_eq!(leaf_node_num_cells(first.pager.page(0)), 0);
    first.insert(&row(8, "h", "h@x")).unwrap();
    first.close();
    let mut store = first.pager.store.clone();
    store.extend_from_slice(&[0u8; PAGE_SIZE]);
    let mut t = Table::new(store).unwrap();
    assert_eq!(t.pager.num_pages, 2);
    assert!(t.pager.pages.iter().all(|p| p.is_none()));
    assert_eq!(t.select()[0].id, 8);
    assert!(t.pager.pages[0].is_some());
}
