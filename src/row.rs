//! One record and its fixed-width binary encoding.
use vstd::prelude::*;
use crate::layout::{
    le_u32, lemma_le_u32_round_trip, read_bytes, read_u32, splice, u32_le, write_bytes, write_u32,
    EMAIL_OFFSET, EMAIL_SIZE, ID_OFFSET, ID_SIZE, ROW_SIZE, USERNAME_OFFSET, USERNAME_SIZE,
};

verus! {

/// One record: an identifier and two zero-padded fixed-width text fields.
#[derive(Debug, Clone, PartialEq, Eq)]
pub struct Row {
    pub id: u32,
    pub username: Vec<u8>,
    pub email: Vec<u8>,
}

pub struct RowView {
    pub id: u32,
    pub username: Seq<u8>,
    pub email: Seq<u8>,
}

impl View for Row {
    type V = RowView;

    open spec fn view(&self) -> RowView {
        RowView { id: self.id, username: self.username@, email: self.email@ }
    }
}

impl RowView {
    /// Both text fields have their full fixed width.
    pub open spec fn wf(self) -> bool {
        &&& self.username.len() == USERNAME_SIZE
        &&& self.email.len() == EMAIL_SIZE
    }
}

/// `s` followed by zero bytes up to length `n`.
pub open spec fn zero_padded(s: Seq<u8>, n: nat) -> Seq<u8> {
    s + Seq::new((n - s.len()) as nat, |i: int| 0u8)
}

/// The encoding of a row: id, username, email, without padding between them.
pub open spec fn row_bytes(r: RowView) -> Seq<u8> {
    u32_le(r.id) + r.username + r.email
}

/// The row that `ROW_SIZE` encoded bytes stand for.
pub open spec fn row_of_bytes(b: Seq<u8>) -> RowView {
    RowView {
        id: le_u32(b.subrange(ID_OFFSET as int, ID_OFFSET + ID_SIZE)),
        username: b.subrange(USERNAME_OFFSET as int, USERNAME_OFFSET + USERNAME_SIZE),
        email: b.subrange(EMAIL_OFFSET as int, EMAIL_OFFSET + EMAIL_SIZE),
    }
}

/// `t` is the text held in the zero-terminated field `s`: everything before
/// the first zero byte, or all of `s` where it holds none.
pub open spec fn is_text_of(s: Seq<u8>, t: Seq<u8>) -> bool {
    &&& t.len() <= s.len()
    &&& t == s.take(t.len() as int)
    &&& forall|i: int| 0 <= i < t.len() ==> t[i] != 0u8
    &&& (t.len() == s.len() || s[t.len() as int] == 0u8)
}

/// Decoding an encoded row gives the row back.
pub proof fn lemma_row_round_trip(r: RowView)
    requires
        r.wf(),
    ensures
        row_bytes(r).len() == ROW_SIZE,
        row_of_bytes(row_bytes(r)) == r,
{
    lemma_le_u32_round_trip(r.id);
    let b = row_bytes(r);
    assert(b.subrange(0, 4) =~= u32_le(r.id));
    assert(b.subrange(4, 36) =~= r.username);
    assert(b.subrange(36, 291) =~= r.email);
}

/// A field of width `n` filled from `s` reads back as `s` where `s` holds no zero byte.
pub proof fn lemma_padded_text(s: Seq<u8>, n: nat)
    requires
        s.len() <= n,
        forall|i: int| 0 <= i < s.len() ==> s[i] != 0u8,
    ensures
        is_text_of(zero_padded(s, n), s),
{
    assert(zero_padded(s, n).take(s.len() as int) =~= s);
}

/// The text held in a zero-terminated field.
pub fn str_from_array(arr: &[u8]) -> (r: Vec<u8>)
    ensures
        is_text_of(arr@, r@),
{
    let mut r: Vec<u8> = Vec::new();
    let mut i: usize = 0;
    while i < arr.len() && arr[i] != 0u8
        invariant
            i <= arr@.len(),
            r@ == arr@.take(i as int),
            forall|k: int| 0 <= k < i ==> arr@[k] != 0u8,
        decreases arr@.len() - i,
    {
        r.push(arr[i]);
        i = i + 1;
        assert(r@ =~= arr@.take(i as int));
    }
    r
}

/// A copy of `s` padded with zero bytes to width `n`.
fn padded_field(s: &[u8], n: usize) -> (r: Vec<u8>)
    requires
        s@.len() <= n,
    ensures
        r@ == zero_padded(s@, n as nat),
{
    let mut r: Vec<u8> = Vec::with_capacity(n);
    let mut i: usize = 0;
    while i < n
        invariant
            s@.len() <= n,
            i <= n,
            r@.len() == i,
            forall|k: int| 0 <= k < i ==> r@[k] == zero_padded(s@, n as nat)[k],
        decreases n - i,
    {
        if i < s.len() {
            r.push(s[i]);
        } else {
            r.push(0u8);
        }
        i = i + 1;
    }
    assert(r@ =~= zero_padded(s@, n as nat));
    r
}

impl Row {
    /// A row with the given id whose text fields hold `username` and `email`,
    /// or `None` where either is longer than its field.
    pub fn from_fields(id: u32, username: &[u8], email: &[u8]) -> (r: Option<Row>)
        ensures
            r is Some <==> (username@.len() <= USERNAME_SIZE && email@.len() <= EMAIL_SIZE),
            r matches Some(row) ==> {
                &&& row@.wf()
                &&& row.id == id
                &&& row.username@ == zero_padded(username@, USERNAME_SIZE as nat)
                &&& row.email@ == zero_padded(email@, EMAIL_SIZE as nat)
            },
    {
        if username.len() > USERNAME_SIZE || email.len() > EMAIL_SIZE {
            return None;
        }
        let username = padded_field(username, USERNAME_SIZE);
        let email = padded_field(email, EMAIL_SIZE);
        Some(Row { id, username, email })
    }

    /// Decodes the row encoded at `bytes[at..at + ROW_SIZE]`.
    pub fn deserialize(bytes: &[u8], at: usize) -> (r: Row)
        requires
            at + ROW_SIZE <= bytes@.len(),
        ensures
            r@ == row_of_bytes(bytes@.subrange(at as int, at + ROW_SIZE)),
            r@.wf(),
    {
        let ghost b = bytes@.subrange(at as int, at + ROW_SIZE);
        let len = bytes.len();
        assert(at + ROW_SIZE <= len);
        let id = read_u32(bytes, at + ID_OFFSET);
        let username = read_bytes(bytes, at + USERNAME_OFFSET, USERNAME_SIZE);
        let email = read_bytes(bytes, at + EMAIL_OFFSET, EMAIL_SIZE);
        assert(bytes@.subrange(at + ID_OFFSET, at + ID_OFFSET + 4) =~= b.subrange(0, 4));
        assert(username@ =~= b.subrange(4, 36));
        assert(email@ =~= b.subrange(36, 291));
        Row { id, username, email }
    }

    /// Encodes this row into `buffer[at..at + ROW_SIZE]`, leaving the other bytes alone.
    pub fn serialize(&self, buffer: &mut Vec<u8>, at: usize)
        requires
            self@.wf(),
            at + ROW_SIZE <= old(buffer)@.len(),
        ensures
            final(buffer)@ == splice(old(buffer)@, at as int, row_bytes(self@)),
    {
        let len = buffer.len();
        assert(at + ROW_SIZE <= len);
        write_u32(buffer, at + ID_OFFSET, self.id);
        write_bytes(buffer, at + USERNAME_OFFSET, self.username.as_slice());
        write_bytes(buffer, at + EMAIL_OFFSET, self.email.as_slice());
        proof {
            lemma_le_u32_round_trip(self.id);
        }
        assert(final(buffer)@ =~= splice(old(buffer)@, at as int, row_bytes(self@)));
    }
}

} // verus!
