//! The on-disk layout: a 16-byte header on every page (previous and next page
//! ids) and, on page 0 right after it, the 16-byte database header (first
//! free page and last page). Integers are 8 bytes, little-endian.
use vstd::prelude::*;
use byteorder::{ByteOrder, LittleEndian};
use crate::page::{PAGE_SIZE, PageId};

verus! {

/// The eight bytes of `n`, least significant first.
pub open spec fn le_bytes(n: u64) -> Seq<u8> {
    seq![n as u8, (n >> 8) as u8, (n >> 16) as u8, (n >> 24) as u8,
        (n >> 32) as u8, (n >> 40) as u8, (n >> 48) as u8, (n >> 56) as u8]
}

/// The number whose little-endian bytes are `b[0..8]`.
pub open spec fn le_value(b: Seq<u8>) -> u64 {
    (b[0] as u64) | ((b[1] as u64) << 8) | ((b[2] as u64) << 16) | ((b[3] as u64) << 24)
        | ((b[4] as u64) << 32) | ((b[5] as u64) << 40) | ((b[6] as u64) << 48) | ((b[7] as u64) << 56)
}

/// Relies on `LittleEndian::read_u64` of byteorder: the eight bytes at
/// `at`, least significant first (it panics on fewer than eight).
#[verifier::external_body]
pub(crate) fn read_u64_at(buf: &[u8], at: usize) -> (r: u64)
    requires
        at + 8 <= buf@.len(),
    ensures
        r == le_value(buf@.subrange(at as int, at + 8)),
{
    LittleEndian::read_u64(&buf[at..])
}

/// Relies on `LittleEndian::write_u64` of byteorder: the eight bytes of `n`,
/// least significant first, written at `at` (it panics on fewer than eight).
#[verifier::external_body]
pub(crate) fn write_u64_at(buf: &mut Vec<u8>, at: usize, n: u64)
    requires
        at + 8 <= old(buf)@.len(),
    ensures
        final(buf)@ == old(buf)@.subrange(0, at as int) + le_bytes(n)
            + old(buf)@.subrange(at + 8, old(buf)@.len() as int),
{
    LittleEndian::write_u64(&mut buf[at..], n)
}

/// Bytes of a page header.
pub const PAGE_HEADER_SIZE: usize = 16;

/// Bytes of the database header.
pub const DB_HEADER_SIZE: usize = 16;

/// Decoding eight little-endian bytes gives back the number.
pub proof fn lemma_le_round_trip(n: u64)
    ensures
        le_value(le_bytes(n)) == n,
{
    let b = le_bytes(n);
    let (b0, b1, b2, b3, b4, b5, b6, b7) = (b[0], b[1], b[2], b[3], b[4], b[5], b[6], b[7]);
    assert(b0 == n as u8 && b1 == (n >> 8) as u8 && b2 == (n >> 16) as u8 && b3 == (n >> 24) as u8);
    assert(b4 == (n >> 32) as u8 && b5 == (n >> 40) as u8 && b6 == (n >> 48) as u8 && b7 == (n >> 56) as u8);
    assert((((n as u8) as u64) | ((((n >> 8) as u8) as u64) << 8) | ((((n >> 16) as u8) as u64) << 16)
        | ((((n >> 24) as u8) as u64) << 24) | ((((n >> 32) as u8) as u64) << 32)
        | ((((n >> 40) as u8) as u64) << 40) | ((((n >> 48) as u8) as u64) << 48)
        | ((((n >> 56) as u8) as u64) << 56)) == n) by (bit_vector);
}

/// The header at the start of every page: the neighbouring pages of a chain
/// (zero ends a chain).
#[derive(Debug, PartialEq, Eq, Clone, Copy, Structural)]
pub struct PageMetadata {
    pub prev_page: PageId,
    pub next_page: PageId,
}

/// The database header, right after the page header of page 0.
#[derive(Debug, PartialEq, Eq, Clone, Copy, Structural)]
pub struct DbMetadata {
    pub first_free_page: PageId,
    pub last_page: PageId,
}

/// Two numbers as sixteen little-endian bytes.
pub open spec fn pair_bytes(a: u64, b: u64) -> Seq<u8> {
    le_bytes(a) + le_bytes(b)
}

fn write_pair(buf: &mut Vec<u8>, at: usize, a: u64, b: u64)
    requires
        at + 16 <= old(buf)@.len(),
    ensures
        final(buf)@ == old(buf)@.subrange(0, at as int) + pair_bytes(a, b)
            + old(buf)@.subrange(at + 16, old(buf)@.len() as int),
{
    let ghost b0 = buf@;
    let len = buf.len();
    write_u64_at(buf, at, a);
    write_u64_at(buf, at + 8, b);
    assert(buf@ =~= b0.subrange(0, at as int) + pair_bytes(a, b) + b0.subrange(at + 16, b0.len() as int));
}

impl PageMetadata {
    /// Decodes the header at the start of `data`.
    pub fn from_bytes(data: &[u8]) -> (r: PageMetadata)
        requires
            data@.len() >= PAGE_HEADER_SIZE,
        ensures
            r.prev_page == le_value(data@.subrange(0, 8)),
            r.next_page == le_value(data@.subrange(8, 16)),
    {
        PageMetadata { prev_page: read_u64_at(data, 0), next_page: read_u64_at(data, 8) }
    }

    /// Decodes the header of a page.
    pub fn from_page(page_data: &[u8]) -> (r: PageMetadata)
        requires
            page_data@.len() >= PAGE_HEADER_SIZE,
        ensures
            r == PageMetadata::from_bytes_spec(page_data@),
    {
        PageMetadata::from_bytes(page_data)
    }

    pub open spec fn from_bytes_spec(data: Seq<u8>) -> PageMetadata {
        PageMetadata { prev_page: le_value(data.subrange(0, 8)), next_page: le_value(data.subrange(8, 16)) }
    }

    /// The sixteen bytes of the header.
    pub open spec fn bytes_spec(&self) -> Seq<u8> {
        pair_bytes(self.prev_page, self.next_page)
    }

    /// Writes the header at `offset` of `buf`.
    pub fn write_to_buf(&self, buf: &mut Vec<u8>, offset: usize)
        requires
            offset + PAGE_HEADER_SIZE <= old(buf)@.len(),
        ensures
            final(buf)@ == old(buf)@.subrange(0, offset as int) + self.bytes_spec()
                + old(buf)@.subrange(offset + 16, old(buf)@.len() as int),
    {
        write_pair(buf, offset, self.prev_page, self.next_page);
    }
}

impl DbMetadata {
    /// Decodes the database header at the start of `data`.
    pub fn from_bytes(data: &[u8]) -> (r: DbMetadata)
        requires
            data@.len() >= DB_HEADER_SIZE,
        ensures
            r == DbMetadata::from_bytes_spec(data@),
    {
        DbMetadata { first_free_page: read_u64_at(data, 0), last_page: read_u64_at(data, 8) }
    }

    pub open spec fn from_bytes_spec(data: Seq<u8>) -> DbMetadata {
        DbMetadata { first_free_page: le_value(data.subrange(0, 8)), last_page: le_value(data.subrange(8, 16)) }
    }

    /// Decodes the database header of page 0, which follows its page header.
    pub fn from_page(page_data: &[u8]) -> (r: DbMetadata)
        requires
            page_data@.len() >= PAGE_HEADER_SIZE + DB_HEADER_SIZE,
        ensures
            r == DbMetadata::from_bytes_spec(page_data@.subrange(16, 32)),
    {
        let r = DbMetadata { first_free_page: read_u64_at(page_data, 16), last_page: read_u64_at(page_data, 24) };
        assert(page_data@.subrange(16, 32).subrange(0, 8) =~= page_data@.subrange(16, 24));
        assert(page_data@.subrange(16, 32).subrange(8, 16) =~= page_data@.subrange(24, 32));
        r
    }

    /// The sixteen bytes of the header.
    pub open spec fn bytes_spec(&self) -> Seq<u8> {
        pair_bytes(self.first_free_page, self.last_page)
    }

    /// Writes the header at `offset` of `buf`.
    pub fn write_to_buf(&self, buf: &mut Vec<u8>, offset: usize)
        requires
            offset + DB_HEADER_SIZE <= old(buf)@.len(),
        ensures
            final(buf)@ == old(buf)@.subrange(0, offset as int) + self.bytes_spec()
                + old(buf)@.subrange(offset + 16, old(buf)@.len() as int),
    {
        write_pair(buf, offset, self.first_free_page, self.last_page);
    }
}

/// Page 0's headers of a new file: an empty chain, first free page 1 and
/// last page 1.
pub open spec fn new_file_headers() -> (PageMetadata, DbMetadata) {
    (PageMetadata { prev_page: 0, next_page: 0 }, DbMetadata { first_free_page: 1, last_page: 1 })
}

/// The bytes of a newly created database file: two pages, page 0 holding an
/// empty page header and the database header `{first_free_page: 1,
/// last_page: 1}`, page 1 an empty page header; every other byte zero.
pub open spec fn new_file_spec() -> Seq<u8> {
    let zeros = |n: nat| Seq::new(n, |i: int| 0u8);
    pair_bytes(0, 0) + pair_bytes(1, 1) + zeros((PAGE_SIZE - 32) as nat)
        + pair_bytes(0, 0) + zeros((PAGE_SIZE - 16) as nat)
}

/// The initial contents of a database file (written in one go by `create`).
pub fn new_file_image() -> (r: Vec<u8>)
    ensures
        r@ == new_file_spec(),
        r@.len() == 2 * PAGE_SIZE,
{
    let (page_meta, meta) = (PageMetadata { prev_page: 0, next_page: 0 }, DbMetadata { first_free_page: 1, last_page: 1 });
    let buf_size: usize = (PAGE_SIZE * 2) as usize;
    let mut buf: Vec<u8> = Vec::new();
    let mut i: usize = 0;
    while i < buf_size
        invariant
            i <= buf_size,
            buf_size == 2 * PAGE_SIZE,
            buf@ == Seq::new(i as nat, |j: int| 0u8),
        decreases buf_size - i,
    {
        buf.push(0);
        i += 1;
        assert(buf@ =~= Seq::new(i as nat, |j: int| 0u8));
    }
    let ghost z = buf@;
    page_meta.write_to_buf(&mut buf, 0);
    meta.write_to_buf(&mut buf, PAGE_HEADER_SIZE);
    page_meta.write_to_buf(&mut buf, PAGE_SIZE as usize);
    assert(buf@ =~= new_file_spec());
    buf
}

/// Reading the headers back from a new file's bytes gives the values written.
pub proof fn lemma_new_file_headers()
    ensures
        PageMetadata::from_bytes_spec(new_file_spec()) == new_file_headers().0,
        DbMetadata::from_bytes_spec(new_file_spec().subrange(16, 32)) == new_file_headers().1,
        new_file_spec().len() == 2 * PAGE_SIZE,
{
    let f = new_file_spec();
    lemma_le_round_trip(0);
    lemma_le_round_trip(1);
    assert(f.subrange(0, 8) =~= le_bytes(0));
    assert(f.subrange(8, 16) =~= le_bytes(0));
    assert(f.subrange(16, 32).subrange(0, 8) =~= le_bytes(1));
    assert(f.subrange(16, 32).subrange(8, 16) =~= le_bytes(1));
}

/// Encoding a database header and decoding it gives it back.
pub proof fn lemma_db_header_round_trip(m: DbMetadata)
    ensures
        DbMetadata::from_bytes_spec(m.bytes_spec()) == m,
{
    lemma_le_round_trip(m.first_free_page);
    lemma_le_round_trip(m.last_page);
    assert(m.bytes_spec().subrange(0, 8) =~= le_bytes(m.first_free_page));
    assert(m.bytes_spec().subrange(8, 16) =~= le_bytes(m.last_page));
}

/// Encoding a page header and decoding it gives it back.
pub proof fn lemma_page_header_round_trip(m: PageMetadata)
    ensures
        PageMetadata::from_bytes_spec(m.bytes_spec()) == m,
{
    lemma_le_round_trip(m.prev_page);
    lemma_le_round_trip(m.next_page);
    assert(m.bytes_spec().subrange(0, 8) =~= le_bytes(m.prev_page));
    assert(m.bytes_spec().subrange(8, 16) =~= le_bytes(m.next_page));
}

} // verus!
