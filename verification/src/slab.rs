//! A page allocator over the bytes of one account.
//!
//! The bytes hold a small table and then pages of 16 KiB. A type is given consecutive pages; its
//! items lie in them one after the other, behind a header that the first page holds and for which
//! every page leaves room.
use crate::codec::{push_u16, push_u64, read_u16, read_u64, Record};
use vstd::prelude::*;

verus! {

/// Bytes in a page.
pub const PAGE_SIZE: usize = 16384;

/// Pages that the largest account can hold.
pub const PAGE_MAX: usize = 638;

/// Pages that one type can be given.
pub const TYPE_MAX_PAGES: usize = 16;

/// Types in a slab.
pub const TYPE_MAX: usize = 4;

/// Bytes of the table's head.
pub const HEADER_SIZE: usize = 2;

/// Bytes of one type's entry.
pub const TYPE_PAGES_SIZE: usize = 56;

/// Bytes of all the types' entries.
pub const TYPES_SIZE: usize = 224;

/// Bytes in front of the first page.
pub const PAGE_TABLE_SIZE: usize = 226;

/// Where the items of one type lie.
#[derive(Copy, Clone, Debug)]
pub struct TypePages {
    pub header_size: usize,
    pub offset_size: usize,
    pub alloc_items: usize,
    pub type_pages: [u16; TYPE_MAX_PAGES],
}

/// One page, and the address of its first byte.
#[derive(Copy, Clone, Debug)]
pub struct PageData {
    pub address: usize,
    pub data: [u8; PAGE_SIZE],
}

/// The head of the table: the first page that no type has been given.
#[derive(Copy, Clone, Debug)]
pub struct TypedPageTable {
    pub top_unused_page: u16,
}

/// A slab: its table and its pages.
#[derive(Debug)]
pub struct SlabPageAlloc {
    pub table: TypedPageTable,
    pub types: [TypePages; TYPE_MAX],
    pub pages: Vec<PageData>,
}

/// `s` with `b` written over it from position `at` on.
pub open spec fn splice(s: Seq<u8>, at: int, b: Seq<u8>) -> Seq<u8> {
    Seq::new(
        s.len(),
        |i: int|
            if at <= i < at + b.len() {
                b[i - at]
            } else {
                s[i]
            },
    )
}

/// How many times `per` items have to be taken to have `items` of them.
pub open spec fn pages_for(items: int, per: int) -> int {
    if items % per == 0 {
        items / per
    } else {
        items / per + 1
    }
}

impl TypePages {
    /// The entry of a type that has no pages yet.
    pub fn new() -> (r: Self)
        ensures
            r.header_size == 0,
            r.offset_size == 0,
            r.alloc_items == 0,
            forall|i: int| 0 <= i < TYPE_MAX_PAGES ==> r.type_pages[i] == 0,
    {
        TypePages { header_size: 0, offset_size: 0, alloc_items: 0, type_pages: [0u16; TYPE_MAX_PAGES] }
    }

    pub fn alloc_items(&self) -> (r: usize)
        ensures
            r == self.alloc_items,
    {
        self.alloc_items
    }

    pub fn set_alloc_items(&mut self, alloc_items: usize)
        ensures
            *final(self) == (TypePages { alloc_items, ..*old(self) }),
    {
        self.alloc_items = alloc_items;
    }

    pub fn header_size(&self) -> (r: usize)
        ensures
            r == self.header_size,
    {
        self.header_size
    }

    pub fn set_offset_size(&mut self, offset_size: usize)
        ensures
            *final(self) == (TypePages { offset_size, ..*old(self) }),
    {
        self.offset_size = offset_size;
    }

    pub fn offset_size(&self) -> (r: usize)
        ensures
            r == self.offset_size,
    {
        self.offset_size
    }

    pub fn set_header_size(&mut self, header_size: usize)
        ensures
            *final(self) == (TypePages { header_size, ..*old(self) }),
    {
        self.header_size = header_size;
    }

    pub fn get_page(self, idx: usize) -> (r: u16)
        requires
            idx < TYPE_MAX_PAGES,
        ensures
            r == self.type_pages[idx as int],
    {
        self.type_pages[idx]
    }

    pub fn set_page(&mut self, idx: usize, page: u16)
        requires
            idx < TYPE_MAX_PAGES,
        ensures
            final(self).header_size == old(self).header_size,
            final(self).offset_size == old(self).offset_size,
            final(self).alloc_items == old(self).alloc_items,
            final(self).type_pages@ == old(self).type_pages@.update(idx as int, page),
    {
        self.type_pages[idx] = page;
    }

    /// Bytes in front of the first item of a page.
    pub open spec fn lead(self) -> int {
        self.header_size + self.offset_size
    }

    /// Items of `size` bytes in a page.
    pub open spec fn per_page(self, size: int) -> int {
        (PAGE_SIZE - self.lead()) / size
    }

    /// Pages that the type's items of `size` bytes take.
    pub open spec fn page_count(self, size: int) -> int {
        pages_for(self.alloc_items as int, self.per_page(size))
    }

    /// The page of an item, counted among the type's own pages.
    pub open spec fn page_of(self, size: int, index: int) -> int {
        index / self.per_page(size)
    }

    /// The position of an item in its page.
    pub open spec fn start_of(self, size: int, index: int) -> int {
        self.lead() + (index % self.per_page(size)) * size
    }
}

impl TypedPageTable {
    pub fn new() -> (r: Self)
        ensures
            r.top_unused_page == 0,
    {
        TypedPageTable { top_unused_page: 0 }
    }
}

impl PageData {
    /// The part of the page that holds items of `T`: whole items only.
    pub fn data<T: Record>(&self, header_size: usize, offset_size: usize) -> (r: &[u8])
        requires
            header_size + offset_size <= PAGE_SIZE,
        ensures
            r@ == self.data@.subrange(
                header_size + offset_size,
                PAGE_SIZE - (PAGE_SIZE - (header_size + offset_size)) % T::spec_size() as int,
            ),
    {
        proof {
            T::lemma_layout();
        }
        let combined_size: usize = header_size + offset_size;
        let len_without_header: usize = PAGE_SIZE - combined_size;
        let slop: usize = len_without_header % T::size_of();
        proof {
            vstd::arithmetic::div_mod::lemma_mod_decreases(len_without_header as nat, T::spec_size());
        }
        let truncated_len: usize = PAGE_SIZE - slop;
        vstd::slice::slice_subrange(vstd::array::array_as_slice(&self.data), combined_size, truncated_len)
    }

    /// The address of the page's first byte.
    pub fn data_ptr(&self) -> (r: usize)
        ensures
            r == self.address,
    {
        self.address
    }

    /// Writes `bytes` over the part of the page that holds items of `T`, from position `start` of
    /// that part on.
    pub fn data_mut<T: Record>(&mut self, header_size: usize, offset_size: usize, start: usize, bytes: &[u8])
        requires
            header_size + offset_size <= PAGE_SIZE,
            header_size + offset_size + start + bytes.len() <= PAGE_SIZE - (PAGE_SIZE - (header_size
                + offset_size)) % T::spec_size() as int,
        ensures
            final(self).address == old(self).address,
            final(self).data@ == splice(old(self).data@, header_size + offset_size + start, bytes@),
    {
        proof {
            T::lemma_layout();
        }
        let at: usize = header_size + offset_size + start;
        self.write(at, bytes);
    }

    /// Writes `bytes` over the page from position `at` on.
    fn write(&mut self, at: usize, bytes: &[u8])
        requires
            at + bytes.len() <= PAGE_SIZE,
        ensures
            final(self).address == old(self).address,
            final(self).data@ == splice(old(self).data@, at as int, bytes@),
    {
        let n: usize = bytes.len();
        let mut i: usize = 0;
        while i < n
            invariant
                i <= n,
                n == bytes@.len(),
                at + n <= PAGE_SIZE,
                self.address == old(self).address,
                self.data@ == splice(old(self).data@, at as int, bytes@.subrange(0, i as int)),
            decreases n - i,
        {
            self.data[at + i] = bytes[i];
            i = i + 1;
            assert(self.data@ =~= splice(old(self).data@, at as int, bytes@.subrange(0, i as int)));
        }
        assert(bytes@.subrange(0, n as int) =~= bytes@);
        assert(self.data@ =~= splice(old(self).data@, at as int, bytes@));
    }

    /// The header of type `H` that the page holds behind `offset_size` bytes.
    pub fn header<H: Record>(&self, offset_size: usize) -> (r: H)
        requires
            offset_size + H::spec_size() <= PAGE_SIZE,
        ensures
            r == H::decoded(self.data@.subrange(offset_size as int, offset_size + H::spec_size())),
    {
        proof {
            H::lemma_layout();
        }
        let header_size: usize = H::size_of();
        H::decode(
            vstd::slice::slice_subrange(
                vstd::array::array_as_slice(&self.data),
                offset_size,
                offset_size + header_size,
            ),
        )
    }

    /// Replaces that header.
    pub fn header_mut<H: Record>(&mut self, offset_size: usize, header: &H)
        requires
            offset_size + H::spec_size() <= PAGE_SIZE,
        ensures
            final(self).address == old(self).address,
            final(self).data@ == splice(old(self).data@, offset_size as int, header.encoded()),
    {
        proof {
            header.lemma_round_trip();
        }
        let bytes = header.encode();
        self.write(offset_size, bytes.as_slice());
    }
}

impl Record for TypedPageTable {
    open spec fn spec_size() -> nat {
        2
    }

    open spec fn spec_align() -> nat {
        1
    }

    open spec fn encoded(&self) -> Seq<u8> {
        crate::codec::u16_bytes(self.top_unused_page)
    }

    open spec fn decoded(bytes: Seq<u8>) -> Self {
        TypedPageTable { top_unused_page: crate::codec::u16_at(bytes, 0) }
    }

    proof fn lemma_layout() {
    }

    proof fn lemma_round_trip(&self) {
        crate::codec::lemma_integers();
        let s = self.encoded();
        assert(s.subrange(0, 2) =~= s);
    }

    fn size_of() -> (r: usize) {
        HEADER_SIZE
    }

    fn align_of() -> (r: usize) {
        1
    }

    fn encode(&self) -> (r: Vec<u8>) {
        let mut out: Vec<u8> = Vec::new();
        push_u16(&mut out, self.top_unused_page);
        assert(out@ =~= self.encoded());
        out
    }

    fn decode(bytes: &[u8]) -> (r: Self) {
        TypedPageTable { top_unused_page: read_u16(bytes, 0) }
    }
}

/// The first `n` page numbers, one after the other.
pub open spec fn page_numbers_bytes(pages: Seq<u16>, n: nat) -> Seq<u8>
    decreases n,
{
    if n == 0 {
        Seq::empty()
    } else {
        page_numbers_bytes(pages, (n - 1) as nat) + crate::codec::u16_bytes(pages[n - 1])
    }
}

proof fn lemma_page_numbers(pages: Seq<u16>, n: nat)
    ensures
        page_numbers_bytes(pages, n).len() == 2 * n,
        forall|i: int|
            0 <= i < n ==> (#[trigger] page_numbers_bytes(pages, n).subrange(2 * i, 2 * i + 2))
                == crate::codec::u16_bytes(pages[i]),
    decreases n,
{
    crate::codec::lemma_integers();
    if n > 0 {
        lemma_page_numbers(pages, (n - 1) as nat);
        let before = page_numbers_bytes(pages, (n - 1) as nat);
        let all = page_numbers_bytes(pages, n);
        assert forall|i: int| 0 <= i < n implies (#[trigger] all.subrange(2 * i, 2 * i + 2))
            == crate::codec::u16_bytes(pages[i]) by {
            if i < n - 1 {
                assert(all.subrange(2 * i, 2 * i + 2) =~= before.subrange(2 * i, 2 * i + 2));
            } else {
                assert(all.subrange(2 * i, 2 * i + 2) =~= crate::codec::u16_bytes(pages[i]));
            }
        }
    }
}

/// The array of the given page numbers.
pub open spec fn page_numbers(pages: Seq<u16>) -> [u16; TYPE_MAX_PAGES] {
    choose|a: [u16; TYPE_MAX_PAGES]| a@ == pages
}

proof fn lemma_page_numbers_array(a: [u16; TYPE_MAX_PAGES])
    ensures
        page_numbers(a@) == a,
{
    assert(a@ == a@);
    assert(page_numbers(a@)@ == a@);
    assert(page_numbers(a@) =~= a);
}

impl Record for TypePages {
    open spec fn spec_size() -> nat {
        56
    }

    open spec fn spec_align() -> nat {
        1
    }

    open spec fn encoded(&self) -> Seq<u8> {
        crate::codec::u64_bytes(self.header_size as u64) + crate::codec::u64_bytes(
            self.offset_size as u64,
        ) + crate::codec::u64_bytes(self.alloc_items as u64) + page_numbers_bytes(
            self.type_pages@,
            TYPE_MAX_PAGES as nat,
        )
    }

    open spec fn decoded(bytes: Seq<u8>) -> Self {
        TypePages {
            header_size: crate::codec::u64_at(bytes, 0) as usize,
            offset_size: crate::codec::u64_at(bytes, 8) as usize,
            alloc_items: crate::codec::u64_at(bytes, 16) as usize,
            type_pages: page_numbers(
                Seq::new(TYPE_MAX_PAGES as nat, |i: int| crate::codec::u16_at(bytes, 24 + 2 * i)),
            ),
        }
    }

    proof fn lemma_layout() {
    }

    proof fn lemma_round_trip(&self) {
        crate::codec::lemma_integers();
        let s = self.encoded();
        let tail = page_numbers_bytes(self.type_pages@, TYPE_MAX_PAGES as nat);
        lemma_page_numbers(self.type_pages@, TYPE_MAX_PAGES as nat);
        assert(s.subrange(0, 8) =~= crate::codec::u64_bytes(self.header_size as u64));
        assert(s.subrange(8, 16) =~= crate::codec::u64_bytes(self.offset_size as u64));
        assert(s.subrange(16, 24) =~= crate::codec::u64_bytes(self.alloc_items as u64));
        let pages = Seq::new(TYPE_MAX_PAGES as nat, |i: int| crate::codec::u16_at(s, 24 + 2 * i));
        assert forall|i: int| 0 <= i < TYPE_MAX_PAGES implies pages[i] == self.type_pages@[i] by {
            assert(s.subrange(24 + 2 * i, 24 + 2 * i + 2) =~= tail.subrange(2 * i, 2 * i + 2));
            assert(crate::codec::u16_at(s, 24 + 2 * i) == self.type_pages@[i]);
        }
        assert(pages =~= self.type_pages@);
        lemma_page_numbers_array(self.type_pages);
    }

    fn size_of() -> (r: usize) {
        TYPE_PAGES_SIZE
    }

    fn align_of() -> (r: usize) {
        1
    }

    fn encode(&self) -> (r: Vec<u8>) {
        let mut out: Vec<u8> = Vec::new();
        push_u64(&mut out, self.header_size as u64);
        push_u64(&mut out, self.offset_size as u64);
        push_u64(&mut out, self.alloc_items as u64);
        let ghost head = out@;
        let mut i: usize = 0;
        while i < TYPE_MAX_PAGES
            invariant
                i <= TYPE_MAX_PAGES,
                out@ == head + page_numbers_bytes(self.type_pages@, i as nat),
            decreases TYPE_MAX_PAGES - i,
        {
            push_u16(&mut out, self.type_pages[i]);
            i = i + 1;
            assert(out@ =~= head + page_numbers_bytes(self.type_pages@, i as nat));
        }
        assert(out@ =~= self.encoded());
        out
    }

    fn decode(bytes: &[u8]) -> (r: Self) {
        let mut type_pages: [u16; TYPE_MAX_PAGES] = [0u16; TYPE_MAX_PAGES];
        let mut i: usize = 0;
        while i < TYPE_MAX_PAGES
            invariant
                i <= TYPE_MAX_PAGES,
                bytes@.len() == 56,
                forall|j: int| 0 <= j < i ==> type_pages@[j] == crate::codec::u16_at(bytes@, 24 + 2 * j),
            decreases TYPE_MAX_PAGES - i,
        {
            type_pages[i] = read_u16(bytes, 24 + 2 * i);
            i = i + 1;
        }
        proof {
            assert(type_pages@ =~= Seq::new(
                TYPE_MAX_PAGES as nat,
                |i: int| crate::codec::u16_at(bytes@, 24 + 2 * i),
            ));
            lemma_page_numbers_array(type_pages);
        }
        TypePages {
            header_size: read_u64(bytes, 0) as usize,
            offset_size: read_u64(bytes, 8) as usize,
            alloc_items: read_u64(bytes, 16) as usize,
            type_pages,
        }
    }
}

} // verus!
