//! Reading and writing the typed items of a slab.
use crate::codec::Record;
use crate::slab::{
    PageData, SlabPageAlloc, TypePages, TypedPageTable, HEADER_SIZE, PAGE_MAX, PAGE_SIZE,
    PAGE_TABLE_SIZE, TYPE_MAX, TYPE_MAX_PAGES, TYPE_PAGES_SIZE,
};
use vstd::prelude::*;

verus! {

impl SlabPageAlloc {
    /// The first page of a type.
    pub open spec fn first_page(self, t: int) -> int {
        self.types[t].type_pages[0] as int
    }

    /// Pages that the items of type `T` of entry `t` take.
    pub open spec fn page_count<T: Record>(self, t: int) -> int {
        self.types[t].page_count(T::spec_size() as int)
    }

    /// The page that holds an item.
    pub open spec fn page_of<T: Record>(self, t: int, index: int) -> int {
        self.types[t].type_pages[self.types[t].page_of(T::spec_size() as int, index)] as int
    }

    /// The position of an item in its page.
    pub open spec fn start_of<T: Record>(self, t: int, index: int) -> int {
        self.types[t].start_of(T::spec_size() as int, index)
    }

    /// Whether there is an item at `index`, all of it in a page of the slab.
    pub open spec fn has_item<T: Record>(self, t: int, index: int) -> bool {
        &&& 0 <= t < TYPE_MAX
        &&& 0 <= index < self.types[t].alloc_items
        &&& self.types[t].lead() + T::spec_size() <= PAGE_SIZE
        &&& self.types[t].page_of(T::spec_size() as int, index) < TYPE_MAX_PAGES
        &&& self.page_of::<T>(t, index) < self.pages@.len()
    }

    /// The item at `index`.
    pub open spec fn item<T: Record>(self, t: int, index: int) -> T {
        let start = self.start_of::<T>(t, index);
        T::decoded(
            self.pages@[self.page_of::<T>(t, index)].data@.subrange(start, start + T::spec_size()),
        )
    }

    /// Whether there is a header, all of it in a page of the slab.
    pub open spec fn has_header<H: Record>(self, t: int) -> bool {
        &&& 0 <= t < TYPE_MAX
        &&& self.types[t].offset_size + H::spec_size() <= PAGE_SIZE
        &&& self.first_page(t) < self.pages@.len()
    }

    /// The header of a type.
    pub open spec fn header_of<H: Record>(self, t: int) -> H {
        let start = self.types[t].offset_size as int;
        H::decoded(self.pages@[self.first_page(t)].data@.subrange(start, start + H::spec_size()))
    }

    /// Whether `other` is this slab with `bytes` written over page `p` from position `at` on.
    pub open spec fn rewritten(self, other: SlabPageAlloc, p: int, at: int, bytes: Seq<u8>) -> bool {
        &&& other.table == self.table
        &&& other.types == self.types
        &&& other.pages@.len() == self.pages@.len()
        &&& 0 <= p < self.pages@.len()
        &&& forall|q: int| 0 <= q < self.pages@.len() && q != p ==> other.pages@[q] == self.pages@[q]
        &&& other.pages@[p].address == self.pages@[p].address
        &&& other.pages@[p].data@ == crate::slab::splice(self.pages@[p].data@, at, bytes)
    }

    /// The table's bytes and the pages', the first `n` of them.
    pub open spec fn pages_bytes(pages: Seq<PageData>, n: nat) -> Seq<u8>
        decreases n,
    {
        if n == 0 {
            Seq::empty()
        } else {
            Self::pages_bytes(pages, (n - 1) as nat) + pages[n - 1].data@
        }
    }

    pub open spec fn types_bytes(types: Seq<TypePages>, n: nat) -> Seq<u8>
        decreases n,
    {
        if n == 0 {
            Seq::empty()
        } else {
            Self::types_bytes(types, (n - 1) as nat) + types[n - 1].encoded()
        }
    }

    /// The bytes of the whole slab.
    pub open spec fn bytes(self) -> Seq<u8> {
        self.table.encoded() + Self::types_bytes(self.types@, TYPE_MAX as nat) + Self::pages_bytes(
            self.pages@,
            self.pages@.len(),
        )
    }

    /// Whether the slab is what `bytes`, the first of them at `address`, hold: the table, and as
    /// many whole pages as there are behind it.
    pub open spec fn holds(self, bytes: Seq<u8>, address: int) -> bool {
        &&& self.table == TypedPageTable::decoded(bytes.subrange(0, 2))
        &&& forall|i: int|
            0 <= i < TYPE_MAX ==> #[trigger] self.types[i] == TypePages::decoded(
                bytes.subrange(2 + 56 * i, 2 + 56 * i + 56),
            )
        &&& self.pages@.len() == (bytes.len() - PAGE_TABLE_SIZE) / PAGE_SIZE as int
        &&& forall|k: int|
            0 <= k < self.pages@.len() ==> (#[trigger] self.pages@[k]).address == address
                + PAGE_TABLE_SIZE + k * PAGE_SIZE && self.pages@[k].data@ == bytes.subrange(
                PAGE_TABLE_SIZE + k * PAGE_SIZE,
                PAGE_TABLE_SIZE + k * PAGE_SIZE + PAGE_SIZE,
            )
    }

    /// The slab that `bytes` hold; `address` is where the first of them lies. Bytes behind the
    /// last whole page are left out.
    pub fn new(bytes: &[u8], address: usize) -> (r: SlabPageAlloc)
        requires
            bytes.len() >= PAGE_TABLE_SIZE,
            address + bytes.len() <= usize::MAX,
        ensures
            r.holds(bytes@, address as int),
    {
        let table = TypedPageTable::decode(vstd::slice::slice_subrange(bytes, 0, HEADER_SIZE));
        let mut types: [TypePages; TYPE_MAX] = [TypePages::new();TYPE_MAX];
        let mut i: usize = 0;
        while i < TYPE_MAX
            invariant
                i <= TYPE_MAX,
                bytes.len() >= PAGE_TABLE_SIZE,
                forall|j: int|
                    0 <= j < i ==> #[trigger] types@[j] == TypePages::decoded(
                        bytes@.subrange(2 + 56 * j, 2 + 56 * j + 56),
                    ),
            decreases TYPE_MAX - i,
        {
            let at: usize = HEADER_SIZE + TYPE_PAGES_SIZE * i;
            types[i] = TypePages::decode(vstd::slice::slice_subrange(bytes, at, at + TYPE_PAGES_SIZE));
            i = i + 1;
        }
        let count: usize = (bytes.len() - PAGE_TABLE_SIZE) / PAGE_SIZE;
        let mut pages: Vec<PageData> = Vec::new();
        let mut k: usize = 0;
        while k < count
            invariant
                k <= count,
                pages@.len() == k,
                address + bytes.len() <= usize::MAX,
                PAGE_TABLE_SIZE + count * PAGE_SIZE <= bytes.len(),
                forall|j: int|
                    0 <= j < k ==> (#[trigger] pages@[j]).address == address + PAGE_TABLE_SIZE + j
                        * PAGE_SIZE && pages@[j].data@ == bytes@.subrange(
                        PAGE_TABLE_SIZE + j * PAGE_SIZE,
                        PAGE_TABLE_SIZE + j * PAGE_SIZE + PAGE_SIZE,
                    ),
            decreases count - k,
        {
            let at: usize = PAGE_TABLE_SIZE + k * PAGE_SIZE;
            let mut data: [u8; PAGE_SIZE] = [0u8; PAGE_SIZE];
            let mut b: usize = 0;
            while b < PAGE_SIZE
                invariant
                    b <= PAGE_SIZE,
                    at + PAGE_SIZE <= bytes.len(),
                    forall|j: int| 0 <= j < b ==> data@[j] == bytes@[at + j],
                decreases PAGE_SIZE - b,
            {
                data[b] = bytes[at + b];
                b = b + 1;
            }
            assert(data@ =~= bytes@.subrange(at as int, at + PAGE_SIZE));
            pages.push(PageData { address: address + at, data });
            k = k + 1;
        }
        SlabPageAlloc { table, types, pages }
    }

    /// The bytes of the slab.
    pub fn to_bytes(&self) -> (r: Vec<u8>)
        ensures
            r@ == self.bytes(),
    {
        let mut out: Vec<u8> = self.table.encode();
        let ghost head = out@;
        let mut i: usize = 0;
        while i < TYPE_MAX
            invariant
                i <= TYPE_MAX,
                out@ == head + Self::types_bytes(self.types@, i as nat),
            decreases TYPE_MAX - i,
        {
            let mut b = self.types[i].encode();
            out.append(&mut b);
            i = i + 1;
            assert(out@ =~= head + Self::types_bytes(self.types@, i as nat));
        }
        let ghost front = out@;
        let count: usize = self.pages.len();
        let mut k: usize = 0;
        while k < count
            invariant
                k <= count,
                count == self.pages@.len(),
                out@ == front + Self::pages_bytes(self.pages@, k as nat),
            decreases count - k,
        {
            let mut b = vstd::slice::slice_to_vec(vstd::array::array_as_slice(&self.pages[k].data));
            out.append(&mut b);
            k = k + 1;
            assert(out@ =~= front + Self::pages_bytes(self.pages@, k as nat));
        }
        out
    }

    /// Empties the table: no page is taken and no type has items.
    pub fn setup_page_table(&mut self)
        ensures
            final(self).table.top_unused_page == 0,
            forall|t: int|
                0 <= t < TYPE_MAX ==> (#[trigger] final(self).types[t]).alloc_items == 0
                    && final(self).types[t].header_size == 0 && final(self).types[t].offset_size == 0
                    && forall|i: int|
                    0 <= i < TYPE_MAX_PAGES ==> final(self).types[t].type_pages[i] == 0,
            final(self).pages@ == old(self).pages@,
    {
        self.table = TypedPageTable::new();
        let mut i: usize = 0;
        while i < TYPE_MAX
            invariant
                i <= TYPE_MAX,
                self.table.top_unused_page == 0,
                self.pages@ == old(self).pages@,
                forall|t: int|
                    0 <= t < i ==> (#[trigger] self.types[t]).alloc_items == 0
                        && self.types[t].header_size == 0 && self.types[t].offset_size == 0
                        && forall|i: int|
                        0 <= i < TYPE_MAX_PAGES ==> self.types[t].type_pages[i] == 0,
            decreases TYPE_MAX - i,
        {
            self.types[i] = TypePages::new();
            i = i + 1;
        }
    }
}

impl SlabPageAlloc {
    /// The padding in front of a header of type `H` in the first page that is not taken.
    pub open spec fn padding<H: Record>(self) -> int {
        H::spec_align() - self.pages@[self.table.top_unused_page as int].address as int
            % H::spec_align() as int
    }

    /// Pages that `items` items of type `T` behind a header of type `H` would take now.
    pub open spec fn pages_needed<H: Record, T: Record>(self, items: int) -> int {
        crate::slab::pages_for(
            items,
            (PAGE_SIZE - (H::spec_size() + self.padding::<H>())) / T::spec_size() as int,
        )
    }

    /// Gives type `type_id` the next free pages, as many as `items` items of type `T` behind a
    /// header of type `H` take, and returns how many that are. A type that has items already is
    /// refused, though the sizes of its header and padding are set even then.
    pub fn allocate<H: Record, T: Record>(&mut self, type_id: u16, items: usize) -> (r: Result<usize, ()>)
        requires
            type_id < TYPE_MAX,
            old(self).table.top_unused_page < old(self).pages@.len(),
            old(self).types[type_id as int].alloc_items == 0 ==> old(self).pages_needed::<H, T>(
                items as int,
            ) <= TYPE_MAX_PAGES && old(self).table.top_unused_page + old(self).pages_needed::<H, T>(
                items as int,
            ) <= PAGE_MAX,
        ensures
            r is Err <==> old(self).types[type_id as int].alloc_items > 0,
            final(self).pages@ == old(self).pages@,
            forall|t: int|
                0 <= t < TYPE_MAX && t != type_id ==> final(self).types[t] == old(self).types[t],
            final(self).types[type_id as int].header_size == H::spec_size(),
            final(self).types[type_id as int].offset_size == old(self).padding::<H>(),
            r is Err ==> final(self).table == old(self).table
                && final(self).types[type_id as int].alloc_items
                == old(self).types[type_id as int].alloc_items
                && final(self).types[type_id as int].type_pages
                == old(self).types[type_id as int].type_pages,
            r matches Ok(n) ==> {
                &&& n == old(self).pages_needed::<H, T>(items as int)
                &&& final(self).table.top_unused_page == old(self).table.top_unused_page + n
                &&& final(self).types[type_id as int].alloc_items == items
                &&& forall|i: int|
                    0 <= i < TYPE_MAX_PAGES ==> #[trigger] final(self).types[type_id as int].type_pages[i]
                        == if i < n {
                        (old(self).table.top_unused_page + i) as u16
                    } else {
                        old(self).types[type_id as int].type_pages[i]
                    }
            },
    {
        proof {
            H::lemma_layout();
            T::lemma_layout();
        }
        let item_size: usize = T::size_of();
        let header_size: usize = H::size_of();
        let top: u16 = self.table.top_unused_page;
        let page_ptr: usize = self.pages[top as usize].data_ptr();
        let header_align: usize = H::align_of();
        let offset_size: usize = header_align - (page_ptr % header_align);
        let mut type_spec: TypePages = self.types[type_id as usize];
        type_spec.set_offset_size(offset_size);
        type_spec.set_header_size(header_size);
        proof {
            let room = PAGE_SIZE - (offset_size + header_size);
            assert(room / item_size as int >= 1) by (nonlinear_arith)
                requires
                    room >= item_size,
                    item_size > 0,
            ;
        }
        let items_per_page: usize = (PAGE_SIZE - (offset_size + header_size)) / item_size;
        let mut pages: usize = items / items_per_page;
        if items % items_per_page != 0 {
            proof {
                assert(items as int / items_per_page as int + 1 <= usize::MAX) by (nonlinear_arith)
                    requires
                        0 <= items <= usize::MAX,
                        items_per_page >= 1,
                        items as int % items_per_page as int != 0,
                ;
            }
            pages = pages + 1;
        }
        if type_spec.alloc_items() > 0 {
            self.types[type_id as usize] = type_spec;
            return Err(());
        }
        type_spec.set_alloc_items(items);
        let ghost given = self.types[type_id as int].type_pages;
        let mut i: usize = 0;
        while i < pages
            invariant
                i <= pages,
                pages <= TYPE_MAX_PAGES,
                top + pages <= PAGE_MAX,
                type_spec.header_size == header_size,
                type_spec.offset_size == offset_size,
                type_spec.alloc_items == items,
                forall|j: int|
                    0 <= j < TYPE_MAX_PAGES ==> #[trigger] type_spec.type_pages[j] == if j < i {
                        (top + j) as u16
                    } else {
                        given[j]
                    },
            decreases pages - i,
        {
            let page: u16 = top + i as u16;
            type_spec.set_page(i, page);
            i = i + 1;
        }
        self.types[type_id as usize] = type_spec;
        self.table.top_unused_page = top + pages as u16;
        Ok(pages)
    }

    /// How many items a type has.
    pub fn len(&self, type_id: u16) -> (r: usize)
        requires
            type_id < TYPE_MAX,
        ensures
            r == self.types[type_id as int].alloc_items,
    {
        self.types[type_id as usize].alloc_items()
    }

    proof fn lemma_start_fits(spec: TypePages, size: int, index: int)
        requires
            0 < size,
            0 <= index,
            0 <= spec.lead(),
            spec.lead() + size <= PAGE_SIZE,
        ensures
            spec.per_page(size) >= 1,
            0 <= index % spec.per_page(size),
            spec.start_of(size, index) + size <= PAGE_SIZE - (PAGE_SIZE - spec.lead()) % size,
            0 <= (index % spec.per_page(size)) * size,
            0 <= (PAGE_SIZE - spec.lead()) % size,
            0 <= spec.page_of(size, index) <= index,
    {
        let room = PAGE_SIZE - spec.lead();
        let n = spec.per_page(size);
        assert(n >= 1 && n * size == room - room % size && 0 <= room % size) by (nonlinear_arith)
            requires
                room >= size,
                size > 0,
                n == room / size,
        ;
        let k = index % n;
        assert(0 <= k < n) by (nonlinear_arith)
            requires
                n >= 1,
                k == index % n,
        ;
        assert(0 <= k * size && k * size + size <= n * size) by (nonlinear_arith)
            requires
                0 <= k < n,
                size > 0,
        ;
        assert(0 <= index / n <= index) by (nonlinear_arith)
            requires
                n >= 1,
                0 <= index,
        ;
    }

    /// Reads the item at `index`.
    pub fn index<T: Record>(&self, type_id: u16, index: usize) -> (r: T)
        requires
            self.has_item::<T>(type_id as int, index as int),
        ensures
            r == self.item::<T>(type_id as int, index as int),
    {
        proof {
            T::lemma_layout();
            Self::lemma_start_fits(self.types[type_id as int], T::spec_size() as int, index as int);
        }
        let type_spec: TypePages = self.types[type_id as usize];
        let header_size: usize = type_spec.header_size();
        let offset_size: usize = type_spec.offset_size();
        let inst_size: usize = T::size_of();
        let inst_per_page: usize = (PAGE_SIZE - (header_size + offset_size)) / inst_size;
        let index_page: usize = index / inst_per_page;
        let index_offset: usize = index % inst_per_page;
        let page_idx: u16 = type_spec.get_page(index_page);
        let page_data: &PageData = &self.pages[page_idx as usize];
        let data_slice: &[u8] = page_data.data::<T>(header_size, offset_size);
        let start: usize = index_offset * inst_size;
        let end: usize = start + inst_size;
        let inst_bytes: &[u8] = vstd::slice::slice_subrange(data_slice, start, end);
        proof {
            let at = self.start_of::<T>(type_id as int, index as int);
            assert(inst_bytes@ =~= page_data.data@.subrange(at, at + T::spec_size()));
        }
        T::decode(inst_bytes)
    }

    /// Replaces the item at `index`.
    pub fn index_mut<T: Record>(&mut self, type_id: u16, index: usize, value: &T)
        requires
            old(self).has_item::<T>(type_id as int, index as int),
        ensures
            old(self).rewritten(
                *final(self),
                old(self).page_of::<T>(type_id as int, index as int),
                old(self).start_of::<T>(type_id as int, index as int),
                value.encoded(),
            ),
    {
        proof {
            T::lemma_layout();
            value.lemma_round_trip();
            Self::lemma_start_fits(self.types[type_id as int], T::spec_size() as int, index as int);
        }
        let type_spec: TypePages = self.types[type_id as usize];
        let header_size: usize = type_spec.header_size();
        let offset_size: usize = type_spec.offset_size();
        let inst_size: usize = T::size_of();
        let inst_per_page: usize = (PAGE_SIZE - (header_size + offset_size)) / inst_size;
        let index_page: usize = index / inst_per_page;
        let index_offset: usize = index % inst_per_page;
        let page_idx: u16 = type_spec.get_page(index_page);
        let start: usize = index_offset * inst_size;
        let bytes = value.encode();
        self.pages[page_idx as usize].data_mut::<T>(header_size, offset_size, start, bytes.as_slice());
    }

    /// Reads the header of a type.
    pub fn header<H: Record>(&self, type_id: u16) -> (r: H)
        requires
            self.has_header::<H>(type_id as int),
        ensures
            r == self.header_of::<H>(type_id as int),
    {
        let type_spec: TypePages = self.types[type_id as usize];
        let offset_size: usize = type_spec.offset_size();
        let page_idx: u16 = type_spec.get_page(0);
        self.pages[page_idx as usize].header::<H>(offset_size)
    }

    /// Replaces the header of a type.
    pub fn header_mut<H: Record>(&mut self, type_id: u16, header: &H)
        requires
            old(self).has_header::<H>(type_id as int),
        ensures
            old(self).rewritten(
                *final(self),
                old(self).first_page(type_id as int),
                old(self).types[type_id as int].offset_size as int,
                header.encoded(),
            ),
    {
        let type_spec: TypePages = self.types[type_id as usize];
        let offset_size: usize = type_spec.offset_size();
        let page_idx: u16 = type_spec.get_page(0);
        self.pages[page_idx as usize].header_mut::<H>(offset_size, header);
    }
}

} // verus!
