//! Types laid out over consecutive pages, as sequences of items behind a header.
use crate::codec::Record;
use crate::slab::{SlabPageAlloc, TypePages, PAGE_SIZE, TYPE_MAX, TYPE_MAX_PAGES};
use vstd::prelude::*;

verus! {

impl SlabPageAlloc {
    /// Whether entry `t` holds items of type `T` behind a header of type `H`, at least one item,
    /// over consecutive pages, the first of which is there.
    pub open spec fn laid_out<H: Record, T: Record>(self, t: int) -> bool {
        &&& 0 <= t < TYPE_MAX
        &&& self.types[t].header_size == H::spec_size()
        &&& self.types[t].lead() + T::spec_size() <= PAGE_SIZE
        &&& 0 < self.types[t].alloc_items
        &&& self.page_count::<T>(t) <= TYPE_MAX_PAGES
        &&& self.first_page(t) < self.pages@.len()
        &&& forall|i: int|
            0 <= i < self.page_count::<T>(t) ==> #[trigger] self.types[t].type_pages[i]
                == self.first_page(t) + i
    }

    /// How many items of entry `t` lie in pages of the slab: all, unless the slab ends before the
    /// type's last page.
    pub open spec fn usable<T: Record>(self, t: int) -> int {
        let paged = (self.pages@.len() - self.first_page(t)) * self.types[t].per_page(
            T::spec_size() as int,
        );
        if paged < self.types[t].alloc_items {
            paged
        } else {
            self.types[t].alloc_items as int
        }
    }

    /// The items of entry `t`.
    pub open spec fn items<T: Record>(self, t: int) -> Seq<T> {
        Seq::new(self.usable::<T>(t) as nat, |i: int| self.item::<T>(t, i))
    }

    /// Whether `other` is this slab but for pages `lo` up to `hi`.
    pub open spec fn same_outside(self, other: SlabPageAlloc, lo: int, hi: int) -> bool {
        &&& other.table == self.table
        &&& other.types == self.types
        &&& other.pages@.len() == self.pages@.len()
        &&& forall|q: int|
            0 <= q < self.pages@.len() && !(lo <= q < hi) ==> other.pages@[q] == self.pages@[q]
        &&& forall|q: int|
            0 <= q < self.pages@.len() ==> (#[trigger] other.pages@[q]).address
                == self.pages@[q].address
    }

    /// Whether `other` is this slab but for the pages of entry `t`, which holds items of type `T`.
    pub open spec fn same_but<T: Record>(self, other: SlabPageAlloc, t: int) -> bool {
        self.same_outside(other, self.first_page(t), self.first_page(t) + self.page_count::<T>(t))
    }

    /// Whether the pages of entries `a` and `b`, with items of types `A` and `B`, are different.
    pub open spec fn apart<A: Record, B: Record>(self, a: int, b: int) -> bool {
        ||| self.first_page(a) + self.page_count::<A>(a) <= self.first_page(b)
        ||| self.first_page(b) + self.page_count::<B>(b) <= self.first_page(a)
    }

    /// Every item of a type that is laid out lies in one of its pages.
    pub proof fn lemma_item_page<H: Record, T: Record>(self, t: int, i: int)
        requires
            self.laid_out::<H, T>(t),
            0 <= i < self.usable::<T>(t),
        ensures
            self.has_item::<T>(t, i),
            0 <= self.types[t].page_of(T::spec_size() as int, i) < self.page_count::<T>(t),
            self.page_of::<T>(t, i) == self.first_page(t) + self.types[t].page_of(
                T::spec_size() as int,
                i,
            ),
            self.types[t].lead() <= self.start_of::<T>(t, i),
            self.start_of::<T>(t, i) + T::spec_size() <= PAGE_SIZE,
            self.types[t].per_page(T::spec_size() as int) >= 1,
    {
        T::lemma_layout();
        let size = T::spec_size() as int;
        let spec = self.types[t];
        let room = PAGE_SIZE - spec.lead();
        let n = spec.per_page(size);
        assert(n >= 1 && n * size <= room) by (nonlinear_arith)
            requires
                room >= size,
                size > 0,
                n == room / size,
        ;
        let k = i % n;
        assert(0 <= k < n) by (nonlinear_arith)
            requires
                n >= 1,
                k == i % n,
        ;
        assert(0 <= k * size && k * size + size <= n * size) by (nonlinear_arith)
            requires
                0 <= k < n,
                size > 0,
        ;
        let held = self.pages@.len() - self.first_page(t);
        assert(i / n < held) by (nonlinear_arith)
            requires
                n >= 1,
                0 <= i < held * n,
        ;
        let items = spec.alloc_items as int;
        let count = crate::slab::pages_for(items, n);
        assert(0 <= i / n < count) by (nonlinear_arith)
            requires
                n >= 1,
                0 <= i < items,
                count == if items % n == 0 {
                    items / n
                } else {
                    items / n + 1
                },
        ;
    }

    /// A type that is laid out has at least one item, and fewer than a handle can tell apart.
    pub proof fn lemma_usable<H: Record, T: Record>(self, t: int)
        requires
            self.laid_out::<H, T>(t),
        ensures
            0 < self.usable::<T>(t) <= self.types[t].alloc_items,
            self.items::<T>(t).len() == self.usable::<T>(t),
            self.usable::<T>(t) < u32::MAX,
    {
        T::lemma_layout();
        let size = T::spec_size() as int;
        let room = PAGE_SIZE - self.types[t].lead();
        let items = self.types[t].alloc_items as int;
        let count = self.page_count::<T>(t);
        let n = self.types[t].per_page(size);
        assert(1 <= n <= room) by (nonlinear_arith)
            requires
                room >= size,
                size > 0,
                n == room / size,
        ;
        assert(items <= 16 * n) by (nonlinear_arith)
            requires
                n >= 1,
                items >= 0,
                count <= 16,
                count == if items % n == 0 {
                    items / n
                } else {
                    items / n + 1
                },
        ;
        let held = self.pages@.len() - self.first_page(t);
        assert(held * n >= 1) by (nonlinear_arith)
            requires
                held >= 1,
                n >= 1,
        ;
    }

    /// How many items of a type lie in pages of the slab.
    pub fn usable_len<H: Record, T: Record>(&self, type_id: u16) -> (r: usize)
        requires
            self.laid_out::<H, T>(type_id as int),
        ensures
            r == self.items::<T>(type_id as int).len(),
            r == self.usable::<T>(type_id as int),
    {
        proof {
            T::lemma_layout();
            self.lemma_usable::<H, T>(type_id as int);
            self.lemma_item_page::<H, T>(type_id as int, 0);
        }
        let spec: TypePages = self.types[type_id as usize];
        let per_page: usize = (PAGE_SIZE - (spec.header_size() + spec.offset_size())) / T::size_of();
        let held: usize = self.pages.len() - spec.get_page(0) as usize;
        let items: usize = spec.alloc_items();
        proof {
            let (h, p, n) = (held as int, per_page as int, items as int);
            assert((h <= n / p) == (h * p <= n)) by (nonlinear_arith)
                requires
                    p >= 1,
                    n >= 0,
            ;
            assert((n / p) * p <= n) by (nonlinear_arith)
                requires
                    p >= 1,
            ;
            assert(h <= n / p ==> h * p <= n);
            assert(h * p >= 0) by (nonlinear_arith)
                requires
                    h >= 0,
                    p >= 0,
            ;
        }
        if held <= items / per_page {
            held * per_page
        } else {
            items
        }
    }

    /// Different items do not overlap.
    proof fn lemma_items_apart(n: int, size: int, i: int, j: int)
        requires
            n >= 1,
            size > 0,
            0 <= i,
            0 <= j,
            i != j,
            i / n == j / n,
        ensures
            (i % n) * size + size <= (j % n) * size || (j % n) * size + size <= (i % n) * size,
    {
        let a = i % n;
        let b = j % n;
        assert(a != b) by (nonlinear_arith)
            requires
                n >= 1,
                i != j,
                i / n == j / n,
                a == i % n,
                b == j % n,
        ;
        if a < b {
            assert(a * size + size <= b * size) by (nonlinear_arith)
                requires
                    a < b,
                    size > 0,
            ;
        } else {
            assert(b * size + size <= a * size) by (nonlinear_arith)
                requires
                    b < a,
                    size > 0,
            ;
        }
    }

    /// A page keeps what lies outside the bytes that are written over.
    proof fn lemma_splice_outside(s: Seq<u8>, at: int, b: Seq<u8>, lo: int, hi: int)
        requires
            0 <= lo <= hi <= s.len(),
            hi <= at || at + b.len() <= lo,
        ensures
            crate::slab::splice(s, at, b).subrange(lo, hi) == s.subrange(lo, hi),
    {
        assert(crate::slab::splice(s, at, b).subrange(lo, hi) =~= s.subrange(lo, hi));
    }

    /// What is written to an item is read from it, and the type's other items and its header stay
    /// what they were.
    pub proof fn law_item_written<H: Record, T: Record>(self, other: SlabPageAlloc, t: int, i: int, value: T)
        requires
            self.laid_out::<H, T>(t),
            0 <= i < self.usable::<T>(t),
            self.rewritten(other, self.page_of::<T>(t, i), self.start_of::<T>(t, i), value.encoded()),
        ensures
            other.laid_out::<H, T>(t),
            other.items::<T>(t) == self.items::<T>(t).update(i, value),
            other.header_of::<H>(t) == self.header_of::<H>(t),
            self.same_but::<T>(other, t),
    {
        T::lemma_layout();
        H::lemma_layout();
        value.lemma_round_trip();
        self.lemma_item_page::<H, T>(t, i);
        let size = T::spec_size() as int;
        let n = self.types[t].per_page(size);
        let p = self.page_of::<T>(t, i);
        let at = self.start_of::<T>(t, i);
        assert forall|j: int| 0 <= j < self.usable::<T>(t) implies other.item::<T>(t, j)
            == #[trigger] self.items::<T>(t).update(i, value)[j] by {
            self.lemma_item_page::<H, T>(t, j);
            let q = self.page_of::<T>(t, j);
            let start = self.start_of::<T>(t, j);
            if j == i {
                assert(other.pages@[p].data@.subrange(at, at + size) =~= value.encoded());
            } else if q == p {
                Self::lemma_items_apart(n, size, i, j);
                Self::lemma_splice_outside(self.pages@[p].data@, at, value.encoded(), start, start + size);
            }
        }
        assert(other.items::<T>(t) =~= self.items::<T>(t).update(i, value));
        let lo = self.types[t].offset_size as int;
        if self.first_page(t) == p {
            Self::lemma_splice_outside(
                self.pages@[p].data@,
                at,
                value.encoded(),
                lo,
                lo + H::spec_size(),
            );
        } else {
            self.lemma_usable::<H, T>(t);
            self.lemma_item_page::<H, T>(t, 0);
        }
    }

    /// What is written to a header is read from it, and the type's items stay what they were.
    pub proof fn law_header_written<H: Record, T: Record>(self, other: SlabPageAlloc, t: int, header: H)
        requires
            self.laid_out::<H, T>(t),
            self.rewritten(
                other,
                self.first_page(t),
                self.types[t].offset_size as int,
                header.encoded(),
            ),
        ensures
            other.laid_out::<H, T>(t),
            other.items::<T>(t) == self.items::<T>(t),
            other.header_of::<H>(t) == header,
            self.same_but::<T>(other, t),
    {
        T::lemma_layout();
        H::lemma_layout();
        header.lemma_round_trip();
        let size = T::spec_size() as int;
        let p = self.first_page(t);
        let at = self.types[t].offset_size as int;
        self.lemma_usable::<H, T>(t);
        self.lemma_item_page::<H, T>(t, 0);
        assert forall|j: int| 0 <= j < self.usable::<T>(t) implies other.item::<T>(t, j)
            == #[trigger] self.items::<T>(t)[j] by {
            self.lemma_item_page::<H, T>(t, j);
            let start = self.start_of::<T>(t, j);
            if self.page_of::<T>(t, j) == p {
                Self::lemma_splice_outside(self.pages@[p].data@, at, header.encoded(), start, start + size);
            }
        }
        assert(other.items::<T>(t) =~= self.items::<T>(t));
        assert(other.pages@[p].data@.subrange(at, at + H::spec_size()) =~= header.encoded());
    }

    /// A write to the pages of one type leaves a type on other pages as it was.
    pub proof fn law_apart_kept<A: Record, H: Record, T: Record>(self, other: SlabPageAlloc, a: int, t: int)
        requires
            self.laid_out::<H, T>(t),
            self.same_but::<A>(other, a),
            self.apart::<A, T>(a, t),
        ensures
            other.laid_out::<H, T>(t),
            other.items::<T>(t) == self.items::<T>(t),
            other.header_of::<H>(t) == self.header_of::<H>(t),
    {
        self.lemma_usable::<H, T>(t);
        self.lemma_item_page::<H, T>(t, 0);
        assert forall|j: int| 0 <= j < self.usable::<T>(t) implies other.item::<T>(t, j)
            == #[trigger] self.items::<T>(t)[j] by {
            self.lemma_item_page::<H, T>(t, j);
        }
        assert(other.items::<T>(t) =~= self.items::<T>(t));
    }

    /// Reads an item of a type that is laid out.
    pub fn get<H: Record, T: Record>(&self, type_id: u16, index: usize) -> (r: T)
        requires
            self.laid_out::<H, T>(type_id as int),
            index < self.items::<T>(type_id as int).len(),
        ensures
            r == self.items::<T>(type_id as int)[index as int],
    {
        proof {
            self.lemma_usable::<H, T>(type_id as int);
            self.lemma_item_page::<H, T>(type_id as int, index as int);
        }
        self.index::<T>(type_id, index)
    }

    /// Replaces an item of a type that is laid out.
    pub fn set<H: Record, T: Record>(&mut self, type_id: u16, index: usize, value: &T)
        requires
            old(self).laid_out::<H, T>(type_id as int),
            index < old(self).items::<T>(type_id as int).len(),
        ensures
            final(self).laid_out::<H, T>(type_id as int),
            final(self).items::<T>(type_id as int) == old(self).items::<T>(type_id as int).update(
                index as int,
                *value,
            ),
            final(self).header_of::<H>(type_id as int) == old(self).header_of::<H>(type_id as int),
            old(self).same_but::<T>(*final(self), type_id as int),
    {
        proof {
            self.lemma_usable::<H, T>(type_id as int);
            self.lemma_item_page::<H, T>(type_id as int, index as int);
        }
        self.index_mut::<T>(type_id, index, value);
        proof {
            old(self).law_item_written::<H, T>(*self, type_id as int, index as int, *value);
        }
    }

    /// Reads the header of a type that is laid out.
    pub fn get_header<H: Record, T: Record>(&self, type_id: u16) -> (r: H)
        requires
            self.laid_out::<H, T>(type_id as int),
        ensures
            r == self.header_of::<H>(type_id as int),
    {
        proof {
            self.lemma_usable::<H, T>(type_id as int);
            self.lemma_item_page::<H, T>(type_id as int, 0);
        }
        self.header::<H>(type_id)
    }

    /// Replaces the header of a type that is laid out.
    pub fn set_header<H: Record, T: Record>(&mut self, type_id: u16, header: &H)
        requires
            old(self).laid_out::<H, T>(type_id as int),
        ensures
            final(self).laid_out::<H, T>(type_id as int),
            final(self).items::<T>(type_id as int) == old(self).items::<T>(type_id as int),
            final(self).header_of::<H>(type_id as int) == *header,
            old(self).same_but::<T>(*final(self), type_id as int),
    {
        proof {
            self.lemma_usable::<H, T>(type_id as int);
            self.lemma_item_page::<H, T>(type_id as int, 0);
        }
        self.header_mut::<H>(type_id, header);
        proof {
            old(self).law_header_written::<H, T>(*self, type_id as int, *header);
        }
    }
}

} // verus!
