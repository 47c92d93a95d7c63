//! Windows of a fixed size over a sequence.
use vstd::prelude::*;
use vstd::slice::slice_subrange;

verus! {

/// How many windows of `size` items it takes to cover `len` items.
pub open spec fn page_count(len: nat, size: nat) -> nat {
    if len == 0 {
        0
    } else {
        ((len - 1) as nat / size + 1) as nat
    }
}

/// The items of window `page`, or `None` past the last window.
pub open spec fn page_of<T>(items: Seq<T>, size: nat, page: nat) -> Option<Seq<T>> {
    if page * size < items.len() {
        let start = page * size;
        let end = if items.len() < start + size {
            items.len() as int
        } else {
            (start + size) as int
        };
        Some(items.subrange(start as int, end))
    } else {
        None
    }
}

/// A window exists exactly below the page count.
pub proof fn lemma_page_exists(len: nat, size: nat, page: nat)
    requires
        size > 0,
    ensures
        page * size < len <==> page < page_count(len, size),
{
    if len > 0 {
        let q = (len - 1) as nat / size;
        let r = (len - 1) as nat % size;
        assert((len - 1) as nat == q * size + r && r < size) by (nonlinear_arith)
            requires
                size > 0,
                q == (len - 1) as nat / size,
                r == (len - 1) as nat % size,
        ;
        if page <= q {
            assert(page * size <= q * size) by (nonlinear_arith)
                requires
                    page <= q,
            ;
        } else {
            assert(page * size >= (q + 1) * size) by (nonlinear_arith)
                requires
                    page >= q + 1,
            ;
            assert((q + 1) * size == q * size + size) by (nonlinear_arith);
        }
    }
}

/// The windows hold exactly the items of the sequence: an item is in the
/// sequence when, and only when, some window holds it.
pub proof fn lemma_pages_cover<T>(items: Seq<T>, size: nat, x: T)
    requires
        size > 0,
    ensures
        items.contains(x) <==> exists|i: nat|
            #[trigger] page_of(items, size, i) matches Some(w) && w.contains(x),
{
    if items.contains(x) {
        let j = choose|j: int| 0 <= j < items.len() && items[j] == x;
        let i = (j / size as int) as nat;
        assert(i * size <= j < i * size + size) by (nonlinear_arith)
            requires
                i == j / size as int,
                j >= 0,
                size > 0,
        ;
        let start = i * size;
        let end = if items.len() < start + size {
            items.len() as int
        } else {
            (start + size) as int
        };
        let w = items.subrange(start as int, end);
        assert(w[j - start] == x);
        assert(page_of(items, size, i) == Some(w));
    }
    if exists|i: nat| #[trigger] page_of(items, size, i) matches Some(w) && w.contains(x) {
        let i = choose|i: nat| #[trigger] page_of(items, size, i) matches Some(w) && w.contains(x);
        let w = page_of(items, size, i)->Some_0;
        let k = choose|k: int| 0 <= k < w.len() && w[k] == x;
        assert(items[i * size + k] == x);
    }
}

/// Walks a sequence in windows of a fixed size: window `i` holds the items
/// from `i * per_page` up to the next `per_page`, or to the end.
#[derive(Debug)]
pub struct Paginator<'a, T> {
    container: &'a [T],
    curr_page: usize,
    per_page: usize,
}

impl<'a, T> Paginator<'a, T> {
    #[verifier::type_invariant]
    spec fn positive_page_size(&self) -> bool {
        self.per_page > 0
    }

    pub closed spec fn items(&self) -> Seq<T> {
        self.container@
    }

    pub closed spec fn page_size(&self) -> nat {
        self.per_page as nat
    }

    /// The window that `next` yields next.
    pub closed spec fn position(&self) -> nat {
        self.curr_page as nat
    }

    pub fn new(container: &'a [T], per_page: usize) -> (r: Self)
        requires
            per_page > 0,
        ensures
            r.items() == container@,
            r.page_size() == per_page,
            r.position() == 0,
    {
        Paginator { container, curr_page: 0, per_page }
    }

    /// Window `page`, if there are items from `page * page_size` on.
    pub fn at(&self, page: usize) -> (r: Option<&'a [T]>)
        ensures
            match r {
                Some(s) => page_of(self.items(), self.page_size(), page as nat) == Some(s@),
                None => page_of(self.items(), self.page_size(), page as nat) is None,
            },
    {
        proof {
            use_type_invariant(self);
        }
        let len = self.container.len();
        proof {
            lemma_page_exists(len as nat, self.per_page as nat, page as nat);
        }
        if page >= self.len() {
            return None;
        }
        assert(page * self.per_page < len);
        let start = page * self.per_page;
        let end = if len - start < self.per_page {
            len
        } else {
            start + self.per_page
        };
        Some(slice_subrange(self.container, start, end))
    }

    /// How many windows there are.
    pub fn len(&self) -> (r: usize)
        ensures
            r == page_count(self.items().len(), self.page_size()),
    {
        proof {
            use_type_invariant(self);
        }
        let len = self.container.len();
        if len == 0 {
            0
        } else {
            (len - 1) / self.per_page + 1
        }
    }

    /// The window at the current position, then the position moves on; past
    /// the last window it stays and gives `None`.
    pub fn next(&mut self) -> (r: Option<&'a [T]>)
        ensures
            final(self).items() == old(self).items(),
            final(self).page_size() == old(self).page_size(),
            match r {
                Some(s) => {
                    &&& page_of(old(self).items(), old(self).page_size(), old(self).position())
                        == Some(s@)
                    &&& final(self).position() == old(self).position() + 1
                },
                None => {
                    &&& page_of(old(self).items(), old(self).page_size(), old(self).position()) is None
                    &&& final(self).position() == old(self).position()
                },
            },
    {
        proof {
            use_type_invariant(&*self);
        }
        let len = self.container.len();
        let r = self.at(self.curr_page);
        if r.is_some() {
            proof {
                lemma_page_exists(
                    self.container@.len(),
                    self.per_page as nat,
                    self.curr_page as nat,
                );
                let c = self.curr_page as nat;
                let z = self.per_page as nat;
                assert(c <= c * z) by (nonlinear_arith)
                    requires
                        z >= 1,
                ;
                assert(c * z < len);
            }
            self.curr_page = self.curr_page + 1;
        }
        r
    }
}

} // verus!
