use vstd::prelude::*;

verus! {

pub type Address = usize;

/// One page of virtual memory. The first page of an allocation is its header and
/// records the allocation's size; each page links to the next page of its allocation.
#[derive(Clone, Debug)]
pub enum Page {
    Header { size: usize, next: Option<Address>, data: Vec<u8> },
    Body { next: Option<Address>, data: Vec<u8> },
    Empty,
}

impl Page {
    pub fn is_empty(&self) -> (r: bool)
        ensures
            r <==> self is Empty,
    {
        matches!(self, Page::Empty)
    }

    /// The address of the next page of the allocation, if any.
    pub open spec fn spec_next(self) -> Option<Address> {
        match self {
            Page::Header { next, .. } => next,
            Page::Body { next, .. } => next,
            Page::Empty => None,
        }
    }

    /// The bytes held by the page.
    pub open spec fn spec_data(self) -> Seq<u8> {
        match self {
            Page::Header { data, .. } => data@,
            Page::Body { data, .. } => data@,
            Page::Empty => Seq::empty(),
        }
    }
}

/// The bytes of `v` followed by zeros up to the next multiple of `n`.
pub open spec fn padded(v: Seq<u8>, n: nat) -> Seq<u8> {
    v + Seq::new(((n - v.len() % n) as int % n as int) as nat, |i: int| 0u8)
}

/// The number of pages that `v` takes when pages hold `n` bytes.
pub open spec fn page_count(v: Seq<u8>, n: nat) -> nat {
    padded(v, n).len() / n
}

/// The indices below `n` of the empty pages, in ascending order.
pub open spec fn empty_indices(pages: Seq<Page>, n: int) -> Seq<Address>
    decreases n,
{
    if n <= 0 {
        Seq::empty()
    } else if pages[n - 1] is Empty {
        empty_indices(pages, n - 1).push((n - 1) as Address)
    } else {
        empty_indices(pages, n - 1)
    }
}

/// The addresses `lo, lo + 1, ..., lo + count - 1`.
pub open spec fn address_range(lo: int, count: nat) -> Seq<Address> {
    Seq::new(count, |i: int| (lo + i) as Address)
}

/// The pages, in order, that an allocation of `count` pages takes: the first empty pages,
/// then as many new pages past the end as are missing.
pub open spec fn pages_taken(pages: Seq<Page>, count: nat) -> Seq<Address> {
    let e = empty_indices(pages, pages.len() as int);
    if e.len() >= count {
        e.take(count as int)
    } else {
        e + address_range(pages.len() as int, (count - e.len()) as nat)
    }
}

/// The addresses visited from `start` by following the `next` links of non-empty pages.
pub open spec fn chain_from(pages: Seq<Page>, start: int) -> Seq<Address>
    decreases pages.len() - start,
{
    if 0 <= start < pages.len() && !(pages[start] is Empty) {
        match pages[start].spec_next() {
            Some(n) => if start < n && n < pages.len() {
                seq![n] + chain_from(pages, n as int)
            } else if start < n {
                seq![n]
            } else {
                Seq::empty()
            },
            None => Seq::empty(),
        }
    } else {
        Seq::empty()
    }
}

/// The pages of the allocation at `start`, as `deallocate` and `deref` visit them.
pub open spec fn filled_pages(pages: Seq<Page>, start: Address) -> Seq<Address> {
    seq![start] + chain_from(pages, start as int)
}

/// The number of pages of `chain` before its first empty page.
pub open spec fn live_prefix(pages: Seq<Page>, chain: Seq<Address>) -> int
    decreases chain.len(),
{
    if chain.len() == 0 {
        0
    } else if pages[chain[0] as int] is Empty {
        0
    } else {
        1 + live_prefix(pages, chain.drop_first())
    }
}

/// The number of header pages among the first `n` pages of `chain`.
pub open spec fn header_count(pages: Seq<Page>, chain: Seq<Address>, n: int) -> int
    decreases n,
{
    if n <= 0 {
        0
    } else if pages[chain[n - 1] as int] is Header {
        header_count(pages, chain, n - 1) + 1
    } else {
        header_count(pages, chain, n - 1)
    }
}

/// The size recorded by the last header page among the first `n` pages of `chain`.
pub open spec fn header_size(pages: Seq<Page>, chain: Seq<Address>, n: int) -> Option<usize>
    decreases n,
{
    if n <= 0 {
        None
    } else {
        match pages[chain[n - 1] as int] {
            Page::Header { size, .. } => Some(size),
            _ => header_size(pages, chain, n - 1),
        }
    }
}

/// The bytes of the first `n` pages of `chain`, one after the other.
pub open spec fn chain_bytes(pages: Seq<Page>, chain: Seq<Address>, n: int) -> Seq<u8>
    decreases n,
{
    if n <= 0 {
        Seq::empty()
    } else {
        chain_bytes(pages, chain, n - 1) + pages[chain[n - 1] as int].spec_data()
    }
}

/// What `deref` reads at `start`: the bytes of the allocation's pages up to the first
/// empty page, cut to the size its header records; nothing when there is no header.
pub open spec fn deref_spec(pages: Seq<Page>, start: Address) -> Seq<u8> {
    let chain = filled_pages(pages, start);
    let m = live_prefix(pages, chain);
    match header_size(pages, chain, m) {
        None => Seq::empty(),
        Some(size) => {
            let bytes = chain_bytes(pages, chain, m);
            if size < bytes.len() {
                bytes.take(size as int)
            } else {
                bytes
            }
        },
    }
}

/// Every page in use holds `n` bytes and links only to a later page that exists.
pub open spec fn pages_wf(pages: Seq<Page>, n: nat) -> bool {
    forall|i: int|
        0 <= i < pages.len() && !(#[trigger] pages[i] is Empty) ==> {
            &&& pages[i].spec_data().len() == n
            &&& match pages[i].spec_next() {
                Some(j) => i < j < pages.len(),
                None => true,
            }
        }
}

/// In well-formed pages the chain from an existing page visits only later existing pages.
pub proof fn lemma_chain_in_range(pages: Seq<Page>, n: nat, start: int)
    requires
        pages_wf(pages, n),
        0 <= start < pages.len(),
    ensures
        forall|k: int|
            0 <= k < chain_from(pages, start).len() ==> start < #[trigger] chain_from(
                pages,
                start,
            )[k] < pages.len(),
    decreases pages.len() - start,
{
    if !(pages[start] is Empty) {
        match pages[start].spec_next() {
            Some(j) => {
                lemma_chain_in_range(pages, n, j as int);
                let c = chain_from(pages, start);
                assert forall|k: int| 0 <= k < c.len() implies start < #[trigger] c[k] < pages.len() by {
                    if k > 0 {
                        assert(c[k] == chain_from(pages, j as int)[k - 1]);
                    }
                }
            },
            None => {},
        }
    }
}

/// `live_prefix` counts the pages of the chain before its first empty page.
pub proof fn lemma_live_prefix(pages: Seq<Page>, chain: Seq<Address>)
    ensures
        0 <= live_prefix(pages, chain) <= chain.len(),
        forall|j: int|
            0 <= j < live_prefix(pages, chain) ==> !(#[trigger] pages[chain[j] as int] is Empty),
        live_prefix(pages, chain) < chain.len() ==> pages[chain[live_prefix(
            pages,
            chain,
        )] as int] is Empty,
    decreases chain.len(),
{
    if chain.len() > 0 && !(pages[chain[0] as int] is Empty) {
        let rest = chain.drop_first();
        lemma_live_prefix(pages, rest);
        assert forall|j: int| 0 <= j < live_prefix(pages, chain) implies !(
        #[trigger] pages[chain[j] as int] is Empty) by {
            if j > 0 {
                assert(chain[j] == rest[j - 1]);
            }
        }
        if live_prefix(pages, chain) < chain.len() {
            assert(chain[live_prefix(pages, chain)] == rest[live_prefix(pages, rest)]);
        }
    }
}

/// The empty indices below `n` are ascending, below `n`, and name empty pages.
pub proof fn lemma_empty_indices(pages: Seq<Page>, n: int)
    requires
        0 <= n <= pages.len(),
        pages.len() <= usize::MAX,
    ensures
        empty_indices(pages, n).len() <= n,
        forall|j: int|
            0 <= j < empty_indices(pages, n).len() ==> {
                &&& 0 <= #[trigger] empty_indices(pages, n)[j] < n
                &&& pages[empty_indices(pages, n)[j] as int] is Empty
            },
        forall|j: int, k: int|
            0 <= j < k < empty_indices(pages, n).len() ==> #[trigger] empty_indices(pages, n)[j]
                < #[trigger] empty_indices(pages, n)[k],
    decreases n,
{
    if n > 0 {
        lemma_empty_indices(pages, n - 1);
        let prev = empty_indices(pages, n - 1);
        let cur = empty_indices(pages, n);
        if pages[n - 1] is Empty {
            assert(cur == prev.push((n - 1) as Address));
            assert forall|j: int| 0 <= j < cur.len() implies {
                &&& 0 <= #[trigger] cur[j] < n
                &&& pages[cur[j] as int] is Empty
            } by {
                if j < prev.len() {
                    assert(cur[j] == prev[j]);
                }
            }
            assert forall|j: int, k: int| 0 <= j < k < cur.len() implies #[trigger] cur[j]
                < #[trigger] cur[k] by {
                assert(cur[j] == prev[j]);
                if k < prev.len() {
                    assert(cur[k] == prev[k]);
                }
            }
        }
    }
}

/// Whether `page` is the `k`-th of `count` pages of an allocation of `value`, linked to
/// the page `taken[k + 1]` where there is one.
pub open spec fn holds_chunk(
    page: Page,
    value: Seq<u8>,
    n: nat,
    taken: Seq<Address>,
    count: nat,
    k: int,
) -> bool {
    &&& (k == 0) <==> (page is Header)
    &&& !(page is Empty)
    &&& page is Header ==> page->size == value.len()
    &&& page.spec_data() == padded(value, n).subrange(k * n, k * n + n)
    &&& page.spec_next() == if k + 1 < count {
        Some(taken[k + 1])
    } else {
        None
    }
}

/// What `allocate` does: `value` goes into the pages `pages_taken` names, each linked to
/// the next; the other pages stay as they were; the address is that of the first page.
pub open spec fn allocated(
    before: Seq<Page>,
    after: Seq<Page>,
    value: Seq<u8>,
    n: nat,
    address: Address,
) -> bool {
    let count = page_count(value, n);
    let taken = pages_taken(before, count);
    let e = empty_indices(before, before.len() as int);
    &&& after.len() == if e.len() >= count {
        before.len() as int
    } else {
        before.len() + count - e.len()
    }
    &&& address == if count == 0 {
        0
    } else {
        taken[0]
    }
    &&& forall|k: int| 0 <= k < count ==> holds_chunk(after[#[trigger] taken[k] as int], value, n, taken, count, k)
    &&& forall|i: int|
        0 <= i < before.len() && !taken.contains(i as Address) ==> #[trigger] after[i] == before[i]
}

/// The pages an allocation takes are ascending and exist afterwards.
pub proof fn lemma_pages_taken(before: Seq<Page>, after_len: nat, count: nat)
    requires
        before.len() <= usize::MAX,
        after_len <= usize::MAX,
        after_len == if empty_indices(before, before.len() as int).len() >= count {
            before.len() as int
        } else {
            before.len() + count - empty_indices(before, before.len() as int).len()
        },
    ensures
        pages_taken(before, count).len() == count,
        forall|j: int|
            0 <= j < count ==> #[trigger] pages_taken(before, count)[j] < after_len,
        forall|j: int, k: int|
            0 <= j < k < count ==> #[trigger] pages_taken(before, count)[j] < #[trigger] pages_taken(
                before,
                count,
            )[k],
{
    let e = empty_indices(before, before.len() as int);
    let taken = pages_taken(before, count);
    lemma_empty_indices(before, before.len() as int);
    assert forall|j: int| 0 <= j < count implies #[trigger] taken[j] < after_len by {
        if j < e.len() {
            assert(taken[j] == e[j]);
        }
    }
    assert forall|j: int, k: int| 0 <= j < k < count implies #[trigger] taken[j] < #[trigger] taken[k] by {
        if e.len() >= count {
            assert(taken[j] == e[j] && taken[k] == e[k]);
        } else if k >= e.len() && j < e.len() {
            assert(taken[j] == e[j]);
        }
    }
}

/// From the `k`-th page of an allocation, the chain visits the later pages of it.
proof fn lemma_allocated_chain(
    after: Seq<Page>,
    value: Seq<u8>,
    n: nat,
    taken: Seq<Address>,
    count: nat,
    k: int,
)
    requires
        taken.len() == count,
        0 <= k < count,
        forall|j: int| 0 <= j < count ==> #[trigger] taken[j] < after.len(),
        forall|i: int, j: int| 0 <= i < j < count ==> #[trigger] taken[i] < #[trigger] taken[j],
        forall|j: int|
            0 <= j < count ==> holds_chunk(after[#[trigger] taken[j] as int], value, n, taken, count, j),
    ensures
        chain_from(after, taken[k] as int) == taken.subrange(k + 1, count as int),
    decreases count - k,
{
    assert(holds_chunk(after[taken[k] as int], value, n, taken, count, k));
    if k + 1 < count {
        lemma_allocated_chain(after, value, n, taken, count, k + 1);
        assert(taken[k] < taken[k + 1]);
        assert(taken.subrange(k + 1, count as int) =~= seq![taken[k + 1]] + taken.subrange(
            k + 2,
            count as int,
        ));
    } else {
        assert(taken.subrange(k + 1, count as int) =~= Seq::<Address>::empty());
    }
}

/// Facts on the first `m` pages of an allocation: none is empty, exactly the first is a
/// header, recording the size, and their bytes begin the padded value.
proof fn lemma_allocated_prefix(
    after: Seq<Page>,
    value: Seq<u8>,
    n: nat,
    taken: Seq<Address>,
    count: nat,
    m: int,
)
    requires
        taken.len() == count,
        0 <= m <= count,
        count * n == padded(value, n).len(),
        forall|j: int|
            0 <= j < count ==> holds_chunk(after[#[trigger] taken[j] as int], value, n, taken, count, j),
    ensures
        header_count(after, taken, m) == if m == 0 {
            0int
        } else {
            1
        },
        header_size(after, taken, m) == if m == 0 {
            None
        } else {
            Some(value.len() as usize)
        },
        chain_bytes(after, taken, m) == padded(value, n).subrange(0, m * n),
    decreases m,
{
    let p = padded(value, n);
    if m > 0 {
        lemma_allocated_prefix(after, value, n, taken, count, m - 1);
        assert(holds_chunk(after[taken[m - 1] as int], value, n, taken, count, m - 1));
        assert((m - 1) * n + n == m * n) by (nonlinear_arith);
        assert(0 <= (m - 1) * n <= m * n <= count * n) by (nonlinear_arith)
            requires
                1 <= m <= count,
        ;
        assert(p.subrange(0, (m - 1) * n) + p.subrange((m - 1) * n, m * n) =~= p.subrange(
            0,
            m * n,
        ));
    } else {
        assert(p.subrange(0, 0) =~= Seq::<u8>::empty());
    }
}

/// The pages of an allocation from the `m`-th on are all live.
proof fn lemma_live_prefix_suffix(
    after: Seq<Page>,
    value: Seq<u8>,
    n: nat,
    taken: Seq<Address>,
    count: nat,
    m: int,
)
    requires
        taken.len() == count,
        0 <= m <= count,
        forall|j: int|
            0 <= j < count ==> holds_chunk(after[#[trigger] taken[j] as int], value, n, taken, count, j),
    ensures
        live_prefix(after, taken.subrange(m, count as int)) == count - m,
    decreases count - m,
{
    let s = taken.subrange(m, count as int);
    if m < count {
        lemma_live_prefix_suffix(after, value, n, taken, count, m + 1);
        assert(holds_chunk(after[taken[m] as int], value, n, taken, count, m));
        assert(s.drop_first() =~= taken.subrange(m + 1, count as int));
        assert(s[0] == taken[m]);
    } else {
        assert(s.len() == 0);
    }
}

/// Reading an allocation gives back the bytes that were written.
pub proof fn lemma_deref_allocated(
    before: Seq<Page>,
    after: Seq<Page>,
    value: Seq<u8>,
    n: nat,
    address: Address,
)
    requires
        n > 0,
        before.len() <= usize::MAX,
        after.len() <= usize::MAX,
        allocated(before, after, value, n, address),
        value.len() > 0,
    ensures
        address < after.len(),
        header_count(
            after,
            filled_pages(after, address),
            live_prefix(after, filled_pages(after, address)),
        ) <= 1,
        deref_spec(after, address) == value,
        intact(after, address),
{
    let count = page_count(value, n);
    let taken = pages_taken(before, count);
    let p = padded(value, n);
    let pl = p.len() as int;
    let vl = value.len() as int;
    let ni = n as int;
    let ci = count as int;
    assert(pl == vl + (ni - vl % ni) % ni);
    assert(pl % ni == 0) by (nonlinear_arith)
        requires
            pl == vl + (ni - vl % ni) % ni,
            ni > 0,
    ;
    assert(ci * ni == pl) by (nonlinear_arith)
        requires
            ci == pl / ni,
            pl % ni == 0,
            ni > 0,
    ;
    assert(ci > 0) by (nonlinear_arith)
        requires
            ci * ni == pl,
            pl >= vl,
            vl > 0,
            ci >= 0,
    ;
    lemma_pages_taken(before, after.len(), count);
    lemma_allocated_chain(after, value, n, taken, count, 0);
    assert(filled_pages(after, address) =~= taken);
    lemma_allocated_prefix(after, value, n, taken, count, count as int);
    assert(taken.subrange(0, count as int) =~= taken);
    lemma_live_prefix_suffix(after, value, n, taken, count, 0);
    assert(p.subrange(0, ci * ni) =~= p);
    assert(p.take(value.len() as int) =~= value);
}

/// Every page of the allocation at `a` holds data: none of the pages it links is empty.
pub open spec fn intact(pages: Seq<Page>, a: Address) -> bool {
    live_prefix(pages, filled_pages(pages, a)) == filled_pages(pages, a).len()
}

/// The number of header pages that `deref` meets at `a`.
pub open spec fn headers_read(pages: Seq<Page>, a: Address) -> int {
    header_count(pages, filled_pages(pages, a), live_prefix(pages, filled_pages(pages, a)))
}

/// What `deallocate(b)` does: the pages of the allocation at `b` become empty, the others
/// stay as they were.
pub open spec fn deallocated(before: Seq<Page>, after: Seq<Page>, b: Address) -> bool {
    &&& after.len() == before.len()
    &&& forall|i: int|
        0 <= i < before.len() ==> #[trigger] after[i] == if filled_pages(before, b).contains(
            i as Address,
        ) {
            Page::Empty
        } else {
            before[i]
        }
}

/// `after` holds the same pages as `before` at every address of `chain`.
pub open spec fn agrees_on(before: Seq<Page>, after: Seq<Page>, chain: Seq<Address>) -> bool {
    forall|k: int| 0 <= k < chain.len() ==> after[#[trigger] chain[k] as int] == before[chain[k] as int]
}

/// The chain from a page depends only on the pages it visits.
proof fn lemma_chain_frame(before: Seq<Page>, after: Seq<Page>, n: nat, start: Address)
    requires
        pages_wf(before, n),
        start < before.len(),
        after.len() >= before.len(),
        agrees_on(before, after, filled_pages(before, start)),
    ensures
        chain_from(after, start as int) == chain_from(before, start as int),
    decreases before.len() - start,
{
    let f = filled_pages(before, start);
    assert(f[0] == start);
    assert(after[start as int] == before[start as int]);
    if !(before[start as int] is Empty) {
        match before[start as int].spec_next() {
            Some(j) => {
                let fj = filled_pages(before, j);
                assert(chain_from(before, start as int) == seq![j] + chain_from(before, j as int));
                assert(fj =~= chain_from(before, start as int));
                assert forall|k: int| 0 <= k < fj.len() implies after[#[trigger] fj[k] as int]
                    == before[fj[k] as int] by {
                    assert(fj[k] == f[k + 1]);
                }
                lemma_chain_frame(before, after, n, j);
            },
            None => {},
        }
    }
}

/// The live prefix of a chain depends only on the pages of the chain.
proof fn lemma_live_prefix_frame(before: Seq<Page>, after: Seq<Page>, chain: Seq<Address>)
    requires
        agrees_on(before, after, chain),
    ensures
        live_prefix(after, chain) == live_prefix(before, chain),
    decreases chain.len(),
{
    if chain.len() > 0 {
        assert(after[chain[0] as int] == before[chain[0] as int]);
        let rest = chain.drop_first();
        assert forall|k: int| 0 <= k < rest.len() implies after[#[trigger] rest[k] as int]
            == before[rest[k] as int] by {
            assert(rest[k] == chain[k + 1]);
        }
        lemma_live_prefix_frame(before, after, rest);
    }
}

/// The headers and bytes of the first `m` pages of a chain depend only on those pages.
proof fn lemma_chain_data_frame(before: Seq<Page>, after: Seq<Page>, chain: Seq<Address>, m: int)
    requires
        agrees_on(before, after, chain),
        m <= chain.len(),
    ensures
        header_count(after, chain, m) == header_count(before, chain, m),
        header_size(after, chain, m) == header_size(before, chain, m),
        chain_bytes(after, chain, m) == chain_bytes(before, chain, m),
    decreases m,
{
    if m > 0 {
        assert(after[chain[m - 1] as int] == before[chain[m - 1] as int]);
        lemma_chain_data_frame(before, after, chain, m - 1);
    }
}

/// What `deref` reads at `a` depends only on the pages of the allocation at `a`: memory
/// that holds them unchanged reads the same bytes there.
pub proof fn lemma_deref_frame(before: Seq<Page>, after: Seq<Page>, n: nat, a: Address)
    requires
        pages_wf(before, n),
        a < before.len(),
        after.len() >= before.len(),
        agrees_on(before, after, filled_pages(before, a)),
    ensures
        filled_pages(after, a) == filled_pages(before, a),
        live_prefix(after, filled_pages(after, a)) == live_prefix(before, filled_pages(before, a)),
        header_count(
            after,
            filled_pages(after, a),
            live_prefix(after, filled_pages(after, a)),
        ) == header_count(
            before,
            filled_pages(before, a),
            live_prefix(before, filled_pages(before, a)),
        ),
        deref_spec(after, a) == deref_spec(before, a),
        intact(after, a) == intact(before, a),
{
    lemma_chain_frame(before, after, n, a);
    let chain = filled_pages(before, a);
    assert(filled_pages(after, a) =~= chain);
    lemma_live_prefix_frame(before, after, chain);
    lemma_live_prefix(before, chain);
    lemma_chain_data_frame(before, after, chain, live_prefix(before, chain));
}

/// The pages an allocation takes were empty or are new: none of them held data before.
proof fn lemma_taken_fresh(before: Seq<Page>, after_len: nat, count: nat, i: int)
    requires
        before.len() <= usize::MAX,
        after_len <= usize::MAX,
        after_len == if empty_indices(before, before.len() as int).len() >= count {
            before.len() as int
        } else {
            before.len() + count - empty_indices(before, before.len() as int).len()
        },
        0 <= i < before.len(),
        !(before[i] is Empty),
    ensures
        !pages_taken(before, count).contains(i as Address),
{
    let e = empty_indices(before, before.len() as int);
    let taken = pages_taken(before, count);
    lemma_empty_indices(before, before.len() as int);
    lemma_pages_taken(before, after_len, count);
    if taken.contains(i as Address) {
        let j = choose|j: int| 0 <= j < taken.len() && taken[j] == i as Address;
        if e.len() >= count {
            assert(taken[j] == e[j]);
            assert(before[e[j] as int] is Empty);
        } else if j < e.len() {
            assert(taken[j] == e[j]);
            assert(before[e[j] as int] is Empty);
        } else {
            let r = address_range(before.len() as int, (count - e.len()) as nat);
            assert(taken[j] == r[j - e.len()]);
            assert(before.len() + j - e.len() < after_len);
            assert(taken[j] == (before.len() + j - e.len()) as Address);
        }
    }
}

/// The pages of an intact allocation exist and hold data.
proof fn lemma_intact_pages(pages: Seq<Page>, n: nat, a: Address)
    requires
        pages_wf(pages, n),
        a < pages.len(),
        intact(pages, a),
    ensures
        forall|k: int|
            0 <= k < filled_pages(pages, a).len() ==> #[trigger] filled_pages(pages, a)[k]
                < pages.len() && !(pages[filled_pages(pages, a)[k] as int] is Empty),
{
    let f = filled_pages(pages, a);
    lemma_chain_in_range(pages, n, a as int);
    lemma_live_prefix(pages, f);
    assert forall|k: int| 0 <= k < f.len() implies #[trigger] f[k] < pages.len() && !(
    pages[f[k] as int] is Empty) by {
        if k > 0 {
            assert(f[k] == chain_from(pages, a as int)[k - 1]);
        }
    }
}

/// An intact allocation is read the same after another value is allocated, and stays
/// intact; a non-empty value allocated then takes none of its pages.
pub proof fn lemma_deref_after_allocate(
    before: Seq<Page>,
    after: Seq<Page>,
    value: Seq<u8>,
    n: nat,
    address: Address,
    a: Address,
)
    requires
        n > 0,
        pages_wf(before, n),
        before.len() <= usize::MAX,
        after.len() <= usize::MAX,
        allocated(before, after, value, n, address),
        a < before.len(),
        intact(before, a),
    ensures
        deref_spec(after, a) == deref_spec(before, a),
        headers_read(after, a) == headers_read(before, a),
        intact(after, a),
        filled_pages(after, a) == filled_pages(before, a),
        value.len() > 0 ==> forall|i: Address|
            #[trigger] filled_pages(after, address).contains(i) ==> !filled_pages(
                after,
                a,
            ).contains(i),
{
    let f = filled_pages(before, a);
    let count = page_count(value, n);
    let taken = pages_taken(before, count);
    lemma_intact_pages(before, n, a);
    lemma_pages_taken(before, after.len(), count);
    assert forall|k: int| 0 <= k < f.len() implies after[#[trigger] f[k] as int]
        == before[f[k] as int] by {
        lemma_taken_fresh(before, after.len(), count, f[k] as int);
    }
    lemma_deref_frame(before, after, n, a);
    if value.len() > 0 {
        lemma_deref_allocated(before, after, value, n, address);
        let p = padded(value, n);
        let pl = p.len() as int;
        let vl = value.len() as int;
        let ni = n as int;
        let ci = count as int;
        assert(pl % ni == 0) by (nonlinear_arith)
            requires
                pl == vl + (ni - vl % ni) % ni,
                ni > 0,
        ;
        assert(ci * ni == pl) by (nonlinear_arith)
            requires
                ci == pl / ni,
                pl % ni == 0,
                ni > 0,
        ;
        assert(ci > 0) by (nonlinear_arith)
            requires
                ci * ni == pl,
                pl >= vl,
                vl > 0,
                ci >= 0,
        ;
        lemma_allocated_chain(after, value, n, taken, count, 0);
        assert(filled_pages(after, address) =~= taken);
        assert forall|i: Address| #[trigger] filled_pages(after, address).contains(i) implies !filled_pages(
            after,
            a,
        ).contains(i) by {
            if f.contains(i) {
                let k = choose|k: int| 0 <= k < f.len() && f[k] == i;
                lemma_taken_fresh(before, after.len(), count, f[k] as int);
            }
        }
    }
}

/// An allocation is read the same after another allocation, sharing none of its pages, is
/// deallocated.
pub proof fn lemma_deref_after_deallocate(
    before: Seq<Page>,
    after: Seq<Page>,
    n: nat,
    b: Address,
    a: Address,
)
    requires
        pages_wf(before, n),
        a < before.len(),
        deallocated(before, after, b),
        forall|i: Address|
            #[trigger] filled_pages(before, a).contains(i) ==> !filled_pages(before, b).contains(i),
    ensures
        deref_spec(after, a) == deref_spec(before, a),
        headers_read(after, a) == headers_read(before, a),
        intact(after, a) == intact(before, a),
        filled_pages(after, a) == filled_pages(before, a),
{
    let f = filled_pages(before, a);
    lemma_chain_in_range(before, n, a as int);
    assert forall|k: int| 0 <= k < f.len() implies after[#[trigger] f[k] as int]
        == before[f[k] as int] by {
        if k > 0 {
            assert(f[k] == chain_from(before, a as int)[k - 1]);
        }
        assert(f.contains(f[k]));
        assert(after[f[k] as int] == before[f[k] as int]);
    }
    lemma_deref_frame(before, after, n, a);
}

/// One call that leaves the allocation at `a` alone: an `allocate` of any value, or a
/// `deallocate` of an allocation that shares none of `a`'s pages.
#[verifier::opaque]
pub open spec fn keeps_allocation(before: Seq<Page>, after: Seq<Page>, n: nat, a: Address) -> bool {
    ||| exists|value: Seq<u8>, address: Address| #[trigger] allocated(before, after, value, n, address)
    ||| exists|b: Address|
        #[trigger] deallocated(before, after, b) && forall|i: Address|
            #[trigger] filled_pages(before, a).contains(i) ==> !filled_pages(before, b).contains(i)
}

/// An `allocate` leaves every other allocation alone.
pub proof fn lemma_allocate_keeps(
    before: Seq<Page>,
    after: Seq<Page>,
    value: Seq<u8>,
    n: nat,
    address: Address,
    a: Address,
)
    requires
        allocated(before, after, value, n, address),
    ensures
        keeps_allocation(before, after, n, a),
{
    reveal(keeps_allocation);
}

/// A `deallocate` of an allocation sharing none of `a`'s pages leaves `a` alone.
pub proof fn lemma_deallocate_keeps(before: Seq<Page>, after: Seq<Page>, n: nat, b: Address, a: Address)
    requires
        deallocated(before, after, b),
        forall|i: Address|
            #[trigger] filled_pages(before, a).contains(i) ==> !filled_pages(before, b).contains(i),
    ensures
        keeps_allocation(before, after, n, a),
{
    reveal(keeps_allocation);
}

/// Reading an allocation after any sequence of calls that leave it alone: `history` holds
/// the pages before and after each call; the bytes read at `a` stay those read at first,
/// and the allocation stays intact.
pub proof fn lemma_deref_through_calls(history: Seq<Seq<Page>>, n: nat, a: Address)
    requires
        n > 0,
        history.len() > 0,
        forall|i: int|
            0 <= i < history.len() ==> pages_wf(#[trigger] history[i], n) && history[i].len()
                <= usize::MAX,
        a < history[0].len(),
        intact(history[0], a),
        forall|i: int|
            0 <= i < history.len() - 1 ==> keeps_allocation(#[trigger] history[i], history[i + 1], n, a),
    ensures
        a < history.last().len(),
        intact(history.last(), a),
        deref_spec(history.last(), a) == deref_spec(history[0], a),
        headers_read(history.last(), a) == headers_read(history[0], a),
    decreases history.len(),
{
    if history.len() > 1 {
        let prev = history.drop_last();
        assert forall|i: int| 0 <= i < prev.len() implies pages_wf(#[trigger] prev[i], n)
            && prev[i].len() <= usize::MAX by {
            assert(prev[i] == history[i]);
        }
        assert forall|i: int| 0 <= i < prev.len() - 1 implies keeps_allocation(
            #[trigger] prev[i],
            prev[i + 1],
            n,
            a,
        ) by {
            assert(prev[i] == history[i] && prev[i + 1] == history[i + 1]);
        }
        lemma_deref_through_calls(prev, n, a);
        let k = history.len() - 2;
        assert(history[k] == prev.last());
        lemma_deref_one_call(history[k], history[k + 1], n, a);
    }
}

/// One call that leaves the allocation at `a` alone keeps it readable, with its bytes.
proof fn lemma_deref_one_call(before: Seq<Page>, after: Seq<Page>, n: nat, a: Address)
    requires
        n > 0,
        pages_wf(before, n),
        before.len() <= usize::MAX,
        after.len() <= usize::MAX,
        a < before.len(),
        intact(before, a),
        keeps_allocation(before, after, n, a),
    ensures
        a < after.len(),
        intact(after, a),
        deref_spec(after, a) == deref_spec(before, a),
        headers_read(after, a) == headers_read(before, a),
{
    reveal(keeps_allocation);
    if exists|value: Seq<u8>, address: Address| #[trigger] allocated(before, after, value, n, address) {
        let (value, address) = choose|value: Seq<u8>, address: Address| #[trigger] allocated(
            before,
            after,
            value,
            n,
            address,
        );
        lemma_deref_after_allocate(before, after, value, n, address, a);
    } else {
        let b = choose|b: Address|
            #[trigger] deallocated(before, after, b) && forall|i: Address|
                #[trigger] filled_pages(before, a).contains(i) ==> !filled_pages(before, b).contains(i);
        lemma_deref_after_deallocate(before, after, n, b, a);
    }
}

/// The `len` bytes of `padded(value, n)` from `start` on.
fn chunk(value: &[u8], start: usize, len: usize, n: usize) -> (r: Vec<u8>)
    requires
        n > 0,
        start + len <= padded(value@, n as nat).len(),
        start + len <= usize::MAX,
    ensures
        r@ == padded(value@, n as nat).subrange(start as int, start + len),
{
    let ghost p = padded(value@, n as nat);
    let mut data: Vec<u8> = Vec::new();
    let mut j: usize = 0;
    while j < len
        invariant
            start + len <= p.len(),
            start + len <= usize::MAX,
            p == padded(value@, n as nat),
            j <= len,
            data@ == p.subrange(start as int, start + j),
        decreases len - j,
    {
        let b = if start + j < value.len() {
            value[start + j]
        } else {
            0u8
        };
        data.push(b);
        assert(data@ =~= p.subrange(start as int, start + j + 1));
        j = j + 1;
    }
    data
}

/// Paged virtual memory holding byte strings in pages of `N` bytes.
#[derive(Clone, Debug)]
pub struct VirtualMemory<const N: usize> {
    pages: Vec<Page>,
}

impl<const N: usize> VirtualMemory<N> {
    pub closed spec fn spec_pages(&self) -> Seq<Page> {
        self.pages@
    }

    /// Every page in use holds `N` bytes and links only to a later page that exists.
    pub open spec fn wf(&self) -> bool {
        pages_wf(self.spec_pages(), N as nat)
    }

    pub fn new() -> (r: Self)
        ensures
            r.spec_pages() == Seq::<Page>::empty(),
            r.wf(),
    {
        Self { pages: Vec::new() }
    }

    pub fn with_capacity(capacity: usize) -> (r: Self)
        ensures
            r.spec_pages() == Seq::<Page>::empty(),
            r.wf(),
    {
        Self { pages: Vec::with_capacity(capacity) }
    }

    fn get_filled_pages(&self, start: Address) -> (r: Vec<Address>)
        requires
            self.wf(),
        ensures
            r@ == filled_pages(self.spec_pages(), start),
    {
        let ghost pages = self.spec_pages();
        let mut addresses: Vec<Address> = Vec::new();
        addresses.push(start);
        let mut cursor = start;
        while cursor < self.pages.len()
            invariant
                pages == self.spec_pages(),
                self.wf(),
                addresses@ + chain_from(pages, cursor as int) == filled_pages(pages, start),
            ensures
                addresses@ == filled_pages(pages, start),
            decreases self.pages.len() - cursor,
        {
            let next = match &self.pages[cursor] {
                Page::Empty => None,
                Page::Header { next, .. } => *next,
                Page::Body { next, .. } => *next,
            };
            match next {
                None => {
                    assert(chain_from(pages, cursor as int) == Seq::<Address>::empty());
                    assert(addresses@ + Seq::<Address>::empty() =~= addresses@);
                    break ;
                },
                Some(a) => {
                    let ghost before = addresses@;
                    addresses.push(a);
                    assert(before + chain_from(pages, cursor as int) =~= addresses@ + chain_from(
                        pages,
                        a as int,
                    ));
                    cursor = a;
                },
            }
        }
        assert(addresses@ + Seq::<Address>::empty() =~= addresses@);
        addresses
    }

    /// Empties every page of the allocation at `address`.
    pub fn deallocate(&mut self, address: Address)
        requires
            old(self).wf(),
            address < old(self).spec_pages().len(),
        ensures
            final(self).wf(),
            deallocated(old(self).spec_pages(), final(self).spec_pages(), address),
    {
        let ghost old_pages = self.spec_pages();
        let pages = self.get_filled_pages(address);
        proof {
            lemma_chain_in_range(old_pages, N as nat, address as int);
        }
        assert(old_pages.len() == self.pages.len());
        let mut k: usize = 0;
        while k < pages.len()
            invariant
                pages@ == filled_pages(old_pages, address),
                forall|j: int| 0 <= j < pages@.len() ==> pages@[j] < old_pages.len(),
                0 <= k <= pages@.len(),
                old_pages.len() <= usize::MAX,
                self.wf(),
                self.spec_pages().len() == old_pages.len(),
                forall|i: int|
                    0 <= i < old_pages.len() ==> #[trigger] self.spec_pages()[i] == if pages@.take(
                        k as int,
                    ).contains(i as Address) {
                        Page::Empty
                    } else {
                        old_pages[i]
                    },
            decreases pages.len() - k,
        {
            let p = pages[k];
            assert(p == pages@[k as int]);
            let ghost prev = self.spec_pages();
            self.pages.set(p, Page::Empty);
            proof {
                assert(self.spec_pages() == prev.update(p as int, Page::Empty));
                assert forall|i: int| 0 <= i < old_pages.len() implies #[trigger] self.spec_pages()[i]
                    == if pages@.take(k + 1).contains(i as Address) {
                    Page::Empty
                } else {
                    old_pages[i]
                } by {
                    assert(prev[i] == if pages@.take(k as int).contains(i as Address) {
                        Page::Empty
                    } else {
                        old_pages[i]
                    });
                    if pages@.take(k + 1).contains(i as Address) {
                        let w = choose|w: int| 0 <= w < k + 1 && #[trigger] pages@.take(k + 1)[w] == i as Address;
                        if w < k {
                            assert(pages@.take(k as int)[w] == i as Address);
                        }
                    } else {
                        assert(p != i as Address) by {
                            assert(pages@.take(k + 1)[k as int] == p);
                        }
                        if pages@.take(k as int).contains(i as Address) {
                            let w = choose|w: int| 0 <= w < k && #[trigger] pages@.take(k as int)[w] == i as Address;
                            assert(pages@.take(k + 1)[w] == i as Address);
                        }
                    }
                }
            }
            k = k + 1;
        }
        assert(pages@.take(pages@.len() as int) =~= pages@);
    }

    /// Finds `count` empty pages, appending new ones when there are too few.
    fn get_empty_pages(&mut self, count: usize) -> (r: Vec<Address>)
        requires
            old(self).wf(),
            old(self).spec_pages().len() + count <= usize::MAX,
        ensures
            final(self).wf(),
            r@ == pages_taken(old(self).spec_pages(), count as nat),
            ({
                let e = empty_indices(old(self).spec_pages(), old(self).spec_pages().len() as int);
                final(self).spec_pages() == if e.len() >= count {
                    old(self).spec_pages()
                } else {
                    old(self).spec_pages() + Seq::new(
                        (count - e.len()) as nat,
                        |i: int| Page::Empty,
                    )
                }
            }),
    {
        let ghost pages = self.spec_pages();
        let len = self.pages.len();
        let mut empty_pages: Vec<Address> = Vec::new();
        let mut i: usize = 0;
        while i < len
            invariant
                pages == self.spec_pages(),
                len == pages.len(),
                i <= len,
                empty_pages@ == if empty_indices(pages, i as int).len() <= count {
                    empty_indices(pages, i as int)
                } else {
                    empty_indices(pages, i as int).take(count as int)
                },
            decreases len - i,
        {
            proof {
                lemma_empty_indices(pages, i as int);
            }
            if empty_pages.len() < count {
                if self.pages[i].is_empty() {
                    empty_pages.push(i);
                }
            } else {
                assert(empty_indices(pages, i + 1).take(count as int) =~= empty_indices(
                    pages,
                    i as int,
                ).take(count as int));
            }
            i = i + 1;
        }
        proof {
            lemma_empty_indices(pages, len as int);
        }
        let ghost e = empty_indices(pages, len as int);
        if empty_pages.len() < count {
            let diff = count - empty_pages.len();
            let mut k: usize = 0;
            while k < diff
                invariant
                    e.len() < count,
                    diff == count - e.len(),
                    len == pages.len(),
                    len + count <= usize::MAX,
                    k <= diff,
                    self.spec_pages() == pages + Seq::new(k as nat, |i: int| Page::Empty),
                    empty_pages@ == e + address_range(len as int, k as nat),
                    pages_wf(pages, N as nat),
                decreases diff - k,
            {
                self.pages.push(Page::Empty);
                empty_pages.push(len + k);
                assert(self.spec_pages() =~= pages + Seq::new((k + 1) as nat, |i: int| Page::Empty));
                assert(empty_pages@ =~= e + address_range(len as int, (k + 1) as nat));
                k = k + 1;
            }
            assert forall|j: int|
                0 <= j < self.spec_pages().len() && !(#[trigger] self.spec_pages()[j] is Empty) implies j
                < len by {}
        } else {
            assert(e.len() == count ==> e.take(count as int) =~= e);
        }
        empty_pages
    }

    /// Stores `value` in empty pages (adding pages as needed) and returns the address of
    /// its first page, or 0 when `value` is empty.
    #[verifier::rlimit(50)]
    pub fn allocate(&mut self, value: &[u8]) -> (r: Address)
        requires
            old(self).wf(),
            N > 0,
            value@.len() + N <= usize::MAX,
            old(self).spec_pages().len() + (value@.len() as int) / (N as int) + 1 <= usize::MAX,
        ensures
            final(self).wf(),
            allocated(old(self).spec_pages(), final(self).spec_pages(), value@, N as nat, r),
    {
        let ghost pages = self.spec_pages();
        let ghost n = N as nat;
        let value_size = value.len();
        let padding = (N - (value_size % N)) % N;
        let total = value_size + padding;
        proof {
            let ni = n as int;
            let vs = value_size as int;
            assert(padding as int == (ni - vs % ni) % ni);
            assert((total as int) % ni == 0) by (nonlinear_arith)
                requires
                    total as int == vs + padding as int,
                    padding as int == (ni - vs % ni) % ni,
                    ni > 0,
            ;
            assert(padded(value@, n).len() == total);
        }
        let count = total / N;
        proof {
            let ni = n as int;
            let ti = total as int;
            let ci = count as int;
            let vs = value_size as int;
            assert(ci * ni == ti) by (nonlinear_arith)
                requires
                    ci == ti / ni,
                    ti % ni == 0,
                    ni > 0,
            ;
            assert(page_count(value@, n) == count);
            assert(ci <= vs / ni + 1) by (nonlinear_arith)
                requires
                    ci * ni == ti,
                    ti < vs + ni,
                    ni > 0,
            ;
        }
        let empty = self.get_empty_pages(count);
        let ghost taken = empty@;
        let ghost mid = self.spec_pages();
        let ghost padded_value = padded(value@, n);
        proof {
            let e = empty_indices(pages, pages.len() as int);
            lemma_empty_indices(pages, pages.len() as int);
            assert(taken.len() == count);
            assert forall|j: int, k: int| 0 <= j < k < taken.len() implies #[trigger] taken[j]
                < #[trigger] taken[k] by {
                if e.len() < count && k >= e.len() {
                    if j >= e.len() {
                    } else {
                        assert(e[j] < pages.len());
                    }
                } else if e.len() >= count {
                    assert(taken[j] == e[j] && taken[k] == e[k]);
                }
            }
            assert forall|j: int| 0 <= j < taken.len() implies #[trigger] taken[j] < mid.len()
                && mid[taken[j] as int] is Empty by {
                if j < e.len() {
                    assert(taken[j] == e[j]);
                }
            }
        }
        let mut address: Address = 0;
        let mut i: usize = 0;
        while i < count
            invariant
                count * n == total,
                total == padded_value.len(),
                padded_value == padded(value@, n),
                n == N,
                n > 0,
                value_size == value@.len(),
                empty@ == taken,
                taken.len() == count,
                i <= count,
                self.spec_pages().len() == mid.len(),
                forall|j: int, k: int| 0 <= j < k < taken.len() ==> #[trigger] taken[j]
                    < #[trigger] taken[k],
                forall|j: int| 0 <= j < taken.len() ==> #[trigger] taken[j] < mid.len()
                    && mid[taken[j] as int] is Empty,
                forall|k: int| 0 <= k < i ==> holds_chunk(self.spec_pages()[#[trigger] taken[k] as int], value@, n, taken, count as nat, k),
                forall|j: int| 0 <= j < mid.len() && !taken.take(i as int).contains(j as Address) ==> #[trigger] self.spec_pages()[j] == mid[j],
                i > 0 ==> address == taken[0],
                i == 0 ==> address == 0,
                pages_wf(mid, n),
                forall|j: int|
                    0 <= j < self.spec_pages().len() && !(#[trigger] self.spec_pages()[j] is Empty) ==> {
                        &&& self.spec_pages()[j].spec_data().len() == n
                        &&& match self.spec_pages()[j].spec_next() {
                            Some(q) => j < q < self.spec_pages().len(),
                            None => true,
                        }
                    },
            decreases count - i,
        {
            let page_index = empty[i];
            proof {
                assert((i + 1) * n <= total) by (nonlinear_arith)
                    requires
                        i < count,
                        count * n == total,
                        n > 0,
                ;
                assert(i * n + n == (i + 1) * n) by (nonlinear_arith);
            }
            let start = i * N;
            let data = chunk(value, start, N, N);
            let next = if i + 1 < count {
                Some(empty[i + 1])
            } else {
                None
            };
            let page = if i == 0 {
                address = page_index;
                Page::Header { size: value_size, next, data }
            } else {
                Page::Body { next, data }
            };
            let ghost prev = self.spec_pages();
            self.pages.set(page_index, page);
            proof {
                assert(self.spec_pages() == prev.update(page_index as int, page));
                assert forall|k: int| 0 <= k < i + 1 implies holds_chunk(
                    self.spec_pages()[#[trigger] taken[k] as int],
                    value@,
                    n,
                    taken,
                    count as nat,
                    k,
                ) by {
                    if k < i {
                        assert(taken[k] < taken[i as int]);
                    }
                }
                assert forall|q: int|
                    0 <= q < mid.len() && !taken.take(i + 1).contains(q as Address) implies #[trigger] self.spec_pages()[q] == mid[q] by {
                    assert(taken.take(i + 1)[i as int] == page_index);
                    if taken.take(i as int).contains(q as Address) {
                        let w = choose|w: int| 0 <= w < i && #[trigger] taken.take(i as int)[w] == q as Address;
                        assert(taken.take(i + 1)[w] == q as Address);
                    }
                }
                if i + 1 < count {
                    assert(taken[i as int] < taken[i + 1]);
                }
            }
            i = i + 1;
        }
        proof {
            assert(taken.take(count as int) =~= taken);
            assert(count == page_count(value@, n));
            assert(taken == pages_taken(pages, page_count(value@, n)));
            assert(address == if count == 0 { 0 } else { taken[0] });
            assert forall|q: int|
                0 <= q < pages.len() && !taken.contains(q as Address) implies #[trigger] self.spec_pages()[q] == pages[q] by {
                assert(mid[q] == pages[q]);
            }
        }
        address
    }

    /// Reads the bytes of the allocation at `address`.
    pub fn deref(&self, address: Address) -> (r: Vec<u8>)
        requires
            self.wf(),
            address < self.spec_pages().len(),
            header_count(
                self.spec_pages(),
                filled_pages(self.spec_pages(), address),
                live_prefix(self.spec_pages(), filled_pages(self.spec_pages(), address)),
            ) <= 1,
        ensures
            r@ == deref_spec(self.spec_pages(), address),
    {
        let ghost pages = self.spec_pages();
        let addrs = self.get_filled_pages(address);
        let ghost chain = addrs@;
        let ghost lp = live_prefix(pages, chain);
        proof {
            lemma_chain_in_range(pages, N as nat, address as int);
            lemma_live_prefix(pages, chain);
            assert forall|j: int| 0 <= j < chain.len() implies #[trigger] chain[j] < pages.len() by {
                if j > 0 {
                    assert(chain[j] == chain_from(pages, address as int)[j - 1]);
                }
            }
        }
        let mut data_len: Option<usize> = None;
        let mut bytes: Vec<u8> = Vec::new();
        let mut i: usize = 0;
        while i < addrs.len()
            invariant
                pages == self.spec_pages(),
                addrs@ == chain,
                lp == live_prefix(pages, chain),
                0 <= lp <= chain.len(),
                forall|j: int| 0 <= j < lp ==> !(#[trigger] pages[chain[j] as int] is Empty),
                lp < chain.len() ==> pages[chain[lp] as int] is Empty,
                forall|j: int| 0 <= j < chain.len() ==> #[trigger] chain[j] < pages.len(),
                i <= lp,
                bytes@ == chain_bytes(pages, chain, i as int),
                data_len == header_size(pages, chain, i as int),
            ensures
                i == lp,
                bytes@ == chain_bytes(pages, chain, i as int),
                data_len == header_size(pages, chain, i as int),
            decreases addrs.len() - i,
        {
            let a = addrs[i];
            assert(a == chain[i as int]);
            match &self.pages[a] {
                Page::Header { size, data, .. } => {
                    data_len = Some(*size);
                    bytes.extend_from_slice(data.as_slice());
                },
                Page::Body { data, .. } => {
                    bytes.extend_from_slice(data.as_slice());
                },
                Page::Empty => {
                    break ;
                },
            }
            assert(bytes@ =~= chain_bytes(pages, chain, i + 1));
            i = i + 1;
        }
        match data_len {
            None => Vec::new(),
            Some(data_len) => {
                let ghost before = bytes@;
                bytes.truncate(data_len);
                assert(data_len >= before.len() ==> bytes@ =~= before);
                bytes
            },
        }
    }

    /// The number of pages, in use or empty.
    pub fn page_count(&self) -> (r: usize)
        ensures
            r == self.spec_pages().len(),
    {
        self.pages.len()
    }

    /// The page at `address`, if there is one.
    pub fn page(&self, address: Address) -> (r: Option<&Page>)
        ensures
            address < self.spec_pages().len() ==> r == Some(&self.spec_pages()[address as int]),
            address >= self.spec_pages().len() ==> r.is_none(),
    {
        if address < self.pages.len() {
            Some(&self.pages[address])
        } else {
            None
        }
    }
}

} // verus!
