use vstd::prelude::*;

use crate::page::{MemoryPage, unique_numbers};
use crate::utils::{push, remove_first};

use rand::Rng;

verus! {

// ---------------------------------------------------------------------------
// FIFO
// ---------------------------------------------------------------------------

/// FIFO outcome: the oldest arrival (position 0) leaves, the new page joins
/// at the back.
pub open spec fn fifo_result(s: Seq<MemoryPage>, page: MemoryPage) -> Seq<MemoryPage> {
    s.drop_first().push(page)
}

/// First In, First Out. `page_frames` is kept in arrival order, oldest
/// first; the oldest page is replaced. A page that is accessed again keeps
/// its place in the queue.
pub fn fifo(page_frames: Vec<MemoryPage>, page: MemoryPage, _past_pages: Vec<u32>) -> (r: Vec<
    MemoryPage,
>)
    requires
        page_frames.len() > 0,
    ensures
        r@ == fifo_result(page_frames@, page),
{
    push(remove_first(page_frames), page)
}

// ---------------------------------------------------------------------------
// LRU
// ---------------------------------------------------------------------------

/// Position of the latest access to `n` in the history `h`, or -1 when `n`
/// was never accessed.
pub open spec fn last_use(h: Seq<u32>, n: u32) -> int
    decreases h.len(),
{
    if h.len() == 0 {
        -1
    } else if h.last() == n {
        h.len() - 1
    } else {
        last_use(h.drop_last(), n)
    }
}

/// `v` is the position in `s` of the least recently used page: no page was
/// used less recently, and the pages before it were all used more recently.
pub open spec fn is_lru_victim(s: Seq<MemoryPage>, h: Seq<u32>, v: int) -> bool {
    &&& 0 <= v < s.len()
    &&& forall|i: int| 0 <= i < s.len() ==> last_use(h, s[v].number) <= last_use(h, #[trigger] s[i].number)
    &&& forall|i: int| 0 <= i < v ==> last_use(h, s[v].number) < last_use(h, #[trigger] s[i].number)
}

/// Position of the least recently used page of `s` under history `h`.
pub open spec fn lru_victim(s: Seq<MemoryPage>, h: Seq<u32>) -> int {
    choose|v: int| is_lru_victim(s, h, v)
}

/// LRU outcome: the least recently used page leaves, the new page joins at
/// the back.
pub open spec fn lru_result(s: Seq<MemoryPage>, h: Seq<u32>, page: MemoryPage) -> Seq<MemoryPage> {
    s.remove(lru_victim(s, h)).push(page)
}

/// At most one position of `s` is the least recently used.
pub proof fn lemma_lru_victim_unique(s: Seq<MemoryPage>, h: Seq<u32>, v: int)
    requires
        is_lru_victim(s, h, v),
    ensures
        lru_victim(s, h) == v,
{
    let w = lru_victim(s, h);
    assert(is_lru_victim(s, h, w));
    if w < v {
        assert(last_use(h, s[v].number) < last_use(h, s[w].number));
        assert(last_use(h, s[w].number) <= last_use(h, s[v].number));
    } else if v < w {
        assert(last_use(h, s[w].number) < last_use(h, s[v].number));
        assert(last_use(h, s[v].number) <= last_use(h, s[w].number));
    }
}

/// One more than the position of the latest access to `n` in `h`; 0 when
/// `n` was never accessed.
fn last_use_of(h: &Vec<u32>, n: u32) -> (r: usize)
    ensures
        r as int == last_use(h@, n) + 1,
{
    let mut i: usize = h.len();
    assert(h@.subrange(0, i as int) =~= h@);
    while i > 0
        invariant
            i <= h.len(),
            last_use(h@, n) == last_use(h@.subrange(0, i as int), n),
        decreases i,
    {
        let ghost prefix = h@.subrange(0, i as int);
        assert(prefix.drop_last() =~= h@.subrange(0, i - 1));
        if h[i - 1] == n {
            return i;
        }
        i -= 1;
    }
    i
}

/// Least Recently Used. `past_pages` is every access before this one,
/// oldest first. The resident page whose latest access lies furthest back
/// is replaced; a resident page that was never accessed counts as older
/// than any that was, and among such pages the first in frame order goes.
pub fn lru(page_frames: Vec<MemoryPage>, page: MemoryPage, past_pages: Vec<u32>) -> (r: Vec<
    MemoryPage,
>)
    requires
        page_frames.len() > 0,
    ensures
        is_lru_victim(page_frames@, past_pages@, lru_victim(page_frames@, past_pages@)),
        r@ == lru_result(page_frames@, past_pages@, page),
{
    let mut frames = page_frames;
    let mut best: usize = 0;
    let mut best_use = last_use_of(&past_pages, frames[0].number);
    let mut i: usize = 1;
    while i < frames.len()
        invariant
            frames@ == page_frames@,
            0 <= best < i <= frames.len(),
            best_use as int == last_use(past_pages@, frames@[best as int].number) + 1,
            forall|j: int|
                0 <= j < i ==> last_use(past_pages@, frames@[best as int].number) <= last_use(
                    past_pages@,
                    #[trigger] frames@[j].number,
                ),
            forall|j: int|
                0 <= j < best ==> last_use(past_pages@, frames@[best as int].number) < last_use(
                    past_pages@,
                    #[trigger] frames@[j].number,
                ),
        decreases frames.len() - i,
    {
        let u = last_use_of(&past_pages, frames[i].number);
        if u < best_use {
            best = i;
            best_use = u;
        }
        i += 1;
    }
    proof {
        lemma_lru_victim_unique(page_frames@, past_pages@, best as int);
    }
    frames.remove(best);
    frames.push(page);
    frames
}

// ---------------------------------------------------------------------------
// Second-Chance
// ---------------------------------------------------------------------------

/// Every page of `s` with its reference bit cleared, in the same order.
pub open spec fn all_spared(s: Seq<MemoryPage>) -> Seq<MemoryPage> {
    s.map_values(|p: MemoryPage| p.spared())
}

/// Position of the first unreferenced page of `s`; `s.len()` when every
/// page is referenced.
pub open spec fn first_unreferenced(s: Seq<MemoryPage>) -> nat
    decreases s.len(),
{
    if s.len() == 0 {
        0
    } else if !s[0].referenced {
        0
    } else {
        1 + first_unreferenced(s.drop_first())
    }
}

/// Second-Chance outcome. The referenced pages in front of the first
/// unreferenced one are spared: their bits are cleared and they move to the
/// back in their order; the first unreferenced page leaves, and the new page
/// joins at the very back. When every page is referenced, a full turn clears
/// them all and the oldest leaves.
pub open spec fn second_chance_result(s: Seq<MemoryPage>, page: MemoryPage) -> Seq<MemoryPage> {
    let k = first_unreferenced(s) as int;
    if k < s.len() {
        (s.subrange(k + 1, s.len() as int) + all_spared(s.subrange(0, k))).push(page)
    } else {
        all_spared(s.drop_first()).push(page)
    }
}

/// The first unreferenced position is the `k` before which every page is
/// referenced and at which (if any) the page is not.
pub proof fn lemma_first_unreferenced(s: Seq<MemoryPage>, k: int)
    requires
        0 <= k <= s.len(),
        forall|j: int| 0 <= j < k ==> #[trigger] s[j].referenced,
        k < s.len() ==> !s[k].referenced,
    ensures
        first_unreferenced(s) == k,
    decreases k,
{
    if k > 0 {
        let t = s.drop_first();
        assert forall|j: int| 0 <= j < k - 1 implies #[trigger] t[j].referenced by {
            assert(s[j + 1].referenced);
        }
        lemma_first_unreferenced(t, k - 1);
    }
}

/// Second Chance: FIFO that spares a referenced oldest page once.
/// `page_frames` is kept in arrival order, oldest first.
pub fn second_chance(page_frames: Vec<MemoryPage>, page: MemoryPage, _past_pages: Vec<u32>) -> (r:
    Vec<MemoryPage>)
    requires
        page_frames.len() > 0,
    ensures
        r@ == second_chance_result(page_frames@, page),
{
    recursive_second_chance(page_frames, page)
}

/// The Second-Chance rotation, as one bounded pass over the frames: find the
/// first unreferenced page, then lay out the pages behind it, the spared
/// pages in front of it, and the new page.
pub fn recursive_second_chance(page_frames: Vec<MemoryPage>, page: MemoryPage) -> (r: Vec<
    MemoryPage,
>)
    requires
        page_frames.len() > 0,
    ensures
        r@ == second_chance_result(page_frames@, page),
{
    let len = page_frames.len();
    let mut k: usize = 0;
    while k < len && page_frames[k].referenced
        invariant
            0 <= k <= len == page_frames.len(),
            forall|j: int| 0 <= j < k ==> #[trigger] page_frames@[j].referenced,
        decreases len - k,
    {
        k += 1;
    }
    proof {
        lemma_first_unreferenced(page_frames@, k as int);
    }
    // Pages behind the victim keep their order; the spared ones follow.
    let (kept_from, spared_from, spared_to) = if k < len {
        (k + 1, 0, k)
    } else {
        (len, 1, len)
    };
    let mut out: Vec<MemoryPage> = Vec::new();
    let mut i: usize = kept_from;
    while i < len
        invariant
            kept_from <= i <= len == page_frames.len(),
            out@ == page_frames@.subrange(kept_from as int, i as int),
        decreases len - i,
    {
        out.push(page_frames[i]);
        i += 1;
    }
    let ghost kept = out@;
    let mut i: usize = spared_from;
    while i < spared_to
        invariant
            spared_from <= i <= spared_to <= len == page_frames.len(),
            out@ == kept + all_spared(page_frames@.subrange(spared_from as int, i as int)),
        decreases spared_to - i,
    {
        let p = page_frames[i];
        out.push(MemoryPage { number: p.number, referenced: false, modified: p.modified });
        i += 1;
    }
    out.push(page);
    proof {
        if k < len {
            assert(out@ =~= second_chance_result(page_frames@, page));
        } else {
            assert(page_frames@.subrange(1, len as int) =~= page_frames@.drop_first());
            assert(out@ =~= second_chance_result(page_frames@, page));
        }
    }
    out
}

// ---------------------------------------------------------------------------
// NRU
// ---------------------------------------------------------------------------

/// Some page of `s` is of NRU class `c`.
pub open spec fn has_class(s: Seq<MemoryPage>, c: nat) -> bool {
    exists|i: int| 0 <= i < s.len() && (#[trigger] s[i]).nru_class() == c
}

/// The lowest NRU class that occurs in `s` (3 when `s` is empty).
pub open spec fn lowest_class(s: Seq<MemoryPage>) -> nat {
    if has_class(s, 0) {
        0
    } else if has_class(s, 1) {
        1
    } else if has_class(s, 2) {
        2
    } else {
        3
    }
}

/// Number of pages of `s` that are of NRU class `c`.
pub open spec fn count_class(s: Seq<MemoryPage>, c: nat) -> nat
    decreases s.len(),
{
    if s.len() == 0 {
        0
    } else {
        count_class(s.drop_last(), c) + if s.last().nru_class() == c {
            1nat
        } else {
            0nat
        }
    }
}

/// `v` is the position of the `k`-th page (counting from 0, in frame order)
/// of NRU class `c` in `s`.
pub open spec fn is_nth_of_class(s: Seq<MemoryPage>, c: nat, k: nat, v: int) -> bool {
    &&& 0 <= v < s.len()
    &&& s[v].nru_class() == c
    &&& count_class(s.subrange(0, v), c) == k
}

/// An NRU outcome: some page of the lowest class present leaves, and the new
/// page joins at the back. No page of a lower class than the victim's is
/// resident.
pub open spec fn nru_evicts(s: Seq<MemoryPage>, page: MemoryPage, r: Seq<MemoryPage>) -> bool {
    exists|v: int|
        {
            &&& 0 <= v < s.len()
            &&& #[trigger] s[v].nru_class() == lowest_class(s)
            &&& forall|i: int| 0 <= i < s.len() ==> s[v].nru_class() <= (#[trigger] s[i]).nru_class()
            &&& r == s.remove(v).push(page)
        }
}

/// Every resident page is of the lowest class or above, and a non-empty
/// collection holds a page of its lowest class.
pub proof fn lemma_lowest_class(s: Seq<MemoryPage>)
    ensures
        forall|i: int| 0 <= i < s.len() ==> lowest_class(s) <= (#[trigger] s[i]).nru_class(),
        s.len() > 0 ==> has_class(s, lowest_class(s)),
{
    assert forall|i: int| 0 <= i < s.len() implies lowest_class(s) <= (#[trigger] s[i]).nru_class() by {
        let c = s[i].nru_class();
        assert(c <= 3);
        assert(has_class(s, c));
    }
    if s.len() > 0 {
        let c = s[0].nru_class();
        assert(has_class(s, c));
    }
}

/// A page of class `c` at position `i` makes the count of class `c` positive.
proof fn lemma_count_positive(s: Seq<MemoryPage>, c: nat, i: int)
    requires
        0 <= i < s.len(),
        s[i].nru_class() == c,
    ensures
        count_class(s, c) > 0,
    decreases s.len(),
{
    if i < s.len() - 1 {
        lemma_count_positive(s.drop_last(), c, i);
    }
}

/// Lowest NRU class present among the pages, as `lowest_class` defines it.
pub fn lowest_class_of(page_frames: &Vec<MemoryPage>) -> (r: u8)
    ensures
        r as nat == lowest_class(page_frames@),
{
    let mut low: u8 = 3;
    let mut i: usize = 0;
    while i < page_frames.len()
        invariant
            0 <= i <= page_frames.len(),
            low <= 3,
            forall|j: int| 0 <= j < i ==> low <= (#[trigger] page_frames@[j]).nru_class(),
            low < 3 ==> has_class(page_frames@, low as nat),
        decreases page_frames.len() - i,
    {
        let c = page_frames[i].class();
        if c < low {
            low = c;
            assert(page_frames@[i as int].nru_class() == low);
        }
        i += 1;
    }
    proof {
        lemma_lowest_class(page_frames@);
        if low < 3 {
            assert(lowest_class(page_frames@) <= low);
        }
        if has_class(page_frames@, lowest_class(page_frames@)) {
            let w = choose|j: int|
                0 <= j < page_frames@.len() && (#[trigger] page_frames@[j]).nru_class()
                    == lowest_class(page_frames@);
            assert(low <= page_frames@[w].nru_class());
        }
    }
    low
}

/// Number of pages of NRU class `c`.
pub fn count_of_class(page_frames: &Vec<MemoryPage>, c: u8) -> (r: usize)
    ensures
        r as nat == count_class(page_frames@, c as nat),
{
    let mut count: usize = 0;
    let mut i: usize = 0;
    while i < page_frames.len()
        invariant
            0 <= i <= page_frames.len(),
            count <= i,
            count as nat == count_class(page_frames@.subrange(0, i as int), c as nat),
        decreases page_frames.len() - i,
    {
        assert(page_frames@.subrange(0, i + 1).drop_last() =~= page_frames@.subrange(0, i as int));
        if page_frames[i].class() == c {
            count += 1;
        }
        i += 1;
    }
    assert(page_frames@.subrange(0, i as int) =~= page_frames@);
    count
}

/// NRU with the pick inside the lowest class made by the caller: the page
/// that leaves is the `choice`-th (from 0, in frame order) of the lowest
/// class present; the new page joins at the back.
pub fn nru_with_choice(page_frames: Vec<MemoryPage>, page: MemoryPage, choice: usize) -> (r: Vec<
    MemoryPage,
>)
    requires
        page_frames.len() > 0,
        choice < count_class(page_frames@, lowest_class(page_frames@)),
    ensures
        exists|v: int|
            is_nth_of_class(page_frames@, lowest_class(page_frames@), choice as nat, v) && r@
                == page_frames@.remove(v).push(page),
        nru_evicts(page_frames@, page, r@),
{
    let c = lowest_class_of(&page_frames);
    let ghost s = page_frames@;
    let mut seen: usize = 0;
    let mut victim: usize = 0;
    let mut found = false;
    let mut i: usize = 0;
    while i < page_frames.len() && !found
        invariant
            0 <= i <= page_frames.len(),
            s == page_frames@,
            c as nat == lowest_class(s),
            choice < count_class(s, c as nat),
            !found ==> seen as nat == count_class(s.subrange(0, i as int), c as nat),
            !found ==> seen <= choice,
            found ==> is_nth_of_class(s, c as nat, choice as nat, victim as int),
        decreases page_frames.len() - i,
    {
        assert(s.subrange(0, i + 1).drop_last() =~= s.subrange(0, i as int));
        if page_frames[i].class() == c {
            if seen == choice {
                victim = i;
                found = true;
            } else {
                seen += 1;
            }
        }
        i += 1;
    }
    if !found {
        assert(s.subrange(0, i as int) =~= s);
    }
    proof {
        lemma_lowest_class(s);
    }
    let mut frames = page_frames;
    frames.remove(victim);
    frames.push(page);
    frames
}

/// Relies on rand 0.7's `thread_rng` and `Rng::gen_range(low, high)`: a value
/// in `[low, high)`, which panics when `low >= high`.
#[verifier::external_body]
fn random_below(n: usize) -> (r: usize)
    requires
        n > 0,
    ensures
        r < n,
{
    rand::thread_rng().gen_range(0, n)
}

/// Not Recently Used. Pages fall into four classes by (referenced,
/// modified); the page that leaves is drawn at random from the lowest class
/// present, and the new page joins at the back.
pub fn nru(page_frames: Vec<MemoryPage>, page: MemoryPage, _past_pages: Vec<u32>) -> (r: Vec<
    MemoryPage,
>)
    requires
        page_frames.len() > 0,
    ensures
        nru_evicts(page_frames@, page, r@),
{
    let c = lowest_class_of(&page_frames);
    let count = count_of_class(&page_frames, c);
    proof {
        lemma_lowest_class(page_frames@);
        let w = choose|j: int|
            0 <= j < page_frames@.len() && (#[trigger] page_frames@[j]).nru_class() == lowest_class(
                page_frames@,
            );
        lemma_count_positive(page_frames@, c as nat, w);
    }
    let choice = random_below(count);
    nru_with_choice(page_frames, page, choice)
}

} // verus!
