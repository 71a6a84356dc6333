use vstd::prelude::*;

use crate::algorithms::{
    fifo, fifo_result, first_unreferenced, is_lru_victim, lowest_class, lru, lru_result, lru_victim,
    nru, nru_evicts, second_chance, second_chance_result,
};
use crate::page::{MemoryPage, numbers, resident, unique_numbers};
use crate::report::PageReport;

verus! {

/// The eviction policy that picks a victim when a page faults into full
/// frames.
#[derive(Clone, Copy, Debug, PartialEq, Eq, Structural)]
pub enum Policy {
    Fifo,
    Lru,
    SecondChance,
    Nru,
}

/// Why a simulation was refused before any access was processed.
#[derive(Clone, Copy, Debug, PartialEq, Eq, Structural)]
pub enum SimulationError {
    /// The frame size is zero: no page could ever be resident.
    ZeroFrameSize,
}

/// Frames after an access to the resident page `n`: its reference bit is
/// set, and nothing else changes.
pub open spec fn touch(s: Seq<MemoryPage>, n: u32) -> Seq<MemoryPage> {
    s.map_values(|p: MemoryPage| if p.number == n { p.touched() } else { p })
}

/// `r` is a permitted outcome of `policy` replacing a page of the full
/// frames `s` by `page`, with access history `h`.
pub open spec fn evicted_as(
    policy: Policy,
    s: Seq<MemoryPage>,
    page: MemoryPage,
    h: Seq<u32>,
    r: Seq<MemoryPage>,
) -> bool {
    match policy {
        Policy::Fifo => r == fifo_result(s, page),
        Policy::Lru => r == lru_result(s, h, page),
        Policy::SecondChance => r == second_chance_result(s, page),
        Policy::Nru => nru_evicts(s, page, r),
    }
}

/// A permitted outcome of `policy`; for every policy but NRU the only one.
pub open spec fn replaced(policy: Policy, s: Seq<MemoryPage>, page: MemoryPage, h: Seq<u32>) -> Seq<
    MemoryPage,
> {
    choose|r: Seq<MemoryPage>| evicted_as(policy, s, page, h, r)
}

/// The simulation of `refs` from empty frames: the frames, and the numbers
/// of hits, faults and evictions. It is what the policy does for every
/// policy but NRU, whose pick is left open.
pub open spec fn simulate(policy: Policy, refs: Seq<u32>, frame_size: nat) -> (
    Seq<MemoryPage>,
    nat,
    nat,
    nat,
)
    decreases refs.len(),
{
    if refs.len() == 0 {
        (Seq::empty(), 0, 0, 0)
    } else {
        let prev = simulate(policy, refs.drop_last(), frame_size);
        let n = refs.last();
        if resident(prev.0, n) {
            (touch(prev.0, n), prev.1 + 1, prev.2, prev.3)
        } else if prev.0.len() < frame_size {
            (prev.0.push(MemoryPage::fresh(n)), prev.1, prev.2 + 1, prev.3)
        } else {
            (
                replaced(policy, prev.0, MemoryPage::fresh(n), refs.drop_last()),
                prev.1,
                prev.2 + 1,
                prev.3 + 1,
            )
        }
    }
}

/// One access to `n` may take the simulation state `prev` (frames, hits,
/// faults, evictions) to `next` under `policy`, with `h` the accesses before
/// it and `frame_size` frames.
pub open spec fn step_allows(
    policy: Policy,
    prev: (Seq<MemoryPage>, nat, nat, nat),
    n: u32,
    h: Seq<u32>,
    frame_size: nat,
    next: (Seq<MemoryPage>, nat, nat, nat),
) -> bool {
    if resident(prev.0, n) {
        next == (touch(prev.0, n), prev.1 + 1, prev.2, prev.3)
    } else if prev.0.len() < frame_size {
        next == (prev.0.push(MemoryPage::fresh(n)), prev.1, prev.2 + 1, prev.3)
    } else {
        &&& evicted_as(policy, prev.0, MemoryPage::fresh(n), h, next.0)
        &&& next.1 == prev.1
        &&& next.2 == prev.2 + 1
        &&& next.3 == prev.3 + 1
    }
}

/// `trace` is a run of `refs` from empty frames: it holds the state before
/// each access and after the last, and each access takes one state to the
/// next by a permitted step.
pub open spec fn is_trace(
    policy: Policy,
    refs: Seq<u32>,
    frame_size: nat,
    trace: Seq<(Seq<MemoryPage>, nat, nat, nat)>,
) -> bool {
    &&& trace.len() == refs.len() + 1
    &&& trace[0] == (Seq::<MemoryPage>::empty(), 0nat, 0nat, 0nat)
    &&& forall|i: int|
        0 <= i < refs.len() ==> step_allows(
            policy,
            #[trigger] trace[i],
            refs[i],
            refs.subrange(0, i),
            frame_size,
            trace[i + 1],
        )
}

/// Replacing position `v` of unique frames by a page that is not resident
/// keeps the numbers unique and the length unchanged.
proof fn lemma_replace_at(s: Seq<MemoryPage>, v: int, page: MemoryPage)
    requires
        unique_numbers(s),
        0 <= v < s.len(),
        !resident(s, page.number),
    ensures
        unique_numbers(s.remove(v).push(page)),
        s.remove(v).push(page).len() == s.len(),
{
    let r = s.remove(v).push(page);
    assert forall|i: int, j: int|
        0 <= i < r.len() && 0 <= j < r.len() && i != j implies #[trigger] r[i].number
        != #[trigger] r[j].number by {
        if i < v {
            assert(r[i] == s[i]);
        } else if i < r.len() - 1 {
            assert(r[i] == s[i + 1]);
        }
        if j < v {
            assert(r[j] == s[j]);
        } else if j < r.len() - 1 {
            assert(r[j] == s[j + 1]);
        }
    }
}

/// Second-Chance keeps the numbers unique and the length unchanged.
proof fn lemma_second_chance_unique(s: Seq<MemoryPage>, page: MemoryPage)
    requires
        unique_numbers(s),
        s.len() > 0,
        !resident(s, page.number),
    ensures
        unique_numbers(second_chance_result(s, page)),
        second_chance_result(s, page).len() == s.len(),
{
    let k = first_unreferenced(s) as int;
    let r = second_chance_result(s, page);
    let n = s.len() as int;
    if k < n {
        // r[i] comes from s[k + 1 + i] for i < n - k - 1, from s[i - (n - k - 1)] after.
        let src = |i: int| if i < n - k - 1 { k + 1 + i } else { i - (n - k - 1) };
        assert forall|i: int| 0 <= i < n - 1 implies r[i].number == s[src(i)].number by {}
        assert forall|i: int, j: int|
            0 <= i < r.len() && 0 <= j < r.len() && i != j implies #[trigger] r[i].number
            != #[trigger] r[j].number by {
            if i < n - 1 {
                assert(r[i].number == s[src(i)].number);
            }
            if j < n - 1 {
                assert(r[j].number == s[src(j)].number);
            }
        }
    } else {
        assert forall|i: int| 0 <= i < n - 1 implies r[i].number == s[i + 1].number by {}
        assert forall|i: int, j: int|
            0 <= i < r.len() && 0 <= j < r.len() && i != j implies #[trigger] r[i].number
            != #[trigger] r[j].number by {
            if i < n - 1 {
                assert(r[i].number == s[i + 1].number);
            }
            if j < n - 1 {
                assert(r[j].number == s[j + 1].number);
            }
        }
    }
}

/// A permitted outcome of any policy keeps the numbers unique and the length
/// unchanged, when the incoming page is not resident.
pub proof fn lemma_eviction_keeps_frames_valid(
    policy: Policy,
    s: Seq<MemoryPage>,
    page: MemoryPage,
    h: Seq<u32>,
    r: Seq<MemoryPage>,
)
    requires
        unique_numbers(s),
        s.len() > 0,
        !resident(s, page.number),
        evicted_as(policy, s, page, h, r),
        policy == Policy::Lru ==> is_lru_victim(s, h, lru_victim(s, h)),
    ensures
        unique_numbers(r),
        r.len() == s.len(),
{
    match policy {
        Policy::Fifo => {
            assert(s.drop_first() =~= s.remove(0));
            lemma_replace_at(s, 0, page);
        },
        Policy::Lru => {
            lemma_replace_at(s, lru_victim(s, h), page);
        },
        Policy::SecondChance => {
            lemma_second_chance_unique(s, page);
        },
        Policy::Nru => {
            let v = choose|v: int|
                {
                    &&& 0 <= v < s.len()
                    &&& #[trigger] s[v].nru_class() == lowest_class(s)
                    &&& forall|i: int| 0 <= i < s.len() ==> s[v].nru_class() <= (#[trigger] s[i]).nru_class()
                    &&& r == s.remove(v).push(page)
                };
            lemma_replace_at(s, v, page);
        },
    }
}

/// Under FIFO an access to a resident page keeps the page numbers in their
/// order, so the next eviction takes the same page as without that access
/// and leaves the others in the same order.
pub proof fn lemma_fifo_hit_keeps_order(s: Seq<MemoryPage>, n: u32, page: MemoryPage)
    requires
        s.len() > 0,
        resident(s, n),
    ensures
        numbers(touch(s, n)) == numbers(s),
        numbers(fifo_result(touch(s, n), page)) == numbers(fifo_result(s, page)),
{
    assert(numbers(touch(s, n)) =~= numbers(s));
    assert(numbers(fifo_result(touch(s, n), page)) =~= numbers(fifo_result(s, page)));
}

/// A second access in a row to the same resident page changes nothing: the
/// first already set its reference bit, and an access changes no number,
/// no order and no modify bit.
pub proof fn lemma_hit_twice(s: Seq<MemoryPage>, n: u32)
    requires
        resident(s, n),
    ensures
        touch(touch(s, n), n) == touch(s, n),
        numbers(touch(s, n)) == numbers(s),
        forall|i: int|
            0 <= i < s.len() ==> {
                &&& (#[trigger] touch(s, n)[i]).modified == s[i].modified
                &&& touch(s, n)[i].referenced == (s[i].referenced || s[i].number == n)
            },
{
    assert(touch(touch(s, n), n) =~= touch(s, n));
    assert(numbers(touch(s, n)) =~= numbers(s));
}

/// Whether a page with number `n` is resident.
fn is_resident(page_frames: &Vec<MemoryPage>, n: u32) -> (r: bool)
    ensures
        r == resident(page_frames@, n),
{
    let mut i: usize = 0;
    while i < page_frames.len()
        invariant
            0 <= i <= page_frames.len(),
            forall|j: int| 0 <= j < i ==> (#[trigger] page_frames@[j]).number != n,
        decreases page_frames.len() - i,
    {
        if page_frames[i].number == n {
            return true;
        }
        i += 1;
    }
    false
}

/// Sets the reference bit of the resident page `n`.
fn touch_page(page_frames: Vec<MemoryPage>, n: u32) -> (r: Vec<MemoryPage>)
    ensures
        r@ == touch(page_frames@, n),
{
    let mut out: Vec<MemoryPage> = Vec::new();
    let mut i: usize = 0;
    while i < page_frames.len()
        invariant
            0 <= i <= page_frames.len(),
            out@.len() == i,
            forall|j: int| 0 <= j < i ==> out@[j] == touch(page_frames@, n)[j],
        decreases page_frames.len() - i,
    {
        let p = page_frames[i];
        if p.number == n {
            out.push(p.referenced());
        } else {
            out.push(p);
        }
        i += 1;
    }
    assert(out@ =~= touch(page_frames@, n));
    out
}

/// Applies one access to page `page_hit`.
///
/// A resident page is a hit: its reference bit is set and the frames are
/// otherwise unchanged. Otherwise it is a fault: with a free frame the fresh
/// page joins at the back; with full frames `policy` replaces a page, which
/// also counts an eviction. `past_pages` is every access before this one,
/// oldest first. The frames stay within `frame_size` and their numbers stay
/// unique. Resident pages are only ever taken out by the policies, which
/// always choose a resident victim.
pub fn load_page(
    policy: Policy,
    page_frames: Vec<MemoryPage>,
    frame_size: u32,
    page_hit: u32,
    report: PageReport,
    past_pages: Vec<u32>,
) -> (r: (Vec<MemoryPage>, PageReport))
    requires
        frame_size >= 1,
        page_frames.len() <= frame_size,
        unique_numbers(page_frames@),
        resident(page_frames@, page_hit) ==> report.hits < u32::MAX,
        !resident(page_frames@, page_hit) ==> report.faults < u32::MAX,
        !resident(page_frames@, page_hit) && page_frames.len() == frame_size ==> report.removed
            < u32::MAX,
    ensures
        resident(page_frames@, page_hit) ==> {
            &&& r.0@ == touch(page_frames@, page_hit)
            &&& r.1.hits == report.hits + 1
            &&& r.1.faults == report.faults
            &&& r.1.removed == report.removed
        },
        !resident(page_frames@, page_hit) && page_frames.len() < frame_size ==> {
            &&& r.0@ == page_frames@.push(MemoryPage::fresh(page_hit))
            &&& r.1.hits == report.hits
            &&& r.1.faults == report.faults + 1
            &&& r.1.removed == report.removed
        },
        !resident(page_frames@, page_hit) && page_frames.len() == frame_size ==> {
            &&& evicted_as(policy, page_frames@, MemoryPage::fresh(page_hit), past_pages@, r.0@)
            &&& r.1.hits == report.hits
            &&& r.1.faults == report.faults + 1
            &&& r.1.removed == report.removed + 1
        },
        r.0.len() == page_frames.len() + if !resident(page_frames@, page_hit) && page_frames.len()
            < frame_size {
            1int
        } else {
            0int
        },
        r.0.len() <= frame_size,
        unique_numbers(r.0@),
{
    let page = MemoryPage::new(page_hit);
    // Page is in memory
    if is_resident(&page_frames, page_hit) {
        let frames = touch_page(page_frames, page_hit);
        assert(frames@.len() == page_frames@.len());
        assert forall|i: int| 0 <= i < frames@.len() implies #[trigger] frames@[i].number
            == page_frames@[i].number by {}
        return (frames, report.hit());
    }
    // Room to load the page
    if page_frames.len() < frame_size as usize {
        let ghost s = page_frames@;
        let frames = crate::utils::push(page_frames, page);
        assert forall|i: int, j: int|
            0 <= i < frames@.len() && 0 <= j < frames@.len() && i != j implies #[trigger] frames@[i].number
            != #[trigger] frames@[j].number by {
            if i < s.len() {
                assert(frames@[i] == s[i]);
            }
            if j < s.len() {
                assert(frames@[j] == s[j]);
            }
        }
        return (frames, report.fault());
    }
    // No room: replace a page
    let ghost s = page_frames@;
    let ghost h = past_pages@;
    let frames = match policy {
        Policy::Fifo => fifo(page_frames, page, past_pages),
        Policy::Lru => lru(page_frames, page, past_pages),
        Policy::SecondChance => second_chance(page_frames, page, past_pages),
        Policy::Nru => nru(page_frames, page, past_pages),
    };
    proof {
        lemma_eviction_keeps_frames_valid(policy, s, page, h, frames@);
    }
    (frames, report.fault().removed())
}

/// Simulates `reference_string` under `policy` with `frame_size` frames,
/// starting from empty frames, and reports the hits, faults and evictions.
///
/// A frame size of zero is refused before any access. Every access is a hit
/// or a fault, every eviction is also a fault, the report is one that some
/// permitted choice of each eviction gives, and for every policy but NRU it
/// is the one `simulate` gives.
pub fn run(policy: Policy, reference_string: &Vec<u32>, frame_size: u32) -> (r: Result<
    PageReport,
    SimulationError,
>)
    requires
        reference_string.len() < u32::MAX,
    ensures
        frame_size == 0 <==> r == Err::<PageReport, SimulationError>(
            SimulationError::ZeroFrameSize,
        ),
        frame_size > 0 && reference_string.len() == 0 ==> r == Ok::<PageReport, SimulationError>(
            PageReport { hits: 0, faults: 0, removed: 0 },
        ),
        r is Ok ==> {
            let rep = r->Ok_0;
            &&& rep.hits + rep.faults == reference_string.len()
            &&& rep.removed <= rep.faults
            &&& exists|trace: Seq<(Seq<MemoryPage>, nat, nat, nat)>|
                is_trace(policy, reference_string@, frame_size as nat, trace) && {
                    let last = trace.last();
                    &&& last.1 == rep.hits
                    &&& last.2 == rep.faults
                    &&& last.3 == rep.removed
                }
            &&& policy != Policy::Nru ==> {
                let m = simulate(policy, reference_string@, frame_size as nat);
                &&& rep.hits == m.1
                &&& rep.faults == m.2
                &&& rep.removed == m.3
            }
        },
{
    if frame_size == 0 {
        return Err(SimulationError::ZeroFrameSize);
    }
    let mut frames: Vec<MemoryPage> = Vec::new();
    let mut history: Vec<u32> = Vec::new();
    let mut report = PageReport::new();
    let mut i: usize = 0;
    let ghost mut trace: Seq<(Seq<MemoryPage>, nat, nat, nat)> = seq![
        (Seq::<MemoryPage>::empty(), 0nat, 0nat, 0nat),
    ];
    assert(frames@ =~= Seq::<MemoryPage>::empty());
    while i < reference_string.len()
        invariant
            frame_size >= 1,
            reference_string.len() < u32::MAX,
            0 <= i <= reference_string.len(),
            history@ == reference_string@.subrange(0, i as int),
            frames.len() <= frame_size,
            unique_numbers(frames@),
            report.hits + report.faults == i,
            report.removed <= report.faults,
            is_trace(policy, reference_string@.subrange(0, i as int), frame_size as nat, trace),
            trace.last() == (frames@, report.hits as nat, report.faults as nat, report.removed as nat),
            policy != Policy::Nru ==> {
                let m = simulate(policy, reference_string@.subrange(0, i as int), frame_size as nat);
                &&& frames@ == m.0
                &&& report.hits == m.1
                &&& report.faults == m.2
                &&& report.removed == m.3
            },
        decreases reference_string.len() - i,
    {
        let n = reference_string[i];
        let ghost prefix = reference_string@.subrange(0, i + 1);
        assert(prefix.drop_last() =~= reference_string@.subrange(0, i as int));
        let ghost before = frames@;
        let ghost prev = (frames@, report.hits as nat, report.faults as nat, report.removed as nat);
        let past = history.clone();
        assert(past@ =~= history@);
        let (next, rep) = load_page(policy, frames, frame_size, n, report, past);
        proof {
            if policy != Policy::Nru && !resident(before, n) && before.len() == frame_size {
                let page = MemoryPage::fresh(n);
                assert(evicted_as(policy, before, page, history@, next@));
                assert(next@ == replaced(policy, before, page, history@));
            }
        }
        proof {
            let st = (next@, rep.hits as nat, rep.faults as nat, rep.removed as nat);
            assert(step_allows(policy, prev, n, history@, frame_size as nat, st));
            let old_trace = trace;
            trace = trace.push(st);
            assert forall|j: int| 0 <= j < i + 1 implies step_allows(
                policy,
                #[trigger] trace[j],
                prefix[j],
                prefix.subrange(0, j),
                frame_size as nat,
                trace[j + 1],
            ) by {
                assert(prefix.subrange(0, j) =~= reference_string@.subrange(0, i as int).subrange(0, j));
                if j < i {
                    assert(trace[j] == old_trace[j]);
                    assert(trace[j + 1] == old_trace[j + 1]);
                }
            }
        }
        frames = next;
        report = rep;
        history.push(n);
        i += 1;
    }
    assert(reference_string@.subrange(0, i as int) =~= reference_string@);
    Ok(report)
}

} // verus!
