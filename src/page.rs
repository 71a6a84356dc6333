use vstd::prelude::*;

verus! {

/// One logical page held in a frame. Its identity is `number`; the two bits
/// are metadata that change while the page is resident.
#[derive(Clone, Copy, Debug)]
pub struct MemoryPage {
    pub number: u32,
    pub referenced: bool,
    pub modified: bool,
}

impl MemoryPage {
    /// The page as it is first loaded into a frame: both bits clear.
    pub open spec fn fresh(number: u32) -> MemoryPage {
        MemoryPage { number, referenced: false, modified: false }
    }

    /// The page after an access while resident: its reference bit is set.
    pub open spec fn touched(self) -> MemoryPage {
        MemoryPage { number: self.number, referenced: true, modified: self.modified }
    }

    /// The page after Second-Chance passes over it: its reference bit is clear.
    pub open spec fn spared(self) -> MemoryPage {
        MemoryPage { number: self.number, referenced: false, modified: self.modified }
    }

    /// NRU class of the page: 0 for (unreferenced, unmodified), 1 for
    /// (unreferenced, modified), 2 for (referenced, unmodified), 3 for both.
    pub open spec fn nru_class(self) -> nat {
        (if self.referenced { 2nat } else { 0nat }) + (if self.modified { 1nat } else { 0nat })
    }

    pub fn new(number: u32) -> (r: MemoryPage)
        ensures
            r == MemoryPage::fresh(number),
    {
        MemoryPage { number, referenced: false, modified: false }
    }

    /// The page after an access: its reference bit is set, its modify bit
    /// is kept.
    pub fn referenced(self) -> (r: MemoryPage)
        ensures
            r == self.touched(),
    {
        MemoryPage { number: self.number, referenced: true, modified: self.modified }
    }

    /// The page after a write: its modify bit is set, its reference bit is
    /// kept.
    pub fn modified(self) -> (r: MemoryPage)
        ensures
            r == (MemoryPage { number: self.number, referenced: self.referenced, modified: true }),
    {
        MemoryPage { number: self.number, referenced: self.referenced, modified: true }
    }

    /// The same page number with both bits set.
    pub fn modified_and_referenced(self) -> (r: MemoryPage)
        ensures
            r == (MemoryPage { number: self.number, referenced: true, modified: true }),
    {
        MemoryPage { number: self.number, referenced: true, modified: true }
    }

    /// The same page number with both bits clear.
    pub fn clear(self) -> (r: MemoryPage)
        ensures
            r == MemoryPage::fresh(self.number),
    {
        MemoryPage { number: self.number, referenced: false, modified: false }
    }

    /// NRU class of the page, as `nru_class` defines it.
    pub fn class(&self) -> (r: u8)
        ensures
            r as nat == self.nru_class(),
    {
        let high: u8 = if self.referenced { 2 } else { 0 };
        let low: u8 = if self.modified { 1 } else { 0 };
        high + low
    }
}

/// Two pages are the same page when their numbers agree, whatever their bits.
impl PartialEq for MemoryPage {
    fn eq(&self, rhs: &MemoryPage) -> (r: bool) {
        self.number == rhs.number
    }
}

impl vstd::std_specs::cmp::PartialEqSpecImpl for MemoryPage {
    open spec fn obeys_eq_spec() -> bool {
        true
    }

    open spec fn eq_spec(&self, rhs: &MemoryPage) -> bool {
        self.number == rhs.number
    }
}

/// Page numbers of a frame collection, in frame order.
pub open spec fn numbers(s: Seq<MemoryPage>) -> Seq<u32> {
    s.map_values(|p: MemoryPage| p.number)
}

/// No two resident pages share a number.
pub open spec fn unique_numbers(s: Seq<MemoryPage>) -> bool {
    forall|i: int, j: int|
        0 <= i < s.len() && 0 <= j < s.len() && i != j ==> #[trigger] s[i].number
            != #[trigger] s[j].number
}

/// A page with number `n` is resident in `s`.
pub open spec fn resident(s: Seq<MemoryPage>, n: u32) -> bool {
    exists|i: int| 0 <= i < s.len() && #[trigger] s[i].number == n
}

} // verus!
