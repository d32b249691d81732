//! Function boundary resolution: turns the flat symbol table into a list of
//! non-overlapping, sorted function address ranges, and an address-to-owner
//! index over them.
//!
//! Range ends are inferred heuristically (declared size, next function start,
//! or end of the containing section) and are not ground truth.

use vstd::prelude::*;

use crate::image::{BinaryImage, Section, SectionClass, SymbolClass, SymbolEntry};
use crate::AnalysisError;

verus! {

/// A half-open function address interval `[start, end)`.
#[derive(Clone, Copy, PartialEq, Eq, Structural, Debug)]
pub struct FunctionRange {
    pub start: u64,
    pub end: u64,
}

/// A function symbol reduced to its start address and declared size.
#[derive(Clone, Copy, PartialEq, Eq, Structural, Debug)]
pub struct FuncSym {
    pub start: u64,
    pub size: u64,
}

/// Symbols that contribute function starts: function-kind entries with a
/// non-zero address (address zero marks undefined entries).
pub open spec fn eligible(s: SymbolEntry) -> bool {
    s.class is Function && s.address != 0
}

/// Some eligible symbol in `syms` has address `a`.
pub open spec fn has_eligible_addr(syms: Seq<SymbolEntry>, a: u64) -> bool {
    exists|i: int| 0 <= i < syms.len() && eligible(syms[i]) && syms[i].address == a
}

/// The start/size pair of the first eligible symbol in table order with
/// address `a` (aliases at the same address: the first entry wins).
pub open spec fn first_func_sym(syms: Seq<SymbolEntry>, a: u64) -> FuncSym
    decreases syms.len(),
{
    if syms.len() == 0 {
        FuncSym { start: a, size: 0 }
    } else if eligible(syms[0]) && syms[0].address == a {
        FuncSym { start: a, size: syms[0].size }
    } else {
        first_func_sym(syms.drop_first(), a)
    }
}

/// Start addresses are pairwise distinct and strictly increasing.
pub open spec fn strictly_sorted(fs: Seq<FuncSym>) -> bool {
    forall|i: int, j: int| 0 <= i < j < fs.len() ==> fs[i].start < fs[j].start
}

/// Some entry of `fs` has start address `a`.
pub open spec fn has_start(fs: Seq<FuncSym>, a: u64) -> bool {
    exists|i: int| 0 <= i < fs.len() && fs[i].start == a
}

proof fn lemma_first_func_sym_push(syms: Seq<SymbolEntry>, e: SymbolEntry, a: u64)
    ensures
        has_eligible_addr(syms.push(e), a) == (has_eligible_addr(syms, a) || (eligible(e)
            && e.address == a)),
        has_eligible_addr(syms, a) ==> first_func_sym(syms.push(e), a) == first_func_sym(syms, a),
        !has_eligible_addr(syms, a) && eligible(e) && e.address == a ==> first_func_sym(
            syms.push(e),
            a,
        ) == (FuncSym { start: a, size: e.size }),
    decreases syms.len(),
{
    if has_eligible_addr(syms, a) {
        let w = choose|i: int| 0 <= i < syms.len() && eligible(syms[i]) && syms[i].address == a;
        assert(syms.push(e)[w] == syms[w]);
        assert(has_eligible_addr(syms.push(e), a));
    }
    if eligible(e) && e.address == a {
        assert(syms.push(e)[syms.len() as int] == e);
        assert(has_eligible_addr(syms.push(e), a));
    }
    if has_eligible_addr(syms.push(e), a) && !has_eligible_addr(syms, a) && !(eligible(e)
        && e.address == a) {
        let w = choose|i: int|
            0 <= i < syms.push(e).len() && eligible(syms.push(e)[i]) && syms.push(e)[i].address
                == a;
        if w < syms.len() {
            assert(syms.push(e)[w] == syms[w]);
            assert(false);
        } else {
            assert(syms.push(e)[w] == e);
            assert(false);
        }
    }
    if syms.len() == 0 {
        assert(syms.push(e)[0] == e);
        assert(syms.push(e).drop_first() =~= Seq::<SymbolEntry>::empty());
        if eligible(e) && e.address == a {
        } else {
            assert(!has_eligible_addr(syms, a));
        }
    } else {
        assert(syms.push(e)[0] == syms[0]);
        assert(syms.push(e).drop_first() =~= syms.drop_first().push(e));
        lemma_first_func_sym_push(syms.drop_first(), e, a);
        if eligible(syms[0]) && syms[0].address == a {
            assert(has_eligible_addr(syms, a)) by {
                assert(eligible(syms[0]) && syms[0].address == a);
            }
        } else {
            assert(has_eligible_addr(syms, a) == has_eligible_addr(syms.drop_first(), a)) by {
                if has_eligible_addr(syms, a) {
                    let w = choose|i: int|
                        0 <= i < syms.len() && eligible(syms[i]) && syms[i].address == a;
                    assert(w != 0);
                    assert(syms.drop_first()[w - 1] == syms[w]);
                }
                if has_eligible_addr(syms.drop_first(), a) {
                    let w = choose|i: int|
                        0 <= i < syms.drop_first().len() && eligible(syms.drop_first()[i])
                            && syms.drop_first()[i].address == a;
                    assert(syms[w + 1] == syms.drop_first()[w]);
                }
            }
        }
    }
}

/// Insert `x` into a strictly sorted vector unless an entry with the same
/// start is already present (the earlier entry wins).
fn insert_sorted_distinct(v: &mut Vec<FuncSym>, x: FuncSym)
    requires
        strictly_sorted(old(v)@),
    ensures
        strictly_sorted(final(v)@),
        has_start(old(v)@, x.start) ==> final(v)@ == old(v)@,
        !has_start(old(v)@, x.start) ==> final(v)@.len() == old(v)@.len() + 1 && (forall|
            e: FuncSym,
        |
            final(v)@.contains(e) <==> (old(v)@.contains(e) || e == x)),
{
    let n = v.len();
    let mut idx: usize = 0;
    while idx < n && v[idx].start < x.start
        invariant
            n == v@.len(),
            idx <= n,
            strictly_sorted(v@),
            v@ == old(v)@,
            forall|j: int| 0 <= j < idx ==> v@[j].start < x.start,
        decreases n - idx,
    {
        idx = idx + 1;
    }
    if idx < n && v[idx].start == x.start {
        assert(has_start(v@, x.start));
        return ;
    }
    assert(forall|j: int| idx <= j < n ==> v@[j].start > x.start) by {
        if idx < n {
            assert(v@[idx as int].start > x.start);
        }
    }
    assert(!has_start(v@, x.start));
    let ghost oldv = v@;
    proof {
        oldv.insert_ensures(idx as int, x);
    }
    v.insert(idx, x);
    assert(strictly_sorted(v@)) by {
        assert(forall|i: int, j: int| 0 <= i < j < v@.len() ==> v@[i].start < v@[j].start) by {
            assert forall|i: int, j: int| 0 <= i < j < v@.len() implies v@[i].start
                < v@[j].start by {
                let a = if i < idx {
                    oldv[i]
                } else if i == idx {
                    x
                } else {
                    oldv[i - 1]
                };
                assert(v@[i] == a);
                let b = if j < idx {
                    oldv[j]
                } else if j == idx {
                    x
                } else {
                    oldv[j - 1]
                };
                assert(v@[j] == b);
            }
        }
    }
    assert(forall|e: FuncSym| v@.contains(e) <==> (oldv.contains(e) || e == x)) by {
        assert forall|e: FuncSym| v@.contains(e) implies (oldv.contains(e) || e == x) by {
            let w = choose|i: int| 0 <= i < v@.len() && v@[i] == e;
            if w < idx {
                assert(oldv[w] == e);
            } else if w == idx {
                assert(e == x);
            } else {
                assert(oldv[w - 1] == e);
            }
        }
        assert forall|e: FuncSym| oldv.contains(e) implies v@.contains(e) by {
            let w = choose|i: int| 0 <= i < oldv.len() && oldv[i] == e;
            if w < idx {
                assert(v@[w] == e);
            } else {
                assert(v@[w + 1] == e);
            }
        }
        assert(v@[idx as int] == x);
    }
}

/// Collect the function symbols of a table into a strictly sorted,
/// duplicate-free list of start/size pairs.
///
/// Exactly the addresses of eligible symbols appear; the declared size of an
/// address is taken from its first table entry.
pub fn function_syms(symbols: &Vec<SymbolEntry>) -> (r: Vec<FuncSym>)
    ensures
        strictly_sorted(r@),
        forall|a: u64| has_start(r@, a) <==> has_eligible_addr(symbols@, a),
        forall|k: int| 0 <= k < r@.len() ==> r@[k] == first_func_sym(symbols@, r@[k].start),
{
    let n = symbols.len();
    let mut out: Vec<FuncSym> = Vec::new();
    let mut i: usize = 0;
    while i < n
        invariant
            n == symbols@.len(),
            i <= n,
            strictly_sorted(out@),
            forall|a: u64| has_start(out@, a) <==> has_eligible_addr(symbols@.subrange(0, i as int), a),
            forall|k: int| 0 <= k < out@.len() ==> out@[k] == first_func_sym(
                symbols@.subrange(0, i as int),
                out@[k].start,
            ),
        decreases n - i,
    {
        let ghost pre = symbols@.subrange(0, i as int);
        assert(symbols@.subrange(0, i + 1) =~= pre.push(symbols@[i as int]));
        let s = &symbols[i];
        let el = match s.class {
            SymbolClass::Function => s.address != 0,
            SymbolClass::Other => false,
        };
        proof {
            assert forall|a: u64| true implies {
                &&& has_eligible_addr(pre.push(symbols@[i as int]), a) == (has_eligible_addr(
                    pre,
                    a,
                ) || (eligible(symbols@[i as int]) && symbols@[i as int].address == a))
                &&& (has_eligible_addr(pre, a) ==> first_func_sym(pre.push(symbols@[i as int]), a)
                    == first_func_sym(pre, a))
                &&& (!has_eligible_addr(pre, a) && eligible(symbols@[i as int])
                    && symbols@[i as int].address == a ==> first_func_sym(
                    pre.push(symbols@[i as int]),
                    a,
                ) == (FuncSym { start: a, size: symbols@[i as int].size }))
            } by {
                lemma_first_func_sym_push(pre, symbols@[i as int], a);
            }
        }
        if el {
            let ghost preout = out@;
            let x = FuncSym { start: s.address, size: s.size };
            insert_sorted_distinct(&mut out, x);
            proof {
                if has_start(preout, x.start) {
                    assert(out@ == preout);
                    assert forall|k: int| 0 <= k < out@.len() implies out@[k] == first_func_sym(
                        pre.push(symbols@[i as int]),
                        out@[k].start,
                    ) by {
                        assert(has_start(preout, out@[k].start));
                        assert(has_eligible_addr(pre, out@[k].start));
                    }
                    assert forall|a: u64| has_start(out@, a) <==> has_eligible_addr(
                        pre.push(symbols@[i as int]),
                        a,
                    ) by {
                        if has_start(out@, a) {
                            assert(has_eligible_addr(pre, a));
                        }
                        if has_eligible_addr(pre.push(symbols@[i as int]), a) {
                            if !has_eligible_addr(pre, a) {
                                assert(a == x.start);
                                assert(has_start(out@, a));
                            }
                        }
                    }
                } else {
                    assert(forall|k: int|
                        0 <= k < out@.len() ==> preout.contains(out@[k]) || out@[k] == x) by {
                        assert(forall|k: int| 0 <= k < out@.len() ==> out@.contains(out@[k]));
                    }
                    assert forall|k: int| 0 <= k < out@.len() implies out@[k] == first_func_sym(
                        pre.push(symbols@[i as int]),
                        out@[k].start,
                    ) by {
                        if preout.contains(out@[k]) {
                            let w = choose|m: int|
                                0 <= m < preout.len() && preout[m] == out@[k];
                            assert(has_start(preout, out@[k].start));
                        } else {
                            assert(out@[k] == x);
                            assert(!has_eligible_addr(pre, x.start));
                        }
                    }
                    assert forall|a: u64| has_start(out@, a) <==> has_eligible_addr(
                        pre.push(symbols@[i as int]),
                        a,
                    ) by {
                        if has_start(out@, a) {
                            let w = choose|m: int| 0 <= m < out@.len() && out@[m].start == a;
                            if preout.contains(out@[w]) {
                                let w2 = choose|m: int|
                                    0 <= m < preout.len() && preout[m] == out@[w];
                                assert(has_start(preout, a));
                            } else {
                                assert(out@[w] == x);
                            }
                        }
                        if has_eligible_addr(pre.push(symbols@[i as int]), a) {
                            if has_eligible_addr(pre, a) {
                                assert(has_start(preout, a));
                                let w = choose|m: int|
                                    0 <= m < preout.len() && preout[m].start == a;
                                assert(preout.contains(preout[w]));
                                assert(out@.contains(preout[w]));
                                let w2 = choose|m: int|
                                    0 <= m < out@.len() && out@[m] == preout[w];
                                assert(has_start(out@, a));
                            } else {
                                assert(a == x.start);
                                assert(out@.contains(x));
                                let w2 = choose|m: int| 0 <= m < out@.len() && out@[m] == x;
                                assert(has_start(out@, a));
                            }
                        }
                    }
                }
            }
        } else {
            proof {
                assert(!eligible(symbols@[i as int]));
                assert forall|k: int| 0 <= k < out@.len() implies out@[k] == first_func_sym(
                    pre.push(symbols@[i as int]),
                    out@[k].start,
                ) by {
                    assert(has_start(out@, out@[k].start));
                    assert(has_eligible_addr(pre, out@[k].start));
                }
            }
        }
        i = i + 1;
    }
    assert(symbols@.subrange(0, n as int) =~= symbols@);
    out
}

/// The inferred end of a range, in priority order: the declared symbol size
/// when positive (clipped to the next function start, which keeps ranges
/// non-overlapping); otherwise the next function start; otherwise the end of
/// the containing section.  A heuristic, not ground truth.
pub open spec fn range_end_policy(start: u64, size: u64, next: Option<u64>, section_end: u64) -> u64 {
    match next {
        Some(n) => if size > 0 && start.saturating_add(size) < n {
            start.saturating_add(size)
        } else {
            n
        },
        None => if size > 0 {
            start.saturating_add(size)
        } else if section_end > start {
            section_end
        } else {
            start
        },
    }
}

/// Ranges are pairwise non-overlapping and sorted by strictly increasing
/// start address; the end of each range is at most the start of every later
/// one.
pub open spec fn ranges_wf(rs: Seq<FunctionRange>) -> bool {
    &&& forall|i: int| 0 <= i < rs.len() ==> rs[i].start <= rs[i].end
    &&& forall|i: int, j: int|
        0 <= i < j < rs.len() ==> rs[i].end <= rs[j].start && rs[i].start < rs[j].start
}

/// `addr` lies inside the half-open interval of `r`.
pub open spec fn in_range(r: FunctionRange, addr: u64) -> bool {
    r.start <= addr < r.end
}

/// Some range of `rs` starts at `a`.
pub open spec fn has_range_start(rs: Seq<FunctionRange>, a: u64) -> bool {
    exists|i: int| 0 <= i < rs.len() && rs[i].start == a
}

/// Build the function ranges of a strictly sorted symbol list.  The end of
/// the last range falls back to `last_section_end`, the end of the section
/// containing the last symbol.
#[verifier::rlimit(100)]
pub fn build_ranges(fs: &Vec<FuncSym>, last_section_end: u64) -> (r: Vec<FunctionRange>)
    requires
        strictly_sorted(fs@),
    ensures
        r@.len() == fs@.len(),
        forall|i: int| 0 <= i < r@.len() ==> r@[i].start == fs@[i].start,
        forall|i: int|
            0 <= i < r@.len() ==> r@[i].end == range_end_policy(
                fs@[i].start,
                fs@[i].size,
                if i + 1 < r@.len() {
                    Some(fs@[i + 1].start)
                } else {
                    None
                },
                last_section_end,
            ),
        ranges_wf(r@),
{
    let n = fs.len();
    let mut out: Vec<FunctionRange> = Vec::new();
    let mut i: usize = 0;
    while i < n
        invariant
            n == fs@.len(),
            i <= n,
            strictly_sorted(fs@),
            out@.len() == i,
            forall|k: int| 0 <= k < i ==> (#[trigger] out@[k]).start == fs@[k].start,
            forall|k: int|
                0 <= k < i ==> (#[trigger] out@[k]).end == range_end_policy(
                    fs@[k].start,
                    fs@[k].size,
                    if k + 1 < n {
                        Some(fs@[k + 1].start)
                    } else {
                        None
                    },
                    last_section_end,
                ),
            forall|k: int| 0 <= k < i ==> (#[trigger] out@[k]).start <= out@[k].end,
            forall|k: int| 0 <= k && k + 1 < i ==> (#[trigger] out@[k]).end <= out@[k + 1].start,
        decreases n - i,
    {
        let start = fs[i].start;
        let size = fs[i].size;
        let end: u64 = if i + 1 < n {
            let next = fs[i + 1].start;
            assert(start < next);
            if size > 0 && start.saturating_add(size) < next {
                start.saturating_add(size)
            } else {
                next
            }
        } else {
            if size > 0 {
                start.saturating_add(size)
            } else if last_section_end > start {
                last_section_end
            } else {
                start
            }
        };
        assert(start <= end);
        proof {
            if i > 0 {
                assert(out@[i - 1].end <= start) by {
                    assert(out@[i - 1].end == range_end_policy(
                        fs@[i - 1].start,
                        fs@[i - 1].size,
                        Some(fs@[i as int].start),
                        last_section_end,
                    ));
                }
            }
        }
        out.push(FunctionRange { start, end });
        proof {
            assert(out@[i as int].start == start && out@[i as int].end == end);
            assert forall|k: int| 0 <= k && k + 1 < i + 1 implies (#[trigger] out@[k]).end <= out@[k
                + 1].start by {
                if k + 1 < i {
                } else {
                    assert(out@[k].end <= start);
                }
            }
        }
        i = i + 1;
    }
    assert(ranges_wf(out@)) by {
        assert forall|k: int, j: int| 0 <= k < j < out@.len() implies out@[k].end <= out@[j].start
            && out@[k].start < out@[j].start by {
            assert(out@[k].end <= out@[k + 1].start);
            assert(out@[k + 1].start == fs@[k + 1].start);
            assert(out@[j].start == fs@[j].start);
            if k + 1 < j {
                assert(fs@[k + 1].start < fs@[j].start);
            }
        }
    }
    out
}

/// The start of the first range containing `addr`; under [`ranges_wf`] at
/// most one range can.
pub open spec fn owner_spec(rs: Seq<FunctionRange>, addr: u64) -> Option<u64>
    decreases rs.len(),
{
    if rs.len() == 0 {
        None
    } else if in_range(rs[0], addr) {
        Some(rs[0].start)
    } else {
        owner_spec(rs.drop_first(), addr)
    }
}

/// What `owner_spec` answers, stated over range membership.
pub proof fn lemma_owner_spec_characterizes(rs: Seq<FunctionRange>, addr: u64)
    ensures
        match owner_spec(rs, addr) {
            Some(s) => exists|i: int| 0 <= i < rs.len() && rs[i].start == s && in_range(rs[i], addr),
            None => forall|i: int| 0 <= i < rs.len() ==> !in_range(rs[i], addr),
        },
    decreases rs.len(),
{
    if rs.len() > 0 {
        if in_range(rs[0], addr) {
            assert(rs[0].start == rs[0].start && in_range(rs[0], addr));
        } else {
            lemma_owner_spec_characterizes(rs.drop_first(), addr);
            match owner_spec(rs.drop_first(), addr) {
                Some(s) => {
                    let w = choose|i: int|
                        0 <= i < rs.drop_first().len() && rs.drop_first()[i].start == s
                            && in_range(rs.drop_first()[i], addr);
                    assert(rs[w + 1] == rs.drop_first()[w]);
                },
                None => {
                    assert forall|i: int| 0 <= i < rs.len() implies !in_range(rs[i], addr) by {
                        if i > 0 {
                            assert(rs.drop_first()[i - 1] == rs[i]);
                        }
                    }
                },
            }
        }
    }
}

/// Under [`ranges_wf`] the containing range is unique.
pub proof fn lemma_owner_unique(rs: Seq<FunctionRange>, addr: u64, i: int, j: int)
    requires
        ranges_wf(rs),
        0 <= i < rs.len(),
        0 <= j < rs.len(),
        in_range(rs[i], addr),
        in_range(rs[j], addr),
    ensures
        i == j,
{
    if i < j {
        assert(rs[i].end <= rs[j].start);
    }
    if j < i {
        assert(rs[j].end <= rs[i].start);
    }
}

/// An address-to-owning-function index: a sorted interval list answering
/// lookups by binary search, equivalent to a per-byte owner map without the
/// linear storage.
pub struct AddressOwnerIndex {
    pub ranges: Vec<FunctionRange>,
}

impl AddressOwnerIndex {
    pub open spec fn wf(&self) -> bool {
        ranges_wf(self.ranges@)
    }

    pub fn new(ranges: Vec<FunctionRange>) -> (r: Self)
        requires
            ranges_wf(ranges@),
        ensures
            r.wf(),
            r.ranges@ == ranges@,
    {
        AddressOwnerIndex { ranges }
    }

    /// The start address of the function whose range contains `addr`, or
    /// `None` when no range does.
    pub fn owner_of(&self, addr: u64) -> (r: Option<u64>)
        requires
            self.wf(),
        ensures
            r == owner_spec(self.ranges@, addr),
            match r {
                Some(s) => exists|i: int|
                    0 <= i < self.ranges@.len() && self.ranges@[i].start == s && in_range(
                        self.ranges@[i],
                        addr,
                    ),
                None => forall|i: int|
                    0 <= i < self.ranges@.len() ==> !in_range(self.ranges@[i], addr),
            },
    {
        proof {
            lemma_owner_spec_characterizes(self.ranges@, addr);
        }
        let n = self.ranges.len();
        let mut lo: usize = 0;
        let mut hi: usize = n;
        while lo < hi
            invariant
                self.wf(),
                n == self.ranges@.len(),
                lo <= hi <= n,
                forall|j: int| 0 <= j < lo ==> self.ranges@[j].start <= addr,
                forall|j: int| hi <= j < n ==> self.ranges@[j].start > addr,
            decreases hi - lo,
        {
            let mid = lo + (hi - lo) / 2;
            if self.ranges[mid].start <= addr {
                assert(forall|j: int|
                    0 <= j < mid + 1 ==> self.ranges@[j].start <= addr) by {
                    assert forall|j: int| 0 <= j < mid + 1 implies self.ranges@[j].start
                        <= addr by {
                        if j < mid {
                            assert(self.ranges@[j].start < self.ranges@[mid as int].start);
                        }
                    }
                }
                lo = mid + 1;
            } else {
                assert(forall|j: int|
                    mid <= j < n ==> self.ranges@[j].start > addr) by {
                    assert forall|j: int| mid <= j < n implies self.ranges@[j].start > addr by {
                        if j > mid {
                            assert(self.ranges@[mid as int].start < self.ranges@[j].start);
                        }
                    }
                }
                hi = mid;
            }
        }
        if lo == 0 {
            assert(forall|i: int| 0 <= i < n ==> !in_range(self.ranges@[i], addr));
            return None;
        }
        let cand = &self.ranges[lo - 1];
        if addr < cand.end {
            assert(in_range(self.ranges@[lo - 1], addr));
            proof {
                match owner_spec(self.ranges@, addr) {
                    Some(s) => {
                        let w = choose|i: int|
                            0 <= i < self.ranges@.len() && self.ranges@[i].start == s && in_range(
                                self.ranges@[i],
                                addr,
                            );
                        lemma_owner_unique(self.ranges@, addr, w, lo - 1);
                    },
                    None => {
                        assert(!in_range(self.ranges@[lo - 1], addr));
                    },
                }
            }
            Some(cand.start)
        } else {
            assert(forall|i: int| 0 <= i < n ==> !in_range(self.ranges@[i], addr)) by {
                assert forall|i: int| 0 <= i < n implies !in_range(self.ranges@[i], addr) by {
                    if i < lo - 1 {
                        assert(self.ranges@[i].end <= self.ranges@[lo - 1].start);
                    }
                }
            }
            None
        }
    }
}

/// The declared extent of a section: its address plus its declared size.
pub open spec fn section_extent(s: Section) -> u64 {
    s.addr.saturating_add(s.vsize)
}

/// `addr` lies inside the declared extent of `s`.
pub open spec fn section_contains_addr(s: Section, addr: u64) -> bool {
    s.addr <= addr < section_extent(s)
}

/// The extent of the first section whose declared range contains `addr`.
pub open spec fn section_end_spec(sections: Seq<Section>, addr: u64) -> Option<u64>
    decreases sections.len(),
{
    if sections.len() == 0 {
        None
    } else if section_contains_addr(sections[0], addr) {
        Some(section_extent(sections[0]))
    } else {
        section_end_spec(sections.drop_first(), addr)
    }
}

proof fn lemma_section_end_skip(sections: Seq<Section>, addr: u64, i: int)
    requires
        0 <= i <= sections.len(),
        forall|j: int| 0 <= j < i ==> !section_contains_addr(sections[j], addr),
    ensures
        section_end_spec(sections, addr) == section_end_spec(sections.skip(i), addr),
    decreases i,
{
    if i > 0 {
        assert(!section_contains_addr(sections[0], addr));
        assert(sections.drop_first() =~= sections.skip(1));
        lemma_section_end_skip(sections.drop_first(), addr, i - 1);
        assert(sections.drop_first().skip(i - 1) =~= sections.skip(i));
    } else {
        assert(sections.skip(0) =~= sections);
    }
}

/// The end of the section containing `addr`, by declared extents; the first
/// matching section wins.
pub fn section_end_for(sections: &Vec<Section>, addr: u64) -> (r: Option<u64>)
    ensures
        r == section_end_spec(sections@, addr),
{
    let n = sections.len();
    let mut i: usize = 0;
    while i < n
        invariant
            n == sections@.len(),
            i <= n,
            forall|j: int| 0 <= j < i ==> !section_contains_addr(sections@[j], addr),
        decreases n - i,
    {
        let s = &sections[i];
        if s.addr <= addr && addr < s.addr.saturating_add(s.vsize) {
            proof {
                lemma_section_end_skip(sections@, addr, i as int);
                assert(sections@.skip(i as int)[0] == sections@[i as int]);
            }
            return Some(s.addr.saturating_add(s.vsize));
        }
        i = i + 1;
    }
    proof {
        lemma_section_end_skip(sections@, addr, n as int);
        assert(sections@.skip(n as int) =~= Seq::<Section>::empty());
    }
    None
}

/// Some symbol of the table contributes a function start.
pub open spec fn any_eligible(syms: Seq<SymbolEntry>) -> bool {
    exists|i: int| 0 <= i < syms.len() && eligible(syms[i])
}

/// The index of the first executable code section.
pub open spec fn first_code_section(sections: Seq<Section>) -> Option<int> {
    if exists|i: int| 0 <= i < sections.len() && sections[i].class is Code {
        Some(choose|i: int|
            0 <= i < sections.len() && sections[i].class is Code && forall|j: int|
                0 <= j < i ==> !(sections[j].class is Code))
    } else {
        None
    }
}

/// The single range synthesized when the symbol table offers no function
/// starts: it spans the bytes present in the first code section.
pub open spec fn synthesized_range(s: Section) -> FunctionRange {
    FunctionRange { start: s.addr, end: s.addr.saturating_add(s.data.len() as u64) }
}

/// What boundary resolution guarantees of its result: well-formed ranges
/// whose starts are exactly the eligible symbol addresses with ends
/// following [`range_end_policy`], or the single synthesized whole-section
/// range when the table offers no function starts.
pub open spec fn ranges_resolution_ok(idx: AddressOwnerIndex, image: BinaryImage) -> bool {
    &&& idx.wf()
    &&& any_eligible(image.symbols@) ==> {
        &&& forall|a: u64|
            has_range_start(idx.ranges@, a) <==> has_eligible_addr(image.symbols@, a)
        &&& forall|i: int|
            0 <= i < idx.ranges@.len() ==> idx.ranges@[i].end == range_end_policy(
                idx.ranges@[i].start,
                first_func_sym(image.symbols@, idx.ranges@[i].start).size,
                if i + 1 < idx.ranges@.len() {
                    Some(idx.ranges@[i + 1].start)
                } else {
                    None
                },
                match section_end_spec(image.sections@, idx.ranges@[i].start) {
                    Some(e) => e,
                    None => idx.ranges@[i].start,
                },
            )
    }
    &&& !any_eligible(image.symbols@) ==> match first_code_section(image.sections@) {
        Some(ci) => idx.ranges@ =~= seq![synthesized_range(image.sections@[ci])],
        None => false,
    }
}

/// Resolve the function address ranges of an image and index them by
/// address.
///
/// When the symbol table contributes at least one function start, the range
/// starts are exactly those symbol addresses and each range end follows
/// [`range_end_policy`].  When it contributes none, a single range spanning
/// the first code section is synthesized, so an image without symbols still
/// analyzes; with no code section at all the call-tree path fails with
/// `SectionMissing`.
pub fn resolve_function_ranges(image: &BinaryImage) -> (r: Result<AddressOwnerIndex, AnalysisError>)
    ensures
        match r {
            Ok(idx) => ranges_resolution_ok(idx, *image),
            Err(e) => {
                &&& e is SectionMissing
                &&& !any_eligible(image.symbols@)
                &&& first_code_section(image.sections@) is None
            },
        },
{
    let fs = function_syms(&image.symbols);
    let m = fs.len();
    if m > 0 {
        proof {
            assert(has_start(fs@, fs@[0].start));
            assert(has_eligible_addr(image.symbols@, fs@[0].start));
            assert(any_eligible(image.symbols@)) by {
                let w = choose|i: int|
                    0 <= i < image.symbols@.len() && eligible(image.symbols@[i])
                        && image.symbols@[i].address == fs@[0].start;
                assert(eligible(image.symbols@[w]));
            }
        }
        let last_start = fs[m - 1].start;
        let last_end = match section_end_for(&image.sections, last_start) {
            Some(e) => e,
            None => last_start,
        };
        let ranges = build_ranges(&fs, last_end);
        proof {
            assert forall|a: u64| has_range_start(ranges@, a) <==> has_eligible_addr(
                image.symbols@,
                a,
            ) by {
                if has_range_start(ranges@, a) {
                    let w = choose|i: int| 0 <= i < ranges@.len() && ranges@[i].start == a;
                    assert(fs@[w].start == a);
                    assert(has_start(fs@, a));
                }
                if has_eligible_addr(image.symbols@, a) {
                    assert(has_start(fs@, a));
                    let w = choose|i: int| 0 <= i < fs@.len() && fs@[i].start == a;
                    assert(ranges@[w].start == a);
                    assert(has_range_start(ranges@, a));
                }
            }
            assert forall|i: int| 0 <= i < ranges@.len() implies ranges@[i].end
                == range_end_policy(
                ranges@[i].start,
                first_func_sym(image.symbols@, ranges@[i].start).size,
                if i + 1 < ranges@.len() {
                    Some(ranges@[i + 1].start)
                } else {
                    None
                },
                match section_end_spec(image.sections@, ranges@[i].start) {
                    Some(e) => e,
                    None => ranges@[i].start,
                },
            ) by {
                assert(fs@[i] == first_func_sym(image.symbols@, fs@[i].start));
            }
        }
        Ok(AddressOwnerIndex::new(ranges))
    } else {
        let n = image.sections.len();
        let mut ci: usize = 0;
        proof {
            if any_eligible(image.symbols@) {
                let w = choose|i: int|
                    0 <= i < image.symbols@.len() && eligible(image.symbols@[i]);
                assert(has_eligible_addr(image.symbols@, image.symbols@[w].address));
                assert(has_start(fs@, image.symbols@[w].address));
                assert(false);
            }
        }
        while ci < n
            invariant
                n == image.sections@.len(),
                ci <= n,
                !any_eligible(image.symbols@),
                forall|j: int| 0 <= j < ci ==> !(image.sections@[j].class is Code),
            decreases n - ci,
        {
            let s = &image.sections[ci];
            let is_code = match s.class {
                SectionClass::Code => true,
                SectionClass::Data => false,
                SectionClass::Other => false,
            };
            if is_code {
                let range = FunctionRange {
                    start: s.addr,
                    end: s.addr.saturating_add(s.data.len() as u64),
                };
                let mut ranges: Vec<FunctionRange> = Vec::new();
                ranges.push(range);
                proof {
                    assert(first_code_section(image.sections@) == Some(ci as int)) by {
                        assert(image.sections@[ci as int].class is Code);
                        let w = choose|i: int|
                            0 <= i < image.sections@.len() && image.sections@[i].class is Code
                                && forall|j: int| 0 <= j < i ==> !(image.sections@[j].class
                                is Code);
                        if w < ci {
                            assert(!(image.sections@[w].class is Code));
                        }
                        if w > ci {
                            assert(!(image.sections@[ci as int].class is Code));
                        }
                    }
                    assert(ranges@ =~= seq![synthesized_range(image.sections@[ci as int])]);
                    assert(ranges_wf(ranges@));
                }
                return Ok(AddressOwnerIndex::new(ranges));
            }
            ci = ci + 1;
        }
        proof {
            if exists|i: int| 0 <= i < image.sections@.len() && image.sections@[i].class
                is Code {
                let w = choose|i: int|
                    0 <= i < image.sections@.len() && image.sections@[i].class is Code;
                assert(false);
            }
        }
        Err(AnalysisError::SectionMissing)
    }
}

} // verus!
