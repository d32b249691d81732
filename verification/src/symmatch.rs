//! The export/import symbol matcher: resolves each undefined dynamic
//! symbol of the target to the first library in load order that exports it.
//!
//! Symbols are matched by name only; no symbol versioning or ordinal
//! disambiguation takes place.  This is an intentional simplification, not
//! full linker-accurate semantics.

use vstd::prelude::*;

use crate::elfdyn::{name_among, string_views};
use crate::libdeps::LibraryDescriptor;

verus! {

/// The index, from `k` on, of the first library in load order exporting
/// `nm`.
pub open spec fn first_exporter_from(order: Seq<LibraryDescriptor>, nm: Seq<char>, k: int) -> Option<
    int,
>
    decreases order.len() - k,
        when k >= 0
{
    if k < 0 || k >= order.len() {
        None
    } else if name_among(order[k].exported_symbols@, nm) {
        Some(k)
    } else {
        first_exporter_from(order, nm, k + 1)
    }
}

/// The index of the first library in load order exporting `nm`.
pub open spec fn first_exporter(order: Seq<LibraryDescriptor>, nm: Seq<char>) -> Option<int> {
    first_exporter_from(order, nm, 0)
}

/// The outcome for one undefined symbol name.
#[derive(Clone, Debug)]
pub enum SymbolResolution {
    /// The soname of the first library in load order exporting the name.
    ResolvedIn(String),
    /// No searched library exports the name; a reportable classification,
    /// not an error.
    Unresolved,
}

/// One undefined symbol with its resolution outcome.
#[derive(Clone, Debug)]
pub struct ResolvedSymbol {
    pub name: String,
    pub resolution: SymbolResolution,
}

fn contains_name_ref(v: &Vec<String>, s: &String) -> (r: bool)
    ensures
        r == name_among(v@, s@),
{
    let n = v.len();
    let mut i: usize = 0;
    while i < n
        invariant
            n == v@.len(),
            i <= n,
            forall|j: int| 0 <= j < i ==> v@[j]@ != s@,
        decreases n - i,
    {
        if v[i].eq(s) {
            return true;
        }
        i = i + 1;
    }
    false
}

/// The index of the first library in `order` exporting `name`, if any.
pub fn resolve_symbol(order: &Vec<LibraryDescriptor>, name: &String) -> (r: Option<usize>)
    ensures
        match r {
            Some(j) => j < order@.len() && first_exporter(order@, name@) == Some(j as int),
            None => first_exporter(order@, name@) is None,
        },
{
    let n = order.len();
    let mut k: usize = 0;
    while k < n
        invariant
            n == order@.len(),
            k <= n,
            first_exporter(order@, name@) == first_exporter_from(order@, name@, k as int),
        decreases n - k,
    {
        if contains_name_ref(&order[k].exported_symbols, name) {
            return Some(k);
        }
        k = k + 1;
    }
    None
}

/// Resolve every undefined name, in order, each to the first library in
/// load order exporting it, or to `Unresolved`.
pub fn resolve_symbols(undefined: &Vec<String>, order: &Vec<LibraryDescriptor>) -> (r: Vec<
    ResolvedSymbol,
>)
    ensures
        r@.len() == undefined@.len(),
        forall|i: int| 0 <= i < r@.len() ==> (#[trigger] r@[i]).name@ == undefined@[i]@,
        forall|i: int|
            0 <= i < r@.len() ==> match first_exporter(order@, undefined@[i]@) {
                Some(j) => (#[trigger] r@[i]).resolution matches SymbolResolution::ResolvedIn(s)
                    && s@ == order@[j].soname@,
                None => (#[trigger] r@[i]).resolution is Unresolved,
            },
{
    let n = undefined.len();
    let mut out: Vec<ResolvedSymbol> = Vec::new();
    let mut i: usize = 0;
    while i < n
        invariant
            n == undefined@.len(),
            i <= n,
            out@.len() == i,
            forall|l: int| 0 <= l < i ==> (#[trigger] out@[l]).name@ == undefined@[l]@,
            forall|l: int|
                0 <= l < i ==> match first_exporter(order@, undefined@[l]@) {
                    Some(j) => (#[trigger] out@[l]).resolution
                        matches SymbolResolution::ResolvedIn(s) && s@ == order@[j].soname@,
                    None => (#[trigger] out@[l]).resolution is Unresolved,
                },
        decreases n - i,
    {
        let name = &undefined[i];
        let resolution = match resolve_symbol(order, name) {
            Some(j) => SymbolResolution::ResolvedIn(order[j].soname.clone()),
            None => SymbolResolution::Unresolved,
        };
        out.push(ResolvedSymbol { name: name.clone(), resolution });
        i = i + 1;
    }
    out
}

/// The undefined names that resolve to library `j`, in their original
/// order, duplicates kept.
pub open spec fn supplied_spec(und: Seq<String>, order: Seq<LibraryDescriptor>, j: int) -> Seq<
    Seq<char>,
>
    decreases und.len(),
{
    if und.len() == 0 {
        Seq::empty()
    } else {
        supplied_spec(und.drop_last(), order, j) + if first_exporter(order, und.last()@) == Some(j) {
            seq![und.last()@]
        } else {
            Seq::empty()
        }
    }
}

/// The undefined names that no library resolves, in their original order.
pub open spec fn unmatched_spec(und: Seq<String>, order: Seq<LibraryDescriptor>) -> Seq<Seq<char>>
    decreases und.len(),
{
    if und.len() == 0 {
        Seq::empty()
    } else {
        unmatched_spec(und.drop_last(), order) + if first_exporter(order, und.last()@) is None {
            seq![und.last()@]
        } else {
            Seq::empty()
        }
    }
}

/// For each library of the load order, the undefined names it supplies to
/// the target.
pub fn group_supplies(undefined: &Vec<String>, order: &Vec<LibraryDescriptor>) -> (r: Vec<
    Vec<String>,
>)
    ensures
        r@.len() == order@.len(),
        forall|j: int|
            0 <= j < r@.len() ==> string_views((#[trigger] r@[j])@) == supplied_spec(
                undefined@,
                order@,
                j,
            ),
{
    let m = order.len();
    let n = undefined.len();
    let mut out: Vec<Vec<String>> = Vec::new();
    let mut j: usize = 0;
    while j < m
        invariant
            m == order@.len(),
            n == undefined@.len(),
            j <= m,
            out@.len() == j,
            forall|l: int|
                0 <= l < j ==> string_views((#[trigger] out@[l])@) == supplied_spec(
                    undefined@,
                    order@,
                    l,
                ),
        decreases m - j,
    {
        let mut bucket: Vec<String> = Vec::new();
        let mut i: usize = 0;
        while i < n
            invariant
                m == order@.len(),
                n == undefined@.len(),
                j < m,
                i <= n,
                string_views(bucket@) == supplied_spec(undefined@.subrange(0, i as int), order@, j as int),
            decreases n - i,
        {
            let ghost prebucket = bucket@;
            let hit = match resolve_symbol(order, &undefined[i]) {
                Some(k) => k == j,
                None => false,
            };
            if hit {
                bucket.push(undefined[i].clone());
            }
            proof {
                assert(undefined@.subrange(0, i + 1).drop_last() =~= undefined@.subrange(
                    0,
                    i as int,
                ));
                assert(undefined@.subrange(0, i + 1).last() == undefined@[i as int]);
                if first_exporter(order@, undefined@[i as int]@) == Some(j as int) {
                    assert(string_views(bucket@) =~= string_views(prebucket) + seq![
                        undefined@[i as int]@,
                    ]);
                } else {
                    assert(string_views(bucket@) =~= string_views(prebucket));
                    assert(supplied_spec(undefined@.subrange(0, i + 1), order@, j as int)
                        =~= supplied_spec(undefined@.subrange(0, i as int), order@, j as int));
                }
            }
            i = i + 1;
        }
        assert(undefined@.subrange(0, n as int) =~= undefined@);
        out.push(bucket);
        j = j + 1;
    }
    out
}

/// The undefined names that no searched library exports, in order.
pub fn unmatched_names(undefined: &Vec<String>, order: &Vec<LibraryDescriptor>) -> (r: Vec<String>)
    ensures
        string_views(r@) == unmatched_spec(undefined@, order@),
{
    let n = undefined.len();
    let mut out: Vec<String> = Vec::new();
    let mut i: usize = 0;
    while i < n
        invariant
            n == undefined@.len(),
            i <= n,
            string_views(out@) == unmatched_spec(undefined@.subrange(0, i as int), order@),
        decreases n - i,
    {
        let ghost preout = out@;
        let miss = match resolve_symbol(order, &undefined[i]) {
            Some(_) => false,
            None => true,
        };
        if miss {
            out.push(undefined[i].clone());
        }
        proof {
            assert(undefined@.subrange(0, i + 1).drop_last() =~= undefined@.subrange(0, i as int));
            assert(undefined@.subrange(0, i + 1).last() == undefined@[i as int]);
            if first_exporter(order@, undefined@[i as int]@) is None {
                assert(string_views(out@) =~= string_views(preout) + seq![
                    undefined@[i as int]@,
                ]);
            } else {
                assert(string_views(out@) =~= string_views(preout));
                assert(unmatched_spec(undefined@.subrange(0, i + 1), order@) =~= unmatched_spec(
                    undefined@.subrange(0, i as int),
                    order@,
                ));
            }
        }
        i = i + 1;
    }
    assert(undefined@.subrange(0, n as int) =~= undefined@);
    out
}

} // verus!
