//! The call-graph builder: scans each function's decoded instructions for
//! call instructions, resolves their targets as far as the image allows, and
//! stores each caller's edges deduplicated and sorted by callee address.
//!
//! Indirect-call resolution by a static pointer read is best-effort: a
//! register-indirect call whose pointer is only computed at run time stays
//! unresolved by design.

use vstd::prelude::*;

use crate::boundaries::FunctionRange;
use crate::decoder::{
    decoded_insns, disassemble, is_instruction_pointer, reg_is_instruction_pointer, views_of,
    DecodingEngine, InsnRecord, InsnView, OperandView,
};
use crate::image::{read_clipped_spec, read_u64_spec, BinaryImage, Section};
use crate::strutil::str_eq;

verus! {

/// How a call edge's target was established.
#[derive(Clone, Copy, PartialEq, Eq, Structural, Debug)]
pub enum CallResolution {
    /// An immediate absolute target.
    Direct,
    /// A RIP-relative pointer slot read from the mapped sections.
    IndirectResolved,
    /// Any call whose target could not be established statically; the
    /// `callee` field then holds the call site, not a target.
    IndirectUnresolved,
}

/// One call edge of the graph.
#[derive(Clone, Copy, PartialEq, Eq, Structural, Debug)]
pub struct CallEdge {
    pub caller: u64,
    pub callee: u64,
    pub resolution: CallResolution,
}

/// An instruction is a call when its mnemonic reads `call`.
pub open spec fn is_call_mnemonic(m: Seq<char>) -> bool {
    m == "call"@
}

/// The virtual address of a RIP-relative memory operand: the address of the
/// next instruction plus the displacement, in wrapping arithmetic.
pub open spec fn rip_slot_addr(v: InsnView, disp: i64) -> u64 {
    v.address.wrapping_add(v.length as u64).wrapping_add(disp as u64)
}

/// The edge contributed by one decoded instruction, if any.
///
/// An immediate operand gives a direct edge; a RIP-relative memory operand
/// names a pointer slot, read from the mapped sections as a little-endian
/// pointer when present; every other call form stays unresolved.
pub open spec fn edge_for_insn(v: InsnView, sections: Seq<Section>, caller: u64) -> Option<
    CallEdge,
> {
    if !is_call_mnemonic(v.mnemonic) {
        None
    } else {
        match v.operand {
            OperandView::Immediate(t) => Some(
                CallEdge { caller, callee: t as u64, resolution: CallResolution::Direct },
            ),
            OperandView::Memory { base, disp } => {
                if reg_is_instruction_pointer(base) {
                    match read_u64_spec(sections, rip_slot_addr(v, disp)) {
                        Some(p) => Some(
                            CallEdge {
                                caller,
                                callee: p,
                                resolution: CallResolution::IndirectResolved,
                            },
                        ),
                        None => Some(
                            CallEdge {
                                caller,
                                callee: v.address,
                                resolution: CallResolution::IndirectUnresolved,
                            },
                        ),
                    }
                } else {
                    Some(
                        CallEdge {
                            caller,
                            callee: v.address,
                            resolution: CallResolution::IndirectUnresolved,
                        },
                    )
                }
            },
            OperandView::Other => Some(
                CallEdge { caller, callee: v.address, resolution: CallResolution::IndirectUnresolved },
            ),
        }
    }
}

/// The raw edge sequence of a decoded instruction sequence, in scan order.
pub open spec fn edges_spec(insns: Seq<InsnView>, sections: Seq<Section>, caller: u64) -> Seq<
    CallEdge,
>
    decreases insns.len(),
{
    if insns.len() == 0 {
        Seq::empty()
    } else {
        edges_spec(insns.drop_last(), sections, caller) + match edge_for_insn(
            insns.last(),
            sections,
            caller,
        ) {
            Some(e) => seq![e],
            None => Seq::empty(),
        }
    }
}

/// Scan decoded instruction records for call edges, in scan order.
pub fn scan_edges(insns: &Vec<InsnRecord>, image: &BinaryImage, caller: u64) -> (r: Vec<CallEdge>)
    requires
        image.wf(),
    ensures
        r@ == edges_spec(views_of(insns@), image.sections@, caller),
{
    let n = insns.len();
    let mut out: Vec<CallEdge> = Vec::new();
    let mut i: usize = 0;
    while i < n
        invariant
            image.wf(),
            n == insns@.len(),
            i <= n,
            out@ == edges_spec(views_of(insns@.subrange(0, i as int)), image.sections@, caller),
        decreases n - i,
    {
        let ghost prefix = views_of(insns@.subrange(0, i as int));
        let ghost prefix1 = views_of(insns@.subrange(0, i + 1));
        proof {
            assert(insns@.subrange(0, i + 1).drop_last() =~= insns@.subrange(0, i as int));
            assert(prefix1.drop_last() =~= prefix);
            assert(prefix1.last() == insns@[i as int]@);
        }
        let rec = &insns[i];
        let is_call = str_eq(rec.mnemonic.as_str(), "call");
        if is_call {
            let edge: CallEdge = match rec.operand {
                OperandView::Immediate(t) => CallEdge {
                    caller,
                    callee: t as u64,
                    resolution: CallResolution::Direct,
                },
                OperandView::Memory { base, disp } => {
                    if is_instruction_pointer(base) {
                        let slot = rec.address.wrapping_add(rec.length as u64).wrapping_add(
                            disp as u64,
                        );
                        assert(slot == rip_slot_addr(insns@[i as int]@, disp));
                        match image.read_u64_le(slot) {
                            Some(p) => CallEdge {
                                caller,
                                callee: p,
                                resolution: CallResolution::IndirectResolved,
                            },
                            None => CallEdge {
                                caller,
                                callee: rec.address,
                                resolution: CallResolution::IndirectUnresolved,
                            },
                        }
                    } else {
                        CallEdge {
                            caller,
                            callee: rec.address,
                            resolution: CallResolution::IndirectUnresolved,
                        }
                    }
                },
                OperandView::Other => CallEdge {
                    caller,
                    callee: rec.address,
                    resolution: CallResolution::IndirectUnresolved,
                },
            };
            assert(Some(edge) == edge_for_insn(insns@[i as int]@, image.sections@, caller));
            out.push(edge);
        } else {
            assert(edge_for_insn(insns@[i as int]@, image.sections@, caller) is None);
        }
        i = i + 1;
    }
    assert(insns@.subrange(0, n as int) =~= insns@);
    out
}

/// The preference rank of a resolution: a lower rank is a better-established
/// target, and wins when one callee address is reached by several call
/// forms.
pub open spec fn resolution_rank(r: CallResolution) -> int {
    match r {
        CallResolution::Direct => 0,
        CallResolution::IndirectResolved => 1,
        CallResolution::IndirectUnresolved => 2,
    }
}

/// A caller's stored edge list: strictly ascending by callee address, so
/// every callee address appears at most once.
pub open spec fn edges_sorted(es: Seq<CallEdge>) -> bool {
    forall|i: int, j: int| 0 <= i < j < es.len() ==> es[i].callee < es[j].callee
}

/// All edges of the list belong to one caller.
pub open spec fn edges_of_caller(es: Seq<CallEdge>, caller: u64) -> bool {
    forall|i: int| 0 <= i < es.len() ==> es[i].caller == caller
}

/// Some edge of the list targets callee address `c`.
pub open spec fn has_callee(es: Seq<CallEdge>, c: u64) -> bool {
    exists|i: int| 0 <= i < es.len() && es[i].callee == c
}

/// `y`'s resolution rank is minimal among the edges of `raw` targeting
/// `y`'s callee.
pub open spec fn min_rank_in(raw: Seq<CallEdge>, y: CallEdge) -> bool {
    forall|i: int|
        0 <= i < raw.len() && (#[trigger] raw[i]).callee == y.callee ==> resolution_rank(
            y.resolution,
        ) <= resolution_rank(raw[i].resolution)
}

/// The stored list represents the raw scan: exactly the raw callee
/// addresses, each through a raw edge of minimal rank for that callee.
/// With strict sortedness this determines the stored list uniquely
/// ([`lemma_dedup_unique`]).
pub open spec fn dedup_represents(out: Seq<CallEdge>, raw: Seq<CallEdge>) -> bool {
    &&& forall|c: u64| has_callee(out, c) <==> has_callee(raw, c)
    &&& forall|y: CallEdge| #[trigger] out.contains(y) ==> raw.contains(y) && min_rank_in(raw, y)
}

fn resolution_rank_exec(r: &CallResolution) -> (k: u8)
    ensures
        k as int == resolution_rank(*r),
{
    match r {
        CallResolution::Direct => 0,
        CallResolution::IndirectResolved => 1,
        CallResolution::IndirectUnresolved => 2,
    }
}

/// Insert an edge into a list that is strictly sorted by callee address: a
/// new callee takes its place in order; when the callee is already present
/// the better-ranked edge survives.
#[verifier::rlimit(100)]
fn insert_edge(v: &mut Vec<CallEdge>, e: CallEdge, caller: u64)
    requires
        edges_sorted(old(v)@),
        edges_of_caller(old(v)@, caller),
        e.caller == caller,
    ensures
        edges_sorted(final(v)@),
        edges_of_caller(final(v)@, caller),
        forall|c: u64| has_callee(final(v)@, c) <==> (has_callee(old(v)@, c) || c == e.callee),
        forall|y: CallEdge| #[trigger] final(v)@.contains(y) ==> old(v)@.contains(y) || (y == e && (
        forall|z: CallEdge|
            #[trigger] old(v)@.contains(z) && z.callee == e.callee ==> resolution_rank(
                e.resolution,
            ) <= resolution_rank(z.resolution))),
        forall|y: CallEdge|
            #[trigger] final(v)@.contains(y) && y.callee == e.callee ==> resolution_rank(
                y.resolution,
            ) <= resolution_rank(e.resolution),
        forall|y: CallEdge|
            #[trigger] old(v)@.contains(y) && y.callee != e.callee ==> final(v)@.contains(y),
        forall|y: CallEdge|
            #[trigger] old(v)@.contains(y) && y.callee == e.callee && resolution_rank(y.resolution)
                <= resolution_rank(e.resolution) ==> final(v)@.contains(y),
{
    let n = v.len();
    let mut idx: usize = 0;
    while idx < n && v[idx].callee < e.callee
        invariant
            n == v@.len(),
            idx <= n,
            edges_sorted(v@),
            edges_of_caller(v@, caller),
            v@ == old(v)@,
            forall|j: int| 0 <= j < idx ==> v@[j].callee < e.callee,
        decreases n - idx,
    {
        idx = idx + 1;
    }
    assert(forall|j: int| idx < j < n ==> v@[j].callee > e.callee) by {
        if idx < n {
            assert forall|j: int| idx < j < n implies v@[j].callee > e.callee by {
                assert(v@[idx as int].callee < v@[j].callee);
            }
        }
    }
    if idx < n && v[idx].callee == e.callee {
        // the callee is present exactly once, at idx
        assert(forall|j: int| 0 <= j < n && j != idx ==> v@[j].callee != e.callee);
        let rk_new = resolution_rank_exec(&e.resolution);
        let rk_old = resolution_rank_exec(&v[idx].resolution);
        let ghost oldv = v@;
        if rk_new < rk_old {
            // the new edge is better established: it takes the slot
            proof {
                oldv.remove_ensures(idx as int);
                oldv.remove(idx as int).insert_ensures(idx as int, e);
            }
            v.remove(idx);
            v.insert(idx, e);
            assert(v@.len() == oldv.len());
            assert(forall|j: int| 0 <= j < n && j != idx ==> v@[j] == oldv[j]);
            assert(v@[idx as int] == e);
            assert(edges_sorted(v@));
            proof {
                assert forall|c: u64| has_callee(v@, c) <==> (has_callee(oldv, c) || c
                    == e.callee) by {
                    if has_callee(v@, c) {
                        let w = choose|i: int| 0 <= i < v@.len() && v@[i].callee == c;
                        if w != idx {
                            assert(oldv[w].callee == c);
                        }
                    }
                    if has_callee(oldv, c) {
                        let w = choose|i: int| 0 <= i < oldv.len() && oldv[i].callee == c;
                        assert(v@[w].callee == c);
                    }
                    if c == e.callee {
                        assert(v@[idx as int].callee == c);
                    }
                }
                assert forall|y: CallEdge| #[trigger] v@.contains(y) implies oldv.contains(y) || (y
                    == e && (forall|z: CallEdge|
                    #[trigger] oldv.contains(z) && z.callee == e.callee ==> resolution_rank(
                        e.resolution,
                    ) <= resolution_rank(z.resolution))) by {
                    let w = choose|i: int| 0 <= i < v@.len() && v@[i] == y;
                    if w != idx {
                        assert(oldv[w] == y);
                        assert(oldv.contains(y));
                    } else {
                        assert(y == e);
                        assert forall|z: CallEdge|
                            #[trigger] oldv.contains(z) && z.callee == e.callee implies
                            resolution_rank(e.resolution) <= resolution_rank(z.resolution) by {
                            let wz = choose|i: int| 0 <= i < oldv.len() && oldv[i] == z;
                            assert(wz == idx);
                        }
                    }
                }
                assert forall|y: CallEdge|
                    #[trigger] v@.contains(y) && y.callee == e.callee implies resolution_rank(
                    y.resolution,
                ) <= resolution_rank(e.resolution) by {
                    let w = choose|i: int| 0 <= i < v@.len() && v@[i] == y;
                    assert(w == idx);
                }
                assert forall|y: CallEdge|
                    #[trigger] oldv.contains(y) && y.callee != e.callee implies v@.contains(
                    y,
                ) by {
                    let w = choose|i: int| 0 <= i < oldv.len() && oldv[i] == y;
                    assert(v@[w] == y);
                }
                assert forall|y: CallEdge|
                    #[trigger] oldv.contains(y) && y.callee == e.callee && resolution_rank(
                    y.resolution,
                ) <= resolution_rank(e.resolution) implies v@.contains(y) by {
                    let w = choose|i: int| 0 <= i < oldv.len() && oldv[i] == y;
                    assert(w == idx);
                    assert(false);
                }
            }
        } else {
            // the stored edge is at least as well established: keep it
            proof {
                assert forall|c: u64| has_callee(v@, c) <==> (has_callee(oldv, c) || c
                    == e.callee) by {
                    if c == e.callee {
                        assert(v@[idx as int].callee == c);
                    }
                }
                assert forall|y: CallEdge|
                    #[trigger] v@.contains(y) && y.callee == e.callee implies resolution_rank(
                    y.resolution,
                ) <= resolution_rank(e.resolution) by {
                    let w = choose|i: int| 0 <= i < v@.len() && v@[i] == y;
                    assert(w == idx);
                }
            }
        }
        return ;
    }
    // a fresh callee: every earlier entry is below it, every later one above
    assert(!has_callee(v@, e.callee)) by {
        if has_callee(v@, e.callee) {
            let w = choose|i: int| 0 <= i < v@.len() && v@[i].callee == e.callee;
            if w < idx {
            } else if w == idx {
                assert(idx < n);
            }
            assert(false);
        }
    }
    let ghost oldv = v@;
    proof {
        oldv.insert_ensures(idx as int, e);
    }
    v.insert(idx, e);
    assert(edges_sorted(v@)) by {
        assert forall|i: int, j: int| 0 <= i < j < v@.len() implies v@[i].callee < v@[j].callee by {
            let a = if i < idx {
                oldv[i]
            } else if i == idx {
                e
            } else {
                oldv[i - 1]
            };
            assert(v@[i] == a);
            let b = if j < idx {
                oldv[j]
            } else if j == idx {
                e
            } else {
                oldv[j - 1]
            };
            assert(v@[j] == b);
            if idx < n && i == idx {
                assert(e.callee < oldv[idx as int].callee);
            }
            if idx < n && j == idx && i < idx {
                assert(oldv[i].callee < e.callee);
            }
        }
    }
    proof {
        assert forall|c: u64| has_callee(v@, c) <==> (has_callee(oldv, c) || c == e.callee) by {
            if has_callee(v@, c) {
                let w = choose|i: int| 0 <= i < v@.len() && v@[i].callee == c;
                if w < idx {
                    assert(oldv[w].callee == c);
                } else if w > idx {
                    assert(oldv[w - 1].callee == c);
                }
            }
            if has_callee(oldv, c) {
                let w = choose|i: int| 0 <= i < oldv.len() && oldv[i].callee == c;
                if w < idx {
                    assert(v@[w].callee == c);
                } else {
                    assert(v@[w + 1].callee == c);
                }
            }
            if c == e.callee {
                assert(v@[idx as int].callee == c);
            }
        }
        assert forall|y: CallEdge| #[trigger] v@.contains(y) implies oldv.contains(y) || (y == e && (
        forall|z: CallEdge|
            #[trigger] oldv.contains(z) && z.callee == e.callee ==> resolution_rank(e.resolution)
                <= resolution_rank(z.resolution))) by {
            let w = choose|i: int| 0 <= i < v@.len() && v@[i] == y;
            if w < idx {
                assert(oldv[w] == y);
            } else if w > idx {
                assert(oldv[w - 1] == y);
            } else {
                assert(y == e);
                assert forall|z: CallEdge|
                    #[trigger] oldv.contains(z) && z.callee == e.callee implies resolution_rank(
                    e.resolution,
                ) <= resolution_rank(z.resolution) by {
                    let wz = choose|i: int| 0 <= i < oldv.len() && oldv[i] == z;
                    assert(has_callee(oldv, e.callee));
                }
            }
        }
        assert forall|y: CallEdge|
            #[trigger] v@.contains(y) && y.callee == e.callee implies resolution_rank(y.resolution)
                <= resolution_rank(e.resolution) by {
            let w = choose|i: int| 0 <= i < v@.len() && v@[i] == y;
            if w < idx {
                assert(oldv[w] == y);
                assert(has_callee(oldv, e.callee));
            } else if w > idx {
                assert(oldv[w - 1] == y);
                assert(has_callee(oldv, e.callee));
            }
        }
        assert forall|y: CallEdge|
            #[trigger] oldv.contains(y) implies v@.contains(y) by {
            let w = choose|i: int| 0 <= i < oldv.len() && oldv[i] == y;
            if w < idx {
                assert(v@[w] == y);
            } else {
                assert(v@[w + 1] == y);
            }
        }
    }
    assert(edges_of_caller(v@, caller)) by {
        assert forall|i: int| 0 <= i < v@.len() implies v@[i].caller == caller by {
            assert(v@.contains(v@[i]));
            if v@[i] != e {
                assert(oldv.contains(v@[i]));
            }
        }
    }
}

/// Deduplicate a caller's raw edges by callee address and sort them: each
/// raw callee keeps exactly one edge, the best-established one (lowest
/// resolution rank) that the scan found for it.
pub fn dedup_sort_edges(raw: &Vec<CallEdge>, caller: u64) -> (r: Vec<CallEdge>)
    requires
        edges_of_caller(raw@, caller),
    ensures
        edges_sorted(r@),
        edges_of_caller(r@, caller),
        dedup_represents(r@, raw@),
{
    let n = raw.len();
    let mut out: Vec<CallEdge> = Vec::new();
    let mut i: usize = 0;
    while i < n
        invariant
            n == raw@.len(),
            i <= n,
            edges_of_caller(raw@, caller),
            edges_sorted(out@),
            edges_of_caller(out@, caller),
            dedup_represents(out@, raw@.subrange(0, i as int)),
        decreases n - i,
    {
        let ghost pre = raw@.subrange(0, i as int);
        let ghost preout = out@;
        let e = raw[i];
        assert(e.caller == caller);
        insert_edge(&mut out, e, caller);
        proof {
            let pre1 = raw@.subrange(0, i + 1);
            assert(pre1 =~= pre.push(e));
            assert forall|c: u64| has_callee(out@, c) <==> has_callee(pre1, c) by {
                if has_callee(out@, c) {
                    if has_callee(preout, c) {
                        assert(has_callee(pre, c));
                        let w = choose|k: int| 0 <= k < pre.len() && pre[k].callee == c;
                        assert(pre1[w].callee == c);
                    } else {
                        assert(c == e.callee);
                        assert(pre1[i as int].callee == c);
                    }
                }
                if has_callee(pre1, c) {
                    let w = choose|k: int| 0 <= k < pre1.len() && pre1[k].callee == c;
                    if w < i {
                        assert(pre[w].callee == c);
                        assert(has_callee(pre, c));
                        assert(has_callee(preout, c));
                    } else {
                        assert(c == e.callee);
                    }
                    assert(has_callee(out@, c));
                }
            }
            assert forall|y: CallEdge| #[trigger] out@.contains(y) implies pre1.contains(y)
                && min_rank_in(pre1, y) by {
                if preout.contains(y) && (y.callee != e.callee || resolution_rank(y.resolution)
                    <= resolution_rank(e.resolution)) {
                    // an edge carried over from the processed prefix
                    assert(pre.contains(y) && min_rank_in(pre, y));
                    let w = choose|k: int| 0 <= k < pre.len() && pre[k] == y;
                    assert(pre1[w] == y);
                    assert forall|k: int|
                        0 <= k < pre1.len() && (#[trigger] pre1[k]).callee == y.callee implies
                        resolution_rank(y.resolution) <= resolution_rank(pre1[k].resolution) by {
                        if k < i {
                            assert(pre[k] == pre1[k]);
                        } else {
                            assert(pre1[k] == e);
                            assert(out@.contains(y) && y.callee == e.callee);
                        }
                    }
                } else if preout.contains(y) {
                    // a prefix edge to e's callee that insert_edge replaced
                    assert(resolution_rank(e.resolution) < resolution_rank(y.resolution));
                    assert(!out@.contains(y)) by {
                        assert(out@.contains(y) && y.callee == e.callee ==> resolution_rank(
                            y.resolution,
                        ) <= resolution_rank(e.resolution));
                    }
                    assert(false);
                } else {
                    // the freshly scanned edge itself
                    assert(y == e && (forall|z: CallEdge|
                        #[trigger] preout.contains(z) && z.callee == e.callee ==> resolution_rank(
                            e.resolution,
                        ) <= resolution_rank(z.resolution)));
                    assert(pre1[i as int] == y);
                    assert forall|k: int|
                        0 <= k < pre1.len() && (#[trigger] pre1[k]).callee == y.callee implies
                        resolution_rank(y.resolution) <= resolution_rank(pre1[k].resolution) by {
                        if k < i {
                            assert(pre[k] == pre1[k]);
                            assert(has_callee(pre, e.callee));
                            assert(has_callee(preout, e.callee));
                            let ws = choose|m: int|
                                0 <= m < preout.len() && preout[m].callee == e.callee;
                            let z = preout[ws];
                            assert(preout.contains(z));
                            assert(min_rank_in(pre, z));
                            assert(resolution_rank(z.resolution) <= resolution_rank(
                                pre[k].resolution,
                            ));
                            assert(resolution_rank(e.resolution) <= resolution_rank(z.resolution));
                        }
                    }
                }
            }
        }
        i = i + 1;
    }
    assert(raw@.subrange(0, n as int) =~= raw@);
    out
}

/// One node of the call graph: a function start and its outgoing edges.
pub struct CallGraphNode {
    pub caller: u64,
    pub edges: Vec<CallEdge>,
}

/// What a well-built node's edge list holds: when the function's byte span
/// is mapped, one edge per callee address scanned from its decoded
/// instructions — the best-established edge for that callee — sorted by
/// callee; when the span is unmapped, no edges.
pub open spec fn node_edges_ok(n: CallGraphNode, range: FunctionRange, sections: Seq<Section>) -> bool {
    &&& n.caller == range.start
    &&& edges_sorted(n.edges@)
    &&& edges_of_caller(n.edges@, range.start)
    &&& match read_clipped_spec(sections, range.start, (range.end - range.start) as u64) {
        Some(span) => dedup_represents(
            n.edges@,
            edges_spec(decoded_insns(span, range.start), sections, range.start),
        ),
        None => n.edges@.len() == 0,
    }
}

/// The call graph: one node per function range, in range order (so nodes are
/// sorted by strictly increasing caller address).  Built once per analysis
/// run and read-only thereafter.
pub struct CallGraph {
    pub nodes: Vec<CallGraphNode>,
}

impl CallGraph {
    /// Nodes carry strictly increasing caller addresses.
    pub open spec fn wf(&self) -> bool {
        forall|i: int, j: int|
            0 <= i < j < self.nodes@.len() ==> self.nodes@[i].caller < self.nodes@[j].caller
    }

    /// The index of the node owned by `caller`, if one exists.
    pub fn node_index_of(&self, caller: u64) -> (r: Option<usize>)
        ensures
            match r {
                Some(k) => 0 <= k < self.nodes@.len() && self.nodes@[k as int].caller == caller,
                None => forall|i: int|
                    0 <= i < self.nodes@.len() ==> self.nodes@[i].caller != caller,
            },
    {
        let n = self.nodes.len();
        let mut i: usize = 0;
        while i < n
            invariant
                n == self.nodes@.len(),
                i <= n,
                forall|j: int| 0 <= j < i ==> self.nodes@[j].caller != caller,
            decreases n - i,
        {
            if self.nodes[i].caller == caller {
                return Some(i);
            }
            i = i + 1;
        }
        None
    }
}

/// Build the call graph of an image: decode each function range's byte span
/// (clipped to the section holding it) and scan it for call edges.
///
/// A range whose span is unmapped or fails to decode contributes zero edges;
/// the analysis continues with the other functions.
pub fn build_call_graph(
    cs: &DecodingEngine,
    image: &BinaryImage,
    ranges: &Vec<FunctionRange>,
) -> (r: CallGraph)
    requires
        image.wf(),
        crate::boundaries::ranges_wf(ranges@),
    ensures
        r.wf(),
        r.nodes@.len() == ranges@.len(),
        forall|i: int|
            0 <= i < ranges@.len() ==> node_edges_ok(r.nodes@[i], ranges@[i], image.sections@),
{
    let n = ranges.len();
    let mut nodes: Vec<CallGraphNode> = Vec::new();
    let mut i: usize = 0;
    while i < n
        invariant
            image.wf(),
            crate::boundaries::ranges_wf(ranges@),
            n == ranges@.len(),
            i <= n,
            nodes@.len() == i,
            forall|k: int| 0 <= k < i ==> nodes@[k].caller == ranges@[k].start,
            forall|k: int|
                0 <= k < i ==> node_edges_ok(nodes@[k], ranges@[k], image.sections@),
        decreases n - i,
    {
        let range = ranges[i];
        let want = range.end - range.start;
        let edges: Vec<CallEdge> = match image.read_clipped(range.start, want) {
            Some(span) => {
                let insns = disassemble(cs, span.as_slice(), range.start);
                let raw = scan_edges(&insns, image, range.start);
                proof {
                    assert(edges_of_caller(raw@, range.start)) by {
                        lemma_edges_spec_caller(
                            views_of(insns@),
                            image.sections@,
                            range.start,
                        );
                    }
                }
                dedup_sort_edges(&raw, range.start)
            },
            None => Vec::new(),
        };
        let node = CallGraphNode { caller: range.start, edges };
        assert(node_edges_ok(node, ranges@[i as int], image.sections@));
        nodes.push(node);
        i = i + 1;
    }
    let graph = CallGraph { nodes };
    assert(graph.wf()) by {
        assert forall|a: int, b: int| 0 <= a < b < graph.nodes@.len() implies graph.nodes@[a].caller
            < graph.nodes@[b].caller by {
            assert(ranges@[a].start < ranges@[b].start);
        }
    }
    graph
}

/// Two lists strictly sorted by callee address holding the same edges are
/// equal.
pub proof fn lemma_sorted_same_edges_equal(a: Seq<CallEdge>, b: Seq<CallEdge>)
    requires
        edges_sorted(a),
        edges_sorted(b),
        forall|x: CallEdge| a.contains(x) <==> b.contains(x),
    ensures
        a == b,
    decreases a.len(),
{
    if a.len() == 0 {
        if b.len() > 0 {
            assert(b.contains(b[0]));
            let w = choose|i: int| 0 <= i < a.len() && a[i] == b[0];
            assert(false);
        }
        assert(a =~= b);
    } else {
        assert(a.contains(a[0]));
        assert(b.len() > 0) by {
            let w = choose|i: int| 0 <= i < b.len() && b[i] == a[0];
        }
        assert(a[0] == b[0]) by {
            assert(b.contains(a[0]));
            let wa = choose|i: int| 0 <= i < b.len() && b[i] == a[0];
            assert(a.contains(b[0]));
            let wb = choose|i: int| 0 <= i < a.len() && a[i] == b[0];
            if wa > 0 && wb > 0 {
                assert(b[0].callee < b[wa].callee);
                assert(a[0].callee < a[wb].callee);
                assert(false);
            }
        }
        let ta = a.drop_first();
        let tb = b.drop_first();
        assert(edges_sorted(ta)) by {
            assert(forall|i: int, j: int|
                0 <= i < j < ta.len() ==> ta[i] == a[i + 1] && ta[j] == a[j + 1]);
        }
        assert(edges_sorted(tb)) by {
            assert(forall|i: int, j: int|
                0 <= i < j < tb.len() ==> tb[i] == b[i + 1] && tb[j] == b[j + 1]);
        }
        assert forall|x: CallEdge| ta.contains(x) <==> tb.contains(x) by {
            if ta.contains(x) {
                let w = choose|i: int| 0 <= i < ta.len() && ta[i] == x;
                assert(a[w + 1] == x);
                assert(a[0].callee < x.callee);
                assert(a.contains(x));
                assert(b.contains(x));
                let w2 = choose|i: int| 0 <= i < b.len() && b[i] == x;
                assert(w2 != 0) by {
                    if w2 == 0 {
                        assert(x == b[0]);
                    }
                }
                assert(tb[w2 - 1] == x);
            }
            if tb.contains(x) {
                let w = choose|i: int| 0 <= i < tb.len() && tb[i] == x;
                assert(b[w + 1] == x);
                assert(b[0].callee < x.callee);
                assert(b.contains(x));
                assert(a.contains(x));
                let w2 = choose|i: int| 0 <= i < a.len() && a[i] == x;
                assert(w2 != 0) by {
                    if w2 == 0 {
                        assert(x == a[0]);
                    }
                }
                assert(ta[w2 - 1] == x);
            }
        }
        lemma_sorted_same_edges_equal(ta, tb);
        assert forall|i: int| 0 <= i < a.len() implies a[i] == b[i] by {
            if i > 0 {
                assert(ta[i - 1] == a[i]);
                assert(tb[i - 1] == b[i]);
            }
        }
        assert(a =~= b);
    }
}

/// The stored edge list is determined by the raw scan: any two sorted lists
/// of one caller representing the same raw edges are equal.  Since the raw
/// scan is a function of the decoded instructions and the image alone,
/// re-running the builder on identical bytes yields an identical edge list.
pub proof fn lemma_dedup_unique(a: Seq<CallEdge>, b: Seq<CallEdge>, raw: Seq<CallEdge>, caller: u64)
    requires
        edges_sorted(a),
        edges_sorted(b),
        edges_of_caller(raw, caller),
        dedup_represents(a, raw),
        dedup_represents(b, raw),
    ensures
        a == b,
{
    assert forall|x: CallEdge| a.contains(x) <==> b.contains(x) by {
        if a.contains(x) {
            assert(raw.contains(x) && min_rank_in(raw, x));
            assert(has_callee(raw, x.callee)) by {
                let w = choose|i: int| 0 <= i < raw.len() && raw[i] == x;
            }
            assert(has_callee(b, x.callee));
            let wb = choose|i: int| 0 <= i < b.len() && b[i].callee == x.callee;
            let z = b[wb];
            assert(b.contains(z));
            assert(raw.contains(z) && min_rank_in(raw, z));
            let wxr = choose|i: int| 0 <= i < raw.len() && raw[i] == x;
            let wzr = choose|i: int| 0 <= i < raw.len() && raw[i] == z;
            assert(resolution_rank(x.resolution) <= resolution_rank(z.resolution));
            assert(resolution_rank(z.resolution) <= resolution_rank(x.resolution));
            assert(x.resolution == z.resolution);
            assert(x.caller == caller && z.caller == caller);
            assert(x == z);
        }
        if b.contains(x) {
            assert(raw.contains(x) && min_rank_in(raw, x));
            assert(has_callee(raw, x.callee)) by {
                let w = choose|i: int| 0 <= i < raw.len() && raw[i] == x;
            }
            assert(has_callee(a, x.callee));
            let wa = choose|i: int| 0 <= i < a.len() && a[i].callee == x.callee;
            let z = a[wa];
            assert(a.contains(z));
            assert(raw.contains(z) && min_rank_in(raw, z));
            let wxr = choose|i: int| 0 <= i < raw.len() && raw[i] == x;
            let wzr = choose|i: int| 0 <= i < raw.len() && raw[i] == z;
            assert(resolution_rank(x.resolution) <= resolution_rank(z.resolution));
            assert(resolution_rank(z.resolution) <= resolution_rank(x.resolution));
            assert(x.resolution == z.resolution);
            assert(x.caller == caller && z.caller == caller);
            assert(x == z);
        }
    }
    lemma_sorted_same_edges_equal(a, b);
}

/// Every edge that the scan yields belongs to the scanned caller.
proof fn lemma_edges_spec_caller(insns: Seq<InsnView>, sections: Seq<Section>, caller: u64)
    ensures
        edges_of_caller(edges_spec(insns, sections, caller), caller),
    decreases insns.len(),
{
    if insns.len() > 0 {
        lemma_edges_spec_caller(insns.drop_last(), sections, caller);
    }
}

} // verus!
