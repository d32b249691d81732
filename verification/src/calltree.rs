//! The call-tree walker: a depth-first traversal of the call graph from a
//! root address, with path-local cycle detection.
//!
//! The visited set is scoped to the current root-to-node path (pushed on
//! entry, popped on exit), so an address revisited on the current path emits
//! one cycle marker and stops that branch, while the same address may be
//! visited again on a sibling branch.  Termination is proved from the path:
//! its entries are distinct graph nodes, so its length never exceeds the
//! node count.

use vstd::prelude::*;
use vstd::seq_lib::seq_to_set_is_finite;

use crate::boundaries::section_contains_addr;
use crate::callgraph::{CallEdge, CallGraph, CallGraphNode, CallResolution};
use crate::image::{BinaryImage, Section, SectionClass, SymbolClass, SymbolEntry};
use crate::strutil::str_eq;
use crate::AnalysisError;

verus! {

/// The kind of one traversal output line.
#[derive(Clone, Copy, PartialEq, Eq, Structural, Debug)]
pub enum TreeEntryKind {
    /// A function visited at `addr`.
    Visit,
    /// `addr` was already on the current path: the branch stops here.
    CycleDetected,
    /// A call at site `addr` whose target is statically unknown.
    UnresolvedCall,
}

/// One line of the traversal output, in emission order.
#[derive(Clone, Copy, PartialEq, Eq, Structural, Debug)]
pub struct TreeEntry {
    pub depth: usize,
    pub addr: u64,
    pub kind: TreeEntryKind,
}

/// Some node of the graph is owned by caller address `a`.
pub open spec fn has_caller(nodes: Seq<CallGraphNode>, a: u64) -> bool {
    exists|i: int| 0 <= i < nodes.len() && nodes[i].caller == a
}

/// The index of the node owned by `a` (unique in a well-formed graph).
pub open spec fn caller_index(nodes: Seq<CallGraphNode>, a: u64) -> int {
    choose|i: int| 0 <= i < nodes.len() && nodes[i].caller == a
}

/// A traversal path: distinct addresses, each owning a graph node.
pub open spec fn path_ok(nodes: Seq<CallGraphNode>, path: Seq<u64>) -> bool {
    path.no_duplicates() && forall|k: int| 0 <= k < path.len() ==> has_caller(nodes, path[k])
}

/// A path of distinct node addresses is no longer than the node count.
pub proof fn lemma_path_bound(nodes: Seq<CallGraphNode>, path: Seq<u64>)
    requires
        path_ok(nodes, path),
    ensures
        path.len() <= nodes.len(),
{
    broadcast use seq_to_set_is_finite;

    path.unique_seq_to_set();
    let callers = nodes.map_values(|n: CallGraphNode| n.caller);
    callers.lemma_cardinality_of_set();
    assert(path.to_set().subset_of(callers.to_set())) by {
        assert forall|a: u64| path.to_set().contains(a) implies callers.to_set().contains(a) by {
            assert(path.contains(a));
            assert(has_caller(nodes, a)) by {
                let k = choose|k: int| 0 <= k < path.len() && path[k] == a;
            }
            let i = choose|i: int| 0 <= i < nodes.len() && nodes[i].caller == a;
            assert(callers[i] == a);
            assert(callers.contains(a));
        }
    }
    vstd::set_lib::lemma_len_subset(path.to_set(), callers.to_set());
}

/// The traversal output for one address: a visit line, then either a cycle
/// marker (address already on the path), the traversals of its edges
/// (address owns a node), or nothing further (unknown address).
pub open spec fn walk_spec(nodes: Seq<CallGraphNode>, addr: u64, depth: usize, path: Seq<u64>) -> Seq<
    TreeEntry,
>
    decreases nodes.len() - path.len(), 0int, 0int,
        when path_ok(nodes, path)
{
    let visit = TreeEntry { depth, addr, kind: TreeEntryKind::Visit };
    if path.contains(addr) {
        seq![
            visit,
            TreeEntry {
                depth: depth.wrapping_add(1),
                addr,
                kind: TreeEntryKind::CycleDetected,
            },
        ]
    } else if has_caller(nodes, addr) {
        proof {
            lemma_path_bound(nodes, path.push(addr));
        }
        seq![visit] + walk_edges_spec(
            nodes,
            nodes[caller_index(nodes, addr)].edges@,
            0,
            depth.wrapping_add(1),
            path.push(addr),
        )
    } else {
        seq![visit]
    }
}

/// The traversal output of the edges of one node, from edge `k` on: resolved
/// targets recurse, unresolved calls emit one marker line each.
pub open spec fn walk_edges_spec(
    nodes: Seq<CallGraphNode>,
    edges: Seq<CallEdge>,
    k: int,
    depth: usize,
    path: Seq<u64>,
) -> Seq<TreeEntry>
    decreases nodes.len() - path.len(), 1int, edges.len() - k,
        when path_ok(nodes, path)
{
    if k < 0 || k >= edges.len() {
        Seq::empty()
    } else {
        proof {
            lemma_path_bound(nodes, path);
        }
        let head = match edges[k].resolution {
            CallResolution::Direct => walk_spec(nodes, edges[k].callee, depth, path),
            CallResolution::IndirectResolved => walk_spec(nodes, edges[k].callee, depth, path),
            CallResolution::IndirectUnresolved => seq![
                TreeEntry { depth, addr: edges[k].callee, kind: TreeEntryKind::UnresolvedCall },
            ],
        };
        head + walk_edges_spec(nodes, edges, k + 1, depth, path)
    }
}

/// On an address already on the current path the traversal emits its visit
/// line and exactly one cycle marker, and descends no further: those two
/// lines are the branch's whole output.  The same address reached on a
/// different path is traversed normally.
pub proof fn lemma_cycle_branch_stops(
    nodes: Seq<CallGraphNode>,
    addr: u64,
    depth: usize,
    path: Seq<u64>,
)
    requires
        path_ok(nodes, path),
        path.contains(addr),
    ensures
        walk_spec(nodes, addr, depth, path) == seq![
            TreeEntry { depth, addr, kind: TreeEntryKind::Visit },
            TreeEntry {
                depth: depth.wrapping_add(1),
                addr,
                kind: TreeEntryKind::CycleDetected,
            },
        ],
{
}

fn path_contains(path: &Vec<u64>, a: u64) -> (r: bool)
    ensures
        r == path@.contains(a),
{
    let n = path.len();
    let mut i: usize = 0;
    while i < n
        invariant
            n == path@.len(),
            i <= n,
            forall|j: int| 0 <= j < i ==> path@[j] != a,
        decreases n - i,
    {
        if path[i] == a {
            return true;
        }
        i = i + 1;
    }
    false
}

/// One traversal step: emit the lines for `addr` and its subtree.  The path
/// is threaded through and handed back unchanged.
fn walk_rec(
    graph: &CallGraph,
    addr: u64,
    depth: usize,
    path: Vec<u64>,
    out: &mut Vec<TreeEntry>,
) -> (rpath: Vec<u64>)
    requires
        graph.wf(),
        path_ok(graph.nodes@, path@),
        depth == path@.len(),
    ensures
        rpath@ == path@,
        final(out)@ == old(out)@ + walk_spec(graph.nodes@, addr, depth, path@),
    decreases graph.nodes@.len() - depth,
{
    proof {
        lemma_path_bound(graph.nodes@, path@);
    }
    let ghost nodes = graph.nodes@;
    let ghost out0 = out@;
    let ghost visit = TreeEntry { depth, addr, kind: TreeEntryKind::Visit };
    out.push(TreeEntry { depth, addr, kind: TreeEntryKind::Visit });
    if path_contains(&path, addr) {
        out.push(
            TreeEntry { depth: depth.wrapping_add(1), addr, kind: TreeEntryKind::CycleDetected },
        );
        proof {
            let marker = TreeEntry {
                depth: depth.wrapping_add(1),
                addr,
                kind: TreeEntryKind::CycleDetected,
            };
            assert(walk_spec(nodes, addr, depth, path@) =~= seq![visit, marker]);
            assert(out@ =~= out0 + seq![visit, marker]);
        }
        return path;
    }
    let ki = match graph.node_index_of(addr) {
        Some(k) => k,
        None => {
            assert(!has_caller(nodes, addr)) by {
                if has_caller(nodes, addr) {
                    let w = choose|i: int| 0 <= i < nodes.len() && nodes[i].caller == addr;
                }
            }
            assert(out@ =~= out0 + walk_spec(nodes, addr, depth, path@));
            return path;
        },
    };
    assert(has_caller(nodes, addr));
    assert(ki as int == caller_index(nodes, addr)) by {
        let ci = caller_index(nodes, addr);
        assert(nodes[ci].caller == addr);
        if ci != ki as int {
            assert(nodes[ci].caller < nodes[ki as int].caller || nodes[ki as int].caller
                < nodes[ci].caller);
        }
    }
    let mut path = path;
    let ghost path0 = path@;
    path.push(addr);
    proof {
        assert(path@ =~= path0.push(addr));
        assert(path_ok(nodes, path@)) by {
            assert forall|i: int, j: int| 0 <= i < j < path@.len() implies path@[i] != path@[j] by {
                if j < path0.len() {
                } else {
                    assert(path@[j] == addr);
                    assert(!path0.contains(addr));
                    assert(path0[i] == path@[i]);
                }
            }
            assert forall|k: int| 0 <= k < path@.len() implies has_caller(nodes, path@[k]) by {
                if k < path0.len() {
                    assert(path@[k] == path0[k]);
                } else {
                    assert(path@[k] == addr);
                }
            }
        }
        lemma_path_bound(nodes, path@);
    }
    let nn = graph.nodes.len();
    assert(depth < nn);
    let cdepth = depth + 1;
    let ghost edges = graph.nodes@[ki as int].edges@;
    let ne = graph.nodes[ki].edges.len();
    let mut k: usize = 0;
    let ghost mut done: Seq<TreeEntry> = Seq::empty();
    while k < ne
        invariant
            graph.wf(),
            nodes == graph.nodes@,
            0 <= ki < nodes.len(),
            edges == nodes[ki as int].edges@,
            ne == edges.len(),
            k <= ne,
            path_ok(nodes, path@),
            path@ == path0.push(addr),
            cdepth == path@.len(),
            cdepth == depth + 1,
            out@ == out0 + seq![visit] + done,
            done + walk_edges_spec(nodes, edges, k as int, cdepth, path@) == walk_edges_spec(
                nodes,
                edges,
                0,
                cdepth,
                path@,
            ),
        decreases ne - k,
    {
        let edge = &graph.nodes[ki].edges[k];
        let ghost head = match edges[k as int].resolution {
            CallResolution::Direct => walk_spec(nodes, edges[k as int].callee, cdepth, path@),
            CallResolution::IndirectResolved => walk_spec(
                nodes,
                edges[k as int].callee,
                cdepth,
                path@,
            ),
            CallResolution::IndirectUnresolved => seq![
                TreeEntry {
                    depth: cdepth,
                    addr: edges[k as int].callee,
                    kind: TreeEntryKind::UnresolvedCall,
                },
            ],
        };
        proof {
            assert(walk_edges_spec(nodes, edges, k as int, cdepth, path@) == head
                + walk_edges_spec(nodes, edges, k + 1, cdepth, path@));
        }
        let descend = match edge.resolution {
            CallResolution::Direct => true,
            CallResolution::IndirectResolved => true,
            CallResolution::IndirectUnresolved => false,
        };
        if descend {
            let callee = edge.callee;
            proof {
                lemma_path_bound(nodes, path@);
            }
            path = walk_rec(graph, callee, cdepth, path, out);
        } else {
            out.push(
                TreeEntry { depth: cdepth, addr: edge.callee, kind: TreeEntryKind::UnresolvedCall },
            );
        }
        proof {
            done = done + head;
            assert(out@ =~= out0 + seq![visit] + done);
            assert(done + walk_edges_spec(nodes, edges, k + 1, cdepth, path@)
                =~= walk_edges_spec(nodes, edges, 0, cdepth, path@));
        }
        k = k + 1;
    }
    proof {
        assert(walk_edges_spec(nodes, edges, ne as int, cdepth, path@) =~= Seq::empty());
        assert(done =~= walk_edges_spec(nodes, edges, 0, cdepth, path@));
        assert(out@ =~= out0 + walk_spec(nodes, addr, depth, path0));
    }
    let popped = path.pop();
    assert(path@ =~= path0);
    path
}

/// The address of the first function symbol in table order named `nm`
/// (entries at address zero mark undefined symbols and are passed over).
pub open spec fn first_addr_of_name(syms: Seq<SymbolEntry>, nm: Seq<char>) -> Option<u64>
    decreases syms.len(),
{
    if syms.len() == 0 {
        None
    } else if syms[0].class is Function && syms[0].address != 0 && syms[0].name@ == nm {
        Some(syms[0].address)
    } else {
        first_addr_of_name(syms.drop_first(), nm)
    }
}

proof fn lemma_first_addr_of_name_skip(syms: Seq<SymbolEntry>, nm: Seq<char>, i: int)
    requires
        0 <= i <= syms.len(),
        forall|j: int|
            0 <= j < i ==> !(syms[j].class is Function && syms[j].address != 0 && syms[j].name@
                == nm),
    ensures
        first_addr_of_name(syms, nm) == first_addr_of_name(syms.skip(i), nm),
    decreases i,
{
    if i > 0 {
        assert(syms.drop_first() =~= syms.skip(1));
        lemma_first_addr_of_name_skip(syms.drop_first(), nm, i - 1);
        assert(syms.drop_first().skip(i - 1) =~= syms.skip(i));
    } else {
        assert(syms.skip(0) =~= syms);
    }
}

/// The address of the first function symbol named `name`, if any.
pub fn symbol_addr_of_name(symbols: &Vec<SymbolEntry>, name: &str) -> (r: Option<u64>)
    ensures
        r == first_addr_of_name(symbols@, name@),
{
    let n = symbols.len();
    let mut i: usize = 0;
    while i < n
        invariant
            n == symbols@.len(),
            i <= n,
            forall|j: int|
                0 <= j < i ==> !(symbols@[j].class is Function && symbols@[j].address != 0
                    && symbols@[j].name@ == name@),
        decreases n - i,
    {
        let s = &symbols[i];
        let is_func = match s.class {
            SymbolClass::Function => true,
            SymbolClass::Other => false,
        };
        if is_func && s.address != 0 && str_eq(s.name.as_str(), name) {
            proof {
                lemma_first_addr_of_name_skip(symbols@, name@, i as int);
                assert(symbols@.skip(i as int)[0] == symbols@[i as int]);
            }
            return Some(s.address);
        }
        i = i + 1;
    }
    proof {
        lemma_first_addr_of_name_skip(symbols@, name@, n as int);
        assert(symbols@.skip(n as int) =~= Seq::<SymbolEntry>::empty());
    }
    None
}

/// The entry point lies inside the declared extent of some code section.
pub open spec fn entry_in_code(sections: Seq<Section>, entry: u64) -> bool {
    exists|i: int|
        0 <= i < sections.len() && sections[i].class is Code && section_contains_addr(
            sections[i],
            entry,
        )
}

/// The traversal root, in priority order: the requested symbol name if
/// present (a conventional startup symbol such as `_start` is requested by
/// its name like any other); else the image entry point if it lies in a
/// code section; else a symbol literally named `main`.
pub open spec fn root_spec(
    syms: Seq<SymbolEntry>,
    sections: Seq<Section>,
    entry: u64,
    requested: Option<Seq<char>>,
) -> Option<u64> {
    let by_name = match requested {
        Some(nm) => first_addr_of_name(syms, nm),
        None => None,
    };
    match by_name {
        Some(a) => Some(a),
        None => {
            if entry_in_code(sections, entry) {
                Some(entry)
            } else {
                first_addr_of_name(syms, "main"@)
            }
        },
    }
}

/// Resolve the traversal root of an image, against the priority order of
/// [`root_spec`]; `RootNotFound` when no rule applies.
pub fn resolve_root(image: &BinaryImage, requested: Option<&str>) -> (r: Result<
    u64,
    AnalysisError,
>)
    ensures
        match r {
            Ok(a) => root_spec(
                image.symbols@,
                image.sections@,
                image.entry,
                match requested {
                    Some(s) => Some(s@),
                    None => None,
                },
            ) == Some(a),
            Err(e) => e is RootNotFound && root_spec(
                image.symbols@,
                image.sections@,
                image.entry,
                match requested {
                    Some(s) => Some(s@),
                    None => None,
                },
            ) is None,
        },
{
    if let Some(nm) = requested {
        if let Some(a) = symbol_addr_of_name(&image.symbols, nm) {
            return Ok(a);
        }
    }
    let n = image.sections.len();
    let mut i: usize = 0;
    while i < n
        invariant
            n == image.sections@.len(),
            i <= n,
            match requested {
                Some(s) => first_addr_of_name(image.symbols@, s@) is None,
                None => true,
            },
            forall|j: int|
                0 <= j < i ==> !(image.sections@[j].class is Code && section_contains_addr(
                    image.sections@[j],
                    image.entry,
                )),
        decreases n - i,
    {
        let s = &image.sections[i];
        let is_code = match s.class {
            SectionClass::Code => true,
            SectionClass::Data => false,
            SectionClass::Other => false,
        };
        if is_code && s.addr <= image.entry && image.entry < s.addr.saturating_add(s.vsize) {
            assert(entry_in_code(image.sections@, image.entry));
            return Ok(image.entry);
        }
        i = i + 1;
    }
    assert(!entry_in_code(image.sections@, image.entry)) by {
        if entry_in_code(image.sections@, image.entry) {
            let w = choose|j: int|
                0 <= j < image.sections@.len() && image.sections@[j].class is Code
                    && section_contains_addr(image.sections@[j], image.entry);
        }
    }
    match symbol_addr_of_name(&image.symbols, "main") {
        Some(a) => Ok(a),
        None => Err(AnalysisError::RootNotFound),
    }
}

/// Walk the call tree from `root`, producing the traversal lines in order.
pub fn walk_tree(graph: &CallGraph, root: u64) -> (r: Vec<TreeEntry>)
    requires
        graph.wf(),
    ensures
        r@ == walk_spec(graph.nodes@, root, 0, Seq::empty()),
{
    let mut out: Vec<TreeEntry> = Vec::new();
    let path: Vec<u64> = Vec::new();
    assert(path_ok(graph.nodes@, path@));
    let _ = walk_rec(graph, root, 0, path, &mut out);
    out
}

} // verus!
