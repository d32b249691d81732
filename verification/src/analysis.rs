//! The call-tree analysis pipeline: parse the image, resolve function
//! boundaries, build the call graph, pick a root and walk it, and render
//! the traversal as indented text lines.
//!
//! Each stage's guarantee is stated against the values the pipeline hands
//! back, so a caller holds the same contracts as if it had composed the
//! stages itself.

use vstd::prelude::*;

use crate::boundaries::{any_eligible, ranges_resolution_ok, resolve_function_ranges, AddressOwnerIndex};
use crate::callgraph::{build_call_graph, node_edges_ok, CallGraph};
use crate::calltree::{
    entry_in_code, first_addr_of_name, resolve_root, root_spec, walk_spec, walk_tree, TreeEntry,
};
use crate::decoder::DecodingEngine;
use crate::image::{section_views, symbol_views, BinaryImage, Section, SymbolEntry};
use crate::loader::{image_matches, parse_failed, parse_image};
use crate::render::{lines_spec, render_tree};
use crate::AnalysisError;

verus! {

/// Symbol tables with equal views offer the same function starts.
proof fn lemma_eligible_transport(a: Seq<SymbolEntry>, b: Seq<SymbolEntry>)
    requires
        symbol_views(a) == symbol_views(b),
    ensures
        any_eligible(a) == any_eligible(b),
{
    assert(a.len() == b.len()) by {
        assert(symbol_views(a).len() == a.len());
        assert(symbol_views(b).len() == b.len());
    }
    assert forall|i: int| 0 <= i < a.len() implies crate::boundaries::eligible(a[i])
        == crate::boundaries::eligible(b[i]) by {
        assert(symbol_views(a)[i] == a[i]@);
        assert(symbol_views(b)[i] == b[i]@);
    }
    if any_eligible(a) {
        let w = choose|i: int| 0 <= i < a.len() && crate::boundaries::eligible(a[i]);
        assert(crate::boundaries::eligible(b[w]));
    }
    if any_eligible(b) {
        let w = choose|i: int| 0 <= i < b.len() && crate::boundaries::eligible(b[i]);
        assert(crate::boundaries::eligible(a[w]));
    }
}

/// Section lists with equal views hold code sections at the same places.
proof fn lemma_code_transport(a: Seq<Section>, b: Seq<Section>)
    requires
        section_views(a) == section_views(b),
    ensures
        (exists|i: int| 0 <= i < a.len() && (#[trigger] a[i]).class is Code) == (exists|i: int|
            0 <= i < b.len() && (#[trigger] b[i]).class is Code),
        forall|e: u64| entry_in_code(a, e) == entry_in_code(b, e),
{
    assert(a.len() == b.len()) by {
        assert(section_views(a).len() == a.len());
        assert(section_views(b).len() == b.len());
    }
    assert forall|i: int| 0 <= i < a.len() implies a[i].class == b[i].class && a[i].addr
        == b[i].addr && a[i].vsize == b[i].vsize by {
        assert(section_views(a)[i] == a[i]@);
        assert(section_views(b)[i] == b[i]@);
    }
    if exists|i: int| 0 <= i < a.len() && (#[trigger] a[i]).class is Code {
        let w = choose|i: int| 0 <= i < a.len() && (#[trigger] a[i]).class is Code;
        assert(b[w].class is Code);
    }
    if exists|i: int| 0 <= i < b.len() && (#[trigger] b[i]).class is Code {
        let w = choose|i: int| 0 <= i < b.len() && (#[trigger] b[i]).class is Code;
        assert(a[w].class is Code);
    }
    assert forall|e: u64| entry_in_code(a, e) == entry_in_code(b, e) by {
        if entry_in_code(a, e) {
            let w = choose|i: int|
                0 <= i < a.len() && a[i].class is Code && crate::boundaries::section_contains_addr(
                    a[i],
                    e,
                );
            assert(crate::boundaries::section_contains_addr(b[w], e));
            assert(entry_in_code(b, e));
        }
        if entry_in_code(b, e) {
            let w = choose|i: int|
                0 <= i < b.len() && b[i].class is Code && crate::boundaries::section_contains_addr(
                    b[i],
                    e,
                );
            assert(crate::boundaries::section_contains_addr(a[w], e));
            assert(entry_in_code(a, e));
        }
    }
}

/// Symbol tables with equal views resolve names to the same addresses.
proof fn lemma_name_transport(a: Seq<SymbolEntry>, b: Seq<SymbolEntry>, nm: Seq<char>)
    requires
        symbol_views(a) == symbol_views(b),
    ensures
        first_addr_of_name(a, nm) == first_addr_of_name(b, nm),
    decreases a.len(),
{
    assert(a.len() == b.len()) by {
        assert(symbol_views(a).len() == a.len());
        assert(symbol_views(b).len() == b.len());
    }
    if a.len() > 0 {
        assert(symbol_views(a)[0] == a[0]@);
        assert(symbol_views(b)[0] == b[0]@);
        assert(a[0].class == b[0].class && a[0].address == b[0].address && a[0].name@
            == b[0].name@);
        assert(symbol_views(a.drop_first()) =~= symbol_views(b.drop_first())) by {
            assert forall|i: int| 0 <= i < a.len() - 1 implies symbol_views(a.drop_first())[i]
                == symbol_views(b.drop_first())[i] by {
                assert(symbol_views(a)[i + 1] == a[i + 1]@);
                assert(symbol_views(b)[i + 1] == b[i + 1]@);
                assert(a.drop_first()[i] == a[i + 1]);
                assert(b.drop_first()[i] == b[i + 1]);
            }
        }
        lemma_name_transport(a.drop_first(), b.drop_first(), nm);
    }
}

/// Any two images parsed from the same bytes select the same root.
proof fn lemma_root_transport(a: BinaryImage, b: BinaryImage, requested: Option<Seq<char>>, bytes: Seq<u8>)
    requires
        image_matches(a, bytes),
        image_matches(b, bytes),
    ensures
        root_spec(a.symbols@, a.sections@, a.entry, requested) == root_spec(
            b.symbols@,
            b.sections@,
            b.entry,
            requested,
        ),
        any_eligible(a.symbols@) == any_eligible(b.symbols@),
        (exists|i: int| 0 <= i < a.sections@.len() && (#[trigger] a.sections@[i]).class is Code)
            == (exists|i: int|
            0 <= i < b.sections@.len() && (#[trigger] b.sections@[i]).class is Code),
{
    lemma_eligible_transport(a.symbols@, b.symbols@);
    lemma_code_transport(a.sections@, b.sections@);
    if let Some(nm) = requested {
        lemma_name_transport(a.symbols@, b.symbols@, nm);
    }
    lemma_name_transport(a.symbols@, b.symbols@, "main"@);
}

/// Everything one call-tree analysis run derives from the raw file bytes.
pub struct CallTreeAnalysis {
    pub image: BinaryImage,
    pub index: AddressOwnerIndex,
    pub root: u64,
    pub graph: CallGraph,
    pub entries: Vec<TreeEntry>,
    pub lines: Vec<String>,
}

impl CallTreeAnalysis {
    /// The relations the pipeline guarantees between its products.
    pub open spec fn wf(&self, requested: Option<Seq<char>>) -> bool {
        &&& self.image.wf()
        &&& ranges_resolution_ok(self.index, self.image)
        &&& root_spec(self.image.symbols@, self.image.sections@, self.image.entry, requested)
            == Some(self.root)
        &&& self.graph.wf()
        &&& self.graph.nodes@.len() == self.index.ranges@.len()
        &&& forall|i: int|
            0 <= i < self.index.ranges@.len() ==> node_edges_ok(
                self.graph.nodes@[i],
                self.index.ranges@[i],
                self.image.sections@,
            )
        &&& self.entries@ == walk_spec(self.graph.nodes@, self.root, 0, Seq::empty())
        &&& self.lines@.len() == self.entries@.len()
        &&& forall|i: int|
            0 <= i < self.lines@.len() ==> self.lines@[i]@ == lines_spec(
                self.entries@,
                self.image.symbols@,
                self.index.ranges@,
            )[i]
    }
}

/// Run the whole call-tree path on raw file bytes.
///
/// Fails with `FormatError` exactly when the container does not parse;
/// with `SectionMissing` when the parsed image (any image of those bytes)
/// offers neither a function symbol nor a code section; with
/// `RootNotFound` when no root rule applies to the parsed image.  Each
/// failure aborts only this pipeline.
pub fn analyze_call_tree(
    cs: &DecodingEngine,
    bytes: &Vec<u8>,
    requested: Option<&str>,
) -> (r: Result<CallTreeAnalysis, AnalysisError>)
    ensures
        r matches Err(e) && e is FormatError <==> parse_failed(bytes@),
        match r {
            Ok(a) => a.wf(
                match requested {
                    Some(s) => Some(s@),
                    None => None,
                },
            ) && image_matches(a.image, bytes@),
            Err(e) => match e {
                AnalysisError::FormatError => parse_failed(bytes@),
                AnalysisError::SectionMissing => forall|img: BinaryImage|
                    #[trigger] image_matches(img, bytes@) ==> !any_eligible(img.symbols@) && !(
                    exists|i: int|
                        0 <= i < img.sections@.len() && (#[trigger] img.sections@[i]).class
                            is Code),
                AnalysisError::RootNotFound => forall|img: BinaryImage|
                    #[trigger] image_matches(img, bytes@) ==> root_spec(
                        img.symbols@,
                        img.sections@,
                        img.entry,
                        match requested {
                            Some(s) => Some(s@),
                            None => None,
                        },
                    ) is None,
            },
        },
{
    let image = match parse_image(bytes) {
        Ok(img) => img,
        Err(e) => {
            return Err(e);
        },
    };
    let index = match resolve_function_ranges(&image) {
        Ok(idx) => idx,
        Err(e) => {
            proof {
                assert(e is SectionMissing);
                assert(crate::boundaries::first_code_section(image.sections@) is None);
                assert(!(exists|i: int|
                    0 <= i < image.sections@.len() && (#[trigger] image.sections@[i]).class
                        is Code));
                assert forall|img: BinaryImage| #[trigger] image_matches(img, bytes@) implies
                    !any_eligible(img.symbols@) && !(exists|i: int|
                    0 <= i < img.sections@.len() && (#[trigger] img.sections@[i]).class
                        is Code) by {
                    lemma_root_transport(
                        image,
                        img,
                        match requested {
                            Some(s) => Some(s@),
                            None => None,
                        },
                        bytes@,
                    );
                }
            }
            return Err(e);
        },
    };
    let root = match resolve_root(&image, requested) {
        Ok(a) => a,
        Err(e) => {
            proof {
                assert forall|img: BinaryImage| #[trigger] image_matches(img, bytes@) implies
                    root_spec(
                    img.symbols@,
                    img.sections@,
                    img.entry,
                    match requested {
                        Some(s) => Some(s@),
                        None => None,
                    },
                ) is None by {
                    lemma_root_transport(
                        image,
                        img,
                        match requested {
                            Some(s) => Some(s@),
                            None => None,
                        },
                        bytes@,
                    );
                }
            }
            return Err(e);
        },
    };
    let graph = build_call_graph(cs, &image, &index.ranges);
    let entries = walk_tree(&graph, root);
    let lines = render_tree(&entries, &image.symbols, &index);
    Ok(CallTreeAnalysis { image, index, root, graph, entries, lines })
}

} // verus!
