//! Image loading: trusted adapters around the `object` container parser,
//! and the verified construction of a well-formed [`BinaryImage`].
//!
//! What the parser yields from given bytes is a function of the bytes
//! alone, which the names [`sections_of`], [`symbols_of`] and [`entry_of`]
//! state; the adapters only convert parsed values into the library's plain
//! types.  Everything the analysis relies on (section bounds, symbol
//! classification, range building) is validated or computed in verified
//! code, and [`parse_image`] ties its result to those names exactly.

use vstd::prelude::*;

use object::{Object, ObjectSection, ObjectSymbol};

use crate::image::{
    section_views, symbol_views, BinaryImage, Section, SectionClass, SectionView, SymbolClass,
    SymbolEntry, SymbolView,
};
use crate::AnalysisError;

verus! {

/// The sections that the container parser reads from the bytes, or `None`
/// when the container is unrecognized or truncated.
pub uninterp spec fn sections_of(bytes: Seq<u8>) -> Option<Seq<SectionView>>;

/// The unified (static and dynamic) symbol table that the container parser
/// reads from the bytes, or `None` when the container is unrecognized or
/// truncated.
pub uninterp spec fn symbols_of(bytes: Seq<u8>) -> Option<Seq<SymbolView>>;

/// The entry-point address that the container parser reads from the bytes,
/// or `None` when the container is unrecognized or truncated.
pub uninterp spec fn entry_of(bytes: Seq<u8>) -> Option<u64>;

/// Relies on object::File::parse and ObjectSection: lists the container's
/// sections with address, declared size, raw bytes and kind, which
/// [`sections_of`] names; `None` exactly when the container does not parse.
#[verifier::external_body]
fn parse_sections(bytes: &[u8]) -> (r: Option<Vec<Section>>)
    ensures
        match r {
            Some(v) => sections_of(bytes@) == Some(section_views(v@)),
            None => sections_of(bytes@) is None,
        },
{
    let obj = object::File::parse(bytes).ok()?;
    Some(obj.sections().map(|sec| Section {
        addr: sec.address(),
        vsize: sec.size(),
        data: sec.data().map(|d| d.to_vec()).unwrap_or(Vec::new()),
        class: match sec.kind() {
            object::SectionKind::Text => SectionClass::Code,
            object::SectionKind::Data => SectionClass::Data,
            _ => SectionClass::Other,
        },
    }).collect())
}

/// Relies on object::File::parse and ObjectSymbol: lists the static and
/// dynamic symbol tables uniformly, each entry with address, name, size and
/// kind, which [`symbols_of`] names; `None` exactly when the container does
/// not parse.
#[verifier::external_body]
fn parse_symbols(bytes: &[u8]) -> (r: Option<Vec<SymbolEntry>>)
    ensures
        match r {
            Some(v) => symbols_of(bytes@) == Some(symbol_views(v@)),
            None => symbols_of(bytes@) is None,
        },
{
    let obj = object::File::parse(bytes).ok()?;
    Some(obj.symbols().chain(obj.dynamic_symbols()).map(|sym| SymbolEntry {
        address: sym.address(),
        name: sym.name().map(|n| n.to_string()).unwrap_or(String::new()),
        size: sym.size(),
        class: match sym.kind() {
            object::SymbolKind::Text => SymbolClass::Function,
            _ => SymbolClass::Other,
        },
    }).collect())
}

/// Relies on object::File::parse: the entry-point virtual address of the
/// container, which [`entry_of`] names; `None` exactly when the container
/// does not parse.
#[verifier::external_body]
fn parse_entry(bytes: &[u8]) -> (r: Option<u64>)
    ensures
        r == entry_of(bytes@),
{
    let obj = object::File::parse(bytes).ok()?;
    Some(obj.entry())
}

/// The container does not parse: some view of it is unavailable.
pub open spec fn parse_failed(bytes: Seq<u8>) -> bool {
    sections_of(bytes) is None || symbols_of(bytes) is None || entry_of(bytes) is None
}

/// A parsed section is kept when its address range does not wrap the
/// address space.
pub open spec fn section_view_wf(s: SectionView) -> bool {
    s.addr + s.data.len() <= u64::MAX
}

/// The image is exactly what the parser read from the bytes: the parsed
/// symbols and entry point as they are, and the parsed sections with the
/// malformed (wrapping) ones dropped.
pub open spec fn image_matches(img: BinaryImage, bytes: Seq<u8>) -> bool {
    &&& sections_of(bytes) matches Some(ss) && section_views(img.sections@) == ss.filter(
        |s: SectionView| section_view_wf(s),
    )
    &&& symbols_of(bytes) matches Some(sv) && symbol_views(img.symbols@) == sv
    &&& entry_of(bytes) == Some(img.entry)
}

/// Parse raw file bytes into a well-formed binary image.
///
/// Fails with `FormatError` exactly when the container does not parse;
/// otherwise the image holds the parsed symbols and entry point, and the
/// parsed sections less those whose address range would wrap (which makes
/// every later byte read well defined).
pub fn parse_image(bytes: &Vec<u8>) -> (r: Result<BinaryImage, AnalysisError>)
    ensures
        r is Err <==> parse_failed(bytes@),
        match r {
            Ok(img) => img.wf() && image_matches(img, bytes@),
            Err(e) => e is FormatError,
        },
{
    let sections = match parse_sections(bytes.as_slice()) {
        Some(s) => s,
        None => {
            return Err(AnalysisError::FormatError);
        },
    };
    let symbols = match parse_symbols(bytes.as_slice()) {
        Some(s) => s,
        None => {
            return Err(AnalysisError::FormatError);
        },
    };
    let entry = match parse_entry(bytes.as_slice()) {
        Some(e) => e,
        None => {
            return Err(AnalysisError::FormatError);
        },
    };
    let ghost allviews = section_views(sections@);
    let mut rest = sections;
    let mut kept: Vec<Section> = Vec::new();
    let ghost mut done: Seq<SectionView> = Seq::empty();
    proof {
        assert(done + section_views(rest@) =~= allviews);
        assert(section_views(kept@) =~= done.filter(|s: SectionView| section_view_wf(s)));
    }
    while rest.len() > 0
        invariant
            done + section_views(rest@) == allviews,
            section_views(kept@) == done.filter(|s: SectionView| section_view_wf(s)),
            forall|j: int| 0 <= j < kept@.len() ==> (#[trigger] kept@[j]).wf(),
        decreases rest@.len(),
    {
        let ghost predone = done;
        let ghost prekept = kept@;
        let ghost prerest = rest@;
        let s = rest.remove(0);
        let dlen = s.data.len();
        let keep = s.addr.checked_add(dlen as u64).is_some();
        if keep {
            assert(s.wf());
            kept.push(s);
        }
        proof {
            reveal(Seq::filter);
            done = predone.push(prerest[0]@);
            assert(section_views(prerest) =~= seq![prerest[0]@] + section_views(rest@));
            assert(done + section_views(rest@) =~= allviews);
            assert(done.filter(|s: SectionView| section_view_wf(s)) == predone.filter(
                |s: SectionView| section_view_wf(s),
            ) + if section_view_wf(prerest[0]@) {
                seq![prerest[0]@]
            } else {
                Seq::<SectionView>::empty()
            }) by {
                assert(done.drop_last() =~= predone);
                assert(done.last() == prerest[0]@);
                if section_view_wf(prerest[0]@) {
                    assert(done.filter(|s: SectionView| section_view_wf(s)) =~= predone.filter(
                        |s: SectionView| section_view_wf(s),
                    ) + seq![prerest[0]@]);
                } else {
                    assert(done.filter(|s: SectionView| section_view_wf(s)) =~= predone.filter(
                        |s: SectionView| section_view_wf(s),
                    ) + Seq::<SectionView>::empty());
                }
            }
            if keep {
                assert(section_view_wf(prerest[0]@));
                assert(section_views(kept@) =~= section_views(prekept).push(prerest[0]@));
            } else {
                assert(!section_view_wf(prerest[0]@));
                assert(section_views(kept@) =~= section_views(prekept));
            }
            assert(section_views(kept@) =~= done.filter(|s: SectionView| section_view_wf(s)));
        }
    }
    proof {
        assert(section_views(rest@) =~= Seq::<SectionView>::empty());
        assert(done =~= allviews);
    }
    let img = BinaryImage { sections: kept, symbols, entry };
    assert(img.wf()) by {
        assert(forall|i: int|
            0 <= i < img.sections@.len() ==> (#[trigger] img.sections@[i]).wf());
    }
    assert(image_matches(img, bytes@));
    Ok(img)
}

} // verus!
