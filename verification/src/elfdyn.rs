//! Dynamic-linking metadata of an ELF image: trusted adapters around
//! goblin's ELF parser, and verified extraction of exported and undefined
//! dynamic symbol names.
//!
//! What the parser reads from given bytes is a function of the bytes
//! alone, which the names [`dynsyms_of`] and [`needed_of`] state; every
//! public result here is tied to those names.

use vstd::prelude::*;

verus! {

/// One dynamic symbol table entry: its name and the section index its
/// definition refers to.
pub struct DynSymRecord {
    pub name: String,
    pub section_index: usize,
}

/// The mathematical view of a dynamic symbol table entry.
pub ghost struct DynSymView {
    pub name: Seq<char>,
    pub section_index: usize,
}

impl View for DynSymRecord {
    type V = DynSymView;

    open spec fn view(&self) -> DynSymView {
        DynSymView { name: self.name@, section_index: self.section_index }
    }
}

/// The views of a sequence of dynamic symbol records.
pub open spec fn dynsym_views(s: Seq<DynSymRecord>) -> Seq<DynSymView> {
    s.map_values(|r: DynSymRecord| r@)
}

/// The reserved undefined section index of the ELF format: a dynamic symbol
/// whose definition refers to it is imported, not defined.
pub const UNDEFINED_SECTION_INDEX: usize = 0;

/// The dynamic symbol table that the ELF parser reads from the bytes, or
/// `None` when the bytes do not parse as ELF.
pub uninterp spec fn dynsyms_of(bytes: Seq<u8>) -> Option<Seq<DynSymView>>;

/// The declared shared-library dependencies (DT_NEEDED) that the ELF parser
/// reads from the bytes, in declaration order, or `None` when the bytes do
/// not parse as ELF.
pub uninterp spec fn needed_of(bytes: Seq<u8>) -> Option<Seq<Seq<char>>>;

/// Relies on goblin's `Elf::parse`, `dynsyms` and `dynstrtab`: the dynamic
/// symbol table in table order, each entry converted to its name and
/// section index, which [`dynsyms_of`] names; `None` exactly when the bytes
/// do not parse as ELF.
#[verifier::external_body]
pub fn elf_dynamic_symbols(bytes: &[u8]) -> (r: Option<Vec<DynSymRecord>>)
    ensures
        match r {
            Some(v) => dynsyms_of(bytes@) == Some(dynsym_views(v@)),
            None => dynsyms_of(bytes@) is None,
        },
{
    let elf = goblin::elf::Elf::parse(bytes).ok()?;
    Some(elf.dynsyms.iter().map(|sym| DynSymRecord {
        name: elf.dynstrtab.get_at(sym.st_name).map(|s| s.to_string()).unwrap_or(String::new()),
        section_index: sym.st_shndx,
    }).collect())
}

/// Relies on goblin's `Elf::parse` and `libraries`: the declared shared
/// library dependencies (DT_NEEDED) in declaration order, which
/// [`needed_of`] names; `None` exactly when the bytes do not parse as ELF.
#[verifier::external_body]
pub fn elf_needed_libraries(bytes: &[u8]) -> (r: Option<Vec<String>>)
    ensures
        match r {
            Some(v) => needed_of(bytes@) == Some(string_views(v@)),
            None => needed_of(bytes@) is None,
        },
{
    let elf = goblin::elf::Elf::parse(bytes).ok()?;
    Some(elf.libraries.iter().map(|s| s.to_string()).collect())
}

/// Parse a shared object and collect the names it exports, each once:
/// exactly the names of the defined, non-empty dynamic symbol entries the
/// parser reads from the bytes.
pub fn exported_symbols_from_bytes(bytes: &[u8]) -> (r: Result<Vec<String>, crate::AnalysisError>)
    ensures
        match r {
            Ok(v) => {
                &&& dynsyms_of(bytes@) matches Some(ds) && (forall|nm: Seq<char>|
                    name_among(v@, nm) <==> exists|i: int|
                        0 <= i < ds.len() && is_defined_export(#[trigger] ds[i]) && ds[i].name
                            == nm)
                &&& forall|k: int, l: int| 0 <= k < l < v@.len() ==> v@[k]@ != v@[l]@
            },
            Err(e) => e is FormatError && dynsyms_of(bytes@) is None,
        },
{
    match elf_dynamic_symbols(bytes) {
        Some(records) => {
            let exports = exported_names(&records);
            proof {
                let ds = dynsym_views(records@);
                assert forall|nm: Seq<char>|
                    name_among(exports@, nm) <==> exists|i: int|
                        0 <= i < ds.len() && is_defined_export(#[trigger] ds[i]) && ds[i].name
                            == nm by {
                    if name_among(exports@, nm) {
                        let j = choose|j: int|
                            0 <= j < records@.len() && is_defined_export(
                                #[trigger] records@[j]@,
                            ) && records@[j]@.name == nm;
                        assert(ds[j] == records@[j]@);
                    }
                    if exists|i: int|
                        0 <= i < ds.len() && is_defined_export(#[trigger] ds[i]) && ds[i].name
                            == nm {
                        let j = choose|i: int|
                            0 <= i < ds.len() && is_defined_export(#[trigger] ds[i]) && ds[i].name
                                == nm;
                        assert(records@[j]@ == ds[j]);
                        assert(is_defined_export(records@[j]@) && records@[j]@.name == nm);
                    }
                }
                let gds = dynsyms_of(bytes@).unwrap();
                assert(gds == ds);
                assert(forall|nm: Seq<char>|
                    name_among(exports@, nm) <==> exists|i: int|
                        0 <= i < gds.len() && is_defined_export(#[trigger] gds[i]) && gds[i].name
                            == nm);
            }
            Ok(exports)
        },
        None => Err(crate::AnalysisError::FormatError),
    }
}

/// Parse the target image: exactly its declared shared-library
/// dependencies in declaration order, and its undefined dynamic symbol
/// names in table order.
pub fn target_link_info(bytes: &[u8]) -> (r: Result<(Vec<String>, Vec<String>), crate::AnalysisError>)
    ensures
        r is Err <==> (needed_of(bytes@) is None || dynsyms_of(bytes@) is None),
        match r {
            Ok(p) => {
                &&& needed_of(bytes@) == Some(string_views(p.0@))
                &&& dynsyms_of(bytes@) matches Some(ds) && string_views(p.1@)
                    == undefined_names_spec(ds)
            },
            Err(e) => e is FormatError,
        },
{
    let libraries = match elf_needed_libraries(bytes) {
        Some(l) => l,
        None => {
            return Err(crate::AnalysisError::FormatError);
        },
    };
    let records = match elf_dynamic_symbols(bytes) {
        Some(rs) => rs,
        None => {
            return Err(crate::AnalysisError::FormatError);
        },
    };
    let undefined = undefined_names(&records);
    Ok((libraries, undefined))
}

/// An entry is an export: defined in this object, with a non-empty name.
pub open spec fn is_defined_export(r: DynSymView) -> bool {
    r.section_index != 0 && r.name.len() > 0
}

/// An entry is an import: undefined here, with a non-empty name.
pub open spec fn is_undefined_import(r: DynSymView) -> bool {
    r.section_index == 0 && r.name.len() > 0
}

/// The views of a vector of strings.
pub open spec fn string_views(v: Seq<String>) -> Seq<Seq<char>> {
    v.map_values(|s: String| s@)
}

/// The names of the undefined imports, in table order, duplicates kept.
pub open spec fn undefined_names_spec(rs: Seq<DynSymView>) -> Seq<Seq<char>>
    decreases rs.len(),
{
    if rs.len() == 0 {
        Seq::empty()
    } else {
        undefined_names_spec(rs.drop_last()) + if is_undefined_import(rs.last()) {
            seq![rs.last().name]
        } else {
            Seq::empty()
        }
    }
}

/// Some string of `v` reads `nm`.
pub open spec fn name_among(v: Seq<String>, nm: Seq<char>) -> bool {
    exists|i: int| 0 <= i < v.len() && v[i]@ == nm
}

/// The undefined dynamic symbol names of a table, in order.
pub fn undefined_names(records: &Vec<DynSymRecord>) -> (r: Vec<String>)
    ensures
        string_views(r@) == undefined_names_spec(dynsym_views(records@)),
{
    let n = records.len();
    let mut out: Vec<String> = Vec::new();
    let mut i: usize = 0;
    while i < n
        invariant
            n == records@.len(),
            i <= n,
            string_views(out@) == undefined_names_spec(dynsym_views(records@).subrange(0, i as int)),
        decreases n - i,
    {
        let ghost preout = out@;
        let rec = &records[i];
        if rec.section_index == UNDEFINED_SECTION_INDEX && !rec.name.as_str().is_empty() {
            out.push(rec.name.clone());
        }
        proof {
            let ds = dynsym_views(records@);
            assert(ds.subrange(0, i + 1).drop_last() =~= ds.subrange(0, i as int));
            assert(ds.subrange(0, i + 1).last() == records@[i as int]@);
            if is_undefined_import(records@[i as int]@) {
                assert(string_views(out@) =~= string_views(preout) + seq![
                    records@[i as int].name@,
                ]);
            } else {
                assert(string_views(out@) =~= string_views(preout));
                assert(undefined_names_spec(ds.subrange(0, i + 1))
                    =~= undefined_names_spec(ds.subrange(0, i as int)));
            }
        }
        i = i + 1;
    }
    assert(dynsym_views(records@).subrange(0, n as int) =~= dynsym_views(records@));
    out
}

/// The exported symbol names of a table: exactly the names of its defined,
/// non-empty entries, each once.
pub fn exported_names(records: &Vec<DynSymRecord>) -> (r: Vec<String>)
    ensures
        forall|k: int, l: int| 0 <= k < l < r@.len() ==> r@[k]@ != r@[l]@,
        forall|nm: Seq<char>|
            name_among(r@, nm) <==> exists|i: int|
                0 <= i < records@.len() && is_defined_export(#[trigger] records@[i]@)
                    && records@[i]@.name == nm,
{
    let n = records.len();
    let mut out: Vec<String> = Vec::new();
    let mut i: usize = 0;
    while i < n
        invariant
            n == records@.len(),
            i <= n,
            forall|k: int, l: int| 0 <= k < l < out@.len() ==> out@[k]@ != out@[l]@,
            forall|nm: Seq<char>|
                name_among(out@, nm) <==> exists|j: int|
                    0 <= j < i && is_defined_export(#[trigger] records@[j]@) && records@[j]@.name
                        == nm,
        decreases n - i,
    {
        let ghost preout = out@;
        let rec = &records[i];
        if rec.section_index != UNDEFINED_SECTION_INDEX && !rec.name.as_str().is_empty() {
            assert(is_defined_export(records@[i as int]@));
            let mut present = false;
            let m = out.len();
            let mut k: usize = 0;
            while k < m
                invariant
                    m == out@.len(),
                    k <= m,
                    out@ == preout,
                    present <==> exists|l: int| 0 <= l < k && out@[l]@ == rec.name@,
                decreases m - k,
            {
                if out[k] == rec.name {
                    present = true;
                }
                k = k + 1;
            }
            if !present {
                assert(!name_among(preout, rec.name@)) by {
                    if name_among(preout, rec.name@) {
                        let w = choose|l: int| 0 <= l < preout.len() && preout[l]@ == rec.name@;
                    }
                }
                out.push(rec.name.clone());
                proof {
                    assert forall|k2: int, l2: int|
                        0 <= k2 < l2 < out@.len() implies out@[k2]@ != out@[l2]@ by {
                        if l2 < preout.len() {
                        } else {
                            assert(out@[l2]@ == rec.name@);
                            assert(preout[k2] == out@[k2]);
                            if out@[k2]@ == rec.name@ {
                                assert(name_among(preout, rec.name@));
                            }
                        }
                    }
                }
            }
        }
        proof {
            assert forall|nm: Seq<char>|
                name_among(out@, nm) <==> exists|j: int|
                    0 <= j < i + 1 && is_defined_export(#[trigger] records@[j]@) && records@[j]@.name
                        == nm by {
                if name_among(out@, nm) {
                    let w = choose|l: int| 0 <= l < out@.len() && out@[l]@ == nm;
                    if w < preout.len() && preout[w] == out@[w] {
                        assert(name_among(preout, nm));
                        let j = choose|j: int|
                            0 <= j < i && is_defined_export(#[trigger] records@[j]@)
                                && records@[j]@.name == nm;
                    } else {
                        assert(out@[w]@ == records@[i as int].name@);
                        assert(is_defined_export(records@[i as int]@));
                    }
                }
                if exists|j: int|
                    0 <= j < i + 1 && is_defined_export(#[trigger] records@[j]@) && records@[j]@.name
                        == nm {
                    let j = choose|j: int|
                        0 <= j < i + 1 && is_defined_export(#[trigger] records@[j]@)
                            && records@[j]@.name == nm;
                    if j < i {
                        assert(name_among(preout, nm));
                        let w = choose|l: int| 0 <= l < preout.len() && preout[l]@ == nm;
                        assert(out@.len() >= preout.len());
                        assert(forall|l: int| 0 <= l < preout.len() ==> out@[l] == preout[l]);
                        assert(name_among(out@, nm));
                    } else {
                        assert(records@[i as int]@.name == nm);
                        assert(name_among(out@, nm)) by {
                            if !name_among(preout, nm) {
                                assert(out@.last()@ == nm);
                            } else {
                                let w = choose|l: int|
                                    0 <= l < preout.len() && preout[l]@ == nm;
                                assert(forall|l: int|
                                    0 <= l < preout.len() ==> out@[l] == preout[l]);
                            }
                        }
                    }
                }
            }
        }
        i = i + 1;
    }
    out
}

} // verus!
