//! The in-memory model of a parsed binary image: loaded sections with their
//! raw bytes, the unified symbol table, and the entry-point address.
//!
//! The image is immutable once built; every derived structure of the two
//! analysis pipelines is computed from it.  Byte reads are specified as
//! functions of the section list, so everything computed from them is a
//! function of the image alone.

use vstd::prelude::*;

verus! {

/// Classification of a loaded section.
#[derive(Clone, Copy, PartialEq, Eq, Structural, Debug)]
pub enum SectionClass {
    /// Executable code (there may be several such sections).
    Code,
    Data,
    Other,
}

/// Classification of a symbol-table entry.
#[derive(Clone, Copy, PartialEq, Eq, Structural, Debug)]
pub enum SymbolClass {
    /// A text/function symbol.
    Function,
    Other,
}

/// One loaded section: virtual address, declared size, raw bytes and kind.
///
/// The declared `vsize` may exceed `data.len()` (uninitialized tails); every
/// byte read is bounded by the bytes actually present.
pub struct Section {
    pub addr: u64,
    pub vsize: u64,
    pub data: Vec<u8>,
    pub class: SectionClass,
}

/// One symbol-table entry.  Several entries may share an address (aliases);
/// consumers pick the first one in table order as the preferred name.
pub struct SymbolEntry {
    pub address: u64,
    pub name: String,
    pub size: u64,
    pub class: SymbolClass,
}

/// A parsed binary image: sections, unified symbol table (static and dynamic
/// entries alike), and the entry-point virtual address.
pub struct BinaryImage {
    pub sections: Vec<Section>,
    pub symbols: Vec<SymbolEntry>,
    pub entry: u64,
}

/// The mathematical view of a section.
pub ghost struct SectionView {
    pub addr: u64,
    pub vsize: u64,
    pub data: Seq<u8>,
    pub class: SectionClass,
}

impl View for Section {
    type V = SectionView;

    open spec fn view(&self) -> SectionView {
        SectionView { addr: self.addr, vsize: self.vsize, data: self.data@, class: self.class }
    }
}

/// The mathematical view of a symbol-table entry.
pub ghost struct SymbolView {
    pub address: u64,
    pub name: Seq<char>,
    pub size: u64,
    pub class: SymbolClass,
}

impl View for SymbolEntry {
    type V = SymbolView;

    open spec fn view(&self) -> SymbolView {
        SymbolView {
            address: self.address,
            name: self.name@,
            size: self.size,
            class: self.class,
        }
    }
}

/// The views of a sequence of sections.
pub open spec fn section_views(s: Seq<Section>) -> Seq<SectionView> {
    s.map_values(|x: Section| x@)
}

/// The views of a sequence of symbol entries.
pub open spec fn symbol_views(s: Seq<SymbolEntry>) -> Seq<SymbolView> {
    s.map_values(|x: SymbolEntry| x@)
}

impl Section {
    /// The address range of the bytes present never wraps the address space.
    pub open spec fn wf(&self) -> bool {
        self.addr + self.data@.len() <= u64::MAX
    }
}

/// `[addr, addr+len)` lies inside the bytes present in section `s`.
pub open spec fn section_covers(s: Section, addr: u64, len: nat) -> bool {
    s.addr <= addr && addr + len <= s.addr + s.data@.len()
}

/// The bytes of section `s` at virtual address range `[addr, addr+len)`.
pub open spec fn section_slice(s: Section, addr: u64, len: nat) -> Seq<u8>
    recommends
        section_covers(s, addr, len),
{
    s.data@.subrange(addr - s.addr, addr - s.addr + len)
}

/// The bytes at `[addr, addr+len)` of the first section whose present bytes
/// cover the whole range; `None` when no section does.
pub open spec fn read_spec(sections: Seq<Section>, addr: u64, len: nat) -> Option<Seq<u8>>
    decreases sections.len(),
{
    if sections.len() == 0 {
        None
    } else if section_covers(sections[0], addr, len) {
        Some(section_slice(sections[0], addr, len))
    } else {
        read_spec(sections.drop_first(), addr, len)
    }
}

proof fn lemma_read_spec_skip(sections: Seq<Section>, addr: u64, len: nat, i: int)
    requires
        0 <= i <= sections.len(),
        forall|j: int| 0 <= j < i ==> !section_covers(sections[j], addr, len),
    ensures
        read_spec(sections, addr, len) == read_spec(sections.skip(i), addr, len),
    decreases i,
{
    if i > 0 {
        assert(!section_covers(sections[0], addr, len));
        assert(sections.drop_first() =~= sections.skip(1));
        lemma_read_spec_skip(sections.drop_first(), addr, len, i - 1);
        assert(sections.drop_first().skip(i - 1) =~= sections.skip(i));
    } else {
        assert(sections.skip(0) =~= sections);
    }
}

/// A successful read returns exactly the requested number of bytes.
pub proof fn lemma_read_spec_len(sections: Seq<Section>, addr: u64, len: nat)
    ensures
        read_spec(sections, addr, len) matches Some(b) ==> b.len() == len,
    decreases sections.len(),
{
    if sections.len() > 0 && !section_covers(sections[0], addr, len) {
        lemma_read_spec_skip(sections, addr, len, 1);
        assert(sections.skip(1) =~= sections.drop_first());
        lemma_read_spec_len(sections.drop_first(), addr, len);
    }
}

/// `addr` lies among the bytes present in section `s`.
pub open spec fn section_holds_addr(s: Section, addr: u64) -> bool {
    s.addr <= addr < s.addr + s.data@.len()
}

/// A byte span for decoding: starting at `addr` in the first section whose
/// present bytes hold that address, running for `want` bytes but clipped to
/// the end of that section's bytes.
pub open spec fn read_clipped_spec(sections: Seq<Section>, addr: u64, want: u64) -> Option<
    Seq<u8>,
>
    decreases sections.len(),
{
    if sections.len() == 0 {
        None
    } else if section_holds_addr(sections[0], addr) {
        let avail = sections[0].addr + sections[0].data@.len() - addr;
        let take = if want <= avail {
            want as int
        } else {
            avail
        };
        Some(sections[0].data@.subrange(addr - sections[0].addr, addr - sections[0].addr + take))
    } else {
        read_clipped_spec(sections.drop_first(), addr, want)
    }
}

proof fn lemma_read_clipped_skip(sections: Seq<Section>, addr: u64, want: u64, i: int)
    requires
        0 <= i <= sections.len(),
        forall|j: int| 0 <= j < i ==> !section_holds_addr(sections[j], addr),
    ensures
        read_clipped_spec(sections, addr, want) == read_clipped_spec(sections.skip(i), addr, want),
    decreases i,
{
    if i > 0 {
        assert(!section_holds_addr(sections[0], addr));
        assert(sections.drop_first() =~= sections.skip(1));
        lemma_read_clipped_skip(sections.drop_first(), addr, want, i - 1);
        assert(sections.drop_first().skip(i - 1) =~= sections.skip(i));
    } else {
        assert(sections.skip(0) =~= sections);
    }
}

/// The value of an 8-byte little-endian pointer.
pub open spec fn le_u64_of(b: Seq<u8>) -> u64
    recommends
        b.len() == 8,
{
    ((b[0] as u64) | ((b[1] as u64) << 8) | ((b[2] as u64) << 16) | ((b[3] as u64) << 24)
        | ((b[4] as u64) << 32) | ((b[5] as u64) << 40) | ((b[6] as u64) << 48)
        | ((b[7] as u64) << 56)) as u64
}

/// The 8-byte little-endian pointer mapped at `addr`, if any.
pub open spec fn read_u64_spec(sections: Seq<Section>, addr: u64) -> Option<u64> {
    match read_spec(sections, addr, 8) {
        Some(b) => Some(le_u64_of(b)),
        None => None,
    }
}

impl BinaryImage {
    pub open spec fn wf(&self) -> bool {
        forall|i: int| 0 <= i < self.sections@.len() ==> self.sections@[i].wf()
    }

    /// Read `len` bytes starting at virtual address `addr` from the first
    /// section whose present bytes cover the whole range.
    pub fn read_bytes(&self, addr: u64, len: usize) -> (r: Option<Vec<u8>>)
        requires
            self.wf(),
        ensures
            match r {
                Some(b) => read_spec(self.sections@, addr, len as nat) == Some(b@),
                None => read_spec(self.sections@, addr, len as nat) is None,
            },
    {
        let n = self.sections.len();
        let mut i: usize = 0;
        while i < n
            invariant
                self.wf(),
                n == self.sections@.len(),
                i <= n,
                forall|j: int| 0 <= j < i ==> !section_covers(self.sections@[j], addr, len as nat),
            decreases n - i,
        {
            let s = &self.sections[i];
            let dlen = s.data.len();
            if s.addr <= addr && addr - s.addr <= dlen as u64 && len as u64 <= dlen as u64 - (addr
                - s.addr) {
                assert(section_covers(self.sections@[i as int], addr, len as nat));
                let off = (addr - s.addr) as usize;
                let out = copy_range(&s.data, off, len);
                proof {
                    lemma_read_spec_skip(self.sections@, addr, len as nat, i as int);
                    assert(self.sections@.skip(i as int)[0] == self.sections@[i as int]);
                }
                return Some(out);
            }
            assert(!section_covers(self.sections@[i as int], addr, len as nat));
            i = i + 1;
        }
        proof {
            lemma_read_spec_skip(self.sections@, addr, len as nat, n as int);
            assert(self.sections@.skip(n as int) =~= Seq::<Section>::empty());
        }
        None
    }

    /// Read a byte span for decoding: up to `want` bytes starting at `addr`,
    /// clipped to the end of the first section holding that address.
    pub fn read_clipped(&self, addr: u64, want: u64) -> (r: Option<Vec<u8>>)
        requires
            self.wf(),
        ensures
            match r {
                Some(b) => read_clipped_spec(self.sections@, addr, want) == Some(b@),
                None => read_clipped_spec(self.sections@, addr, want) is None,
            },
    {
        let n = self.sections.len();
        let mut i: usize = 0;
        while i < n
            invariant
                self.wf(),
                n == self.sections@.len(),
                i <= n,
                forall|j: int| 0 <= j < i ==> !section_holds_addr(self.sections@[j], addr),
            decreases n - i,
        {
            let s = &self.sections[i];
            let dlen = s.data.len();
            if s.addr <= addr && addr - s.addr < dlen as u64 {
                assert(section_holds_addr(self.sections@[i as int], addr));
                let off = (addr - s.addr) as usize;
                let avail = dlen - off;
                let take = if want <= avail as u64 {
                    want as usize
                } else {
                    avail
                };
                let out = copy_range(&s.data, off, take);
                proof {
                    lemma_read_clipped_skip(self.sections@, addr, want, i as int);
                    assert(self.sections@.skip(i as int)[0] == self.sections@[i as int]);
                }
                return Some(out);
            }
            assert(!section_holds_addr(self.sections@[i as int], addr));
            i = i + 1;
        }
        proof {
            lemma_read_clipped_skip(self.sections@, addr, want, n as int);
            assert(self.sections@.skip(n as int) =~= Seq::<Section>::empty());
        }
        None
    }

    /// Read an 8-byte little-endian pointer at virtual address `addr`.
    pub fn read_u64_le(&self, addr: u64) -> (r: Option<u64>)
        requires
            self.wf(),
        ensures
            r == read_u64_spec(self.sections@, addr),
    {
        match self.read_bytes(addr, 8) {
            Some(b) => {
                proof {
                    lemma_read_spec_len(self.sections@, addr, 8);
                }
                let v = (b[0] as u64) | ((b[1] as u64) << 8) | ((b[2] as u64) << 16) | ((b[3]
                    as u64) << 24) | ((b[4] as u64) << 32) | ((b[5] as u64) << 40) | ((b[6]
                    as u64) << 48) | ((b[7] as u64) << 56);
                Some(v)
            },
            None => None,
        }
    }
}

/// Copy `data[off .. off+len]` into a fresh vector.
fn copy_range(data: &Vec<u8>, off: usize, len: usize) -> (r: Vec<u8>)
    requires
        off + len <= data@.len(),
    ensures
        r@ == data@.subrange(off as int, off + len),
{
    let mut out: Vec<u8> = Vec::new();
    let dlen = data.len();
    let mut k: usize = 0;
    while k < len
        invariant
            dlen == data@.len(),
            off + len <= dlen,
            k <= len,
            out@ == data@.subrange(off as int, off + k),
        decreases len - k,
    {
        out.push(data[off + k]);
        assert(out@ =~= data@.subrange(off as int, off + k + 1));
        k = k + 1;
    }
    out
}

} // verus!
