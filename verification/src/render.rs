//! Rendering of addresses, names and traversal lines into plain text:
//! hexadecimal and decimal number formatting, the naming policy for call
//! tree nodes, and the indented textual tree.

use vstd::prelude::*;

use crate::boundaries::{in_range, owner_spec, AddressOwnerIndex};
use crate::calltree::{TreeEntry, TreeEntryKind};
use crate::image::{SymbolClass, SymbolEntry};

verus! {

/// The character of one digit value (hexadecimal alphabet; the first ten
/// serve decimal rendering too).
pub open spec fn digit_char(d: int) -> char {
    if d == 0 {
        '0'
    } else if d == 1 {
        '1'
    } else if d == 2 {
        '2'
    } else if d == 3 {
        '3'
    } else if d == 4 {
        '4'
    } else if d == 5 {
        '5'
    } else if d == 6 {
        '6'
    } else if d == 7 {
        '7'
    } else if d == 8 {
        '8'
    } else if d == 9 {
        '9'
    } else if d == 10 {
        'a'
    } else if d == 11 {
        'b'
    } else if d == 12 {
        'c'
    } else if d == 13 {
        'd'
    } else if d == 14 {
        'e'
    } else {
        'f'
    }
}

/// The hexadecimal digits of `n`, most significant first; empty for zero.
pub open spec fn hex_digits_spec(n: int) -> Seq<char>
    decreases n,
        when n >= 0
{
    if n <= 0 {
        Seq::empty()
    } else {
        hex_digits_spec(n / 16).push(digit_char(n % 16))
    }
}

/// The hexadecimal rendering of `n` (at least one digit).
pub open spec fn hex_string_spec(n: u64) -> Seq<char> {
    if n == 0 {
        seq!['0']
    } else {
        hex_digits_spec(n as int)
    }
}

/// The decimal digits of `n`, most significant first; empty for zero.
pub open spec fn dec_digits_spec(n: int) -> Seq<char>
    decreases n,
        when n >= 0
{
    if n <= 0 {
        Seq::empty()
    } else {
        dec_digits_spec(n / 10).push(digit_char(n % 10))
    }
}

/// The decimal rendering of `n` (at least one digit).
pub open spec fn dec_string_spec(n: u64) -> Seq<char> {
    if n == 0 {
        seq!['0']
    } else {
        dec_digits_spec(n as int)
    }
}

/// The characters of a digit-value sequence.
pub open spec fn digit_chars(ds: Seq<u8>) -> Seq<char> {
    ds.map_values(|d: u8| digit_char(d as int))
}

fn digit_str(d: u8) -> (r: &'static str)
    requires
        d < 16,
    ensures
        r@ == seq![digit_char(d as int)],
{
    let r: &'static str = match d {
        0 => "0",
        1 => "1",
        2 => "2",
        3 => "3",
        4 => "4",
        5 => "5",
        6 => "6",
        7 => "7",
        8 => "8",
        9 => "9",
        10 => "a",
        11 => "b",
        12 => "c",
        13 => "d",
        14 => "e",
        _ => "f",
    };
    proof {
        reveal_strlit("0");
        reveal_strlit("1");
        reveal_strlit("2");
        reveal_strlit("3");
        reveal_strlit("4");
        reveal_strlit("5");
        reveal_strlit("6");
        reveal_strlit("7");
        reveal_strlit("8");
        reveal_strlit("9");
        reveal_strlit("a");
        reveal_strlit("b");
        reveal_strlit("c");
        reveal_strlit("d");
        reveal_strlit("e");
        reveal_strlit("f");
        assert(r@ =~= seq![digit_char(d as int)]);
    }
    r
}

/// Render the digit values (least significant first) into a string, most
/// significant first.
fn digits_to_string(digits: &Vec<u8>) -> (r: String)
    requires
        forall|j: int| 0 <= j < digits@.len() ==> digits@[j] < 16,
    ensures
        r@ == digit_chars(digits@).reverse(),
{
    let mut out = String::new();
    let mut i = digits.len();
    while i > 0
        invariant
            i <= digits@.len(),
            forall|j: int| 0 <= j < digits@.len() ==> digits@[j] < 16,
            out@ == digit_chars(digits@.subrange(i as int, digits@.len() as int)).reverse(),
        decreases i,
    {
        let ghost pre = digits@.subrange(i as int, digits@.len() as int);
        i = i - 1;
        out.append(digit_str(digits[i]));
        proof {
            let cur = digits@.subrange(i as int, digits@.len() as int);
            assert(digit_chars(cur).reverse() =~= digit_chars(pre).reverse().push(
                digit_char(digits@[i as int] as int),
            ));
            assert(out@ =~= digit_chars(cur).reverse());
        }
    }
    assert(digits@.subrange(0, digits@.len() as int) =~= digits@);
    out
}

/// The hexadecimal rendering of a 64-bit value.
pub fn u64_to_hex(n: u64) -> (r: String)
    ensures
        r@ == hex_string_spec(n),
{
    if n == 0 {
        let s = String::from_str("0");
        proof {
            reveal_strlit("0");
            assert(s@ =~= seq!['0']);
        }
        return s;
    }
    let mut digits: Vec<u8> = Vec::new();
    let mut m = n;
    while m > 0
        invariant
            forall|j: int| 0 <= j < digits@.len() ==> digits@[j] < 16,
            hex_digits_spec(n as int) == hex_digits_spec(m as int) + digit_chars(
                digits@,
            ).reverse(),
        decreases m,
    {
        let ghost predigits = digits@;
        let d: u8 = (m % 16) as u8;
        digits.push(d);
        proof {
            assert(hex_digits_spec(m as int) == hex_digits_spec(m as int / 16).push(
                digit_char(m as int % 16),
            ));
            assert(digit_chars(digits@).reverse() =~= seq![digit_char(d as int)] + digit_chars(
                predigits,
            ).reverse());
            assert(hex_digits_spec(m as int / 16) + digit_chars(digits@).reverse()
                =~= hex_digits_spec(n as int));
        }
        m = m / 16;
    }
    let r = digits_to_string(&digits);
    assert(r@ == hex_string_spec(n));
    r
}

/// The decimal rendering of a 64-bit value.
pub fn u64_to_dec(n: u64) -> (r: String)
    ensures
        r@ == dec_string_spec(n),
{
    if n == 0 {
        let s = String::from_str("0");
        proof {
            reveal_strlit("0");
            assert(s@ =~= seq!['0']);
        }
        return s;
    }
    let mut digits: Vec<u8> = Vec::new();
    let mut m = n;
    while m > 0
        invariant
            forall|j: int| 0 <= j < digits@.len() ==> digits@[j] < 16,
            dec_digits_spec(n as int) == dec_digits_spec(m as int) + digit_chars(
                digits@,
            ).reverse(),
        decreases m,
    {
        let ghost predigits = digits@;
        let d: u8 = (m % 10) as u8;
        digits.push(d);
        proof {
            assert(dec_digits_spec(m as int) == dec_digits_spec(m as int / 10).push(
                digit_char(m as int % 10),
            ));
            assert(digit_chars(digits@).reverse() =~= seq![digit_char(d as int)] + digit_chars(
                predigits,
            ).reverse());
            assert(dec_digits_spec(m as int / 10) + digit_chars(digits@).reverse()
                =~= dec_digits_spec(n as int));
        }
        m = m / 10;
    }
    let r = digits_to_string(&digits);
    assert(r@ == dec_string_spec(n));
    r
}

/// The name of the first function symbol in table order at address `a`
/// (aliases: the first entry wins).
pub open spec fn first_symbol_name(syms: Seq<SymbolEntry>, a: u64) -> Option<Seq<char>>
    decreases syms.len(),
{
    if syms.len() == 0 {
        None
    } else if syms[0].class is Function && syms[0].address == a {
        Some(syms[0].name@)
    } else {
        first_symbol_name(syms.drop_first(), a)
    }
}

proof fn lemma_first_symbol_name_skip(syms: Seq<SymbolEntry>, a: u64, i: int)
    requires
        0 <= i <= syms.len(),
        forall|j: int|
            0 <= j < i ==> !(syms[j].class is Function && syms[j].address == a),
    ensures
        first_symbol_name(syms, a) == first_symbol_name(syms.skip(i), a),
    decreases i,
{
    if i > 0 {
        assert(syms.drop_first() =~= syms.skip(1));
        lemma_first_symbol_name_skip(syms.drop_first(), a, i - 1);
        assert(syms.drop_first().skip(i - 1) =~= syms.skip(i));
    } else {
        assert(syms.skip(0) =~= syms);
    }
}

/// The name of the first function symbol at address `a`, if any.
pub fn symbol_name_at(symbols: &Vec<SymbolEntry>, a: u64) -> (r: Option<String>)
    ensures
        match r {
            Some(s) => first_symbol_name(symbols@, a) == Some(s@),
            None => first_symbol_name(symbols@, a) is None,
        },
{
    let n = symbols.len();
    let mut i: usize = 0;
    while i < n
        invariant
            n == symbols@.len(),
            i <= n,
            forall|j: int|
                0 <= j < i ==> !(symbols@[j].class is Function && symbols@[j].address == a),
        decreases n - i,
    {
        let s = &symbols[i];
        let is_func = match s.class {
            SymbolClass::Function => true,
            SymbolClass::Other => false,
        };
        if is_func && s.address == a {
            proof {
                lemma_first_symbol_name_skip(symbols@, a, i as int);
                assert(symbols@.skip(i as int)[0] == symbols@[i as int]);
            }
            return Some(s.name.clone());
        }
        i = i + 1;
    }
    proof {
        lemma_first_symbol_name_skip(symbols@, a, n as int);
        assert(symbols@.skip(n as int) =~= Seq::<SymbolEntry>::empty());
    }
    None
}

/// The rendered name of an address: its own symbol name; or, inside a known
/// function's body, the owner's name plus the offset; or an address-derived
/// placeholder.
pub open spec fn name_spec(
    syms: Seq<SymbolEntry>,
    ranges: Seq<crate::boundaries::FunctionRange>,
    a: u64,
) -> Seq<char> {
    match first_symbol_name(syms, a) {
        Some(nm) => nm,
        None => match owner_spec(ranges, a) {
            Some(start) => match first_symbol_name(syms, start) {
                Some(nm) => nm + "+0x"@ + hex_string_spec((a - start) as u64),
                None => "0x"@ + hex_string_spec(a),
            },
            None => "0x"@ + hex_string_spec(a),
        },
    }
}

/// An address outside every function range, with no function symbol of its
/// own, renders as the address-derived placeholder `0x<hex>`.
pub proof fn lemma_unowned_address_renders_placeholder(
    syms: Seq<SymbolEntry>,
    ranges: Seq<crate::boundaries::FunctionRange>,
    a: u64,
)
    requires
        first_symbol_name(syms, a) is None,
        forall|i: int| 0 <= i < ranges.len() ==> !in_range(#[trigger] ranges[i], a),
    ensures
        name_spec(syms, ranges, a) == "0x"@ + hex_string_spec(a),
{
    crate::boundaries::lemma_owner_spec_characterizes(ranges, a);
    if owner_spec(ranges, a) is Some {
        let s = owner_spec(ranges, a).unwrap();
        let w = choose|i: int|
            0 <= i < ranges.len() && ranges[i].start == s && in_range(ranges[i], a);
        assert(false);
    }
}

/// Render the name of address `a` against the symbol table and the owner
/// index.
pub fn render_name(symbols: &Vec<SymbolEntry>, index: &AddressOwnerIndex, a: u64) -> (r: String)
    requires
        index.wf(),
    ensures
        r@ == name_spec(symbols@, index.ranges@, a),
{
    match symbol_name_at(symbols, a) {
        Some(nm) => nm,
        None => {
            match index.owner_of(a) {
                Some(start) => {
                    proof {
                        let w = choose|i: int|
                            0 <= i < index.ranges@.len() && index.ranges@[i].start == start
                                && in_range(index.ranges@[i], a);
                    }
                    assert(start <= a);
                    match symbol_name_at(symbols, start) {
                        Some(nm) => {
                            let mut out = nm;
                            out.append("+0x");
                            let hex = u64_to_hex(a - start);
                            out.append(hex.as_str());
                            out
                        },
                        None => {
                            let mut out = String::from_str("0x");
                            let hex = u64_to_hex(a);
                            out.append(hex.as_str());
                            out
                        },
                    }
                },
                None => {
                    let mut out = String::from_str("0x");
                    let hex = u64_to_hex(a);
                    out.append(hex.as_str());
                    out
                },
            }
        },
    }
}

/// The indentation of one tree line: four spaces per depth level.
pub open spec fn indent_spec(depth: int) -> Seq<char>
    decreases depth,
        when depth >= 0
{
    if depth <= 0 {
        Seq::empty()
    } else {
        indent_spec(depth - 1) + "    "@
    }
}

fn indent_string(depth: usize) -> (r: String)
    ensures
        r@ == indent_spec(depth as int),
{
    let mut out = String::new();
    let mut i: usize = 0;
    while i < depth
        invariant
            i <= depth,
            out@ == indent_spec(i as int),
        decreases depth - i,
    {
        out.append("    ");
        i = i + 1;
    }
    out
}

/// The rendered text of one traversal line.
pub open spec fn line_spec(
    e: TreeEntry,
    syms: Seq<SymbolEntry>,
    ranges: Seq<crate::boundaries::FunctionRange>,
) -> Seq<char> {
    match e.kind {
        TreeEntryKind::Visit => indent_spec(e.depth as int) + name_spec(syms, ranges, e.addr)
            + " (0x"@ + hex_string_spec(e.addr) + ")"@,
        TreeEntryKind::CycleDetected => indent_spec(e.depth as int) + "(cycle detected at 0x"@
            + hex_string_spec(e.addr) + ")"@,
        TreeEntryKind::UnresolvedCall => indent_spec(e.depth as int) + "(indirect call at 0x"@
            + hex_string_spec(e.addr) + ")"@,
    }
}

/// The rendered text of a whole traversal.
pub open spec fn lines_spec(
    entries: Seq<TreeEntry>,
    syms: Seq<SymbolEntry>,
    ranges: Seq<crate::boundaries::FunctionRange>,
) -> Seq<Seq<char>> {
    entries.map_values(|e: TreeEntry| line_spec(e, syms, ranges))
}

/// Render the traversal entries into indented text lines, one per entry.
pub fn render_tree(
    entries: &Vec<TreeEntry>,
    symbols: &Vec<SymbolEntry>,
    index: &AddressOwnerIndex,
) -> (r: Vec<String>)
    requires
        index.wf(),
    ensures
        r@.len() == entries@.len(),
        forall|i: int|
            0 <= i < r@.len() ==> r@[i]@ == lines_spec(entries@, symbols@, index.ranges@)[i],
{
    let n = entries.len();
    let mut out: Vec<String> = Vec::new();
    let mut i: usize = 0;
    while i < n
        invariant
            index.wf(),
            n == entries@.len(),
            i <= n,
            out@.len() == i,
            forall|j: int|
                0 <= j < i ==> out@[j]@ == lines_spec(entries@, symbols@, index.ranges@)[j],
        decreases n - i,
    {
        let e = entries[i];
        let mut line = indent_string(e.depth);
        match e.kind {
            TreeEntryKind::Visit => {
                let nm = render_name(symbols, index, e.addr);
                line.append(nm.as_str());
                line.append(" (0x");
                let hex = u64_to_hex(e.addr);
                line.append(hex.as_str());
                line.append(")");
            },
            TreeEntryKind::CycleDetected => {
                line.append("(cycle detected at 0x");
                let hex = u64_to_hex(e.addr);
                line.append(hex.as_str());
                line.append(")");
            },
            TreeEntryKind::UnresolvedCall => {
                line.append("(indirect call at 0x");
                let hex = u64_to_hex(e.addr);
                line.append(hex.as_str());
                line.append(")");
            },
        }
        assert(line@ == line_spec(entries@[i as int], symbols@, index.ranges@));
        out.push(line);
        i = i + 1;
    }
    out
}

} // verus!
