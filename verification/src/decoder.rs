//! The instruction decoder adapter: a trusted boundary around the capstone
//! disassembly engine, exposing each decoded instruction as a plain record
//! with a normalized operand view.
//!
//! Decoding a byte span is a function of the bytes and the base address
//! alone, which the specification names [`decoded_insns`]; everything the
//! call-graph builder concludes from the records is verified for every
//! possible decoding.

use vstd::prelude::*;

use capstone::arch::BuildsCapstone;
use capstone::arch::ArchOperand::X86Operand;
use capstone::arch::x86::X86OperandType::{Imm, Mem};

verus! {

use crate::decoder::OperandView::{Immediate, Memory, Other};

/// The normalized operand view of a decoded instruction: just enough to
/// classify call targets.
#[derive(Clone, Copy, PartialEq, Eq, Structural, Debug)]
pub enum OperandView {
    /// An immediate absolute target.
    Immediate(i64),
    /// A memory operand of base register plus displacement.
    Memory { base: u16, disp: i64 },
    /// Any other form, or no operand.
    Other,
}

/// One decoded instruction record.
pub struct InsnRecord {
    pub address: u64,
    pub length: usize,
    pub mnemonic: String,
    pub operand: OperandView,
}

/// The mathematical view of an instruction record.
pub ghost struct InsnView {
    pub address: u64,
    pub length: usize,
    pub mnemonic: Seq<char>,
    pub operand: OperandView,
}

impl View for InsnRecord {
    type V = InsnView;

    open spec fn view(&self) -> InsnView {
        InsnView {
            address: self.address,
            length: self.length,
            mnemonic: self.mnemonic@,
            operand: self.operand,
        }
    }
}

/// The views of a sequence of instruction records.
pub open spec fn views_of(s: Seq<InsnRecord>) -> Seq<InsnView> {
    s.map_values(|r: InsnRecord| r@)
}

/// What the disassembly engine decodes from a byte span at a base address.
/// The decoding depends on the bytes and the base alone.
pub uninterp spec fn decoded_insns(code: Seq<u8>, base: u64) -> Seq<InsnView>;

/// Whether a capstone register id names the x86-64 instruction pointer.
pub uninterp spec fn reg_is_instruction_pointer(reg: u16) -> bool;

#[verifier::external_type_specification]
#[verifier::external_body]
pub struct ExCapstone(capstone::Capstone);

/// The decoding engine.  Its capstone handle is private and the sole
/// constructor is [`build_engine`], so every reachable engine carries the
/// same fixed x86-64 configuration and is never reconfigured; that is what
/// lets [`disassemble`] state its result as a function of the bytes and
/// base address alone.
pub struct DecodingEngine {
    engine: capstone::Capstone,
}

/// Relies on capstone's builder: yields an x86-64 decoding engine with
/// operand detail enabled, or `None` when the engine cannot be constructed.
#[verifier::external_body]
pub fn build_engine() -> (r: Option<DecodingEngine>) {
    capstone::Capstone::new().x86().mode(capstone::arch::x86::ArchMode::Mode64).detail(
        true,
    ).build().ok().map(|engine| DecodingEngine { engine })
}

/// Relies on capstone's `disasm_all`, `insn_detail` and the x86 operand
/// types: decodes the span sequentially into records, converting each
/// instruction's address, length, mnemonic and first immediate or memory
/// operand.  Every [`DecodingEngine`] has the same fixed configuration, so
/// decoding is deterministic in the bytes and base address, which
/// [`decoded_insns`] names; an engine failure yields no records.
#[verifier::external_body]
pub fn disassemble(cs: &DecodingEngine, code: &[u8], base: u64) -> (r: Vec<InsnRecord>)
    ensures
        views_of(r@) == decoded_insns(code@, base),
{
    let insns = match cs.engine.disasm_all(code, base) { Ok(i) => i, _ => return vec![] };
    insns.iter().map(|i| InsnRecord {
        address: i.address(),
        length: i.bytes().len(),
        mnemonic: i.mnemonic().unwrap_or("").to_string(),
        operand: cs.engine.insn_detail(i).ok().and_then(|d| d.arch_detail().operands().into_iter()
            .find_map(|op| match op {
                X86Operand(x) => match x.op_type {
                    Imm(v) => Some(Immediate(v)),
                    Mem(m) => Some(Memory { base: m.base().0, disp: m.disp() }),
                    _ => None,
                },
                _ => None,
            })).unwrap_or(Other),
    }).collect()
}

/// Relies on capstone's x86 register numbering: whether `reg` names the
/// instruction pointer (RIP), which [`reg_is_instruction_pointer`] names.
#[verifier::external_body]
pub fn is_instruction_pointer(reg: u16) -> (r: bool)
    ensures
        r == reg_is_instruction_pointer(reg),
{
    reg == capstone::arch::x86::X86Reg::X86_REG_RIP as u16
}

} // verus!
