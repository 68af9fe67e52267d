//! Basic-block and function fingerprints over a host-neutral description of
//! the disassembled instructions.
use vstd::prelude::*;

use crate::guid::{block_guid_of, function_guid_of, BasicBlockGUID, FunctionGUID};

verus! {

/// A register named by an instruction's IL.
#[derive(Clone, Copy, Debug, PartialEq, Eq, Structural)]
pub enum Register {
    /// An architectural register; `implicit_extend` is set when writing it
    /// zero- or sign-extends into a wider register.
    Arch { id: u32, implicit_extend: bool },
    /// An IL temporary.
    Temp(u32),
}

/// An IL expression tree.
#[derive(Debug)]
pub enum Expr {
    Reg(Register),
    /// A constant integer operand.
    Const(u64),
    /// A constant pointer operand.
    ConstPtr(u64),
    /// A pointer to an external (imported) location.
    ExternPtr(u64),
    /// Any other operation with its operand subtrees.
    Op { op: u32, operands: Vec<Expr> },
}

/// The IL form of one instruction.
#[derive(Debug)]
pub enum IlInstr {
    Nop,
    SetReg { dest: Register, src: Expr },
    Other(Expr),
}

/// One disassembled instruction: its raw bytes (read up to the architecture's
/// maximum instruction length), its decoded length if it decoded, and its IL
/// if the host lifted it.
#[derive(Debug)]
pub struct Instruction {
    pub bytes: Vec<u8>,
    pub length: Option<usize>,
    pub il: Option<IlInstr>,
}

/// A basic block: start and end address and its instructions in program order.
#[derive(Debug)]
pub struct BasicBlock {
    pub start: u64,
    pub end: u64,
    pub instructions: Vec<Instruction>,
}

/// A half-open address range `[start, end)`.
#[derive(Clone, Copy, Debug, PartialEq, Eq, Structural)]
pub struct AddressRange {
    pub start: u64,
    pub end: u64,
}

/// What the host knows of the program's address space: its sections and the
/// addresses of its functions and data variables.
#[derive(Debug)]
pub struct ProgramLayout {
    pub sections: Vec<AddressRange>,
    pub function_addresses: Vec<u64>,
    pub data_addresses: Vec<u64>,
}

pub open spec fn in_section(layout: ProgramLayout, v: u64) -> bool {
    exists|i: int|
        0 <= i < layout.sections@.len() && #[trigger] layout.sections@[i].start <= v
            && v < layout.sections@[i].end
}

/// A value that a relink would move: inside a section, or the address of a
/// known function or data variable.
pub open spec fn is_relocatable(layout: ProgramLayout, v: u64) -> bool {
    ||| in_section(layout, v)
    ||| layout.function_addresses@.contains(v)
    ||| layout.data_addresses@.contains(v)
}

/// Whether some node of the tree is a relocatable constant or an external pointer.
pub open spec fn expr_is_variant(e: Expr, layout: ProgramLayout) -> bool
    decreases e,
{
    match e {
        Expr::Reg(_) => false,
        Expr::Const(v) => is_relocatable(layout, v),
        Expr::ConstPtr(v) => is_relocatable(layout, v),
        Expr::ExternPtr(_) => true,
        Expr::Op { op, operands } => any_variant(operands@, layout),
    }
}

/// Whether some tree of the sequence is variant.
pub open spec fn any_variant(es: Seq<Expr>, layout: ProgramLayout) -> bool
    decreases es,
{
    if es.len() == 0 {
        false
    } else {
        any_variant(es.drop_last(), layout) || expr_is_variant(es.last(), layout)
    }
}

pub open spec fn il_is_variant(il: IlInstr, layout: ProgramLayout) -> bool {
    match il {
        IlInstr::Nop => false,
        IlInstr::SetReg { dest, src } => expr_is_variant(src, layout),
        IlInstr::Other(e) => expr_is_variant(e, layout),
    }
}

/// A no-op, or a move of a register onto itself that extends nothing.
pub open spec fn il_is_elided(il: IlInstr) -> bool {
    match il {
        IlInstr::Nop => true,
        IlInstr::SetReg { dest, src } => match src {
            Expr::Reg(s) => s == dest && (match dest {
                Register::Arch { id, implicit_extend } => !implicit_extend,
                Register::Temp(_) => false,
            }),
            _ => false,
        },
        IlInstr::Other(_) => false,
    }
}

/// The raw bytes cut to the decoded length.
pub open spec fn truncated(bytes: Seq<u8>, len: usize) -> Seq<u8> {
    if len < bytes.len() {
        bytes.take(len as int)
    } else {
        bytes
    }
}

pub open spec fn zeros(n: nat) -> Seq<u8> {
    Seq::new(n, |i: int| 0u8)
}

/// The bytes one instruction adds to its block's digest input.
pub open spec fn instr_contribution(instr: Instruction, layout: ProgramLayout) -> Seq<u8> {
    match (instr.length, instr.il) {
        (Some(len), Some(il)) => {
            let raw = truncated(instr.bytes@, len);
            if il_is_elided(il) {
                Seq::empty()
            } else if il_is_variant(il, layout) {
                zeros(raw.len())
            } else {
                raw
            }
        },
        _ => Seq::empty(),
    }
}

/// Concatenated contributions of a sequence of instructions.
pub open spec fn block_bytes(instrs: Seq<Instruction>, layout: ProgramLayout) -> Seq<u8>
    decreases instrs.len(),
{
    if instrs.len() == 0 {
        Seq::empty()
    } else {
        block_bytes(instrs.drop_last(), layout) + instr_contribution(instrs.last(), layout)
    }
}

pub open spec fn block_fingerprint(block: BasicBlock, layout: ProgramLayout) -> BasicBlockGUID {
    block_guid_of(block_bytes(block.instructions@, layout))
}

/// Inserts block index `k` into `order` after every index whose start is at
/// most that of `k` at the end of the sequence (a stable insertion).
pub open spec fn insert_index(order: Seq<int>, starts: Seq<u64>, k: int) -> Seq<int>
    decreases order.len(),
{
    if order.len() == 0 {
        seq![k]
    } else if starts[order.last()] <= starts[k] {
        order.push(k)
    } else {
        insert_index(order.drop_last(), starts, k).push(order.last())
    }
}

/// The indices of the first `n` blocks, stably sorted by ascending start.
pub open spec fn sort_order(starts: Seq<u64>, n: int) -> Seq<int>
    decreases n,
{
    if n <= 0 {
        Seq::empty()
    } else {
        insert_index(sort_order(starts, n - 1), starts, n - 1)
    }
}

pub open spec fn block_starts(blocks: Seq<BasicBlock>) -> Seq<u64> {
    Seq::new(blocks.len(), |i: int| blocks[i].start)
}

/// Block indices in ascending start-address order, ties in input order.
pub open spec fn block_order(blocks: Seq<BasicBlock>) -> Seq<int> {
    sort_order(block_starts(blocks), blocks.len() as int)
}

/// The block identifiers of a function, in ascending start-address order.
pub open spec fn ordered_block_guids(blocks: Seq<BasicBlock>, layout: ProgramLayout) -> Seq<
    BasicBlockGUID,
> {
    block_order(blocks).map_values(|k: int| block_fingerprint(blocks[k], layout))
}

pub open spec fn function_fingerprint(blocks: Seq<BasicBlock>, layout: ProgramLayout) -> FunctionGUID {
    function_guid_of(ordered_block_guids(blocks, layout))
}


impl ProgramLayout {
    /// Whether `v` lies in a section or is a known function or data address.
    pub fn is_relocatable(&self, v: u64) -> (r: bool)
        ensures
            r == is_relocatable(*self, v),
    {
        let mut i: usize = 0;
        while i < self.sections.len()
            invariant
                i <= self.sections@.len(),
                forall|j: int|
                    0 <= j < i ==> !(#[trigger] self.sections@[j].start <= v
                        && v < self.sections@[j].end),
            decreases self.sections@.len() - i,
        {
            if self.sections[i].start <= v && v < self.sections[i].end {
                return true;
            }
            i += 1;
        }
        contains_u64(&self.function_addresses, v) || contains_u64(&self.data_addresses, v)
    }
}

fn contains_u64(v: &Vec<u64>, x: u64) -> (r: bool)
    ensures
        r == v@.contains(x),
{
    let mut i: usize = 0;
    while i < v.len()
        invariant
            i <= v@.len(),
            forall|j: int| 0 <= j < i ==> v@[j] != x,
        decreases v@.len() - i,
    {
        if v[i] == x {
            return true;
        }
        i += 1;
    }
    false
}

impl Expr {
    /// Whether the tree holds, anywhere, a relocatable constant or an external pointer.
    pub fn is_variant(&self, layout: &ProgramLayout) -> (r: bool)
        ensures
            r == expr_is_variant(*self, *layout),
        decreases self,
    {
        match self {
            Expr::Reg(_) => false,
            Expr::Const(v) => layout.is_relocatable(*v),
            Expr::ConstPtr(v) => layout.is_relocatable(*v),
            Expr::ExternPtr(_) => true,
            Expr::Op { op, operands } => {
                let mut i: usize = 0;
                while i < operands.len()
                    invariant
                        *self is Op,
                        self->operands == *operands,
                        i <= operands@.len(),
                        !any_variant(operands@.take(i as int), *layout),
                    decreases operands@.len() - i,
                {
                    proof {
                        assert(decreases_to!(*self => self->operands));
                        assert(decreases_to!(self->operands => self->operands@));
                        assert(decreases_to!(self->operands@ => self->operands@[i as int]));
                        assert(operands@.take(i + 1).drop_last() =~= operands@.take(i as int));
                    }
                    if operands[i].is_variant(layout) {
                        proof {
                            lemma_any_variant_take(operands@, i as int, *layout);
                            lemma_any_variant_prefix(operands@, i + 1, *layout);
                        }
                        return true;
                    }
                    i += 1;
                }
                assert(operands@.take(i as int) =~= operands@);
                false
            },
        }
    }
}

proof fn lemma_any_variant_take(es: Seq<Expr>, i: int, layout: ProgramLayout)
    requires
        0 <= i < es.len(),
    ensures
        any_variant(es.take(i + 1), layout) == (any_variant(es.take(i), layout) || expr_is_variant(
            es[i],
            layout,
        )),
{
    assert(es.take(i + 1).drop_last() =~= es.take(i));
}

/// A variant tree in a prefix is a variant tree of the whole sequence.
proof fn lemma_any_variant_prefix(es: Seq<Expr>, n: int, layout: ProgramLayout)
    requires
        0 <= n <= es.len(),
        any_variant(es.take(n), layout),
    ensures
        any_variant(es, layout),
    decreases es.len() - n,
{
    if n < es.len() {
        lemma_any_variant_take(es, n, layout);
        lemma_any_variant_prefix(es, n + 1, layout);
    } else {
        assert(es.take(n) =~= es);
    }
}

impl IlInstr {
    pub fn is_variant(&self, layout: &ProgramLayout) -> (r: bool)
        ensures
            r == il_is_variant(*self, *layout),
    {
        match self {
            IlInstr::Nop => false,
            IlInstr::SetReg { dest, src } => src.is_variant(layout),
            IlInstr::Other(e) => e.is_variant(layout),
        }
    }

    /// Whether removing the instruction would change nothing: a no-op, or a
    /// move of an architectural register onto itself that does not extend.
    pub fn is_elided(&self) -> (r: bool)
        ensures
            r == il_is_elided(*self),
    {
        match self {
            IlInstr::Nop => true,
            IlInstr::SetReg { dest, src } => match src {
                Expr::Reg(s) => *s == *dest && match dest {
                    Register::Arch { id, implicit_extend } => !*implicit_extend,
                    Register::Temp(_) => false,
                },
                _ => false,
            },
            IlInstr::Other(_) => false,
        }
    }
}

/// Appends what one instruction contributes to its block's digest input.
fn push_contribution(out: &mut Vec<u8>, instr: &Instruction, layout: &ProgramLayout)
    ensures
        final(out)@ == old(out)@ + instr_contribution(*instr, *layout),
{
    let ghost start = out@;
    if let (Some(len), Some(il)) = (instr.length, &instr.il) {
        if il.is_elided() {
            assert(out@ =~= start + instr_contribution(*instr, *layout));
            return;
        }
        let variant = il.is_variant(layout);
        let n: usize = if len < instr.bytes.len() { len } else { instr.bytes.len() };
        let ghost raw = truncated(instr.bytes@, len);
        assert(raw =~= instr.bytes@.take(n as int));
        let mut i: usize = 0;
        while i < n
            invariant
                n <= instr.bytes@.len(),
                raw == instr.bytes@.take(n as int),
                i <= n,
                out@ == start + (if variant {
                    zeros(i as nat)
                } else {
                    raw.take(i as int)
                }),
            decreases n - i,
        {
            if variant {
                out.push(0u8);
                assert(zeros(i as nat).push(0u8) =~= zeros((i + 1) as nat));
            } else {
                out.push(instr.bytes[i]);
                assert(raw.take(i as int).push(instr.bytes@[i as int]) =~= raw.take(i + 1));
            }
            i += 1;
        }
        assert(raw.take(n as int) =~= raw);
        assert(out@ =~= start + instr_contribution(*instr, *layout));
    } else {
        assert(out@ =~= start + instr_contribution(*instr, *layout));
    }
}

/// Fingerprint of one basic block: the digest of its instructions'
/// contributions in program order.
pub fn basic_block_guid(block: &BasicBlock, layout: &ProgramLayout) -> (r: BasicBlockGUID)
    ensures
        r == block_fingerprint(*block, *layout),
{
    let instrs = &block.instructions;
    let mut bytes: Vec<u8> = Vec::new();
    let mut i: usize = 0;
    while i < instrs.len()
        invariant
            i <= instrs@.len(),
            bytes@ == block_bytes(instrs@.take(i as int), *layout),
        decreases instrs@.len() - i,
    {
        push_contribution(&mut bytes, &instrs[i], layout);
        assert(instrs@.take(i + 1).drop_last() =~= instrs@.take(i as int));
        i += 1;
    }
    assert(instrs@.take(i as int) =~= instrs@);
    BasicBlockGUID::from_bytes(bytes.as_slice())
}


proof fn lemma_insert_index_at(o: Seq<int>, starts: Seq<u64>, k: int, j: int)
    requires
        0 <= j <= o.len(),
        forall|m: int| j <= m < o.len() ==> starts[#[trigger] o[m]] > starts[k],
        j == 0 || starts[o[j - 1]] <= starts[k],
    ensures
        insert_index(o, starts, k) == o.insert(j, k),
    decreases o.len(),
{
    if o.len() == 0 {
        assert(o.insert(j, k) =~= seq![k]);
    } else if j == o.len() {
        assert(o.insert(j, k) =~= o.push(k));
    } else {
        assert(starts[o[o.len() - 1]] > starts[k]);
        let p = o.drop_last();
        assert forall|m: int| j <= m < p.len() implies starts[#[trigger] p[m]] > starts[k] by {
            assert(p[m] == o[m]);
        }
        lemma_insert_index_at(p, starts, k, j);
        assert(p.insert(j, k).push(o.last()) =~= o.insert(j, k));
    }
}

/// Indices of the blocks in ascending start-address order; blocks that start
/// at the same address keep their relative order.
pub fn sorted_basic_blocks(blocks: &[BasicBlock]) -> (r: Vec<usize>)
    ensures
        r@.map_values(|x: usize| x as int) == block_order(blocks@),
        forall|m: int| 0 <= m < r@.len() ==> #[trigger] r@[m] < blocks@.len(),
{
    let ghost starts = block_starts(blocks@);
    let mut order: Vec<usize> = Vec::new();
    let mut k: usize = 0;
    while k < blocks.len()
        invariant
            k <= blocks@.len(),
            starts == block_starts(blocks@),
            order@.map_values(|x: usize| x as int) == sort_order(starts, k as int),
            forall|m: int| 0 <= m < order@.len() ==> #[trigger] order@[m] < k,
        decreases blocks@.len() - k,
    {
        let key = blocks[k].start;
        let mut j: usize = order.len();
        while j > 0 && blocks[order[j - 1]].start > key
            invariant
                k < blocks@.len(),
                key == starts[k as int],
                starts == block_starts(blocks@),
                j <= order@.len(),
                forall|m: int| 0 <= m < order@.len() ==> #[trigger] order@[m] < k,
                forall|m: int| j <= m < order@.len() ==> starts[#[trigger] order@[m] as int] > key,
            decreases j,
        {
            j -= 1;
        }
        let ghost o = order@.map_values(|x: usize| x as int);
        proof {
            assert forall|m: int| j <= m < o.len() implies starts[#[trigger] o[m]] > starts[k as int] by {
                assert(o[m] == order@[m] as int);
            }
            if j > 0 {
                assert(o[j - 1] == order@[j - 1] as int);
            }
            lemma_insert_index_at(o, starts, k as int, j as int);
        }
        order.insert(j, k);
        assert(order@.map_values(|x: usize| x as int) =~= o.insert(j as int, k as int));
        k += 1;
    }
    order
}

/// Fingerprint of a function: the digest of its blocks' fingerprints taken in
/// ascending start-address order.
pub fn function_guid(blocks: &[BasicBlock], layout: &ProgramLayout) -> (r: FunctionGUID)
    ensures
        r == function_fingerprint(blocks@, *layout),
{
    let order = sorted_basic_blocks(blocks);
    let ghost want = ordered_block_guids(blocks@, *layout);
    let mut guids: Vec<BasicBlockGUID> = Vec::new();
    let mut i: usize = 0;
    while i < order.len()
        invariant
            i <= order@.len(),
            order@.map_values(|x: usize| x as int) == block_order(blocks@),
            forall|m: int| 0 <= m < order@.len() ==> #[trigger] order@[m] < blocks@.len(),
            want == ordered_block_guids(blocks@, *layout),
            want.len() == order@.len(),
            guids@ == want.take(i as int),
        decreases order@.len() - i,
    {
        let g = basic_block_guid(&blocks[order[i]], layout);
        assert(block_order(blocks@)[i as int] == order@[i as int] as int);
        guids.push(g);
        assert(guids@ =~= want.take(i + 1));
        i += 1;
    }
    assert(want.take(i as int) =~= want);
    FunctionGUID::from_basic_blocks(guids.as_slice())
}

} // verus!
