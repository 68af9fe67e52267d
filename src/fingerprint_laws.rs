//! Properties of fingerprints: independence from the load address, tolerance of
//! inserted no-ops and of relocated pointers.
use vstd::prelude::*;

use crate::fingerprint::{
    any_variant, block_bytes, block_fingerprint, block_order, block_starts, expr_is_variant,
    function_fingerprint, il_is_elided, il_is_variant, insert_index, instr_contribution,
    is_relocatable, ordered_block_guids, sort_order, BasicBlock, Expr, IlInstr, Instruction,
    ProgramLayout,
};
use crate::guid::block_guid_of;

verus! {

proof fn lemma_insert_index_range(o: Seq<int>, starts: Seq<u64>, k: int, n: int)
    requires
        0 <= k < n,
        forall|m: int| 0 <= m < o.len() ==> 0 <= #[trigger] o[m] < n,
    ensures
        insert_index(o, starts, k).len() == o.len() + 1,
        forall|m: int|
            0 <= m < o.len() + 1 ==> 0 <= #[trigger] insert_index(o, starts, k)[m] < n,
    decreases o.len(),
{
    if o.len() > 0 && starts[o.last()] > starts[k] {
        lemma_insert_index_range(o.drop_last(), starts, k, n);
    }
}

proof fn lemma_sort_order_range(starts: Seq<u64>, n: int)
    requires
        0 <= n,
    ensures
        sort_order(starts, n).len() == n,
        forall|m: int| 0 <= m < n ==> 0 <= #[trigger] sort_order(starts, n)[m] < n,
    decreases n,
{
    if n > 0 {
        lemma_sort_order_range(starts, n - 1);
        lemma_insert_index_range(sort_order(starts, n - 1), starts, n - 1, n);
    }
}

proof fn lemma_insert_index_same(o: Seq<int>, a: Seq<u64>, b: Seq<u64>, k: int, n: int)
    requires
        0 <= k < n,
        forall|m: int| 0 <= m < o.len() ==> 0 <= #[trigger] o[m] < n,
        forall|i: int, j: int| 0 <= i < n && 0 <= j < n ==> (a[i] <= a[j]) == (b[i] <= b[j]),
    ensures
        insert_index(o, a, k) == insert_index(o, b, k),
    decreases o.len(),
{
    if o.len() > 0 {
        assert(0 <= o.last() < n);
        lemma_insert_index_same(o.drop_last(), a, b, k, n);
    }
}

proof fn lemma_sort_order_same(a: Seq<u64>, b: Seq<u64>, n: int, total: int)
    requires
        0 <= n <= total,
        forall|i: int, j: int| 0 <= i < total && 0 <= j < total ==> (a[i] <= a[j]) == (b[i] <= b[j]),
    ensures
        sort_order(a, n) == sort_order(b, n),
    decreases n,
{
    if n > 0 {
        lemma_sort_order_same(a, b, n - 1, total);
        lemma_sort_order_range(a, n - 1);
        lemma_insert_index_same(sort_order(a, n - 1), a, b, n - 1, n);
    }
}

/// Blocks with equal starts and equal fingerprints give equal function fingerprints.
proof fn lemma_same_blocks_same_function(
    a: Seq<BasicBlock>,
    b: Seq<BasicBlock>,
    layout_a: ProgramLayout,
    layout_b: ProgramLayout,
)
    requires
        a.len() == b.len(),
        block_order(a) == block_order(b),
        forall|i: int|
            0 <= i < a.len() ==> block_fingerprint(#[trigger] a[i], layout_a) == block_fingerprint(
                b[i],
                layout_b,
            ),
    ensures
        function_fingerprint(a, layout_a) == function_fingerprint(b, layout_b),
{
    lemma_sort_order_range(block_starts(a), a.len() as int);
    let ga = ordered_block_guids(a, layout_a);
    let gb = ordered_block_guids(b, layout_b);
    assert forall|m: int| 0 <= m < ga.len() implies ga[m] == gb[m] by {
        let k = block_order(a)[m];
        assert(0 <= k < a.len());
        assert(a[k] == a[k]);
    }
    assert(ga =~= gb);
}

/// The fingerprint of a function does not depend on where it was loaded:
/// moving every block by the same distance leaves it unchanged.
pub proof fn lemma_fingerprint_address_independent(
    a: Seq<BasicBlock>,
    b: Seq<BasicBlock>,
    layout: ProgramLayout,
    delta: int,
)
    requires
        a.len() == b.len(),
        forall|i: int|
            0 <= i < a.len() ==> (#[trigger] b[i]).instructions == a[i].instructions && b[i].start
                == a[i].start + delta,
    ensures
        function_fingerprint(a, layout) == function_fingerprint(b, layout),
{
    let sa = block_starts(a);
    let sb = block_starts(b);
    assert forall|i: int, j: int|
        0 <= i < a.len() && 0 <= j < a.len() implies (sa[i] <= sa[j]) == (sb[i] <= sb[j]) by {
        assert(b[i].start == a[i].start + delta);
        assert(b[j].start == a[j].start + delta);
    }
    lemma_sort_order_same(sa, sb, a.len() as int, a.len() as int);
    assert forall|i: int| 0 <= i < a.len() implies block_fingerprint(#[trigger] a[i], layout)
        == block_fingerprint(b[i], layout) by {
        assert(b[i].instructions == a[i].instructions);
    }
    lemma_same_blocks_same_function(a, b, layout, layout);
}


proof fn lemma_block_bytes_append(x: Seq<Instruction>, y: Seq<Instruction>, layout: ProgramLayout)
    ensures
        block_bytes(x + y, layout) == block_bytes(x, layout) + block_bytes(y, layout),
    decreases y.len(),
{
    if y.len() == 0 {
        assert(x + y =~= x);
        assert(block_bytes(y, layout) =~= Seq::empty());
        assert(block_bytes(x, layout) + block_bytes(y, layout) =~= block_bytes(x, layout));
    } else {
        lemma_block_bytes_append(x, y.drop_last(), layout);
        assert((x + y).drop_last() =~= x + y.drop_last());
        assert((x + y).last() == y.last());
        assert(block_bytes(x, layout) + block_bytes(y, layout) =~= block_bytes(x, layout)
            + block_bytes(y.drop_last(), layout) + instr_contribution(y.last(), layout));
    }
}

/// A move of architectural register `r` onto itself, decoded with a length.
pub open spec fn is_self_move(ins: Instruction) -> bool {
    &&& ins.length is Some
    &&& ins.il matches Some(IlInstr::SetReg { dest, src })
    &&& dest is Arch
    &&& src == Expr::Reg(dest)
}

/// Inserting a move of a register onto itself into a block leaves the bytes
/// that are digested unchanged exactly when the architecture does not extend
/// that register on write; when they stay unchanged so does the block's
/// fingerprint. (A move that does extend adds its bytes to the digest input.)
pub proof fn lemma_nop_insertion(
    instrs: Seq<Instruction>,
    pos: int,
    ins: Instruction,
    layout: ProgramLayout,
)
    requires
        0 <= pos <= instrs.len(),
        is_self_move(ins),
        ins.length->0 > 0,
        ins.bytes@.len() > 0,
    ensures
        (block_bytes(instrs.insert(pos, ins), layout) == block_bytes(instrs, layout)) <==> !(
        ins.il->0->dest)->implicit_extend,
        !(ins.il->0->dest)->implicit_extend ==> block_guid_of(
            block_bytes(instrs.insert(pos, ins), layout),
        ) == block_guid_of(block_bytes(instrs, layout)),
{
    let pre = instrs.take(pos);
    let post = instrs.skip(pos);
    assert(instrs =~= pre + post);
    assert(instrs.insert(pos, ins) =~= (pre + seq![ins]) + post);
    lemma_block_bytes_append(pre, post, layout);
    lemma_block_bytes_append(pre + seq![ins], post, layout);
    lemma_block_bytes_append(pre, seq![ins], layout);
    assert(seq![ins].drop_last() =~= Seq::<Instruction>::empty());
    assert(seq![ins].last() == ins);
    assert(block_bytes(Seq::<Instruction>::empty(), layout) =~= Seq::<u8>::empty());
    assert(block_bytes(seq![ins], layout) =~= instr_contribution(ins, layout));
    let il = ins.il->0;
    assert(!il_is_variant(il, layout));
    let c = instr_contribution(ins, layout);
    if (il->dest)->implicit_extend {
        assert(!il_is_elided(il));
        assert(c.len() > 0);
        assert((block_bytes(pre, layout) + c + block_bytes(post, layout)).len() > (block_bytes(
            pre,
            layout,
        ) + block_bytes(post, layout)).len());
    } else {
        assert(il_is_elided(il));
        assert(c =~= Seq::<u8>::empty());
        assert(block_bytes(pre, layout) + c =~= block_bytes(pre, layout));
    }
}

/// Two expression trees that are equal but for constants that both lie in
/// relocatable locations.
pub open spec fn expr_relocated(e1: Expr, e2: Expr, layout: ProgramLayout) -> bool
    decreases e1,
{
    match (e1, e2) {
        (Expr::Const(a), Expr::Const(b)) => a == b || (is_relocatable(layout, a) && is_relocatable(
            layout,
            b,
        )),
        (Expr::ConstPtr(a), Expr::ConstPtr(b)) => a == b || (is_relocatable(layout, a)
            && is_relocatable(layout, b)),
        (Expr::Op { op: o1, operands: x }, Expr::Op { op: o2, operands: y }) => o1 == o2
            && seq_relocated(x@, y@, layout),
        _ => e1 == e2,
    }
}

pub open spec fn seq_relocated(xs: Seq<Expr>, ys: Seq<Expr>, layout: ProgramLayout) -> bool
    decreases xs,
{
    &&& xs.len() == ys.len()
    &&& xs.len() > 0 ==> {
        &&& seq_relocated(xs.drop_last(), ys.drop_last(), layout)
        &&& expr_relocated(xs.last(), ys.last(), layout)
    }
}

pub open spec fn il_relocated(a: IlInstr, b: IlInstr, layout: ProgramLayout) -> bool {
    match (a, b) {
        (IlInstr::Nop, IlInstr::Nop) => true,
        (IlInstr::SetReg { dest: d1, src: s1 }, IlInstr::SetReg { dest: d2, src: s2 }) => d1 == d2
            && expr_relocated(s1, s2, layout),
        (IlInstr::Other(e1), IlInstr::Other(e2)) => expr_relocated(e1, e2, layout),
        _ => false,
    }
}

/// Two instructions that differ only in an embedded relocatable literal: the
/// same decoded length and raw length, IL equal up to relocatable constants,
/// and raw bytes that may differ only where the IL holds such a constant.
pub open spec fn instr_relocated(a: Instruction, b: Instruction, layout: ProgramLayout) -> bool {
    &&& a.length == b.length
    &&& a.bytes@.len() == b.bytes@.len()
    &&& match (a.il, b.il) {
        (Some(x), Some(y)) => il_relocated(x, y, layout) && (a.bytes@ == b.bytes@ || il_is_variant(
            x,
            layout,
        )),
        (None, None) => true,
        _ => false,
    }
}

proof fn lemma_expr_relocated_variant(e1: Expr, e2: Expr, layout: ProgramLayout)
    requires
        expr_relocated(e1, e2, layout),
    ensures
        expr_is_variant(e1, layout) == expr_is_variant(e2, layout),
    decreases e1,
{
    match (e1, e2) {
        (Expr::Op { op: o1, operands: x }, Expr::Op { op: o2, operands: y }) => {
            assert(decreases_to!(e1 => x));
            assert(decreases_to!(x => x@));
            lemma_seq_relocated_variant(x@, y@, layout);
        },
        _ => {},
    }
}

proof fn lemma_seq_relocated_variant(xs: Seq<Expr>, ys: Seq<Expr>, layout: ProgramLayout)
    requires
        seq_relocated(xs, ys, layout),
    ensures
        any_variant(xs, layout) == any_variant(ys, layout),
    decreases xs,
{
    if xs.len() > 0 {
        assert(decreases_to!(xs => xs.drop_last()));
        assert(decreases_to!(xs => xs[xs.len() - 1]));
        lemma_seq_relocated_variant(xs.drop_last(), ys.drop_last(), layout);
        lemma_expr_relocated_variant(xs.last(), ys.last(), layout);
    }
}

proof fn lemma_instr_relocated(a: Instruction, b: Instruction, layout: ProgramLayout)
    requires
        instr_relocated(a, b, layout),
    ensures
        instr_contribution(a, layout) == instr_contribution(b, layout),
{
    if a.il is Some && b.il is Some {
        let x = a.il->0;
        let y = b.il->0;
        match (x, y) {
            (IlInstr::SetReg { dest: d1, src: s1 }, IlInstr::SetReg { dest: d2, src: s2 }) => {
                lemma_expr_relocated_variant(s1, s2, layout);
                if s1 is Reg || s2 is Reg {
                    assert(s1 == s2);
                }
            },
            (IlInstr::Other(e1), IlInstr::Other(e2)) => {
                lemma_expr_relocated_variant(e1, e2, layout);
            },
            _ => {},
        }
        assert(il_is_elided(x) == il_is_elided(y));
        assert(il_is_variant(x, layout) == il_is_variant(y, layout));
        if a.length is Some && !il_is_elided(x) {
            if il_is_variant(x, layout) {
                assert(instr_contribution(a, layout) =~= instr_contribution(b, layout));
            }
        }
    }
}

proof fn lemma_block_bytes_relocated(xs: Seq<Instruction>, ys: Seq<Instruction>, layout: ProgramLayout)
    requires
        xs.len() == ys.len(),
        forall|i: int| 0 <= i < xs.len() ==> instr_relocated(#[trigger] xs[i], ys[i], layout),
    ensures
        block_bytes(xs, layout) == block_bytes(ys, layout),
    decreases xs.len(),
{
    if xs.len() > 0 {
        lemma_block_bytes_relocated(xs.drop_last(), ys.drop_last(), layout);
        lemma_instr_relocated(xs.last(), ys.last(), layout);
    }
}

/// Two functions that differ only in the literal values of embedded pointers
/// that resolve into sections (or onto known function or data addresses), as a
/// relink would produce, have the same fingerprint.
pub proof fn lemma_fingerprint_relocation_invariant(
    a: Seq<BasicBlock>,
    b: Seq<BasicBlock>,
    layout: ProgramLayout,
)
    requires
        a.len() == b.len(),
        forall|i: int|
            0 <= i < a.len() ==> (#[trigger] b[i]).start == a[i].start
                && b[i].instructions@.len() == a[i].instructions@.len(),
        forall|i: int, j: int|
            0 <= i < a.len() && 0 <= j < a[i].instructions@.len() ==> instr_relocated(
                #[trigger] a[i].instructions@[j],
                b[i].instructions@[j],
                layout,
            ),
    ensures
        function_fingerprint(a, layout) == function_fingerprint(b, layout),
{
    assert(block_starts(a) =~= block_starts(b));
    assert forall|i: int| 0 <= i < a.len() implies block_fingerprint(#[trigger] a[i], layout)
        == block_fingerprint(b[i], layout) by {
        let xs = a[i].instructions@;
        let ys = b[i].instructions@;
        assert forall|j: int| 0 <= j < xs.len() implies instr_relocated(#[trigger] xs[j], ys[j], layout) by {
            assert(instr_relocated(a[i].instructions@[j], b[i].instructions@[j], layout));
        }
        lemma_block_bytes_relocated(xs, ys, layout);
    }
    lemma_same_blocks_same_function(a, b, layout, layout);
}

} // verus!
