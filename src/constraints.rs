//! Extraction of a function's structural context: the distinct functions it
//! calls and the functions laid out directly next to it.
use vstd::prelude::*;

use crate::fingerprint::{function_fingerprint, function_guid, AddressRange, BasicBlock, ProgramLayout};
use crate::signature::{
    constraints_view, ConstraintV, FunctionConstraint, FunctionConstraints, SignatureFunction,
    Symbol, TypeDescriptor,
};

verus! {

/// The constraints in order of first occurrence, each kept once.
pub open spec fn first_occurrences(s: Seq<ConstraintV>) -> Seq<ConstraintV>
    decreases s.len(),
{
    if s.len() == 0 {
        Seq::empty()
    } else {
        let d = first_occurrences(s.drop_last());
        if d.contains(s.last()) {
            d
        } else {
            d.push(s.last())
        }
    }
}

fn copy_constraint(c: &FunctionConstraint) -> (r: FunctionConstraint)
    ensures
        r == *c,
{
    let symbol = match &c.symbol {
        Some(s) => Some(s.copy()),
        None => None,
    };
    FunctionConstraint { guid: c.guid, symbol }
}

fn same_constraint(a: &FunctionConstraint, b: &FunctionConstraint) -> (r: bool)
    ensures
        r == (a@ == b@),
{
    let same_symbol = match (&a.symbol, &b.symbol) {
        (Some(x), Some(y)) => x.same_as(y),
        (None, None) => true,
        _ => false,
    };
    a.guid == b.guid && same_symbol
}

/// The call-site constraints of a function from the callees seen at its call
/// instructions: one entry per distinct callee, in order of first call.
pub fn call_site_constraints(callees: &[FunctionConstraint]) -> (r: Vec<FunctionConstraint>)
    ensures
        constraints_view(r@) == first_occurrences(constraints_view(callees@)),
{
    let ghost cv = constraints_view(callees@);
    let mut out: Vec<FunctionConstraint> = Vec::new();
    let mut i: usize = 0;
    while i < callees.len()
        invariant
            i <= callees@.len(),
            cv == constraints_view(callees@),
            constraints_view(out@) == first_occurrences(cv.take(i as int)),
        decreases callees@.len() - i,
    {
        let c = &callees[i];
        let mut seen = false;
        let mut k: usize = 0;
        while k < out.len()
            invariant
                k <= out@.len(),
                seen == exists|j: int| 0 <= j < k && out@[j]@ == c@,
            decreases out@.len() - k,
        {
            if same_constraint(&out[k], c) {
                seen = true;
            }
            k += 1;
        }
        proof {
            assert(cv.take(i + 1).drop_last() =~= cv.take(i as int));
            assert(cv.take(i + 1).last() == c@);
            let ov = constraints_view(out@);
            assert(seen == ov.contains(c@)) by {
                if seen {
                    let j = choose|j: int| 0 <= j < out@.len() && out@[j]@ == c@;
                    assert(ov[j] == c@);
                }
                if ov.contains(c@) {
                    let j = choose|j: int| 0 <= j < ov.len() && ov[j] == c@;
                    assert(out@[j]@ == c@);
                }
            }
        }
        if !seen {
            let ghost before = out@;
            out.push(copy_constraint(c));
            assert(constraints_view(out@) =~= constraints_view(before).push(c@));
        }
        i += 1;
    }
    assert(cv.take(i as int) =~= cv);
    out
}

/// Whether two address ranges touch: one ends where the other starts.
pub open spec fn ranges_adjacent(a: AddressRange, b: AddressRange) -> bool {
    a.end == b.start || b.end == a.start
}

/// The constraints of the neighbors whose ranges touch `range` and that
/// `kept` marks, in the order given.
pub open spec fn adjacent_kept(
    range: AddressRange,
    neighbors: Seq<(AddressRange, FunctionConstraint)>,
    kept: Seq<bool>,
) -> Seq<ConstraintV>
    decreases neighbors.len(),
{
    if neighbors.len() == 0 {
        Seq::empty()
    } else {
        let d = adjacent_kept(range, neighbors.drop_last(), kept.drop_last());
        if ranges_adjacent(range, neighbors.last().0) && kept.last() {
            d.push(neighbors.last().1@)
        } else {
            d
        }
    }
}

/// The adjacency constraints of a function occupying `range`: the
/// constraints of the neighbors whose ranges touch it and that `keep`
/// accepts (asked once for each touching neighbor, in order).
pub fn adjacency_constraints<F: Fn(&FunctionConstraint) -> bool>(
    range: AddressRange,
    neighbors: &[(AddressRange, FunctionConstraint)],
    keep: F,
) -> (r: Vec<FunctionConstraint>)
    requires
        forall|c: &FunctionConstraint| #[trigger] keep.requires((c,)),
    ensures
        exists|kept: Seq<bool>|
            {
                &&& kept.len() == neighbors@.len()
                &&& forall|i: int|
                    0 <= i < neighbors@.len() && ranges_adjacent(range, neighbors@[i].0)
                        ==> keep.ensures((&neighbors@[i].1,), #[trigger] kept[i])
                &&& constraints_view(r@) == adjacent_kept(range, neighbors@, kept)
            },
{
    let mut out: Vec<FunctionConstraint> = Vec::new();
    let ghost mut kept: Seq<bool> = Seq::empty();
    let mut i: usize = 0;
    while i < neighbors.len()
        invariant
            forall|c: &FunctionConstraint| #[trigger] keep.requires((c,)),
            i <= neighbors@.len(),
            kept.len() == i,
            forall|k: int|
                0 <= k < i && ranges_adjacent(range, neighbors@[k].0) ==> keep.ensures(
                    (&neighbors@[k].1,),
                    #[trigger] kept[k],
                ),
            constraints_view(out@) == adjacent_kept(range, neighbors@.take(i as int), kept),
        decreases neighbors@.len() - i,
    {
        let (nr, c) = &neighbors[i];
        proof {
            assert(neighbors@.take(i + 1).drop_last() =~= neighbors@.take(i as int));
            assert(neighbors@.take(i + 1).last() == neighbors@[i as int]);
        }
        let ghost before = out@;
        let ghost old_kept = kept;
        if range.end == nr.start || nr.end == range.start {
            let k = keep(c);
            proof {
                kept = kept.push(k);
            }
            if k {
                out.push(copy_constraint(c));
                assert(constraints_view(out@) =~= constraints_view(before).push(c@));
            }
        } else {
            proof {
                kept = kept.push(false);
            }
        }
        assert(kept.drop_last() =~= old_kept);
        i += 1;
    }
    assert(neighbors@.take(i as int) =~= neighbors@);
    out
}

/// A signature for an analyzed function: its fingerprint, the given symbol,
/// type and constraints; caller sites are left empty.
pub fn build_function(
    blocks: &[BasicBlock],
    layout: &ProgramLayout,
    symbol: Symbol,
    ty: TypeDescriptor,
    adjacent: Vec<FunctionConstraint>,
    call_sites: Vec<FunctionConstraint>,
) -> (r: SignatureFunction)
    ensures
        r.guid == function_fingerprint(blocks@, *layout),
        r.symbol == symbol,
        r.ty == ty,
        r.constraints.adjacent == adjacent,
        r.constraints.call_sites == call_sites,
        r.constraints.caller_sites@.len() == 0,
{
    SignatureFunction {
        guid: function_guid(blocks, layout),
        symbol,
        ty,
        constraints: FunctionConstraints { adjacent, call_sites, caller_sites: Vec::new() },
    }
}

} // verus!
