//! Resolution of constraints across the members of a merged archive: a
//! constraint that names a function defined in another member gets that
//! function's fingerprint.
use vstd::prelude::*;

use crate::guid::FunctionGUID;
use crate::signature::{FunctionConstraint, SignatureFunction, Symbol};

verus! {

/// Name and fingerprint of every function, in order.
pub open spec fn name_table(fns: Seq<SignatureFunction>) -> Seq<(Seq<char>, FunctionGUID)> {
    Seq::new(fns.len(), |i: int| (fns[i].symbol.name@, fns[i].guid))
}

/// The fingerprint recorded for `name` by the last entry of the table that
/// carries it (later definitions win).
pub open spec fn guid_for_name(table: Seq<(Seq<char>, FunctionGUID)>, name: Seq<char>) -> Option<
    FunctionGUID,
>
    decreases table.len(),
{
    if table.len() == 0 {
        None
    } else if table.last().0 == name {
        Some(table.last().1)
    } else {
        guid_for_name(table.drop_last(), name)
    }
}

/// The fingerprint a constraint carries after resolution against `fns`.
pub open spec fn resolved_guid(c: FunctionConstraint, fns: Seq<SignatureFunction>) -> Option<
    FunctionGUID,
> {
    if c.guid is None && c.symbol is Some {
        guid_for_name(name_table(fns), c.symbol->0.name@)
    } else {
        c.guid
    }
}

pub open spec fn constraint_resolved(
    new: FunctionConstraint,
    old: FunctionConstraint,
    fns: Seq<SignatureFunction>,
) -> bool {
    new.symbol == old.symbol && new.guid == resolved_guid(old, fns)
}

pub open spec fn constraints_resolved(
    new: Seq<FunctionConstraint>,
    old: Seq<FunctionConstraint>,
    fns: Seq<SignatureFunction>,
) -> bool {
    &&& new.len() == old.len()
    &&& forall|i: int| 0 <= i < new.len() ==> constraint_resolved(#[trigger] new[i], old[i], fns)
}

/// `new` is `old` with its call-site and adjacency constraints resolved
/// against `fns`, and nothing else changed.
pub open spec fn function_resolved(
    new: SignatureFunction,
    old: SignatureFunction,
    fns: Seq<SignatureFunction>,
) -> bool {
    &&& new.guid == old.guid
    &&& new.symbol == old.symbol
    &&& new.ty == old.ty
    &&& new.constraints.caller_sites == old.constraints.caller_sites
    &&& constraints_resolved(new.constraints.call_sites@, old.constraints.call_sites@, fns)
    &&& constraints_resolved(new.constraints.adjacent@, old.constraints.adjacent@, fns)
}

pub open spec fn all_resolved(
    new: Seq<SignatureFunction>,
    old: Seq<SignatureFunction>,
) -> bool {
    &&& new.len() == old.len()
    &&& forall|i: int| 0 <= i < new.len() ==> function_resolved(#[trigger] new[i], old[i], old)
}

fn lookup_guid(table: &Vec<(String, FunctionGUID)>, name: &String) -> (r: Option<FunctionGUID>)
    ensures
        r == guid_for_name(Seq::new(table@.len(), |i: int| (table@[i].0@, table@[i].1)), name@),
{
    let ghost t = Seq::new(table@.len(), |i: int| (table@[i].0@, table@[i].1));
    let mut i: usize = table.len();
    assert(t.take(i as int) =~= t);
    while i > 0
        invariant
            i <= table@.len(),
            t == Seq::new(table@.len(), |i: int| (table@[i].0@, table@[i].1)),
            guid_for_name(t, name@) == guid_for_name(t.take(i as int), name@),
        decreases i,
    {
        assert(t.take(i as int).drop_last() =~= t.take(i - 1));
        if table[i - 1].0 == *name {
            return Some(table[i - 1].1);
        }
        i -= 1;
    }
    assert(t.take(0) =~= Seq::<(Seq<char>, FunctionGUID)>::empty());
    None
}

fn copy_symbol_opt(s: &Option<Symbol>) -> (r: Option<Symbol>)
    ensures
        r == *s,
{
    match s {
        Some(sym) => Some(sym.copy()),
        None => None,
    }
}

fn resolve_list(cs: &Vec<FunctionConstraint>, table: &Vec<(String, FunctionGUID)>, Ghost(
    fns,
): Ghost<Seq<SignatureFunction>>) -> (r: Vec<FunctionConstraint>)
    requires
        Seq::new(table@.len(), |i: int| (table@[i].0@, table@[i].1)) == name_table(fns),
    ensures
        constraints_resolved(r@, cs@, fns),
{
    let mut out: Vec<FunctionConstraint> = Vec::new();
    let mut i: usize = 0;
    while i < cs.len()
        invariant
            i <= cs@.len(),
            Seq::new(table@.len(), |i: int| (table@[i].0@, table@[i].1)) == name_table(fns),
            out@.len() == i,
            forall|k: int| 0 <= k < i ==> constraint_resolved(#[trigger] out@[k], cs@[k], fns),
        decreases cs@.len() - i,
    {
        let c = &cs[i];
        let guid = match (&c.guid, &c.symbol) {
            (None, Some(sym)) => lookup_guid(table, &sym.name),
            _ => c.guid,
        };
        out.push(FunctionConstraint { guid, symbol: copy_symbol_opt(&c.symbol) });
        i += 1;
    }
    out
}

/// Gives every constraint that has a symbol but no fingerprint the
/// fingerprint of the function of that name in `functions` (the last one, when
/// several share the name). Nothing else changes.
pub fn resolve_guids(functions: &mut Vec<SignatureFunction>)
    ensures
        all_resolved(final(functions)@, old(functions)@),
{
    let ghost fns = functions@;
    let mut table: Vec<(String, FunctionGUID)> = Vec::new();
    let mut i: usize = 0;
    while i < functions.len()
        invariant
            functions@ == fns,
            i <= fns.len(),
            table@.len() == i,
            forall|k: int|
                0 <= k < i ==> (#[trigger] table@[k]).0@ == fns[k].symbol.name@ && table@[k].1
                    == fns[k].guid,
        decreases fns.len() - i,
    {
        table.push((functions[i].symbol.name.clone(), functions[i].guid));
        i += 1;
    }
    assert(Seq::new(table@.len(), |i: int| (table@[i].0@, table@[i].1)) =~= name_table(fns));
    let mut i: usize = 0;
    while i < functions.len()
        invariant
            functions@.len() == fns.len(),
            i <= fns.len(),
            Seq::new(table@.len(), |i: int| (table@[i].0@, table@[i].1)) == name_table(fns),
            forall|k: int| 0 <= k < i ==> function_resolved(#[trigger] functions@[k], fns[k], fns),
            forall|k: int| i <= k < fns.len() ==> #[trigger] functions@[k] == fns[k],
        decreases fns.len() - i,
    {
        let call_sites = resolve_list(&functions[i].constraints.call_sites, &table, Ghost(fns));
        let adjacent = resolve_list(&functions[i].constraints.adjacent, &table, Ghost(fns));
        functions[i].constraints.call_sites = call_sites;
        functions[i].constraints.adjacent = adjacent;
        i += 1;
    }
}


/// Running the resolution a second time changes nothing: every function keeps
/// its fingerprint, symbol, type and constraints.
pub proof fn lemma_resolve_idempotent(
    a: Seq<SignatureFunction>,
    b: Seq<SignatureFunction>,
    c: Seq<SignatureFunction>,
)
    requires
        all_resolved(b, a),
        all_resolved(c, b),
    ensures
        c.len() == b.len(),
        forall|i: int|
            0 <= i < c.len() ==> {
                &&& (#[trigger] c[i]).guid == b[i].guid
                &&& c[i].symbol == b[i].symbol
                &&& c[i].ty == b[i].ty
                &&& c[i].constraints.call_sites@ == b[i].constraints.call_sites@
                &&& c[i].constraints.adjacent@ == b[i].constraints.adjacent@
                &&& c[i].constraints.caller_sites == b[i].constraints.caller_sites
            },
{
    assert forall|k: int| 0 <= k < b.len() implies #[trigger] name_table(b)[k] == name_table(a)[k] by {
        assert(function_resolved(b[k], a[k], a));
    }
    assert(name_table(b) =~= name_table(a));
    assert forall|i: int| 0 <= i < c.len() implies {
        &&& (#[trigger] c[i]).constraints.call_sites@ == b[i].constraints.call_sites@
        &&& c[i].constraints.adjacent@ == b[i].constraints.adjacent@
    } by {
        assert(function_resolved(c[i], b[i], b));
        assert(function_resolved(b[i], a[i], a));
        lemma_constraints_stable(
            c[i].constraints.call_sites@,
            b[i].constraints.call_sites@,
            a[i].constraints.call_sites@,
            a,
            b,
        );
        lemma_constraints_stable(
            c[i].constraints.adjacent@,
            b[i].constraints.adjacent@,
            a[i].constraints.adjacent@,
            a,
            b,
        );
    }
    assert forall|i: int| 0 <= i < c.len() implies (#[trigger] c[i]).guid == b[i].guid by {
        assert(function_resolved(c[i], b[i], b));
    }
}

proof fn lemma_constraints_stable(
    z: Seq<FunctionConstraint>,
    y: Seq<FunctionConstraint>,
    x: Seq<FunctionConstraint>,
    a: Seq<SignatureFunction>,
    b: Seq<SignatureFunction>,
)
    requires
        name_table(b) == name_table(a),
        constraints_resolved(y, x, a),
        constraints_resolved(z, y, b),
    ensures
        z == y,
{
    assert forall|k: int| 0 <= k < z.len() implies #[trigger] z[k] == y[k] by {
        assert(constraint_resolved(y[k], x[k], a));
        assert(constraint_resolved(z[k], y[k], b));
    }
    assert(z =~= y);
}

} // verus!
