//! Materialization of type descriptors into a program's type namespace:
//! everything a descriptor refers to is defined before the descriptor itself.
use vstd::prelude::*;

use crate::codec::enc_type;
use crate::guid::{uuid_v5_of, TypeGUID, NAMESPACE_TYPE};
use crate::matcher::Matcher;
use crate::signature::{
    lemma_types_view, types_view, ComputedType, SignatureFunction, TypeClass, TypeClassV,
    TypeDescriptor, TypeV,
};

verus! {

/// The content identifier of a type descriptor: the digest of its encoding.
pub open spec fn type_guid_of(ty: TypeDescriptor) -> u128 {
    view_guid(ty@)
}

pub open spec fn view_guid(t: TypeV) -> u128 {
    uuid_v5_of(NAMESPACE_TYPE, enc_type(t))
}

/// The structural children of a type: pointer target, array member,
/// enumeration base, structure and union members, return then parameter types.
pub open spec fn children(t: TypeV) -> Seq<TypeV> {
    match t.class {
        TypeClassV::Pointer(c) => seq![*c],
        TypeClassV::Array { member, count } => seq![*member],
        TypeClassV::Enumeration(c) => seq![*c],
        TypeClassV::Structure(ms) => ms,
        TypeClassV::Union(ms) => ms,
        TypeClassV::Function { outs, ins } => outs + ins,
        _ => Seq::empty(),
    }
}

impl TypeGUID {
    /// The content identifier of `ty`.
    pub fn of(ty: &TypeDescriptor) -> (r: TypeGUID)
        ensures
            r.guid == type_guid_of(*ty),
    {
        let mut bytes: Vec<u8> = Vec::new();
        crate::codec::push_type(&mut bytes, ty);
        TypeGUID { guid: crate::guid::digest(NAMESPACE_TYPE, bytes.as_slice()) }
    }
}

fn copy_name(n: &Option<String>) -> (r: Option<String>)
    ensures
        r == *n,
{
    match n {
        Some(s) => Some(s.clone()),
        None => None,
    }
}

fn copy_types(v: &Vec<TypeDescriptor>) -> (r: Vec<TypeDescriptor>)
    ensures
        types_view(r@) == types_view(v@),
    decreases v,
{
    proof {
        lemma_types_view(v@);
    }
    let mut out: Vec<TypeDescriptor> = Vec::new();
    let mut i: usize = 0;
    while i < v.len()
        invariant
            i <= v@.len(),
            types_view(v@).len() == v@.len(),
            forall|k: int| 0 <= k < v@.len() ==> #[trigger] types_view(v@)[k] == v@[k]@,
            types_view(out@) == types_view(v@).take(i as int),
        decreases v@.len() - i,
    {
        proof {
            assert(decreases_to!(*v => v@));
            assert(decreases_to!(v@ => v@[i as int]));
        }
        let c = v[i].copy();
        let ghost before = out@;
        out.push(c);
        proof {
            assert(out@.drop_last() =~= before);
            assert(types_view(v@).take(i + 1) =~= types_view(v@).take(i as int).push(v@[i as int]@));
        }
        i += 1;
    }
    assert(types_view(v@).take(i as int) =~= types_view(v@));
    out
}

impl TypeDescriptor {
    /// A deep copy.
    pub fn copy(&self) -> (r: TypeDescriptor)
        ensures
            r@ == self@,
        decreases self,
    {
        let class = match &self.class {
            TypeClass::Void => TypeClass::Void,
            TypeClass::Boolean => TypeClass::Boolean,
            TypeClass::Integer { width, signed } => TypeClass::Integer { width: *width, signed: *signed },
            TypeClass::Float { width } => TypeClass::Float { width: *width },
            TypeClass::Character { width } => TypeClass::Character { width: *width },
            TypeClass::Pointer(c) => TypeClass::Pointer(Box::new(c.copy())),
            TypeClass::Array { member, count } => TypeClass::Array {
                member: Box::new(member.copy()),
                count: *count,
            },
            TypeClass::Structure(ms) => TypeClass::Structure(copy_types(ms)),
            TypeClass::Union(ms) => TypeClass::Union(copy_types(ms)),
            TypeClass::Enumeration(c) => TypeClass::Enumeration(Box::new(c.copy())),
            TypeClass::Function { outs, ins } => TypeClass::Function {
                outs: copy_types(outs),
                ins: copy_types(ins),
            },
            TypeClass::Referrer { guid, name } => TypeClass::Referrer {
                guid: *guid,
                name: copy_name(name),
            },
        };
        TypeDescriptor { name: copy_name(&self.name), class }
    }
}


/// A type to define in the program's namespace, under its content identifier.
#[derive(Debug)]
pub struct TypeDefinition {
    pub guid: TypeGUID,
    pub ty: TypeDescriptor,
}

/// The program's type namespace as seen while materializing: identifiers
/// already defined (by the program or by earlier definitions), names the
/// program already defines, named references being resolved, and the
/// definitions to add, in order.
#[derive(Debug)]
pub struct TypePlan {
    pub defined: Vec<u128>,
    pub known_names: Vec<String>,
    pub visiting: Vec<String>,
    pub definitions: Vec<TypeDefinition>,
}

impl TypePlan {
    /// No identifier is defined twice; the planned definitions are the last
    /// identifiers defined, each under its content identifier, and each comes
    /// after the definitions of all its structural children.
    pub open spec fn wf(&self) -> bool {
        &&& self.defined@.no_duplicates()
        &&& self.definitions@.len() <= self.defined@.len()
        &&& forall|k: int|
            0 <= k < self.definitions@.len() ==> {
                &&& (#[trigger] self.definitions@[k]).guid.guid == self.defined@[self.defined@.len()
                    - self.definitions@.len() + k]
                &&& self.definitions@[k].guid.guid == type_guid_of(self.definitions@[k].ty)
                &&& forall|c: TypeV|
                    #[trigger] children(self.definitions@[k].ty@).contains(c) ==> self.defined@.subrange(
                        0,
                        self.defined@.len() - self.definitions@.len() + k,
                    ).contains(view_guid(c))
            }
    }

    /// A plan over a namespace that already holds the given identifiers and names.
    pub fn new(defined: Vec<u128>, known_names: Vec<String>) -> (r: TypePlan)
        ensures
            r.wf(),
            r.defined@.to_set() == defined@.to_set(),
            r.known_names == known_names,
            r.visiting@.len() == 0,
            r.definitions@.len() == 0,
    {
        let mut ids: Vec<u128> = Vec::new();
        let mut i: usize = 0;
        while i < defined.len()
            invariant
                i <= defined@.len(),
                ids@.no_duplicates(),
                ids@.to_set() == defined@.take(i as int).to_set(),
            decreases defined@.len() - i,
        {
            let x = defined[i];
            let ghost before = ids@;
            proof {
                assert(defined@.take(i + 1) =~= defined@.take(i as int).push(x));
                lemma_push_set(defined@.take(i as int), x);
            }
            if !contains_id(&ids, x) {
                ids.push(x);
                proof {
                    lemma_push_set(before, x);
                }
            } else {
                assert(before.to_set().insert(x) =~= before.to_set());
            }
            i += 1;
        }
        assert(defined@.take(i as int) =~= defined@);
        TypePlan { defined: ids, known_names, visiting: Vec::new(), definitions: Vec::new() }
    }
}

proof fn lemma_push_set(s: Seq<u128>, x: u128)
    ensures
        s.push(x).to_set() == s.to_set().insert(x),
{
    assert forall|y: u128| #[trigger] s.push(x).to_set().contains(y) <==> s.to_set().insert(x).contains(y) by {
        if s.push(x).contains(y) {
            let k = choose|k: int| 0 <= k < s.len() + 1 && s.push(x)[k] == y;
            if k < s.len() {
                assert(s[k] == y);
            }
        }
        if s.contains(y) {
            let k = choose|k: int| 0 <= k < s.len() && s[k] == y;
            assert(s.push(x)[k] == y);
        }
        if y == x {
            assert(s.push(x)[s.len() as int] == y);
        }
    }
    assert(s.push(x).to_set() =~= s.to_set().insert(x));
}

fn contains_id(v: &Vec<u128>, x: u128) -> (r: bool)
    ensures
        r == v@.contains(x),
{
    let mut i: usize = 0;
    while i < v.len()
        invariant
            i <= v@.len(),
            forall|k: int| 0 <= k < i ==> v@[k] != x,
        decreases v@.len() - i,
    {
        if v[i] == x {
            return true;
        }
        i += 1;
    }
    false
}

fn contains_string(v: &Vec<String>, x: &String) -> (r: bool)
    ensures
        r == exists|k: int| 0 <= k < v@.len() && (#[trigger] v@[k])@ == x@,
{
    let mut i: usize = 0;
    while i < v.len()
        invariant
            i <= v@.len(),
            forall|k: int| 0 <= k < i ==> (#[trigger] v@[k])@ != x@,
        decreases v@.len() - i,
    {
        if v[i] == *x {
            return true;
        }
        i += 1;
    }
    false
}

/// Position of the last stored type with identifier `g` (later entries win).
pub open spec fn type_index_by_guid(types: Seq<ComputedType>, g: u128) -> Option<int>
    decreases types.len(),
{
    if types.len() == 0 {
        None
    } else if types.last().guid.guid == g {
        Some(types.len() - 1)
    } else {
        type_index_by_guid(types.drop_last(), g)
    }
}

/// Position of the last stored type named `n` (later entries win).
pub open spec fn type_index_by_name(types: Seq<ComputedType>, n: Seq<char>) -> Option<int>
    decreases types.len(),
{
    if types.len() == 0 {
        None
    } else if types.last().ty@.name == Some(n) {
        Some(types.len() - 1)
    } else {
        type_index_by_name(types.drop_last(), n)
    }
}

/// What `add_type` changes in a plan: identifiers and definitions are only
/// appended, everything else is left as it was.
pub open spec fn plan_extends(new: TypePlan, old: TypePlan) -> bool {
    &&& new.wf()
    &&& new.known_names == old.known_names
    &&& new.visiting@ == old.visiting@
    &&& new.defined@.len() >= old.defined@.len()
    &&& new.defined@.subrange(0, old.defined@.len() as int) == old.defined@
    &&& new.definitions@.len() >= old.definitions@.len()
    &&& new.definitions@.subrange(0, old.definitions@.len() as int) == old.definitions@
    &&& new.defined@.len() - old.defined@.len() == new.definitions@.len() - old.definitions@.len()
}

/// Every type of the sequence has its identifier among `ids`.
pub open spec fn all_defined(ts: Seq<TypeV>, ids: Seq<u128>) -> bool {
    forall|i: int| 0 <= i < ts.len() ==> ids.contains(view_guid(#[trigger] ts[i]))
}

proof fn lemma_members_defined(ms: Seq<TypeDescriptor>, ids: Seq<u128>)
    requires
        forall|k: int| 0 <= k < ms.len() ==> ids.contains(type_guid_of(#[trigger] ms[k])),
    ensures
        all_defined(types_view(ms), ids),
{
    lemma_types_view(ms);
    assert forall|i: int| 0 <= i < types_view(ms).len() implies ids.contains(
        view_guid(#[trigger] types_view(ms)[i]),
    ) by {
        assert(types_view(ms)[i] == ms[i]@);
        assert(ids.contains(type_guid_of(ms[i])));
    }
}

proof fn lemma_plan_extends_trans(a: TypePlan, b: TypePlan, c: TypePlan)
    requires
        plan_extends(b, a),
        plan_extends(c, b),
    ensures
        plan_extends(c, a),
{
    assert(c.defined@.subrange(0, a.defined@.len() as int) =~= b.defined@.subrange(
        0,
        a.defined@.len() as int,
    ));
    assert(c.definitions@.subrange(0, a.definitions@.len() as int) =~= b.definitions@.subrange(
        0,
        a.definitions@.len() as int,
    ));
}

proof fn lemma_plan_extends_refl(a: TypePlan)
    requires
        a.wf(),
    ensures
        plan_extends(a, a),
{
    assert(a.defined@.subrange(0, a.defined@.len() as int) =~= a.defined@);
    assert(a.definitions@.subrange(0, a.definitions@.len() as int) =~= a.definitions@);
}

impl Matcher {
    fn type_by_guid(&self, g: u128) -> (r: Option<usize>)
        ensures
            match r {
                Some(k) => type_index_by_guid(self.types@, g) == Some(k as int) && k < self.types@.len(),
                None => type_index_by_guid(self.types@, g) is None,
            },
    {
        let mut i: usize = self.types.len();
        assert(self.types@.take(i as int) =~= self.types@);
        while i > 0
            invariant
                i <= self.types@.len(),
                type_index_by_guid(self.types@, g) == type_index_by_guid(self.types@.take(i as int), g),
            decreases i,
        {
            assert(self.types@.take(i as int).drop_last() =~= self.types@.take(i - 1));
            if self.types[i - 1].guid.guid == g {
                return Some(i - 1);
            }
            i -= 1;
        }
        None
    }

    fn type_by_name(&self, n: &String) -> (r: Option<usize>)
        ensures
            match r {
                Some(k) => type_index_by_name(self.types@, n@) == Some(k as int) && k < self.types@.len(),
                None => type_index_by_name(self.types@, n@) is None,
            },
    {
        let mut i: usize = self.types.len();
        assert(self.types@.take(i as int) =~= self.types@);
        while i > 0
            invariant
                i <= self.types@.len(),
                type_index_by_name(self.types@, n@) == type_index_by_name(self.types@.take(i as int), n@),
            decreases i,
        {
            assert(self.types@.take(i as int).drop_last() =~= self.types@.take(i - 1));
            let hit = match &self.types[i - 1].ty.name {
                Some(m) => *m == *n,
                None => false,
            };
            if hit {
                return Some(i - 1);
            }
            i -= 1;
        }
        None
    }

    fn add_types(&self, plan: &mut TypePlan, ts: &Vec<TypeDescriptor>, fuel: usize)
        requires
            old(plan).wf(),
        ensures
            plan_extends(*final(plan), *old(plan)),
            forall|k: int|
                0 <= k < ts@.len() ==> final(plan).defined@.contains(type_guid_of(#[trigger] ts@[k])),
        decreases fuel, ts,
    {
        let ghost start = *plan;
        proof {
            lemma_plan_extends_refl(*plan);
        }
        let mut i: usize = 0;
        while i < ts.len()
            invariant
                i <= ts@.len(),
                plan_extends(*plan, start),
                forall|k: int| 0 <= k < i ==> plan.defined@.contains(type_guid_of(#[trigger] ts@[k])),
            decreases ts@.len() - i,
        {
            proof {
                assert(decreases_to!(*ts => ts@));
                assert(decreases_to!(ts@ => ts@[i as int]));
            }
            let ghost before = *plan;
            self.add_type(plan, &ts[i], fuel);
            proof {
                lemma_plan_extends_trans(start, before, *plan);
                assert forall|k: int| 0 <= k < i + 1 implies plan.defined@.contains(
                    type_guid_of(#[trigger] ts@[k]),
                ) by {
                    if k < i {
                        let x = type_guid_of(ts@[k]);
                        let j = choose|j: int| 0 <= j < before.defined@.len() && before.defined@[j] == x;
                        assert(plan.defined@.subrange(0, before.defined@.len() as int)[j] == x);
                        assert(plan.defined@[j] == x);
                    }
                }
            }
            i += 1;
        }
    }

    /// Plans the definitions that bring `ty` into the namespace: its
    /// structural children first, references resolved through the stored types
    /// (by identifier, else by name unless that name is being resolved or
    /// already known), then `ty` itself. `fuel` bounds how many references are
    /// followed in a chain.
    pub fn add_type(&self, plan: &mut TypePlan, ty: &TypeDescriptor, fuel: usize)
        requires
            old(plan).wf(),
        ensures
            plan_extends(*final(plan), *old(plan)),
            final(plan).defined@.contains(type_guid_of(*ty)),
        decreases fuel, ty,
    {
        let ghost start = *plan;
        proof {
            lemma_plan_extends_refl(*plan);
        }
        let id = TypeGUID::of(ty);
        if contains_id(&plan.defined, id.guid) {
            return;
        }
        match &ty.class {
            TypeClass::Pointer(c) => {
                self.add_type(plan, c, fuel);
                assert(children(ty@) =~= seq![c@]);
                assert(all_defined(children(ty@), plan.defined@));
            },
            TypeClass::Enumeration(c) => {
                self.add_type(plan, c, fuel);
                assert(children(ty@) =~= seq![c@]);
                assert(all_defined(children(ty@), plan.defined@));
            },
            TypeClass::Array { member, count } => {
                self.add_type(plan, member, fuel);
                assert(children(ty@) =~= seq![member@]);
                assert(all_defined(children(ty@), plan.defined@));
            },
            TypeClass::Structure(ms) => {
                self.add_types(plan, ms, fuel);
                proof {
                    lemma_members_defined(ms@, plan.defined@);
                }
            },
            TypeClass::Union(ms) => {
                self.add_types(plan, ms, fuel);
                proof {
                    lemma_members_defined(ms@, plan.defined@);
                }
            },
            TypeClass::Function { outs, ins } => {
                self.add_types(plan, outs, fuel);
                let ghost mid = *plan;
                self.add_types(plan, ins, fuel);
                proof {
                    lemma_plan_extends_trans(start, mid, *plan);
                    assert forall|k: int| 0 <= k < outs@.len() implies plan.defined@.contains(
                        type_guid_of(#[trigger] outs@[k]),
                    ) by {
                        let x = type_guid_of(outs@[k]);
                        let j = choose|j: int| 0 <= j < mid.defined@.len() && mid.defined@[j] == x;
                        assert(plan.defined@.subrange(0, mid.defined@.len() as int)[j] == x);
                    }
                    lemma_members_defined(outs@, plan.defined@);
                    lemma_members_defined(ins@, plan.defined@);
                    let co = types_view(outs@);
                    let ci = types_view(ins@);
                    assert(children(ty@) == co + ci);
                    assert forall|i: int| 0 <= i < (co + ci).len() implies plan.defined@.contains(
                        view_guid(#[trigger] (co + ci)[i]),
                    ) by {
                        if i < co.len() {
                            assert((co + ci)[i] == co[i]);
                        } else {
                            assert((co + ci)[i] == ci[i - co.len()]);
                        }
                    }
                }
            },
            TypeClass::Referrer { guid, name } => {
                if fuel > 0 {
                    let mut resolved = false;
                    if let Some(g) = guid {
                        if !contains_id(&plan.defined, g.guid) {
                            if let Some(k) = self.type_by_guid(g.guid) {
                                self.add_type(plan, &self.types[k].ty, fuel - 1);
                                resolved = true;
                            }
                        }
                    }
                    if let Some(n) = name {
                        if !resolved && !contains_string(&plan.visiting, n) && !contains_string(
                            &plan.known_names,
                            n,
                        ) {
                            if let Some(k) = self.type_by_name(n) {
                                let ghost before = *plan;
                                plan.visiting.push(n.clone());
                                let ghost pushed = *plan;
                                self.add_type(plan, &self.types[k].ty, fuel - 1);
                                let ghost after = *plan;
                                plan.visiting.pop();
                                proof {
                                    assert(plan.visiting@ =~= before.visiting@);
                                    assert(plan.defined@ == after.defined@);
                                    assert(plan.definitions@ == after.definitions@);
                                }
                            }
                        }
                    }
                    proof {
                        lemma_plan_extends_trans(start, start, *plan);
                    }
                }
            },
            _ => {},
        }
        proof {
            if ty@.class is Referrer || children(ty@).len() == 0 {
                assert(children(ty@).len() == 0);
            }
            assert(all_defined(children(ty@), plan.defined@));
            assert forall|c: TypeV| #[trigger] children(ty@).contains(c) implies plan.defined@.contains(
                view_guid(c),
            ) by {
                let k = choose|k: int| 0 <= k < children(ty@).len() && children(ty@)[k] == c;
            }
        }
        let ghost mid = *plan;
        if !contains_id(&plan.defined, id.guid) {
            let copy = ty.copy();
            plan.defined.push(id.guid);
            plan.definitions.push(TypeDefinition { guid: id, ty: copy });
            proof {
                assert(plan.defined@.subrange(0, mid.defined@.len() as int) =~= mid.defined@);
                assert(plan.definitions@.subrange(0, mid.definitions@.len() as int) =~= mid.definitions@);
                assert(plan.defined@[mid.defined@.len() as int] == id.guid);
                assert(plan.defined@.no_duplicates());
                lemma_plan_extends_trans(start, mid, *plan);
            }
        }
    }

    /// Plans the definitions that bring `ty` into the namespace, following
    /// chains of references up to one more than the number of stored types.
    pub fn add_type_to_view(&self, plan: &mut TypePlan, ty: &TypeDescriptor)
        requires
            old(plan).wf(),
        ensures
            plan_extends(*final(plan), *old(plan)),
            final(plan).defined@.contains(type_guid_of(*ty)),
    {
        let fuel: usize = if self.types.len() < usize::MAX {
            self.types.len() + 1
        } else {
            usize::MAX
        };
        self.add_type(plan, ty, fuel);
    }

    /// On a match: plans the definitions of the matched function's return and
    /// parameter types.
    pub fn add_function_types(&self, plan: &mut TypePlan, matched: &SignatureFunction)
        requires
            old(plan).wf(),
        ensures
            plan_extends(*final(plan), *old(plan)),
            matched.ty.class is Function ==> {
                &&& forall|k: int|
                    0 <= k < matched.ty.class->outs@.len() ==> final(plan).defined@.contains(
                        type_guid_of(#[trigger] matched.ty.class->outs@[k]),
                    )
                &&& forall|k: int|
                    0 <= k < matched.ty.class->ins@.len() ==> final(plan).defined@.contains(
                        type_guid_of(#[trigger] matched.ty.class->ins@[k]),
                    )
            },
    {
        let ghost start = *plan;
        proof {
            lemma_plan_extends_refl(*plan);
        }
        if let TypeClass::Function { outs, ins } = &matched.ty.class {
            let fuel: usize = if self.types.len() < usize::MAX {
                self.types.len() + 1
            } else {
                usize::MAX
            };
            self.add_types(plan, outs, fuel);
            let ghost mid = *plan;
            self.add_types(plan, ins, fuel);
            proof {
                lemma_plan_extends_trans(start, mid, *plan);
                assert forall|k: int| 0 <= k < outs@.len() implies plan.defined@.contains(
                    type_guid_of(#[trigger] outs@[k]),
                ) by {
                    let x = type_guid_of(outs@[k]);
                    let j = choose|j: int| 0 <= j < mid.defined@.len() && mid.defined@[j] == x;
                    assert(plan.defined@.subrange(0, mid.defined@.len() as int)[j] == x);
                }
            }
        }
    }
}

} // verus!
