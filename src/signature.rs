//! The signature data model: symbols, type descriptors, constraints, functions
//! and the bundles that hold them, with merging and cross-member resolution.
use vstd::prelude::*;

use crate::guid::{FunctionGUID, TypeGUID};

verus! {

/// How a symbol was classified by the host.
#[derive(Clone, Copy, Debug, PartialEq, Eq, Hash, Structural)]
pub enum SymbolKind {
    Normal,
    Library,
    Import,
    Export,
    Data,
}

/// A symbol record: name and classification. Names need not be unique.
#[derive(Debug)]
pub struct Symbol {
    pub name: String,
    pub kind: SymbolKind,
}

/// A structural type.
#[derive(Debug)]
pub enum TypeClass {
    Void,
    Boolean,
    Integer { width: u16, signed: bool },
    Float { width: u16 },
    Character { width: u16 },
    Pointer(Box<TypeDescriptor>),
    Array { member: Box<TypeDescriptor>, count: u64 },
    Structure(Vec<TypeDescriptor>),
    Union(Vec<TypeDescriptor>),
    Enumeration(Box<TypeDescriptor>),
    Function { outs: Vec<TypeDescriptor>, ins: Vec<TypeDescriptor> },
    /// A reference to another descriptor, by content identifier and/or by name.
    Referrer { guid: Option<TypeGUID>, name: Option<String> },
}

/// A type descriptor: its class and, optionally, its name.
#[derive(Debug)]
pub struct TypeDescriptor {
    pub name: Option<String>,
    pub class: TypeClass,
}

/// A type descriptor stored in a bundle under its content identifier.
#[derive(Debug)]
pub struct ComputedType {
    pub guid: TypeGUID,
    pub ty: TypeDescriptor,
}

/// A reference to a structurally related function, by fingerprint and/or symbol.
#[derive(Debug)]
pub struct FunctionConstraint {
    pub guid: Option<FunctionGUID>,
    pub symbol: Option<Symbol>,
}

/// The structural context of a function.
#[derive(Debug)]
pub struct FunctionConstraints {
    /// Functions laid out directly next to this one.
    pub adjacent: Vec<FunctionConstraint>,
    /// Distinct functions called from this one.
    pub call_sites: Vec<FunctionConstraint>,
    /// Functions calling this one; always left empty here.
    pub caller_sites: Vec<FunctionConstraint>,
}

/// One signature: fingerprint, symbol, type and constraints.
#[derive(Debug)]
pub struct SignatureFunction {
    pub guid: FunctionGUID,
    pub symbol: Symbol,
    pub ty: TypeDescriptor,
    pub constraints: FunctionConstraints,
}

/// A signature bundle: functions and the type descriptors they reference.
#[derive(Debug)]
pub struct SignatureData {
    pub functions: Vec<SignatureFunction>,
    pub types: Vec<ComputedType>,
}

/// Abstract value of a symbol.
pub struct SymbolV {
    pub name: Seq<char>,
    pub kind: SymbolKind,
}

/// Abstract value of a type descriptor.
pub struct TypeV {
    pub name: Option<Seq<char>>,
    pub class: TypeClassV,
}

pub enum TypeClassV {
    Void,
    Boolean,
    Integer { width: u16, signed: bool },
    Float { width: u16 },
    Character { width: u16 },
    Pointer(Box<TypeV>),
    Array { member: Box<TypeV>, count: u64 },
    Structure(Seq<TypeV>),
    Union(Seq<TypeV>),
    Enumeration(Box<TypeV>),
    Function { outs: Seq<TypeV>, ins: Seq<TypeV> },
    Referrer { guid: Option<TypeGUID>, name: Option<Seq<char>> },
}

pub struct ComputedTypeV {
    pub guid: TypeGUID,
    pub ty: TypeV,
}

pub struct ConstraintV {
    pub guid: Option<FunctionGUID>,
    pub symbol: Option<SymbolV>,
}

pub struct ConstraintsV {
    pub adjacent: Seq<ConstraintV>,
    pub call_sites: Seq<ConstraintV>,
    pub caller_sites: Seq<ConstraintV>,
}

pub struct FunctionV {
    pub guid: FunctionGUID,
    pub symbol: SymbolV,
    pub ty: TypeV,
    pub constraints: ConstraintsV,
}

/// Abstract value of a bundle.
pub struct DataV {
    pub functions: Seq<FunctionV>,
    pub types: Seq<ComputedTypeV>,
}

pub open spec fn string_opt_view(s: Option<String>) -> Option<Seq<char>> {
    match s {
        Some(x) => Some(x@),
        None => None,
    }
}

pub open spec fn type_view(t: TypeDescriptor) -> TypeV
    decreases t,
{
    TypeV { name: string_opt_view(t.name), class: class_view(t.class) }
}

pub open spec fn class_view(c: TypeClass) -> TypeClassV
    decreases c,
{
    match c {
        TypeClass::Void => TypeClassV::Void,
        TypeClass::Boolean => TypeClassV::Boolean,
        TypeClass::Integer { width, signed } => TypeClassV::Integer { width, signed },
        TypeClass::Float { width } => TypeClassV::Float { width },
        TypeClass::Character { width } => TypeClassV::Character { width },
        TypeClass::Pointer(b) => TypeClassV::Pointer(Box::new(type_view(*b))),
        TypeClass::Array { member, count } => TypeClassV::Array {
            member: Box::new(type_view(*member)),
            count,
        },
        TypeClass::Structure(v) => TypeClassV::Structure(types_view(v@)),
        TypeClass::Union(v) => TypeClassV::Union(types_view(v@)),
        TypeClass::Enumeration(b) => TypeClassV::Enumeration(Box::new(type_view(*b))),
        TypeClass::Function { outs, ins } => TypeClassV::Function {
            outs: types_view(outs@),
            ins: types_view(ins@),
        },
        TypeClass::Referrer { guid, name } => TypeClassV::Referrer {
            guid,
            name: string_opt_view(name),
        },
    }
}

pub open spec fn types_view(ts: Seq<TypeDescriptor>) -> Seq<TypeV>
    decreases ts,
{
    if ts.len() == 0 {
        Seq::empty()
    } else {
        types_view(ts.drop_last()).push(type_view(ts.last()))
    }
}

impl View for Symbol {
    type V = SymbolV;

    open spec fn view(&self) -> SymbolV {
        SymbolV { name: self.name@, kind: self.kind }
    }
}

impl View for TypeDescriptor {
    type V = TypeV;

    open spec fn view(&self) -> TypeV {
        type_view(*self)
    }
}

impl View for ComputedType {
    type V = ComputedTypeV;

    open spec fn view(&self) -> ComputedTypeV {
        ComputedTypeV { guid: self.guid, ty: self.ty@ }
    }
}

pub open spec fn symbol_opt_view(s: Option<Symbol>) -> Option<SymbolV> {
    match s {
        Some(x) => Some(x@),
        None => None,
    }
}

impl View for FunctionConstraint {
    type V = ConstraintV;

    open spec fn view(&self) -> ConstraintV {
        ConstraintV { guid: self.guid, symbol: symbol_opt_view(self.symbol) }
    }
}

pub open spec fn constraints_view(cs: Seq<FunctionConstraint>) -> Seq<ConstraintV> {
    cs.map_values(|c: FunctionConstraint| c@)
}

impl View for FunctionConstraints {
    type V = ConstraintsV;

    open spec fn view(&self) -> ConstraintsV {
        ConstraintsV {
            adjacent: constraints_view(self.adjacent@),
            call_sites: constraints_view(self.call_sites@),
            caller_sites: constraints_view(self.caller_sites@),
        }
    }
}

impl View for SignatureFunction {
    type V = FunctionV;

    open spec fn view(&self) -> FunctionV {
        FunctionV {
            guid: self.guid,
            symbol: self.symbol@,
            ty: self.ty@,
            constraints: self.constraints@,
        }
    }
}

impl View for SignatureData {
    type V = DataV;

    open spec fn view(&self) -> DataV {
        DataV {
            functions: self.functions@.map_values(|f: SignatureFunction| f@),
            types: self.types@.map_values(|t: ComputedType| t@),
        }
    }
}

/// Functions of all bundles, bundle after bundle, each in its own order.
pub open spec fn merged_functions(ds: Seq<SignatureData>) -> Seq<SignatureFunction>
    decreases ds.len(),
{
    if ds.len() == 0 {
        Seq::empty()
    } else {
        merged_functions(ds.drop_last()) + ds.last().functions@
    }
}

/// Types of all bundles, bundle after bundle, each in its own order.
pub open spec fn merged_types(ds: Seq<SignatureData>) -> Seq<ComputedType>
    decreases ds.len(),
{
    if ds.len() == 0 {
        Seq::empty()
    } else {
        merged_types(ds.drop_last()) + ds.last().types@
    }
}

impl Symbol {
    pub fn new(name: String, kind: SymbolKind) -> (r: Symbol)
        ensures
            r.name == name,
            r.kind == kind,
    {
        Symbol { name, kind }
    }

    /// A copy of this symbol.
    pub fn copy(&self) -> (r: Symbol)
        ensures
            r == *self,
    {
        Symbol { name: self.name.clone(), kind: self.kind }
    }

    /// Same name and same classification.
    pub fn same_as(&self, other: &Symbol) -> (r: bool)
        ensures
            r == (self.name@ == other.name@ && self.kind == other.kind),
    {
        self.name == other.name && self.kind == other.kind
    }
}

pub proof fn lemma_types_view(ts: Seq<TypeDescriptor>)
    ensures
        types_view(ts).len() == ts.len(),
        forall|i: int| 0 <= i < ts.len() ==> #[trigger] types_view(ts)[i] == type_view(ts[i]),
    decreases ts.len(),
{
    if ts.len() > 0 {
        lemma_types_view(ts.drop_last());
    }
}

fn string_opt_eq(a: &Option<String>, b: &Option<String>) -> (r: bool)
    ensures
        r == (string_opt_view(*a) == string_opt_view(*b)),
{
    match (a, b) {
        (Some(x), Some(y)) => *x == *y,
        (None, None) => true,
        _ => false,
    }
}

fn types_eq(a: &Vec<TypeDescriptor>, b: &Vec<TypeDescriptor>) -> (r: bool)
    ensures
        r == (types_view(a@) == types_view(b@)),
    decreases a,
{
    proof {
        lemma_types_view(a@);
        lemma_types_view(b@);
    }
    if a.len() != b.len() {
        return false;
    }
    let mut i: usize = 0;
    while i < a.len()
        invariant
            a@.len() == b@.len(),
            i <= a@.len(),
            types_view(a@).len() == a@.len(),
            types_view(b@).len() == b@.len(),
            forall|k: int| 0 <= k < a@.len() ==> #[trigger] types_view(a@)[k] == type_view(a@[k]),
            forall|k: int| 0 <= k < b@.len() ==> #[trigger] types_view(b@)[k] == type_view(b@[k]),
            forall|k: int| 0 <= k < i ==> type_view(#[trigger] a@[k]) == type_view(b@[k]),
        decreases a@.len() - i,
    {
        proof {
            assert(decreases_to!(*a => a@));
            assert(decreases_to!(a@ => a@[i as int]));
        }
        if !a[i].same_as(&b[i]) {
            assert(types_view(a@)[i as int] != types_view(b@)[i as int]);
            return false;
        }
        i += 1;
    }
    assert(types_view(a@) =~= types_view(b@));
    true
}

fn class_eq(a: &TypeClass, b: &TypeClass) -> (r: bool)
    ensures
        r == (class_view(*a) == class_view(*b)),
    decreases a,
{
    match (a, b) {
        (TypeClass::Void, TypeClass::Void) => true,
        (TypeClass::Boolean, TypeClass::Boolean) => true,
        (TypeClass::Integer { width: w1, signed: s1 }, TypeClass::Integer { width: w2, signed: s2 }) => {
            *w1 == *w2 && *s1 == *s2
        },
        (TypeClass::Float { width: w1 }, TypeClass::Float { width: w2 }) => *w1 == *w2,
        (TypeClass::Character { width: w1 }, TypeClass::Character { width: w2 }) => *w1 == *w2,
        (TypeClass::Pointer(x), TypeClass::Pointer(y)) => x.same_as(y),
        (TypeClass::Array { member: m1, count: c1 }, TypeClass::Array { member: m2, count: c2 }) => {
            *c1 == *c2 && m1.same_as(m2)
        },
        (TypeClass::Structure(x), TypeClass::Structure(y)) => types_eq(x, y),
        (TypeClass::Union(x), TypeClass::Union(y)) => types_eq(x, y),
        (TypeClass::Enumeration(x), TypeClass::Enumeration(y)) => x.same_as(y),
        (TypeClass::Function { outs: o1, ins: i1 }, TypeClass::Function { outs: o2, ins: i2 }) => {
            types_eq(o1, o2) && types_eq(i1, i2)
        },
        (TypeClass::Referrer { guid: g1, name: n1 }, TypeClass::Referrer { guid: g2, name: n2 }) => {
            *g1 == *g2 && string_opt_eq(n1, n2)
        },
        _ => false,
    }
}

impl TypeDescriptor {
    /// Structural equality: same name and same class, recursively.
    pub fn same_as(&self, other: &TypeDescriptor) -> (r: bool)
        ensures
            r == (self@ == other@),
        decreases self,
    {
        string_opt_eq(&self.name, &other.name) && class_eq(&self.class, &other.class)
    }
}

impl SignatureData {
    /// An empty bundle.
    pub fn new() -> (r: SignatureData)
        ensures
            r.functions@.len() == 0,
            r.types@.len() == 0,
    {
        SignatureData { functions: Vec::new(), types: Vec::new() }
    }

    /// Concatenates the functions and the types of all bundles, in order,
    /// without removing duplicates.
    pub fn merge(datas: Vec<SignatureData>) -> (r: SignatureData)
        ensures
            r.functions@ == merged_functions(datas@),
            r.types@ == merged_types(datas@),
    {
        let ghost all = datas@;
        let n: usize = datas.len();
        let mut rest = datas;
        let mut functions: Vec<SignatureFunction> = Vec::new();
        let mut types: Vec<ComputedType> = Vec::new();
        let mut i: usize = 0;
        while rest.len() > 0
            invariant
                i <= all.len(),
                i + rest@.len() == all.len(),
                all.len() == n,
                rest@ == all.skip(i as int),
                functions@ == merged_functions(all.take(i as int)),
                types@ == merged_types(all.take(i as int)),
            decreases rest@.len(),
        {
            let mut d = rest.remove(0);
            assert(all.take(i + 1).drop_last() =~= all.take(i as int));
            assert(all.take(i + 1).last() == all[i as int]);
            functions.append(&mut d.functions);
            types.append(&mut d.types);
            i += 1;
            assert(rest@ =~= all.skip(i as int));
        }
        assert(all.take(i as int) =~= all);
        SignatureData { functions, types }
    }
}

/// Merging is associative: merging `a` with `b` and then with `c` gives the
/// same functions and types, in the same order and so as the same multisets,
/// as merging `a` with the merge of `b` and `c`.
pub proof fn lemma_merge_associative(
    a: SignatureData,
    b: SignatureData,
    c: SignatureData,
    ab: SignatureData,
    bc: SignatureData,
)
    requires
        ab.functions@ == merged_functions(seq![a, b]),
        ab.types@ == merged_types(seq![a, b]),
        bc.functions@ == merged_functions(seq![b, c]),
        bc.types@ == merged_types(seq![b, c]),
    ensures
        merged_functions(seq![ab, c]) == merged_functions(seq![a, bc]),
        merged_types(seq![ab, c]) == merged_types(seq![a, bc]),
        merged_functions(seq![ab, c]).to_multiset() == merged_functions(seq![a, bc]).to_multiset(),
        merged_types(seq![ab, c]).to_multiset() == merged_types(seq![a, bc]).to_multiset(),
{
    lemma_merged_pair(a, b);
    lemma_merged_pair(b, c);
    lemma_merged_pair(ab, c);
    lemma_merged_pair(a, bc);
    assert(merged_functions(seq![ab, c]) =~= merged_functions(seq![a, bc]));
    assert(merged_types(seq![ab, c]) =~= merged_types(seq![a, bc]));
}

proof fn lemma_merged_pair(x: SignatureData, y: SignatureData)
    ensures
        merged_functions(seq![x, y]) == x.functions@ + y.functions@,
        merged_types(seq![x, y]) == x.types@ + y.types@,
{
    let s = seq![x, y];
    assert(s.drop_last() =~= seq![x]);
    assert(seq![x].drop_last() =~= Seq::<SignatureData>::empty());
    assert(seq![x].last() == x);
    assert(merged_functions(Seq::<SignatureData>::empty()) =~= Seq::<SignatureFunction>::empty());
    assert(merged_types(Seq::<SignatureData>::empty()) =~= Seq::<ComputedType>::empty());
    assert(merged_functions(seq![x]) =~= x.functions@);
    assert(merged_types(seq![x]) =~= x.types@);
}

} // verus!
