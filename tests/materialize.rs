use warp_ninja::guid::{FunctionGUID, TypeGUID};
use warp_ninja::matcher::Matcher;
use warp_ninja::materialize::TypePlan;
use warp_ninja::signature::{
    ComputedType, FunctionConstraints, SignatureData, SignatureFunction, Symbol, SymbolKind,
    TypeClass, TypeDescriptor,
};

fn ty(name: Option<&str>, class: TypeClass) -> TypeDescriptor {
    TypeDescriptor { name: name.map(|n| n.to_string()), class }
}

fn by_name(n: &str) -> TypeDescriptor {
    ty(None, TypeClass::Referrer { guid: None, name: Some(n.to_string()) })
}

fn stored(t: TypeDescriptor) -> ComputedType {
    ComputedType { guid: TypeGUID::of(&t), ty: t }
}

fn matcher_with_types(types: Vec<TypeDescriptor>) -> Matcher {
    Matcher::from_data(vec![SignatureData { functions: vec![], types: types.into_iter().map(stored).collect() }])
}

#[test]
fn type_guid_digests_encoding() {
    assert_eq!(TypeGUID::of(&ty(None, TypeClass::Void)), TypeGUID { guid: 0xc0e4561ddd6258d9a42806592e2b52e2 });
    assert_ne!(TypeGUID::of(&ty(None, TypeClass::Void)), TypeGUID::of(&ty(None, TypeClass::Boolean)));
}

#[test]
fn children_are_defined_before_parent() {
    let m = matcher_with_types(vec![]);
    let int4 = ty(None, TypeClass::Integer { width: 4, signed: true });
    let ptr = ty(None, TypeClass::Pointer(Box::new(int4.copy())));
    let mut plan = TypePlan::new(vec![], vec![]);
    m.add_type_to_view(&mut plan, &ptr);
    let ids: Vec<TypeGUID> = plan.definitions.iter().map(|d| d.guid).collect();
    assert_eq!(ids, vec![TypeGUID::of(&int4), TypeGUID::of(&ptr)]);
    assert_eq!(plan.defined, vec![TypeGUID::of(&int4).guid, TypeGUID::of(&ptr).guid]);
}

#[test]
fn already_defined_types_are_skipped() {
    let m = matcher_with_types(vec![]);
    let int4 = ty(None, TypeClass::Integer { width: 4, signed: true });
    let ptr = ty(None, TypeClass::Pointer(Box::new(int4.copy())));
    let mut plan = TypePlan::new(vec![TypeGUID::of(&int4).guid, TypeGUID::of(&int4).guid], vec![]);
    assert_eq!(plan.defined.len(), 1);
    m.add_type_to_view(&mut plan, &ptr);
    assert_eq!(plan.definitions.len(), 1);
    m.add_type_to_view(&mut plan, &ptr);
    assert_eq!(plan.definitions.len(), 1);
}

#[test]
fn references_resolve_through_stored_types() {
    let target = ty(Some("point"), TypeClass::Structure(vec![ty(None, TypeClass::Float { width: 4 })]));
    let m = matcher_with_types(vec![target.copy()]);
    let by_guid = ty(None, TypeClass::Referrer { guid: Some(TypeGUID::of(&target)), name: None });
    let mut plan = TypePlan::new(vec![], vec![]);
    m.add_type_to_view(&mut plan, &by_guid);
    let ids: Vec<TypeGUID> = plan.definitions.iter().map(|d| d.guid).collect();
    assert_eq!(ids.len(), 3);
    assert_eq!(ids[1], TypeGUID::of(&target));
    assert_eq!(ids[2], TypeGUID::of(&by_guid));
    let mut plan = TypePlan::new(vec![], vec![]);
    m.add_type_to_view(&mut plan, &by_name("point"));
    assert_eq!(plan.definitions.len(), 3);
    let mut plan = TypePlan::new(vec![], vec!["point".to_string()]);
    m.add_type_to_view(&mut plan, &by_name("point"));
    assert_eq!(plan.definitions.len(), 1);
}

#[test]
fn self_referencing_name_terminates() {
    let node = ty(Some("node"), TypeClass::Structure(vec![ty(None, TypeClass::Pointer(Box::new(by_name("node"))))]));
    let m = matcher_with_types(vec![node.copy()]);
    let mut plan = TypePlan::new(vec![], vec![]);
    m.add_type_to_view(&mut plan, &by_name("node"));
    assert!(plan.visiting.is_empty());
    assert!(plan.defined.contains(&TypeGUID::of(&node).guid));
    let mut seen = plan.defined.clone();
    seen.sort();
    seen.dedup();
    assert_eq!(seen.len(), plan.defined.len());
}

#[test]
fn matched_function_types_are_planned() {
    let int4 = ty(None, TypeClass::Integer { width: 4, signed: true });
    let f = SignatureFunction {
        guid: FunctionGUID { guid: 1 },
        symbol: Symbol::new("f".to_string(), SymbolKind::Normal),
        ty: ty(None, TypeClass::Function { outs: vec![int4.copy()], ins: vec![by_name("missing"), int4.copy()] }),
        constraints: FunctionConstraints { adjacent: vec![], call_sites: vec![], caller_sites: vec![] },
    };
    let m = matcher_with_types(vec![]);
    let mut plan = TypePlan::new(vec![], vec![]);
    m.add_function_types(&mut plan, &f);
    let ids: Vec<TypeGUID> = plan.definitions.iter().map(|d| d.guid).collect();
    assert_eq!(ids, vec![TypeGUID::of(&int4), TypeGUID::of(&by_name("missing"))]);
}
