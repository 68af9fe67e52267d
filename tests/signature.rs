use warp_ninja::archive::resolve_guids;
use warp_ninja::constraints::{adjacency_constraints, build_function, call_site_constraints};
use warp_ninja::fingerprint::{function_guid, AddressRange, BasicBlock, Instruction, ProgramLayout};
use warp_ninja::guid::{FunctionGUID, TypeGUID};
use warp_ninja::signature::{
    ComputedType, FunctionConstraint, FunctionConstraints, SignatureData, SignatureFunction, Symbol,
    SymbolKind, TypeClass, TypeDescriptor,
};

fn sym(name: &str) -> Symbol {
    Symbol::new(name.to_string(), SymbolKind::Normal)
}

fn void() -> TypeDescriptor {
    TypeDescriptor { name: None, class: TypeClass::Void }
}

fn by_name(name: &str) -> FunctionConstraint {
    FunctionConstraint { guid: None, symbol: Some(sym(name)) }
}

fn func(guid: u128, name: &str, calls: Vec<FunctionConstraint>) -> SignatureFunction {
    SignatureFunction {
        guid: FunctionGUID { guid },
        symbol: sym(name),
        ty: void(),
        constraints: FunctionConstraints { adjacent: vec![], call_sites: calls, caller_sites: vec![] },
    }
}

fn data(fs: Vec<SignatureFunction>, ts: Vec<u128>) -> SignatureData {
    SignatureData {
        functions: fs,
        types: ts.into_iter().map(|g| ComputedType { guid: TypeGUID { guid: g }, ty: void() }).collect(),
    }
}

fn names(d: &SignatureData) -> Vec<String> {
    d.functions.iter().map(|f| f.symbol.name.clone()).collect()
}

fn type_guids(d: &SignatureData) -> Vec<u128> {
    d.types.iter().map(|t| t.guid.guid).collect()
}

#[test]
fn merge_concatenates_in_order() {
    let m = SignatureData::merge(vec![
        data(vec![func(1, "a", vec![]), func(2, "a", vec![])], vec![10]),
        data(vec![], vec![]),
        data(vec![func(1, "a", vec![])], vec![10, 11]),
    ]);
    assert_eq!(names(&m), vec!["a", "a", "a"]);
    assert_eq!(type_guids(&m), vec![10, 10, 11]);
    assert!(SignatureData::merge(vec![]).functions.is_empty());
}

#[test]
fn merge_is_associative() {
    let mk = |n: &str, t: u128| data(vec![func(t, n, vec![])], vec![t]);
    let left = SignatureData::merge(vec![SignatureData::merge(vec![mk("a", 1), mk("b", 2)]), mk("c", 3)]);
    let right = SignatureData::merge(vec![mk("a", 1), SignatureData::merge(vec![mk("b", 2), mk("c", 3)])]);
    assert_eq!(names(&left), names(&right));
    assert_eq!(type_guids(&left), type_guids(&right));
    assert_eq!(names(&left), vec!["a", "b", "c"]);
}

#[test]
fn archive_member_calls_are_resolved() {
    let a = data(vec![func(0xa1, "foo", vec![by_name("bar")])], vec![]);
    let b = data(vec![func(0xb2, "bar", vec![])], vec![]);
    let mut merged = SignatureData::merge(vec![a, b]);
    resolve_guids(&mut merged.functions);
    let c = &merged.functions[0].constraints.call_sites[0];
    assert_eq!(c.guid, Some(FunctionGUID { guid: 0xb2 }));
    assert_eq!(c.symbol.as_ref().unwrap().name, "bar");
}

#[test]
fn resolution_is_idempotent() {
    let mut fs = vec![
        func(1, "foo", vec![by_name("bar"), by_name("missing"), FunctionConstraint { guid: None, symbol: None }]),
        func(2, "bar", vec![FunctionConstraint { guid: Some(FunctionGUID { guid: 9 }), symbol: Some(sym("foo")) }]),
    ];
    resolve_guids(&mut fs);
    let once: Vec<Vec<Option<FunctionGUID>>> =
        fs.iter().map(|f| f.constraints.call_sites.iter().map(|c| c.guid).collect()).collect();
    assert_eq!(once, vec![vec![Some(FunctionGUID { guid: 2 }), None, None], vec![Some(FunctionGUID { guid: 9 })]]);
    resolve_guids(&mut fs);
    let twice: Vec<Vec<Option<FunctionGUID>>> =
        fs.iter().map(|f| f.constraints.call_sites.iter().map(|c| c.guid).collect()).collect();
    assert_eq!(once, twice);
}

#[test]
fn later_definition_wins_on_name_collision() {
    let mut fs = vec![func(1, "x", vec![]), func(2, "dup", vec![]), func(3, "dup", vec![]), func(4, "y", vec![by_name("dup")])];
    fs[3].constraints.adjacent = vec![by_name("dup")];
    resolve_guids(&mut fs);
    assert_eq!(fs[3].constraints.call_sites[0].guid, Some(FunctionGUID { guid: 3 }));
    assert_eq!(fs[3].constraints.adjacent[0].guid, Some(FunctionGUID { guid: 3 }));
}

#[test]
fn call_sites_are_distinct_in_first_order() {
    let callees = vec![by_name("b"), by_name("a"), by_name("b"), FunctionConstraint { guid: Some(FunctionGUID { guid: 5 }), symbol: None }, by_name("a")];
    let cs = call_site_constraints(&callees);
    let got: Vec<(Option<FunctionGUID>, Option<String>)> =
        cs.iter().map(|c| (c.guid, c.symbol.as_ref().map(|s| s.name.clone()))).collect();
    assert_eq!(got, vec![
        (None, Some("b".to_string())),
        (None, Some("a".to_string())),
        (Some(FunctionGUID { guid: 5 }), None),
    ]);
}

#[test]
fn adjacency_keeps_touching_neighbors() {
    let me = AddressRange { start: 0x100, end: 0x180 };
    let neighbors = vec![
        (AddressRange { start: 0x80, end: 0x100 }, by_name("before")),
        (AddressRange { start: 0x200, end: 0x280 }, by_name("far")),
        (AddressRange { start: 0x180, end: 0x1a0 }, by_name("after")),
    ];
    let adj = adjacency_constraints(me, &neighbors, |_| true);
    let got: Vec<String> = adj.iter().map(|c| c.symbol.as_ref().unwrap().name.clone()).collect();
    assert_eq!(got, vec!["before", "after"]);
    let only_after = adjacency_constraints(me, &neighbors, |c| {
        c.symbol.as_ref().map(|s| s.name.starts_with("af")).unwrap_or(false)
    });
    assert_eq!(only_after.len(), 1);
    assert_eq!(only_after[0].symbol.as_ref().unwrap().name, "after");
}

#[test]
fn built_function_carries_fingerprint() {
    let layout = ProgramLayout { sections: vec![], function_addresses: vec![], data_addresses: vec![] };
    let blocks = vec![BasicBlock { start: 0, end: 1, instructions: vec![Instruction { bytes: vec![0xc3], length: Some(1), il: None }] }];
    let f = build_function(&blocks, &layout, sym("main"), void(), vec![], vec![by_name("puts")]);
    assert_eq!(f.guid, function_guid(&blocks, &layout));
    assert_eq!(f.symbol.name, "main");
    assert!(f.constraints.caller_sites.is_empty());
    assert_eq!(f.constraints.call_sites.len(), 1);
}
