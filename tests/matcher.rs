use warp_ninja::fingerprint::{
    function_guid, AddressRange, BasicBlock, Expr, IlInstr, Instruction, ProgramLayout, Register,
};
use warp_ninja::guid::FunctionGUID;
use warp_ninja::matcher::{
    invalidate_function_matcher_cache, name_less, AnalyzedFunction, Matcher, MatcherCache, PlatformID,
    TRIVIAL_FUNCTION_DELTA_THRESHOLD,
};
use warp_ninja::signature::{
    FunctionConstraint, FunctionConstraints, SignatureData, SignatureFunction, Symbol, SymbolKind,
    TypeClass, TypeDescriptor,
};

fn sym(name: &str) -> Symbol {
    Symbol::new(name.to_string(), SymbolKind::Normal)
}

fn int_ty() -> TypeDescriptor {
    TypeDescriptor { name: None, class: TypeClass::Integer { width: 4, signed: true } }
}

fn by_guid(g: u128) -> FunctionConstraint {
    FunctionConstraint { guid: Some(FunctionGUID { guid: g }), symbol: None }
}

fn by_name(n: &str) -> FunctionConstraint {
    FunctionConstraint { guid: None, symbol: Some(sym(n)) }
}

fn sig(guid: u128, name: &str, calls: Vec<FunctionConstraint>) -> SignatureFunction {
    SignatureFunction {
        guid: FunctionGUID { guid },
        symbol: sym(name),
        ty: int_ty(),
        constraints: FunctionConstraints { adjacent: vec![], call_sites: calls, caller_sites: vec![] },
    }
}

fn layout() -> ProgramLayout {
    ProgramLayout {
        sections: vec![AddressRange { start: 0x10000, end: 0x20000 }],
        function_addresses: vec![],
        data_addresses: vec![],
    }
}

fn body(ptr: u32) -> Vec<BasicBlock> {
    let p = ptr.to_le_bytes();
    let lea = Instruction {
        bytes: vec![0x48, 0x8d, 0x3d, p[0], p[1], p[2], p[3]],
        length: Some(7),
        il: Some(IlInstr::SetReg {
            dest: Register::Arch { id: 5, implicit_extend: false },
            src: Expr::ConstPtr(ptr as u64),
        }),
    };
    let ret = Instruction {
        bytes: vec![0xc3],
        length: Some(1),
        il: Some(IlInstr::Other(Expr::Op { op: 9, operands: vec![] })),
    };
    vec![BasicBlock { start: 0, end: 8, instructions: vec![lea, ret] }]
}

fn analyzed(blocks: Vec<BasicBlock>, span: u64, calls: Vec<FunctionConstraint>) -> AnalyzedFunction {
    AnalyzedFunction { blocks, lowest: 0x4000, highest: 0x4000 + span, call_sites: calls }
}

fn matcher_of(fs: Vec<SignatureFunction>) -> Matcher {
    Matcher::from_data(vec![SignatureData { functions: fs, types: vec![] }])
}

#[test]
fn relinked_function_matches_single_signature() {
    let g1 = function_guid(&body(0x10100), &layout());
    let m = matcher_of(vec![sig(g1.guid, "f", vec![])]);
    let target = analyzed(body(0x18800), 32, vec![]);
    assert_eq!(function_guid(&target.blocks, &layout()), g1);
    assert_eq!(m.match_function(&target, &layout()), Some(0));
}

#[test]
fn single_candidate_needs_no_constraints() {
    let g = function_guid(&body(0x10100), &layout());
    let m = matcher_of(vec![sig(0x99, "other", vec![]), sig(g.guid, "f", vec![])]);
    let target = analyzed(body(0x10100), TRIVIAL_FUNCTION_DELTA_THRESHOLD, vec![]);
    assert_eq!(m.match_function(&target, &layout()), Some(1));
}

#[test]
fn unknown_fingerprint_does_not_match() {
    let m = matcher_of(vec![sig(0x99, "other", vec![])]);
    let target = analyzed(body(0x10100), 100, vec![by_name("puts")]);
    assert_eq!(m.match_function(&target, &layout()), None);
}

#[test]
fn trivial_function_falls_back_to_constraints() {
    let g = function_guid(&body(0x10100), &layout()).guid;
    let m = matcher_of(vec![sig(g, "f", vec![by_name("puts")])]);
    let small = analyzed(body(0x10100), TRIVIAL_FUNCTION_DELTA_THRESHOLD - 1, vec![]);
    assert_eq!(m.match_function(&small, &layout()), None);
    let small_with_calls = analyzed(body(0x10100), 4, vec![by_name("puts")]);
    assert_eq!(m.match_function(&small_with_calls, &layout()), Some(0));
    let inverted = AnalyzedFunction { blocks: body(0x10100), lowest: 50, highest: 10, call_sites: vec![] };
    assert_eq!(m.match_function(&inverted, &layout()), None);
}

#[test]
fn shared_fingerprint_is_settled_by_call_sites() {
    let g = function_guid(&body(0x10100), &layout()).guid;
    let m = matcher_of(vec![
        sig(g, "alpha", vec![by_guid(1), by_guid(2)]),
        sig(g, "beta", vec![by_guid(1)]),
    ]);
    let target = analyzed(body(0x10100), 64, vec![by_guid(1), by_guid(2), by_guid(3)]);
    assert_eq!(m.match_function(&target, &layout()), Some(0));
    let no_calls = analyzed(body(0x10100), 64, vec![]);
    assert_eq!(m.match_function(&no_calls, &layout()), None);
}

#[test]
fn symbol_signal_wins_when_stronger() {
    let m = matcher_of(vec![]);
    let cands = vec![
        sig(7, "alpha", vec![by_guid(1)]),
        sig(7, "beta", vec![by_name("puts"), by_name("exit")]),
    ];
    let calls = vec![by_guid(1), by_name("puts"), by_name("exit"), by_name("puts")];
    assert_eq!(m.match_function_from_constraints(&calls, &cands), Some(1));
}

#[test]
fn equal_scores_on_both_signals_reject() {
    let m = matcher_of(vec![]);
    let cands = vec![
        sig(7, "alpha", vec![by_guid(1), by_name("puts")]),
        sig(7, "beta", vec![by_guid(1), by_name("puts")]),
    ];
    let calls = vec![by_guid(1), by_name("puts")];
    assert_eq!(m.match_function_from_constraints(&calls, &cands), None);
    let same = vec![
        sig(7, "alpha", vec![by_guid(1), by_name("puts")]),
        sig(7, "alpha", vec![by_guid(1), by_name("puts")]),
    ];
    assert_eq!(m.match_function_from_constraints(&calls, &same), None);
}

#[test]
fn equal_counts_with_agreeing_leaders_match() {
    let m = matcher_of(vec![]);
    let cands = vec![sig(7, "alpha", vec![by_guid(1)]), sig(7, "alpha", vec![by_name("puts")])];
    let calls = vec![by_guid(1), by_name("puts")];
    assert_eq!(m.match_function_from_constraints(&calls, &cands), Some(0));
    let differing = vec![sig(7, "alpha", vec![by_guid(1)]), sig(7, "beta", vec![by_name("puts")])];
    assert_eq!(m.match_function_from_constraints(&calls, &differing), None);
    let mut other_type = sig(7, "alpha", vec![by_name("puts")]);
    other_type.ty = TypeDescriptor { name: None, class: TypeClass::Void };
    let typed = vec![sig(7, "alpha", vec![by_guid(1)]), other_type];
    assert_eq!(m.match_function_from_constraints(&calls, &typed), None);
}

#[test]
fn index_keeps_first_signature_of_each_name() {
    let m = Matcher::from_data(vec![
        SignatureData { functions: vec![sig(7, "a", vec![]), sig(7, "b", vec![])], types: vec![] },
        SignatureData { functions: vec![sig(7, "a", vec![by_guid(3)]), sig(8, "a", vec![])], types: vec![] },
    ]);
    assert_eq!(m.functions.len(), 4);
    assert_eq!(m.index.get(&7).unwrap().clone(), vec![0, 1]);
    assert_eq!(m.index.get(&8).unwrap().clone(), vec![3]);
    assert!(m.index.get(&9).is_none());
}

#[test]
fn index_groups_are_in_name_order() {
    let m = matcher_of(vec![
        sig(7, "zeta", vec![]),
        sig(7, "alpha", vec![]),
        sig(7, "mu", vec![]),
        sig(7, "alpha", vec![by_guid(1)]),
        sig(7, "Zeta", vec![]),
        sig(7, "alphabet", vec![]),
    ]);
    assert_eq!(m.index.get(&7).unwrap().clone(), vec![4, 1, 5, 2, 0]);
}

#[test]
fn platform_id_digests_the_name() {
    let a = PlatformID::from_name("linux-x86_64");
    assert_eq!(a, PlatformID(0x9ea05fa777a752bf));
    assert_eq!(a, PlatformID::from_name("linux-x86_64"));
    assert_ne!(a, PlatformID::from_name("windows-x86_64"));
}

#[test]
fn invalidation_empties_cache() {
    let mut cache = MatcherCache::new();
    let p = PlatformID::from_name("linux-x86_64");
    assert!(!cache.contains(p));
    cache.insert(p, matcher_of(vec![]));
    cache.insert(PlatformID(1), matcher_of(vec![]));
    assert!(cache.contains(p));
    invalidate_function_matcher_cache(&mut cache);
    assert!(!cache.contains(p));
    assert!(!cache.contains(PlatformID(1)));
    assert_eq!(cache.matchers.len(), 0);
}

#[test]
fn names_compare_by_code_point() {
    let s = |x: &str| x.to_string();
    assert!(name_less(&s("alpha"), &s("beta")));
    assert!(!name_less(&s("beta"), &s("alpha")));
    assert!(name_less(&s("al"), &s("alpha")));
    assert!(!name_less(&s("alpha"), &s("alpha")));
    assert!(name_less(&s(""), &s("a")));
    assert!(!name_less(&s(""), &s("")));
    assert!(name_less(&s("Z"), &s("a")));
    assert!(name_less(&s("z"), &s("é")));
}
