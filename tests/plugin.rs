use warp_ninja::fingerprint::ProgramLayout;
use warp_ninja::guid::{FunctionGUID, TypeGUID};
use warp_ninja::matcher::{AnalyzedFunction, Matcher};
use warp_ninja::plugin::{is_function_named, AddFunctionSignature, RunMatcher};
use warp_ninja::signature::{
    ComputedType, FunctionConstraints, SignatureData, SignatureFunction, Symbol, SymbolKind,
    TypeClass, TypeDescriptor,
};

fn sig(guid: u128, name: &str) -> SignatureFunction {
    SignatureFunction {
        guid: FunctionGUID { guid },
        symbol: Symbol::new(name.to_string(), SymbolKind::Normal),
        ty: TypeDescriptor { name: None, class: TypeClass::Void },
        constraints: FunctionConstraints { adjacent: vec![], call_sites: vec![], caller_sites: vec![] },
    }
}

fn computed(g: u128) -> ComputedType {
    ComputedType { guid: TypeGUID { guid: g }, ty: TypeDescriptor { name: None, class: TypeClass::Boolean } }
}

#[test]
fn host_generated_names_are_skipped() {
    assert!(!is_function_named("sub_401000", false));
    assert!(!is_function_named("my_sub_1", false));
    assert!(is_function_named("sub_401000", true));
    assert!(is_function_named("main", false));
    assert!(is_function_named("sub", false));
    assert!(is_function_named("", false));
    assert!(is_function_named("SUB_1", false));
    assert!(!is_function_named("é_sub_", false));
}

#[test]
fn new_signature_file_holds_one_function() {
    let bytes = AddFunctionSignature::updated_bundle(None, sig(1, "f"), vec![computed(9)]).unwrap();
    let d = SignatureData::from_bytes(&bytes).unwrap();
    assert_eq!(d.functions.len(), 1);
    assert_eq!(d.functions[0].symbol.name, "f");
    assert_eq!(d.types.len(), 1);
    assert_eq!(d.types[0].guid, TypeGUID { guid: 9 });
}

#[test]
fn existing_signature_file_is_preserved() {
    let existing = SignatureData { functions: vec![sig(1, "a")], types: vec![computed(3)] }.to_bytes();
    let bytes = AddFunctionSignature::updated_bundle(Some(&existing), sig(2, "b"), vec![computed(4)]).unwrap();
    let d = SignatureData::from_bytes(&bytes).unwrap();
    let names: Vec<&str> = d.functions.iter().map(|f| f.symbol.name.as_str()).collect();
    assert_eq!(names, vec!["a", "b"]);
    let types: Vec<u128> = d.types.iter().map(|t| t.guid.guid).collect();
    assert_eq!(types, vec![3, 4]);
}

#[test]
fn corrupt_signature_file_is_left_alone() {
    assert!(AddFunctionSignature::updated_bundle(Some(b"not a bundle"), sig(2, "b"), vec![]).is_none());
}

#[test]
fn every_function_is_matched() {
    let layout = ProgramLayout { sections: vec![], function_addresses: vec![], data_addresses: vec![] };
    let empty = AnalyzedFunction { blocks: vec![], lowest: 0, highest: 100, call_sites: vec![] };
    let g = warp_ninja::fingerprint::function_guid(&empty.blocks, &layout);
    let m = Matcher::from_data(vec![SignatureData { functions: vec![sig(g.guid, "empty")], types: vec![] }]);
    let other = AnalyzedFunction {
        blocks: vec![warp_ninja::fingerprint::BasicBlock { start: 0, end: 1, instructions: vec![] }],
        lowest: 0,
        highest: 100,
        call_sites: vec![],
    };
    assert_eq!(RunMatcher::match_all(&m, &[empty, other], &layout), vec![Some(0), None]);
}
