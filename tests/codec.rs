use warp_ninja::guid::{FunctionGUID, TypeGUID};
use warp_ninja::signature::{
    ComputedType, FunctionConstraint, FunctionConstraints, SignatureData, SignatureFunction, Symbol,
    SymbolKind, TypeClass, TypeDescriptor,
};

fn int_type(width: u16, signed: bool) -> TypeDescriptor {
    TypeDescriptor { name: None, class: TypeClass::Integer { width, signed } }
}

fn rich_type() -> TypeDescriptor {
    let node = TypeDescriptor {
        name: Some("node".to_string()),
        class: TypeClass::Structure(vec![
            int_type(4, true),
            TypeDescriptor {
                name: None,
                class: TypeClass::Pointer(Box::new(TypeDescriptor {
                    name: None,
                    class: TypeClass::Referrer { guid: None, name: Some("node".to_string()) },
                })),
            },
            TypeDescriptor {
                name: None,
                class: TypeClass::Array { member: Box::new(TypeDescriptor { name: None, class: TypeClass::Character { width: 1 } }), count: 16 },
            },
            TypeDescriptor { name: None, class: TypeClass::Union(vec![int_type(8, false), TypeDescriptor { name: None, class: TypeClass::Float { width: 8 } }]) },
            TypeDescriptor { name: Some("état".to_string()), class: TypeClass::Enumeration(Box::new(int_type(4, false))) },
        ]),
    };
    TypeDescriptor {
        name: Some("visit".to_string()),
        class: TypeClass::Function {
            outs: vec![TypeDescriptor { name: None, class: TypeClass::Boolean }],
            ins: vec![
                node,
                TypeDescriptor { name: None, class: TypeClass::Referrer { guid: Some(TypeGUID { guid: 77 }), name: None } },
                TypeDescriptor { name: None, class: TypeClass::Void },
            ],
        },
    }
}

fn sample() -> SignatureData {
    let f = SignatureFunction {
        guid: FunctionGUID { guid: 0x0123_4567_89ab_cdef_fedc_ba98_7654_3210 },
        symbol: Symbol::new("visit_ünïcode".to_string(), SymbolKind::Library),
        ty: rich_type(),
        constraints: FunctionConstraints {
            adjacent: vec![FunctionConstraint { guid: Some(FunctionGUID { guid: 5 }), symbol: None }],
            call_sites: vec![
                FunctionConstraint { guid: None, symbol: Some(Symbol::new("malloc".to_string(), SymbolKind::Import)) },
                FunctionConstraint { guid: Some(FunctionGUID { guid: u128::MAX }), symbol: Some(Symbol::new("free".to_string(), SymbolKind::Data)) },
            ],
            caller_sites: vec![],
        },
    };
    let g = SignatureFunction {
        guid: FunctionGUID { guid: 1 },
        symbol: Symbol::new(String::new(), SymbolKind::Export),
        ty: int_type(2, false),
        constraints: FunctionConstraints { adjacent: vec![], call_sites: vec![], caller_sites: vec![] },
    };
    SignatureData {
        functions: vec![f, g],
        types: vec![ComputedType { guid: TypeGUID { guid: 42 }, ty: rich_type() }],
    }
}

#[test]
fn bundle_round_trips() {
    let d = sample();
    let bytes = d.to_bytes();
    let back = SignatureData::from_bytes(&bytes).expect("decodes");
    assert_eq!(format!("{:?}", back), format!("{:?}", d));
    assert_eq!(back.to_bytes(), bytes);
}

#[test]
fn empty_bundle_round_trips() {
    let d = SignatureData::new();
    let bytes = d.to_bytes();
    assert_eq!(bytes.len(), 5 + 8 + 8);
    assert_eq!(&bytes[..5], &[0x57, 0x53, 0x49, 0x47, 1]);
    let back = SignatureData::from_bytes(&bytes).unwrap();
    assert!(back.functions.is_empty() && back.types.is_empty());
}

#[test]
fn exact_encoding_of_small_bundle() {
    let d = SignatureData {
        functions: vec![],
        types: vec![ComputedType { guid: TypeGUID { guid: 0x0102 }, ty: TypeDescriptor { name: Some("b".to_string()), class: TypeClass::Boolean } }],
    };
    let mut want = vec![0x57, 0x53, 0x49, 0x47, 1];
    want.extend_from_slice(&[0; 8]);
    want.extend_from_slice(&[0, 0, 0, 0, 0, 0, 0, 1]);
    want.extend_from_slice(&[0; 14]);
    want.extend_from_slice(&[1, 2]);
    want.push(1);
    want.push(1);
    want.extend_from_slice(&[0, 0, 0, 0, 0, 0, 0, 1]);
    want.push(b'b');
    assert_eq!(d.to_bytes(), want);
}

#[test]
fn bad_magic_is_rejected() {
    let mut bytes = sample().to_bytes();
    bytes[0] = b'X';
    assert!(SignatureData::from_bytes(&bytes).is_none());
    let mut bytes = sample().to_bytes();
    bytes[4] = 2;
    assert!(SignatureData::from_bytes(&bytes).is_none());
    assert!(SignatureData::from_bytes(&[]).is_none());
}

#[test]
fn truncated_or_padded_bundle_is_rejected() {
    let bytes = sample().to_bytes();
    for cut in [5, 12, 13, bytes.len() / 2, bytes.len() - 1] {
        assert!(SignatureData::from_bytes(&bytes[..cut]).is_none(), "cut at {}", cut);
    }
    let mut padded = bytes.clone();
    padded.push(0);
    assert!(SignatureData::from_bytes(&padded).is_none());
}

#[test]
fn invalid_utf8_name_is_rejected() {
    let d = SignatureData {
        functions: vec![SignatureFunction {
            guid: FunctionGUID { guid: 3 },
            symbol: Symbol::new("ab".to_string(), SymbolKind::Normal),
            ty: int_type(1, false),
            constraints: FunctionConstraints { adjacent: vec![], call_sites: vec![], caller_sites: vec![] },
        }],
        types: vec![],
    };
    let mut bytes = d.to_bytes();
    let pos = bytes.iter().position(|&b| b == b'a').unwrap();
    bytes[pos] = 0xff;
    assert!(SignatureData::from_bytes(&bytes).is_none());
}
