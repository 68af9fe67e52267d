//! The decisions behind the commands a host exposes: which functions get a
//! signature, how a signature is added to an existing bundle, and matching
//! every function of a program.
use vstd::prelude::*;
use vstd::utf8::encode_utf8;

use crate::codec::{dec_data, enc_data};
use crate::fingerprint::{function_fingerprint, ProgramLayout};
use crate::index::index_entries;
use crate::matcher::{match_choice, span_of, AnalyzedFunction, Matcher};
use crate::signature::{ComputedType, DataV, SignatureData, SignatureFunction};

verus! {

/// The bytes of the prefix that the host gives to functions it named itself.
pub open spec fn auto_name_prefix() -> Seq<u8> {
    seq![0x73u8, 0x75u8, 0x62u8, 0x5fu8]
}

/// Whether `needle` occurs in `hay` as a run of consecutive bytes.
pub open spec fn contains_bytes(hay: Seq<u8>, needle: Seq<u8>) -> bool {
    exists|i: int| 0 <= i && i + needle.len() <= hay.len() && #[trigger] hay.subrange(i, i + needle.len()) == needle
}

/// A function worth a signature: its name was not made up by the host (holds
/// no `sub_`), or a user annotated it.
pub fn is_function_named(name: &str, has_user_annotations: bool) -> (r: bool)
    ensures
        r == (!contains_bytes(encode_utf8(name@), auto_name_prefix()) || has_user_annotations),
{
    if has_user_annotations {
        return true;
    }
    let b = name.as_bytes();
    let ghost pre = auto_name_prefix();
    if b.len() < 4 {
        assert(!contains_bytes(b@, pre));
        return true;
    }
    let last: usize = b.len() - 4;
    let mut i: usize = 0;
    while i <= last
        invariant
            !has_user_annotations,
            b@ == encode_utf8(name@),
            pre == auto_name_prefix(),
            pre.len() == 4,
            last + 4 == b@.len(),
            forall|k: int| 0 <= k < i ==> #[trigger] b@.subrange(k, k + pre.len()) != pre,
        decreases b@.len() - i,
    {
        if b[i] == 0x73u8 && b[i + 1] == 0x75u8 && b[i + 2] == 0x62u8 && b[i + 3] == 0x5fu8 {
            assert(b@.subrange(i as int, i + pre.len()) =~= pre);
            assert(contains_bytes(b@, pre));
            assert(contains_bytes(encode_utf8(name@), auto_name_prefix()));
            return false;
        }
        assert(b@.subrange(i as int, i + pre.len()) != pre) by {
            if b@.subrange(i as int, i + 4) == pre {
                assert(b@.subrange(i as int, i + 4)[0] == b@[i as int]);
                assert(b@.subrange(i as int, i + 4)[1] == b@[i + 1]);
                assert(b@.subrange(i as int, i + 4)[2] == b@[i + 2]);
                assert(b@.subrange(i as int, i + 4)[3] == b@[i + 3]);
            }
        }
        i += 1;
    }
    assert(!contains_bytes(b@, pre));
    true
}

/// Adds one function's signature to a signature file.
pub struct AddFunctionSignature;

/// The bundle a file holds after adding a function and its referenced types:
/// the file's bundle (empty when there is no file yet) with the function
/// appended and the types appended.
pub open spec fn bundle_with(existing: Option<Seq<u8>>, function: SignatureFunction, types: Seq<ComputedType>) -> Option<DataV> {
    let tv = types.map_values(|t: ComputedType| t@);
    match existing {
        None => Some(DataV { functions: seq![function@], types: tv }),
        Some(b) => match dec_data(b) {
            Some(d) => Some(DataV { functions: d.functions.push(function@), types: d.types + tv }),
            None => None,
        },
    }
}

impl AddFunctionSignature {
    /// The new contents of the signature file: `None` when the existing
    /// contents are not a bundle (they are then to be left alone).
    pub fn updated_bundle(existing: Option<&[u8]>, function: SignatureFunction, types: Vec<ComputedType>) -> (r: Option<Vec<u8>>)
        ensures
            match bundle_with(
                match existing {
                    Some(b) => Some(b@),
                    None => None,
                },
                function,
                types@,
            ) {
                Some(d) => r matches Some(bytes) && bytes@ == enc_data(d),
                None => r is None,
            },
    {
        let ghost fv = function@;
        let ghost tv = types@.map_values(|t: ComputedType| t@);
        let mut data = match existing {
            Some(b) => match SignatureData::from_bytes(b) {
                Some(d) => d,
                None => return None,
            },
            None => SignatureData::new(),
        };
        let ghost before = data@;
        data.functions.push(function);
        let mut types = types;
        data.types.append(&mut types);
        assert(data@.functions =~= before.functions.push(fv));
        assert(data@.types =~= before.types + tv);
        proof {
            if existing is None {
                assert(before.functions =~= Seq::<crate::signature::FunctionV>::empty());
                assert(before.types =~= Seq::<crate::signature::ComputedTypeV>::empty());
                assert(data@.functions =~= seq![fv]);
                assert(data@.types =~= tv);
            }
        }
        Some(data.to_bytes())
    }
}

/// Runs the matcher over every function of a program.
pub struct RunMatcher;

impl RunMatcher {
    /// The match of each function, in order (see `Matcher::match_function`).
    pub fn match_all(matcher: &Matcher, functions: &[AnalyzedFunction], layout: &ProgramLayout) -> (r: Vec<Option<usize>>)
        requires
            matcher.wf(),
        ensures
            r@.len() == functions@.len(),
            forall|i: int|
                0 <= i < functions@.len() ==> (match #[trigger] r@[i] {
                    Some(p) => Some(p as int),
                    None => None,
                }) == match_choice(
                    matcher.functions@,
                    index_entries(matcher.index),
                    function_fingerprint(functions@[i].blocks@, *layout),
                    span_of(functions@[i].lowest, functions@[i].highest),
                    functions@[i].call_sites@,
                ),
    {
        let mut out: Vec<Option<usize>> = Vec::new();
        let mut i: usize = 0;
        while i < functions.len()
            invariant
                matcher.wf(),
                i <= functions@.len(),
                out@.len() == i,
                forall|k: int|
                    0 <= k < i ==> (match #[trigger] out@[k] {
                        Some(p) => Some(p as int),
                        None => None,
                    }) == match_choice(
                        matcher.functions@,
                        index_entries(matcher.index),
                        function_fingerprint(functions@[k].blocks@, *layout),
                        span_of(functions@[k].lowest, functions@[k].highest),
                        functions@[k].call_sites@,
                    ),
            decreases functions@.len() - i,
        {
            let m = matcher.match_function(&functions[i], layout);
            out.push(m);
            i += 1;
        }
        out
    }
}

} // verus!
