//! The bundle byte format: a magic word and a version, then every function and
//! every type descriptor, each field written in a fixed order. Integers are
//! big-endian, strings are UTF-8 behind a byte count, lists are behind an item
//! count, optional values and type classes behind a tag byte.
use vstd::prelude::*;
use vstd::utf8::{
    decode_utf8, encode_utf8, encode_utf8_decode_utf8, encode_utf8_valid_utf8, valid_utf8,
};

use crate::guid::{FunctionGUID, TypeGUID};
use crate::signature::{
    constraints_view, lemma_types_view, string_opt_view, type_view, types_view, ComputedType,
    ComputedTypeV, ConstraintV, DataV, FunctionConstraint, FunctionV, SignatureData,
    SignatureFunction, Symbol, SymbolKind, SymbolV, TypeClass, TypeClassV, TypeDescriptor, TypeV,
};

verus! {

/// `b` holds `e` starting at position `p`.
pub open spec fn matches_at(b: Seq<u8>, p: int, e: Seq<u8>) -> bool {
    0 <= p && p + e.len() <= b.len() && b.subrange(p, p + e.len()) == e
}

proof fn lemma_matches_split(b: Seq<u8>, p: int, e1: Seq<u8>, e2: Seq<u8>)
    requires
        matches_at(b, p, e1 + e2),
    ensures
        matches_at(b, p, e1),
        matches_at(b, p + e1.len(), e2),
{
    assert(b.subrange(p, p + e1.len()) =~= (e1 + e2).subrange(0, e1.len() as int));
    assert((e1 + e2).subrange(0, e1.len() as int) =~= e1);
    assert(b.subrange(p + e1.len(), p + e1.len() + e2.len()) =~= (e1 + e2).subrange(
        e1.len() as int,
        (e1 + e2).len() as int,
    ));
    assert((e1 + e2).subrange(e1.len() as int, (e1 + e2).len() as int) =~= e2);
}

pub open spec fn enc_u64(x: u64) -> Seq<u8> {
    Seq::new(8, |i: int| ((x >> ((56 - 8 * i) as u64)) & 0xff) as u8)
}

/// The big-endian `u64` in the eight bytes at `p`.
pub open spec fn u64_at(b: Seq<u8>, p: int) -> u64 {
    ((b[p] as u64) << 56u64) | ((b[p + 1] as u64) << 48u64) | ((b[p + 2] as u64) << 40u64) | ((b[p
        + 3] as u64) << 32u64) | ((b[p + 4] as u64) << 24u64) | ((b[p + 5] as u64) << 16u64) | ((b[p
        + 6] as u64) << 8u64) | (b[p + 7] as u64)
}

pub open spec fn dec_u64(b: Seq<u8>, p: int) -> Option<(u64, int)> {
    if 0 <= p && p + 8 <= b.len() {
        Some((u64_at(b, p), p + 8))
    } else {
        None
    }
}

proof fn lemma_u64_round_trip(b: Seq<u8>, p: int, x: u64)
    requires
        matches_at(b, p, enc_u64(x)),
    ensures
        dec_u64(b, p) == Some((x, p + 8)),
{
    assert forall|i: int| 0 <= i < 8 implies b[p + i] == enc_u64(x)[i] by {
        assert(b.subrange(p, p + 8)[i] == b[p + i]);
    }
    let b0 = ((x >> 56u64) & 0xff) as u8;
    let b1 = ((x >> 48u64) & 0xff) as u8;
    let b2 = ((x >> 40u64) & 0xff) as u8;
    let b3 = ((x >> 32u64) & 0xff) as u8;
    let b4 = ((x >> 24u64) & 0xff) as u8;
    let b5 = ((x >> 16u64) & 0xff) as u8;
    let b6 = ((x >> 8u64) & 0xff) as u8;
    let b7 = ((x >> 0u64) & 0xff) as u8;
    assert(enc_u64(x)[0] == b0 && enc_u64(x)[1] == b1 && enc_u64(x)[2] == b2 && enc_u64(x)[3] == b3);
    assert(enc_u64(x)[4] == b4 && enc_u64(x)[5] == b5 && enc_u64(x)[6] == b6 && enc_u64(x)[7] == b7);
    assert(b[p] == b0 && b[p + 1] == b1 && b[p + 2] == b2 && b[p + 3] == b3);
    assert(b[p + 4] == b4 && b[p + 5] == b5 && b[p + 6] == b6 && b[p + 7] == b7);
    assert(((b0 as u64) << 56u64) | ((b1 as u64) << 48u64) | ((b2 as u64) << 40u64) | ((b3 as u64)
        << 32u64) | ((b4 as u64) << 24u64) | ((b5 as u64) << 16u64) | ((b6 as u64) << 8u64) | (b7 as u64)
        == x) by (bit_vector)
        requires
            b0 == ((x >> 56u64) & 0xff) as u8,
            b1 == ((x >> 48u64) & 0xff) as u8,
            b2 == ((x >> 40u64) & 0xff) as u8,
            b3 == ((x >> 32u64) & 0xff) as u8,
            b4 == ((x >> 24u64) & 0xff) as u8,
            b5 == ((x >> 16u64) & 0xff) as u8,
            b6 == ((x >> 8u64) & 0xff) as u8,
            b7 == ((x >> 0u64) & 0xff) as u8,
    ;
}

fn push_u64(out: &mut Vec<u8>, x: u64)
    ensures
        final(out)@ == old(out)@ + enc_u64(x),
{
    let ghost start = out@;
    let mut i: usize = 0;
    while i < 8
        invariant
            i <= 8,
            out@ == start + enc_u64(x).take(i as int),
        decreases 8 - i,
    {
        let shift: u64 = (56 - 8 * i) as u64;
        out.push(((x >> shift) & 0xff) as u8);
        assert(enc_u64(x).take(i + 1) =~= enc_u64(x).take(i as int).push(((x >> shift) & 0xff) as u8));
        i += 1;
    }
    assert(enc_u64(x).take(8) =~= enc_u64(x));
}

fn read_u64(b: &[u8], p: usize) -> (r: Option<(u64, usize)>)
    ensures
        match r {
            Some((x, q)) => dec_u64(b@, p as int) == Some((x, q as int)),
            None => dec_u64(b@, p as int) is None,
        },
{
    if p > b.len() || b.len() - p < 8 {
        return None;
    }
    let x = ((b[p] as u64) << 56u64) | ((b[p + 1] as u64) << 48u64) | ((b[p + 2] as u64) << 40u64) | ((
    b[p + 3] as u64) << 32u64) | ((b[p + 4] as u64) << 24u64) | ((b[p + 5] as u64) << 16u64) | ((b[p
        + 6] as u64) << 8u64) | (b[p + 7] as u64);
    Some((x, p + 8))
}


pub open spec fn dec_byte(b: Seq<u8>, p: int) -> Option<(u8, int)> {
    if 0 <= p < b.len() {
        Some((b[p], p + 1))
    } else {
        None
    }
}

proof fn lemma_byte_round_trip(b: Seq<u8>, p: int, x: u8)
    requires
        matches_at(b, p, seq![x]),
    ensures
        dec_byte(b, p) == Some((x, p + 1)),
{
    assert(b.subrange(p, p + 1)[0] == b[p]);
}

fn read_byte(b: &[u8], p: usize) -> (r: Option<(u8, usize)>)
    ensures
        match r {
            Some((x, q)) => dec_byte(b@, p as int) == Some((x, q as int)),
            None => dec_byte(b@, p as int) is None,
        },
{
    if p < b.len() {
        Some((b[p], p + 1))
    } else {
        None
    }
}

pub open spec fn enc_u128(x: u128) -> Seq<u8> {
    enc_u64((x >> 64u128) as u64) + enc_u64((x & 0xffff_ffff_ffff_ffffu128) as u64)
}

pub open spec fn dec_u128(b: Seq<u8>, p: int) -> Option<(u128, int)> {
    match dec_u64(b, p) {
        Some((hi, p1)) => match dec_u64(b, p1) {
            Some((lo, p2)) => Some((((hi as u128) << 64u128) | (lo as u128), p2)),
            None => None,
        },
        None => None,
    }
}

proof fn lemma_u128_round_trip(b: Seq<u8>, p: int, x: u128)
    requires
        matches_at(b, p, enc_u128(x)),
    ensures
        dec_u128(b, p) == Some((x, p + 16)),
{
    let hi = (x >> 64u128) as u64;
    let lo = (x & 0xffff_ffff_ffff_ffffu128) as u64;
    lemma_matches_split(b, p, enc_u64(hi), enc_u64(lo));
    lemma_u64_round_trip(b, p, hi);
    lemma_u64_round_trip(b, p + 8, lo);
    assert(((hi as u128) << 64u128) | (lo as u128) == x) by (bit_vector)
        requires
            hi == (x >> 64u128) as u64,
            lo == (x & 0xffff_ffff_ffff_ffffu128) as u64,
    ;
}

fn push_u128(out: &mut Vec<u8>, x: u128)
    ensures
        final(out)@ == old(out)@ + enc_u128(x),
{
    let ghost start = out@;
    push_u64(out, (x >> 64u128) as u64);
    push_u64(out, (x & 0xffff_ffff_ffff_ffffu128) as u64);
    assert(out@ =~= start + enc_u128(x));
}

fn read_u128(b: &[u8], p: usize) -> (r: Option<(u128, usize)>)
    ensures
        match r {
            Some((x, q)) => dec_u128(b@, p as int) == Some((x, q as int)),
            None => dec_u128(b@, p as int) is None,
        },
{
    let (hi, p1) = match read_u64(b, p) {
        Some(v) => v,
        None => return None,
    };
    let (lo, p2) = match read_u64(b, p1) {
        Some(v) => v,
        None => return None,
    };
    Some((((hi as u128) << 64u128) | (lo as u128), p2))
}

/// A string: its UTF-8 byte count, then the bytes.
pub open spec fn enc_str(s: Seq<char>) -> Seq<u8> {
    enc_u64(encode_utf8(s).len() as u64) + encode_utf8(s)
}

pub open spec fn str_fits(s: Seq<char>) -> bool {
    encode_utf8(s).len() <= u64::MAX
}

pub open spec fn dec_str(b: Seq<u8>, p: int) -> Option<(Seq<char>, int)> {
    match dec_u64(b, p) {
        Some((n, p1)) => if p1 + n <= b.len() && valid_utf8(b.subrange(p1, p1 + n)) {
            Some((decode_utf8(b.subrange(p1, p1 + n)), p1 + n))
        } else {
            None
        },
        None => None,
    }
}

proof fn lemma_str_round_trip(b: Seq<u8>, p: int, s: Seq<char>)
    requires
        str_fits(s),
        matches_at(b, p, enc_str(s)),
    ensures
        dec_str(b, p) == Some((s, p + enc_str(s).len())),
{
    let e = encode_utf8(s);
    lemma_matches_split(b, p, enc_u64(e.len() as u64), e);
    lemma_u64_round_trip(b, p, e.len() as u64);
    encode_utf8_valid_utf8(s);
    encode_utf8_decode_utf8(s);
}

/// Relies on `std::str::from_utf8`: it accepts exactly the valid UTF-8 byte
/// sequences, and the string it gives has those bytes.
#[verifier::external_body]
fn utf8_to_string(b: &[u8]) -> (r: Option<String>)
    ensures
        r is Some <==> valid_utf8(b@),
        r matches Some(s) ==> encode_utf8(s@) == b@,
{
    match std::str::from_utf8(b) {
        Ok(s) => Some(s.to_string()),
        Err(_) => None,
    }
}

fn push_bytes(out: &mut Vec<u8>, bytes: &[u8])
    ensures
        final(out)@ == old(out)@ + bytes@,
{
    let ghost start = out@;
    let mut i: usize = 0;
    while i < bytes.len()
        invariant
            i <= bytes@.len(),
            out@ == start + bytes@.take(i as int),
        decreases bytes@.len() - i,
    {
        out.push(bytes[i]);
        assert(bytes@.take(i + 1) =~= bytes@.take(i as int).push(bytes@[i as int]));
        i += 1;
    }
    assert(bytes@.take(i as int) =~= bytes@);
}

fn push_str(out: &mut Vec<u8>, s: &String)
    ensures
        final(out)@ == old(out)@ + enc_str(s@),
        str_fits(s@),
{
    let ghost start = out@;
    let bytes = s.as_str().as_bytes();
    assert(bytes@ == encode_utf8(s@));
    push_u64(out, bytes.len() as u64);
    push_bytes(out, bytes);
    assert(out@ =~= start + enc_str(s@));
}

fn read_str(b: &[u8], p: usize) -> (r: Option<(String, usize)>)
    ensures
        match r {
            Some((x, q)) => dec_str(b@, p as int) == Some((x@, q as int)),
            None => dec_str(b@, p as int) is None,
        },
{
    let (n, p1) = match read_u64(b, p) {
        Some(v) => v,
        None => return None,
    };
    if p1 > b.len() || ((b.len() - p1) as u64) < n {
        return None;
    }
    let end: usize = p1 + n as usize;
    let mut bytes: Vec<u8> = Vec::new();
    let mut i: usize = p1;
    while i < end
        invariant
            p1 <= i <= end <= b@.len(),
            bytes@ == b@.subrange(p1 as int, i as int),
        decreases end - i,
    {
        bytes.push(b[i]);
        assert(b@.subrange(p1 as int, i + 1) =~= b@.subrange(p1 as int, i as int).push(b@[i as int]));
        i += 1;
    }
    match utf8_to_string(bytes.as_slice()) {
        Some(st) => {
            proof {
                vstd::utf8::decode_utf8_encode_utf8(bytes@);
                encode_utf8_decode_utf8(st@);
            }
            Some((st, end))
        },
        None => None,
    }
}

pub open spec fn enc_opt_str(o: Option<Seq<char>>) -> Seq<u8> {
    match o {
        None => seq![0u8],
        Some(s) => seq![1u8] + enc_str(s),
    }
}

pub open spec fn opt_str_fits(o: Option<Seq<char>>) -> bool {
    o matches Some(s) ==> str_fits(s)
}

pub open spec fn dec_opt_str(b: Seq<u8>, p: int) -> Option<(Option<Seq<char>>, int)> {
    match dec_byte(b, p) {
        Some((0, p1)) => Some((None, p1)),
        Some((1, p1)) => match dec_str(b, p1) {
            Some((s, p2)) => Some((Some(s), p2)),
            None => None,
        },
        _ => None,
    }
}

proof fn lemma_opt_str_round_trip(b: Seq<u8>, p: int, o: Option<Seq<char>>)
    requires
        opt_str_fits(o),
        matches_at(b, p, enc_opt_str(o)),
    ensures
        dec_opt_str(b, p) == Some((o, p + enc_opt_str(o).len())),
{
    match o {
        None => lemma_byte_round_trip(b, p, 0),
        Some(s) => {
            lemma_matches_split(b, p, seq![1u8], enc_str(s));
            lemma_byte_round_trip(b, p, 1);
            lemma_str_round_trip(b, p + 1, s);
        },
    }
}

fn push_opt_str(out: &mut Vec<u8>, o: &Option<String>)
    ensures
        final(out)@ == old(out)@ + enc_opt_str(string_opt_view(*o)),
        opt_str_fits(string_opt_view(*o)),
{
    let ghost start = out@;
    match o {
        None => {
            out.push(0u8);
        },
        Some(s) => {
            out.push(1u8);
            push_str(out, s);
        },
    }
    assert(out@ =~= start + enc_opt_str(string_opt_view(*o)));
}

fn read_opt_str(b: &[u8], p: usize) -> (r: Option<(Option<String>, usize)>)
    ensures
        match r {
            Some((x, q)) => dec_opt_str(b@, p as int) == Some(
                (string_opt_view(x), q as int),
            ),
            None => dec_opt_str(b@, p as int) is None,
        },
{
    match read_byte(b, p) {
        Some((0, p1)) => Some((None, p1)),
        Some((1, p1)) => match read_str(b, p1) {
            Some((s, p2)) => Some((Some(s), p2)),
            None => None,
        },
        _ => None,
    }
}

pub open spec fn enc_opt_u128(o: Option<u128>) -> Seq<u8> {
    match o {
        None => seq![0u8],
        Some(x) => seq![1u8] + enc_u128(x),
    }
}

pub open spec fn dec_opt_u128(b: Seq<u8>, p: int) -> Option<(Option<u128>, int)> {
    match dec_byte(b, p) {
        Some((0, p1)) => Some((None, p1)),
        Some((1, p1)) => match dec_u128(b, p1) {
            Some((x, p2)) => Some((Some(x), p2)),
            None => None,
        },
        _ => None,
    }
}

proof fn lemma_opt_u128_round_trip(b: Seq<u8>, p: int, o: Option<u128>)
    requires
        matches_at(b, p, enc_opt_u128(o)),
    ensures
        dec_opt_u128(b, p) == Some((o, p + enc_opt_u128(o).len())),
{
    match o {
        None => lemma_byte_round_trip(b, p, 0),
        Some(x) => {
            lemma_matches_split(b, p, seq![1u8], enc_u128(x));
            lemma_byte_round_trip(b, p, 1);
            lemma_u128_round_trip(b, p + 1, x);
        },
    }
}

fn push_opt_u128(out: &mut Vec<u8>, o: Option<u128>)
    ensures
        final(out)@ == old(out)@ + enc_opt_u128(o),
{
    let ghost start = out@;
    match o {
        None => {
            out.push(0u8);
        },
        Some(x) => {
            out.push(1u8);
            push_u128(out, x);
        },
    }
    assert(out@ =~= start + enc_opt_u128(o));
}

fn read_opt_u128(b: &[u8], p: usize) -> (r: Option<(Option<u128>, usize)>)
    ensures
        match r {
            Some((x, q)) => dec_opt_u128(b@, p as int) == Some((x, q as int)),
            None => dec_opt_u128(b@, p as int) is None,
        },
{
    match read_byte(b, p) {
        Some((0, p1)) => Some((None, p1)),
        Some((1, p1)) => match read_u128(b, p1) {
            Some((x, p2)) => Some((Some(x), p2)),
            None => None,
        },
        _ => None,
    }
}

pub open spec fn kind_tag(k: SymbolKind) -> u8 {
    match k {
        SymbolKind::Normal => 0,
        SymbolKind::Library => 1,
        SymbolKind::Import => 2,
        SymbolKind::Export => 3,
        SymbolKind::Data => 4,
    }
}

pub open spec fn kind_of_tag(t: u8) -> Option<SymbolKind> {
    if t == 0 {
        Some(SymbolKind::Normal)
    } else if t == 1 {
        Some(SymbolKind::Library)
    } else if t == 2 {
        Some(SymbolKind::Import)
    } else if t == 3 {
        Some(SymbolKind::Export)
    } else if t == 4 {
        Some(SymbolKind::Data)
    } else {
        None
    }
}

/// A symbol: its name, then its classification.
pub open spec fn enc_symbol(s: SymbolV) -> Seq<u8> {
    enc_str(s.name) + seq![kind_tag(s.kind)]
}

pub open spec fn dec_symbol(b: Seq<u8>, p: int) -> Option<(SymbolV, int)> {
    match dec_str(b, p) {
        Some((name, p1)) => match dec_byte(b, p1) {
            Some((t, p2)) => match kind_of_tag(t) {
                Some(kind) => Some((SymbolV { name, kind }, p2)),
                None => None,
            },
            None => None,
        },
        None => None,
    }
}

proof fn lemma_symbol_round_trip(b: Seq<u8>, p: int, s: SymbolV)
    requires
        str_fits(s.name),
        matches_at(b, p, enc_symbol(s)),
    ensures
        dec_symbol(b, p) == Some((s, p + enc_symbol(s).len())),
{
    lemma_matches_split(b, p, enc_str(s.name), seq![kind_tag(s.kind)]);
    lemma_str_round_trip(b, p, s.name);
    lemma_byte_round_trip(b, p + enc_str(s.name).len(), kind_tag(s.kind));
}

fn push_symbol(out: &mut Vec<u8>, s: &Symbol)
    ensures
        final(out)@ == old(out)@ + enc_symbol(s@),
        str_fits(s@.name),
{
    let ghost start = out@;
    push_str(out, &s.name);
    let t: u8 = match s.kind {
        SymbolKind::Normal => 0,
        SymbolKind::Library => 1,
        SymbolKind::Import => 2,
        SymbolKind::Export => 3,
        SymbolKind::Data => 4,
    };
    out.push(t);
    assert(out@ =~= start + enc_symbol(s@));
}

fn read_symbol(b: &[u8], p: usize) -> (r: Option<(Symbol, usize)>)
    ensures
        match r {
            Some((x, q)) => dec_symbol(b@, p as int) == Some((x@, q as int)),
            None => dec_symbol(b@, p as int) is None,
        },
{
    let (name, p1) = match read_str(b, p) {
        Some(v) => v,
        None => return None,
    };
    let (t, p2) = match read_byte(b, p1) {
        Some(v) => v,
        None => return None,
    };
    let kind = if t == 0 {
        SymbolKind::Normal
    } else if t == 1 {
        SymbolKind::Library
    } else if t == 2 {
        SymbolKind::Import
    } else if t == 3 {
        SymbolKind::Export
    } else if t == 4 {
        SymbolKind::Data
    } else {
        return None;
    };
    Some((Symbol { name, kind }, p2))
}

pub open spec fn enc_opt_symbol(o: Option<SymbolV>) -> Seq<u8> {
    match o {
        None => seq![0u8],
        Some(s) => seq![1u8] + enc_symbol(s),
    }
}

pub open spec fn dec_opt_symbol(b: Seq<u8>, p: int) -> Option<(Option<SymbolV>, int)> {
    match dec_byte(b, p) {
        Some((0, p1)) => Some((None, p1)),
        Some((1, p1)) => match dec_symbol(b, p1) {
            Some((s, p2)) => Some((Some(s), p2)),
            None => None,
        },
        _ => None,
    }
}

pub open spec fn guid_opt_value(o: Option<FunctionGUID>) -> Option<u128> {
    match o {
        Some(g) => Some(g.guid),
        None => None,
    }
}

/// A constraint: its optional fingerprint, then its optional symbol.
pub open spec fn enc_constraint(c: ConstraintV) -> Seq<u8> {
    enc_opt_u128(guid_opt_value(c.guid)) + enc_opt_symbol(c.symbol)
}

pub open spec fn constraint_fits(c: ConstraintV) -> bool {
    c.symbol matches Some(s) ==> str_fits(s.name)
}

pub open spec fn dec_constraint(b: Seq<u8>, p: int) -> Option<(ConstraintV, int)> {
    match dec_opt_u128(b, p) {
        Some((g, p1)) => match dec_opt_symbol(b, p1) {
            Some((s, p2)) => Some(
                (
                    ConstraintV {
                        guid: match g {
                            Some(x) => Some(FunctionGUID { guid: x }),
                            None => None,
                        },
                        symbol: s,
                    },
                    p2,
                ),
            ),
            None => None,
        },
        None => None,
    }
}

pub proof fn lemma_constraint_round_trip(b: Seq<u8>, p: int, c: ConstraintV)
    requires
        constraint_fits(c),
        matches_at(b, p, enc_constraint(c)),
    ensures
        dec_constraint(b, p) == Some((c, p + enc_constraint(c).len())),
{
    let e1 = enc_opt_u128(guid_opt_value(c.guid));
    lemma_matches_split(b, p, e1, enc_opt_symbol(c.symbol));
    lemma_opt_u128_round_trip(b, p, guid_opt_value(c.guid));
    match c.symbol {
        None => lemma_byte_round_trip(b, p + e1.len(), 0),
        Some(s) => {
            lemma_matches_split(b, p + e1.len(), seq![1u8], enc_symbol(s));
            lemma_byte_round_trip(b, p + e1.len(), 1);
            lemma_symbol_round_trip(b, p + e1.len() + 1, s);
        },
    }
}

fn push_constraint(out: &mut Vec<u8>, c: &FunctionConstraint)
    ensures
        final(out)@ == old(out)@ + enc_constraint(c@),
        constraint_fits(c@),
{
    let ghost start = out@;
    let g = match c.guid {
        Some(x) => Some(x.guid),
        None => None,
    };
    push_opt_u128(out, g);
    match &c.symbol {
        None => {
            out.push(0u8);
        },
        Some(s) => {
            out.push(1u8);
            push_symbol(out, s);
        },
    }
    assert(out@ =~= start + enc_constraint(c@));
}

fn read_constraint(b: &[u8], p: usize) -> (r: Option<(FunctionConstraint, usize)>)
    ensures
        match r {
            Some((x, q)) => dec_constraint(b@, p as int) == Some((x@, q as int)),
            None => dec_constraint(b@, p as int) is None,
        },
{
    let (g, p1) = match read_opt_u128(b, p) {
        Some(v) => v,
        None => return None,
    };
    let (s, p2) = match read_byte(b, p1) {
        Some((0, q)) => (None, q),
        Some((1, q)) => match read_symbol(b, q) {
            Some((sym, q2)) => (Some(sym), q2),
            None => return None,
        },
        _ => return None,
    };
    let guid = match g {
        Some(x) => Some(FunctionGUID { guid: x }),
        None => None,
    };
    Some((FunctionConstraint { guid, symbol: s }, p2))
}


pub open spec fn type_guid_value(o: Option<TypeGUID>) -> Option<u128> {
    match o {
        Some(g) => Some(g.guid),
        None => None,
    }
}

/// A type descriptor: a class tag and the class's fields, then the optional name.
pub open spec fn enc_type(t: TypeV) -> Seq<u8>
    decreases t,
{
    let class = match t.class {
        TypeClassV::Void => seq![0u8],
        TypeClassV::Boolean => seq![1u8],
        TypeClassV::Integer { width, signed } => seq![2u8] + enc_u64(width as u64) + seq![
            if signed {
                1u8
            } else {
                0u8
            },
        ],
        TypeClassV::Float { width } => seq![3u8] + enc_u64(width as u64),
        TypeClassV::Character { width } => seq![4u8] + enc_u64(width as u64),
        TypeClassV::Pointer(c) => seq![5u8] + enc_type(*c),
        TypeClassV::Array { member, count } => seq![6u8] + enc_u64(count) + enc_type(*member),
        TypeClassV::Structure(ts) => seq![7u8] + enc_u64(ts.len() as u64) + enc_type_list(ts),
        TypeClassV::Union(ts) => seq![8u8] + enc_u64(ts.len() as u64) + enc_type_list(ts),
        TypeClassV::Enumeration(c) => seq![9u8] + enc_type(*c),
        TypeClassV::Function { outs, ins } => seq![10u8] + enc_u64(outs.len() as u64)
            + enc_type_list(outs) + enc_u64(ins.len() as u64) + enc_type_list(ins),
        TypeClassV::Referrer { guid, name } => seq![11u8] + enc_opt_u128(type_guid_value(guid))
            + enc_opt_str(name),
    };
    class + enc_opt_str(t.name)
}

pub open spec fn enc_type_list(ts: Seq<TypeV>) -> Seq<u8>
    decreases ts,
{
    if ts.len() == 0 {
        Seq::empty()
    } else {
        enc_type(ts[0]) + enc_type_list(ts.drop_first())
    }
}

/// Every length in the descriptor fits the 64-bit counts of the format.
pub open spec fn type_fits(t: TypeV) -> bool
    decreases t,
{
    &&& opt_str_fits(t.name)
    &&& match t.class {
        TypeClassV::Pointer(c) => type_fits(*c),
        TypeClassV::Array { member, count } => type_fits(*member),
        TypeClassV::Structure(ts) => types_fit(ts),
        TypeClassV::Union(ts) => types_fit(ts),
        TypeClassV::Enumeration(c) => type_fits(*c),
        TypeClassV::Function { outs, ins } => types_fit(outs) && types_fit(ins),
        TypeClassV::Referrer { guid, name } => opt_str_fits(name),
        _ => true,
    }
}

pub open spec fn types_fit(ts: Seq<TypeV>) -> bool
    decreases ts,
{
    &&& ts.len() <= u64::MAX
    &&& ts.len() > 0 ==> type_fits(ts[0]) && types_fit(ts.drop_first())
}

pub open spec fn dec_width(b: Seq<u8>, p: int) -> Option<(u16, int)> {
    match dec_u64(b, p) {
        Some((w, q)) => if w <= 0xffff {
            Some((w as u16, q))
        } else {
            None
        },
        None => None,
    }
}

pub open spec fn dec_class(b: Seq<u8>, p: int) -> Option<(TypeClassV, int)>
    decreases b.len() - p, 1nat,
{
    if !(0 <= p < b.len()) {
        None
    } else {
        let tag = b[p];
        if tag == 0 {
            Some((TypeClassV::Void, p + 1))
        } else if tag == 1 {
            Some((TypeClassV::Boolean, p + 1))
        } else if tag == 2 {
            match dec_width(b, p + 1) {
                Some((w, p2)) => match dec_byte(b, p2) {
                    Some((sb, p3)) => if sb <= 1 {
                        Some((TypeClassV::Integer { width: w, signed: sb == 1 }, p3))
                    } else {
                        None
                    },
                    None => None,
                },
                None => None,
            }
        } else if tag == 3 {
            match dec_width(b, p + 1) {
                Some((w, p2)) => Some((TypeClassV::Float { width: w }, p2)),
                None => None,
            }
        } else if tag == 4 {
            match dec_width(b, p + 1) {
                Some((w, p2)) => Some((TypeClassV::Character { width: w }, p2)),
                None => None,
            }
        } else if tag == 5 {
            match dec_type(b, p + 1) {
                Some((c, p2)) => Some((TypeClassV::Pointer(Box::new(c)), p2)),
                None => None,
            }
        } else if tag == 6 {
            if p + 9 <= b.len() {
                match dec_type(b, p + 9) {
                    Some((c, p2)) => Some(
                        (TypeClassV::Array { member: Box::new(c), count: u64_at(b, p + 1) }, p2),
                    ),
                    None => None,
                }
            } else {
                None
            }
        } else if tag == 7 || tag == 8 {
            if p + 9 <= b.len() {
                match dec_list(b, p + 9, u64_at(b, p + 1) as nat) {
                    Some((ts, p2)) => Some(
                        (
                            if tag == 7 {
                                TypeClassV::Structure(ts)
                            } else {
                                TypeClassV::Union(ts)
                            },
                            p2,
                        ),
                    ),
                    None => None,
                }
            } else {
                None
            }
        } else if tag == 9 {
            match dec_type(b, p + 1) {
                Some((c, p2)) => Some((TypeClassV::Enumeration(Box::new(c)), p2)),
                None => None,
            }
        } else if tag == 10 {
            if p + 9 <= b.len() {
                match dec_list(b, p + 9, u64_at(b, p + 1) as nat) {
                    Some((outs, p2)) => if p < p2 && p2 + 8 <= b.len() {
                        match dec_list(b, p2 + 8, u64_at(b, p2) as nat) {
                            Some((ins, p3)) => Some((TypeClassV::Function { outs, ins }, p3)),
                            None => None,
                        }
                    } else {
                        None
                    },
                    None => None,
                }
            } else {
                None
            }
        } else if tag == 11 {
            match dec_opt_u128(b, p + 1) {
                Some((g, p2)) => match dec_opt_str(b, p2) {
                    Some((name, p3)) => Some(
                        (
                            TypeClassV::Referrer {
                                guid: match g {
                                    Some(x) => Some(TypeGUID { guid: x }),
                                    None => None,
                                },
                                name,
                            },
                            p3,
                        ),
                    ),
                    None => None,
                },
                None => None,
            }
        } else {
            None
        }
    }
}

pub open spec fn dec_type(b: Seq<u8>, p: int) -> Option<(TypeV, int)>
    decreases b.len() - p, 2nat,
{
    if !(0 <= p < b.len()) {
        None
    } else {
        match dec_class(b, p) {
            Some((class, p2)) => match dec_opt_str(b, p2) {
                Some((name, p3)) => Some((TypeV { name, class }, p3)),
                None => None,
            },
            None => None,
        }
    }
}

/// `n` type descriptors one after the other.
pub open spec fn dec_list(b: Seq<u8>, p: int, n: nat) -> Option<(Seq<TypeV>, int)>
    decreases b.len() - p, n + 3,
{
    if n == 0 {
        Some((Seq::empty(), p))
    } else if !(0 <= p <= b.len()) {
        None
    } else {
        match dec_type(b, p) {
            Some((t, p2)) => if p <= p2 <= b.len() {
                match dec_list(b, p2, (n - 1) as nat) {
                    Some((rest, p3)) => Some((seq![t] + rest, p3)),
                    None => None,
                }
            } else {
                None
            },
            None => None,
        }
    }
}


proof fn lemma_width_round_trip(b: Seq<u8>, p: int, w: u16)
    requires
        matches_at(b, p, enc_u64(w as u64)),
    ensures
        dec_width(b, p) == Some((w, p + 8)),
{
    lemma_u64_round_trip(b, p, w as u64);
}

proof fn lemma_tag_at(b: Seq<u8>, p: int, t: u8, rest: Seq<u8>)
    requires
        matches_at(b, p, seq![t] + rest),
    ensures
        matches_at(b, p + 1, rest),
        0 <= p < b.len(),
        b[p] == t,
{
    lemma_matches_split(b, p, seq![t], rest);
    lemma_byte_round_trip(b, p, t);
}

#[verifier::spinoff_prover]
#[verifier::rlimit(60)]
proof fn lemma_type_round_trip(b: Seq<u8>, p: int, t: TypeV)
    requires
        type_fits(t),
        matches_at(b, p, enc_type(t)),
    ensures
        dec_type(b, p) == Some((t, p + enc_type(t).len())),
    decreases t, 1nat,
{
    let e = enc_type(t);
    let name = enc_opt_str(t.name);
    let cls = e.subrange(0, e.len() - name.len());
    assert(e =~= cls + name);
    lemma_matches_split(b, p, cls, name);
    let q = p + cls.len();
    match t.class {
        TypeClassV::Void => {
            assert(cls =~= seq![0u8] + Seq::<u8>::empty());
            lemma_tag_at(b, p, 0u8, Seq::<u8>::empty());
            assert(dec_class(b, p) == Some((t.class, q)));
        },
        TypeClassV::Boolean => {
            assert(cls =~= seq![1u8] + Seq::<u8>::empty());
            lemma_tag_at(b, p, 1u8, Seq::<u8>::empty());
            assert(dec_class(b, p) == Some((t.class, q)));
        },
        TypeClassV::Integer { width, signed } => {
            let sb: u8 = if signed {
                1u8
            } else {
                0u8
            };
            assert(cls =~= seq![2u8] + (enc_u64(width as u64) + seq![sb]));
            lemma_tag_at(b, p, 2u8, enc_u64(width as u64) + seq![sb]);
            lemma_matches_split(b, p + 1, enc_u64(width as u64), seq![sb]);
            lemma_width_round_trip(b, p + 1, width);
            lemma_byte_round_trip(b, p + 9, sb);
            assert(dec_class(b, p) == Some((t.class, q)));
        },
        TypeClassV::Float { width } => {
            assert(cls =~= seq![3u8] + enc_u64(width as u64));
            lemma_tag_at(b, p, 3u8, enc_u64(width as u64));
            lemma_width_round_trip(b, p + 1, width);
            assert(dec_class(b, p) == Some((t.class, q)));
        },
        TypeClassV::Character { width } => {
            assert(cls =~= seq![4u8] + enc_u64(width as u64));
            lemma_tag_at(b, p, 4u8, enc_u64(width as u64));
            lemma_width_round_trip(b, p + 1, width);
            assert(dec_class(b, p) == Some((t.class, q)));
        },
        TypeClassV::Pointer(c) => {
            assert(cls =~= seq![5u8] + enc_type(*c));
            lemma_tag_at(b, p, 5u8, enc_type(*c));
            lemma_type_round_trip(b, p + 1, *c);
            assert(dec_class(b, p) == Some((t.class, q)));
        },
        TypeClassV::Array { member, count } => {
            assert(cls =~= seq![6u8] + (enc_u64(count) + enc_type(*member)));
            lemma_tag_at(b, p, 6u8, enc_u64(count) + enc_type(*member));
            lemma_matches_split(b, p + 1, enc_u64(count), enc_type(*member));
            lemma_u64_round_trip(b, p + 1, count);
            lemma_type_round_trip(b, p + 9, *member);
            assert(dec_class(b, p) == Some((t.class, q)));
        },
        TypeClassV::Structure(ts) => {
            assert(cls =~= seq![7u8] + (enc_u64(ts.len() as u64) + enc_type_list(ts)));
            lemma_members_class_round_trip(b, p, t, ts, 7u8, cls);
        },
        TypeClassV::Union(ts) => {
            assert(cls =~= seq![8u8] + (enc_u64(ts.len() as u64) + enc_type_list(ts)));
            lemma_members_class_round_trip(b, p, t, ts, 8u8, cls);
        },
        TypeClassV::Enumeration(c) => {
            assert(cls =~= seq![9u8] + enc_type(*c));
            lemma_tag_at(b, p, 9u8, enc_type(*c));
            lemma_type_round_trip(b, p + 1, *c);
            assert(dec_class(b, p) == Some((t.class, q)));
        },
        TypeClassV::Function { outs, ins } => {
            assert(cls =~= seq![10u8] + enc_u64(outs.len() as u64) + enc_type_list(outs) + enc_u64(
                ins.len() as u64,
            ) + enc_type_list(ins));
            lemma_function_class_round_trip(b, p, t, cls);
        },
        TypeClassV::Referrer { guid, name: rname } => {
            let g = enc_opt_u128(type_guid_value(guid));
            assert(cls =~= seq![11u8] + (g + enc_opt_str(rname)));
            lemma_tag_at(b, p, 11u8, g + enc_opt_str(rname));
            lemma_matches_split(b, p + 1, g, enc_opt_str(rname));
            lemma_opt_u128_round_trip(b, p + 1, type_guid_value(guid));
            lemma_opt_str_round_trip(b, p + 1 + g.len(), rname);
            assert(dec_class(b, p) == Some((t.class, q)));
        },
    }
    assert(dec_class(b, p) == Some((t.class, q)));
    lemma_opt_str_round_trip(b, q, t.name);
}

proof fn lemma_members_class_round_trip(
    b: Seq<u8>,
    p: int,
    t: TypeV,
    ts: Seq<TypeV>,
    tag: u8,
    cls: Seq<u8>,
)
    requires
        tag == 7 && t.class == TypeClassV::Structure(ts) || tag == 8 && t.class
            == TypeClassV::Union(ts),
        type_fits(t),
        cls == seq![tag] + (enc_u64(ts.len() as u64) + enc_type_list(ts)),
        matches_at(b, p, cls),
    ensures
        dec_class(b, p) == Some((t.class, p + cls.len())),
    decreases t, 0nat,
{
    lemma_tag_at(b, p, tag, enc_u64(ts.len() as u64) + enc_type_list(ts));
    lemma_matches_split(b, p + 1, enc_u64(ts.len() as u64), enc_type_list(ts));
    lemma_u64_round_trip(b, p + 1, ts.len() as u64);
    assert(decreases_to!(t => t.class));
    lemma_list_round_trip(b, p + 9, ts);
    assert(types_fit(ts));
    assert(u64_at(b, p + 1) as nat == ts.len());
}

proof fn lemma_function_class_round_trip(b: Seq<u8>, p: int, t: TypeV, cls: Seq<u8>)
    requires
        t.class is Function,
        type_fits(t),
        cls == seq![10u8] + enc_u64(t.class->outs.len() as u64) + enc_type_list(t.class->outs)
            + enc_u64(t.class->ins.len() as u64) + enc_type_list(t.class->ins),
        matches_at(b, p, cls),
    ensures
        dec_class(b, p) == Some((t.class, p + cls.len())),
    decreases t, 0nat,
{
    let outs = t.class->outs;
    let ins = t.class->ins;
    let e1 = enc_u64(outs.len() as u64);
    let l1 = enc_type_list(outs);
    let e2 = enc_u64(ins.len() as u64);
    let l2 = enc_type_list(ins);
    assert(cls =~= seq![10u8] + (e1 + (l1 + (e2 + l2))));
    lemma_tag_at(b, p, 10u8, e1 + (l1 + (e2 + l2)));
    lemma_matches_split(b, p + 1, e1, l1 + (e2 + l2));
    lemma_matches_split(b, p + 9, l1, e2 + l2);
    lemma_matches_split(b, p + 9 + l1.len(), e2, l2);
    lemma_u64_round_trip(b, p + 1, outs.len() as u64);
    assert(decreases_to!(t => t.class));
    lemma_list_round_trip(b, p + 9, outs);
    let p2 = p + 9 + l1.len();
    lemma_u64_round_trip(b, p2, ins.len() as u64);
    lemma_list_round_trip(b, p2 + 8, ins);
    assert(types_fit(outs) && types_fit(ins));
    assert(outs.len() <= u64::MAX && ins.len() <= u64::MAX);
    assert(u64_at(b, p + 1) as nat == outs.len());
    assert(u64_at(b, p2) as nat == ins.len());
    assert(dec_list(b, p + 9, outs.len()) == Some((outs, p2)));
    assert(dec_list(b, p2 + 8, ins.len()) == Some((ins, p2 + 8 + l2.len())));
}

proof fn lemma_list_round_trip(b: Seq<u8>, p: int, ts: Seq<TypeV>)
    requires
        types_fit(ts),
        matches_at(b, p, enc_type_list(ts)),
    ensures
        dec_list(b, p, ts.len()) == Some((ts, p + enc_type_list(ts).len())),
    decreases ts, 1nat,
{
    if ts.len() > 0 {
        let first = enc_type(ts[0]);
        lemma_matches_split(b, p, first, enc_type_list(ts.drop_first()));
        lemma_type_round_trip(b, p, ts[0]);
        lemma_list_round_trip(b, p + first.len(), ts.drop_first());
        assert(seq![ts[0]] + ts.drop_first() =~= ts);
    }
}


proof fn lemma_enc_list_push(a: Seq<TypeV>, x: TypeV)
    ensures
        enc_type_list(a.push(x)) == enc_type_list(a) + enc_type(x),
    decreases a.len(),
{
    if a.len() == 0 {
        assert(a.push(x).drop_first() =~= Seq::<TypeV>::empty());
        assert(a.push(x)[0] == x);
        assert(enc_type_list(Seq::<TypeV>::empty()) =~= Seq::<u8>::empty());
        assert(enc_type_list(a.push(x)) =~= enc_type_list(a) + enc_type(x));
    } else {
        assert(a.push(x).drop_first() =~= a.drop_first().push(x));
        lemma_enc_list_push(a.drop_first(), x);
        assert(enc_type_list(a.push(x)) =~= enc_type_list(a) + enc_type(x));
    }
}

proof fn lemma_fit_list_push(a: Seq<TypeV>, x: TypeV)
    requires
        types_fit(a),
        type_fits(x),
        a.len() + 1 <= u64::MAX,
    ensures
        types_fit(a.push(x)),
    decreases a.len(),
{
    if a.len() == 0 {
        assert(a.push(x).drop_first() =~= Seq::<TypeV>::empty());
        assert(a.push(x)[0] == x);
        assert(types_fit(Seq::<TypeV>::empty()));
    } else {
        assert(a.push(x).drop_first() =~= a.drop_first().push(x));
        assert(a.push(x)[0] == a[0]);
        lemma_fit_list_push(a.drop_first(), x);
    }
}

fn push_type_list(out: &mut Vec<u8>, ts: &Vec<TypeDescriptor>)
    ensures
        final(out)@ == old(out)@ + enc_u64(types_view(ts@).len() as u64) + enc_type_list(
            types_view(ts@),
        ),
        types_fit(types_view(ts@)),
    decreases ts,
{
    proof {
        lemma_types_view(ts@);
    }
    let ghost start = out@;
    let n: usize = ts.len();
    push_u64(out, n as u64);
    let ghost mid = out@;
    let mut i: usize = 0;
    assert(types_view(ts@).take(0) =~= Seq::<TypeV>::empty());
    while i < n
        invariant
            n == ts@.len(),
            types_view(ts@).len() == n,
            forall|k: int| 0 <= k < n ==> #[trigger] types_view(ts@)[k] == type_view(ts@[k]),
            i <= n,
            out@ == mid + enc_type_list(types_view(ts@).take(i as int)),
            types_fit(types_view(ts@).take(i as int)),
        decreases n - i,
    {
        proof {
            assert(decreases_to!(*ts => ts@));
            assert(decreases_to!(ts@ => ts@[i as int]));
        }
        push_type(out, &ts[i]);
        proof {
            let vs = types_view(ts@);
            assert(vs.take(i + 1) =~= vs.take(i as int).push(vs[i as int]));
            lemma_enc_list_push(vs.take(i as int), vs[i as int]);
            lemma_fit_list_push(vs.take(i as int), vs[i as int]);
        }
        i += 1;
    }
    assert(types_view(ts@).take(n as int) =~= types_view(ts@));
}

pub(crate) fn push_type(out: &mut Vec<u8>, t: &TypeDescriptor)
    ensures
        final(out)@ == old(out)@ + enc_type(t@),
        type_fits(t@),
    decreases t,
{
    let ghost start = out@;
    match &t.class {
        TypeClass::Void => {
            out.push(0u8);
        },
        TypeClass::Boolean => {
            out.push(1u8);
        },
        TypeClass::Integer { width, signed } => {
            out.push(2u8);
            push_u64(out, *width as u64);
            out.push(if *signed { 1u8 } else { 0u8 });
        },
        TypeClass::Float { width } => {
            out.push(3u8);
            push_u64(out, *width as u64);
        },
        TypeClass::Character { width } => {
            out.push(4u8);
            push_u64(out, *width as u64);
        },
        TypeClass::Pointer(c) => {
            out.push(5u8);
            push_type(out, c);
        },
        TypeClass::Array { member, count } => {
            out.push(6u8);
            push_u64(out, *count);
            push_type(out, member);
        },
        TypeClass::Structure(ts) => {
            out.push(7u8);
            push_type_list(out, ts);
        },
        TypeClass::Union(ts) => {
            out.push(8u8);
            push_type_list(out, ts);
        },
        TypeClass::Enumeration(c) => {
            out.push(9u8);
            push_type(out, c);
        },
        TypeClass::Function { outs, ins } => {
            out.push(10u8);
            push_type_list(out, outs);
            push_type_list(out, ins);
        },
        TypeClass::Referrer { guid, name } => {
            out.push(11u8);
            let g = match guid {
                Some(x) => Some(x.guid),
                None => None,
            };
            push_opt_u128(out, g);
            push_opt_str(out, name);
        },
    }
    let ghost mid = out@;
    push_opt_str(out, &t.name);
    assert(out@ =~= start + enc_type(t@));
}


fn read_width(b: &[u8], p: usize) -> (r: Option<(u16, usize)>)
    ensures
        match r {
            Some((x, q)) => dec_width(b@, p as int) == Some((x, q as int)),
            None => dec_width(b@, p as int) is None,
        },
{
    match read_u64(b, p) {
        Some((w, q)) => if w <= 0xffff {
            Some((w as u16, q))
        } else {
            None
        },
        None => None,
    }
}

fn read_type_list(b: &[u8], p: usize, n: u64) -> (r: Option<(Vec<TypeDescriptor>, usize)>)
    ensures
        match r {
            Some((ts, q)) => dec_list(b@, p as int, n as nat) == Some((types_view(ts@), q as int)),
            None => dec_list(b@, p as int, n as nat) is None,
        },
    decreases b@.len() - p, n + 3,
{
    let mut acc: Vec<TypeDescriptor> = Vec::new();
    let mut cur: usize = p;
    let mut i: u64 = 0;
    if n > 0 && p > b.len() {
        return None;
    }
    while i < n
        invariant
            p <= cur,
            i <= n,
            i < n ==> cur <= b@.len(),
            dec_list(b@, p as int, n as nat) == match dec_list(b@, cur as int, (n - i) as nat) {
                Some((rest, q)) => Some((types_view(acc@) + rest, q)),
                None => None,
            },
        decreases n - i,
    {
        let ghost m = (n - i) as nat;
        match read_type(b, cur) {
            Some((t, p2)) => {
                if p2 < cur || p2 > b.len() {
                    return None;
                }
                proof {
                    lemma_types_view(acc@);
                    let ghost rest = dec_list(b@, p2 as int, (m - 1) as nat);
                    assert(types_view(acc@.push(t)) =~= types_view(acc@).push(t@)) by {
                        assert(acc@.push(t).drop_last() =~= acc@);
                    }
                    if let Some((r2, q)) = rest {
                        assert(types_view(acc@) + (seq![t@] + r2) =~= types_view(acc@).push(t@) + r2);
                    }
                }
                acc.push(t);
                cur = p2;
                i += 1;
            },
            None => {
                return None;
            },
        }
    }
    assert(types_view(acc@) + Seq::<TypeV>::empty() =~= types_view(acc@));
    Some((acc, cur))
}

fn read_class(b: &[u8], p: usize) -> (r: Option<(TypeClass, usize)>)
    ensures
        match r {
            Some((c, q)) => dec_class(b@, p as int) == Some((crate::signature::class_view(c), q as int)),
            None => dec_class(b@, p as int) is None,
        },
    decreases b@.len() - p, 1nat,
{
    if p >= b.len() {
        return None;
    }
    let tag = b[p];
    if tag == 0 {
        Some((TypeClass::Void, p + 1))
    } else if tag == 1 {
        Some((TypeClass::Boolean, p + 1))
    } else if tag == 2 {
        let (w, p2) = match read_width(b, p + 1) {
            Some(v) => v,
            None => return None,
        };
        let (sb, p3) = match read_byte(b, p2) {
            Some(v) => v,
            None => return None,
        };
        if sb <= 1 {
            Some((TypeClass::Integer { width: w, signed: sb == 1 }, p3))
        } else {
            None
        }
    } else if tag == 3 {
        match read_width(b, p + 1) {
            Some((w, p2)) => Some((TypeClass::Float { width: w }, p2)),
            None => None,
        }
    } else if tag == 4 {
        match read_width(b, p + 1) {
            Some((w, p2)) => Some((TypeClass::Character { width: w }, p2)),
            None => None,
        }
    } else if tag == 5 || tag == 9 {
        match read_type(b, p + 1) {
            Some((c, p2)) => {
                if tag == 5 {
                    Some((TypeClass::Pointer(Box::new(c)), p2))
                } else {
                    Some((TypeClass::Enumeration(Box::new(c)), p2))
                }
            },
            None => None,
        }
    } else if tag == 6 {
        if b.len() - p < 9 {
            return None;
        }
        let (count, _) = match read_u64(b, p + 1) {
            Some(v) => v,
            None => return None,
        };
        match read_type(b, p + 9) {
            Some((c, p2)) => Some((TypeClass::Array { member: Box::new(c), count }, p2)),
            None => None,
        }
    } else if tag == 7 || tag == 8 {
        if b.len() - p < 9 {
            return None;
        }
        let (n, _) = match read_u64(b, p + 1) {
            Some(v) => v,
            None => return None,
        };
        match read_type_list(b, p + 9, n) {
            Some((ts, p2)) => {
                if tag == 7 {
                    Some((TypeClass::Structure(ts), p2))
                } else {
                    Some((TypeClass::Union(ts), p2))
                }
            },
            None => None,
        }
    } else if tag == 10 {
        if b.len() - p < 9 {
            return None;
        }
        let (n1, _) = match read_u64(b, p + 1) {
            Some(v) => v,
            None => return None,
        };
        let (outs, p2) = match read_type_list(b, p + 9, n1) {
            Some(v) => v,
            None => return None,
        };
        if p2 <= p || p2 > b.len() || b.len() - p2 < 8 {
            return None;
        }
        let (n2, _) = match read_u64(b, p2) {
            Some(v) => v,
            None => return None,
        };
        match read_type_list(b, p2 + 8, n2) {
            Some((ins, p3)) => Some((TypeClass::Function { outs, ins }, p3)),
            None => None,
        }
    } else if tag == 11 {
        let (g, p2) = match read_opt_u128(b, p + 1) {
            Some(v) => v,
            None => return None,
        };
        let (name, p3) = match read_opt_str(b, p2) {
            Some(v) => v,
            None => return None,
        };
        let guid = match g {
            Some(x) => Some(TypeGUID { guid: x }),
            None => None,
        };
        Some((TypeClass::Referrer { guid, name }, p3))
    } else {
        None
    }
}

fn read_type(b: &[u8], p: usize) -> (r: Option<(TypeDescriptor, usize)>)
    ensures
        match r {
            Some((t, q)) => dec_type(b@, p as int) == Some((t@, q as int)),
            None => dec_type(b@, p as int) is None,
        },
    decreases b@.len() - p, 2nat,
{
    if p >= b.len() {
        return None;
    }
    let (class, p2) = match read_class(b, p) {
        Some(v) => v,
        None => return None,
    };
    let (name, p3) = match read_opt_str(b, p2) {
        Some(v) => v,
        None => return None,
    };
    Some((TypeDescriptor { name, class }, p3))
}


/// Items encoded one after the other.
pub open spec fn enc_items<T>(xs: Seq<T>, f: spec_fn(T) -> Seq<u8>) -> Seq<u8>
    decreases xs.len(),
{
    if xs.len() == 0 {
        Seq::empty()
    } else {
        f(xs[0]) + enc_items(xs.drop_first(), f)
    }
}

/// `n` items decoded one after the other.
pub open spec fn dec_items<T>(
    b: Seq<u8>,
    p: int,
    n: nat,
    f: spec_fn(Seq<u8>, int) -> Option<(T, int)>,
) -> Option<(Seq<T>, int)>
    decreases n,
{
    if n == 0 {
        Some((Seq::empty(), p))
    } else {
        match f(b, p) {
            Some((x, p2)) => match dec_items(b, p2, (n - 1) as nat, f) {
                Some((rest, p3)) => Some((seq![x] + rest, p3)),
                None => None,
            },
            None => None,
        }
    }
}

proof fn lemma_items_push<T>(a: Seq<T>, x: T, f: spec_fn(T) -> Seq<u8>)
    ensures
        enc_items(a.push(x), f) == enc_items(a, f) + f(x),
    decreases a.len(),
{
    if a.len() == 0 {
        assert(a.push(x).drop_first() =~= Seq::<T>::empty());
        assert(a.push(x)[0] == x);
        assert(enc_items(Seq::<T>::empty(), f) =~= Seq::<u8>::empty());
        assert(enc_items(a.push(x), f) =~= enc_items(a, f) + f(x));
    } else {
        assert(a.push(x).drop_first() =~= a.drop_first().push(x));
        assert(a.push(x)[0] == a[0]);
        lemma_items_push(a.drop_first(), x, f);
        assert(enc_items(a.push(x), f) =~= enc_items(a, f) + f(x));
    }
}

proof fn lemma_items_round_trip<T>(
    b: Seq<u8>,
    p: int,
    xs: Seq<T>,
    enc: spec_fn(T) -> Seq<u8>,
    dec: spec_fn(Seq<u8>, int) -> Option<(T, int)>,
    fits: spec_fn(T) -> bool,
)
    requires
        forall|x: T, bb: Seq<u8>, pp: int|
            #![trigger dec(bb, pp), enc(x)]
            fits(x) && matches_at(bb, pp, enc(x)) ==> dec(bb, pp) == Some((x, pp + enc(x).len())),
        forall|i: int| 0 <= i < xs.len() ==> fits(#[trigger] xs[i]),
        matches_at(b, p, enc_items(xs, enc)),
    ensures
        dec_items(b, p, xs.len(), dec) == Some((xs, p + enc_items(xs, enc).len())),
    decreases xs.len(),
{
    if xs.len() > 0 {
        lemma_matches_split(b, p, enc(xs[0]), enc_items(xs.drop_first(), enc));
        assert(fits(xs[0]));
        assert(dec(b, p) == Some((xs[0], p + enc(xs[0]).len())));
        assert forall|i: int| 0 <= i < xs.drop_first().len() implies fits(
            #[trigger] xs.drop_first()[i],
        ) by {
            assert(fits(xs[i + 1]));
        }
        lemma_items_round_trip(b, p + enc(xs[0]).len(), xs.drop_first(), enc, dec, fits);
        assert(seq![xs[0]] + xs.drop_first() =~= xs);
    }
}

pub open spec fn constraint_encoder() -> spec_fn(ConstraintV) -> Seq<u8> {
    |c: ConstraintV| enc_constraint(c)
}

pub open spec fn constraint_decoder() -> spec_fn(Seq<u8>, int) -> Option<(ConstraintV, int)> {
    |bb: Seq<u8>, pp: int| dec_constraint(bb, pp)
}

/// A list of constraints: the count, then each constraint.
pub open spec fn enc_constraints(cs: Seq<ConstraintV>) -> Seq<u8> {
    enc_u64(cs.len() as u64) + enc_items(cs, constraint_encoder())
}

pub open spec fn constraints_fit(cs: Seq<ConstraintV>) -> bool {
    cs.len() <= u64::MAX && forall|i: int| 0 <= i < cs.len() ==> constraint_fits(#[trigger] cs[i])
}

pub open spec fn dec_constraints(b: Seq<u8>, p: int) -> Option<(Seq<ConstraintV>, int)> {
    match dec_u64(b, p) {
        Some((n, p1)) => dec_items(b, p1, n as nat, constraint_decoder()),
        None => None,
    }
}

proof fn lemma_constraints_round_trip(b: Seq<u8>, p: int, cs: Seq<ConstraintV>)
    requires
        constraints_fit(cs),
        matches_at(b, p, enc_constraints(cs)),
    ensures
        dec_constraints(b, p) == Some((cs, p + enc_constraints(cs).len())),
{
    let enc = constraint_encoder();
    let dec = constraint_decoder();
    let fits = |c: ConstraintV| constraint_fits(c);
    lemma_matches_split(b, p, enc_u64(cs.len() as u64), enc_items(cs, enc));
    lemma_u64_round_trip(b, p, cs.len() as u64);
    assert forall|x: ConstraintV, bb: Seq<u8>, pp: int|
        #![trigger dec(bb, pp), enc(x)]
        fits(x) && matches_at(bb, pp, enc(x)) implies dec(bb, pp) == Some((x, pp + enc(x).len())) by {
        lemma_constraint_round_trip(bb, pp, x);
    }
    lemma_items_round_trip(b, p + 8, cs, enc, dec, fits);
}

fn push_constraints(out: &mut Vec<u8>, cs: &Vec<FunctionConstraint>)
    ensures
        final(out)@ == old(out)@ + enc_constraints(constraints_view(cs@)),
        constraints_fit(constraints_view(cs@)),
{
    let ghost vs = constraints_view(cs@);
    let n: usize = cs.len();
    push_u64(out, n as u64);
    let ghost mid = out@;
    let mut i: usize = 0;
    while i < n
        invariant
            n == cs@.len(),
            vs == constraints_view(cs@),
            i <= n,
            out@ == mid + enc_items(vs.take(i as int), constraint_encoder()),
            forall|k: int| 0 <= k < i ==> constraint_fits(#[trigger] vs[k]),
        decreases n - i,
    {
        push_constraint(out, &cs[i]);
        proof {
            assert(vs.take(i + 1) =~= vs.take(i as int).push(vs[i as int]));
            lemma_items_push(vs.take(i as int), vs[i as int], constraint_encoder());
        }
        i += 1;
    }
    assert(vs.take(n as int) =~= vs);
}

fn read_constraints(b: &[u8], p: usize) -> (r: Option<(Vec<FunctionConstraint>, usize)>)
    ensures
        match r {
            Some((cs, q)) => dec_constraints(b@, p as int) == Some(
                (constraints_view(cs@), q as int),
            ),
            None => dec_constraints(b@, p as int) is None,
        },
{
    let (n, p1) = match read_u64(b, p) {
        Some(v) => v,
        None => return None,
    };
    let mut acc: Vec<FunctionConstraint> = Vec::new();
    let mut cur: usize = p1;
    let mut i: u64 = 0;
    while i < n
        invariant
            i <= n,
            dec_constraints(b@, p as int) == match dec_items(b@, cur as int, (n - i) as nat, constraint_decoder()) {
                Some((rest, q)) => Some((constraints_view(acc@) + rest, q)),
                None => None,
            },
        decreases n - i,
    {
        proof {
            assert(constraint_decoder()(b@, cur as int) == dec_constraint(b@, cur as int));
        }
        match read_constraint(b, cur) {
            Some((c, p2)) => {
                proof {
                    let rest = dec_items(b@, p2 as int, (n - i - 1) as nat, constraint_decoder());
                    assert(constraints_view(acc@.push(c)) =~= constraints_view(acc@).push(c@));
                    if let Some((r2, q)) = rest {
                        assert(constraints_view(acc@) + (seq![c@] + r2) =~= constraints_view(acc@).push(c@) + r2);
                    }
                }
                acc.push(c);
                cur = p2;
                i += 1;
            },
            None => {
                return None;
            },
        }
    }
    assert(constraints_view(acc@) + Seq::<ConstraintV>::empty() =~= constraints_view(acc@));
    Some((acc, cur))
}


/// A signature: fingerprint, symbol, type, then the adjacent, call-site and
/// caller-site constraints.
pub open spec fn enc_function(f: FunctionV) -> Seq<u8> {
    enc_u128(f.guid.guid) + enc_symbol(f.symbol) + enc_type(f.ty) + enc_constraints(
        f.constraints.adjacent,
    ) + enc_constraints(f.constraints.call_sites) + enc_constraints(f.constraints.caller_sites)
}

pub open spec fn function_fits(f: FunctionV) -> bool {
    &&& str_fits(f.symbol.name)
    &&& type_fits(f.ty)
    &&& constraints_fit(f.constraints.adjacent)
    &&& constraints_fit(f.constraints.call_sites)
    &&& constraints_fit(f.constraints.caller_sites)
}

pub open spec fn dec_function(b: Seq<u8>, p: int) -> Option<(FunctionV, int)> {
    match dec_u128(b, p) {
        Some((g, p1)) => match dec_symbol(b, p1) {
            Some((symbol, p2)) => match dec_type(b, p2) {
                Some((ty, p3)) => match dec_constraints(b, p3) {
                    Some((adjacent, p4)) => match dec_constraints(b, p4) {
                        Some((call_sites, p5)) => match dec_constraints(b, p5) {
                            Some((caller_sites, p6)) => Some(
                                (
                                    FunctionV {
                                        guid: FunctionGUID { guid: g },
                                        symbol,
                                        ty,
                                        constraints: crate::signature::ConstraintsV {
                                            adjacent,
                                            call_sites,
                                            caller_sites,
                                        },
                                    },
                                    p6,
                                ),
                            ),
                            None => None,
                        },
                        None => None,
                    },
                    None => None,
                },
                None => None,
            },
            None => None,
        },
        None => None,
    }
}

proof fn lemma_function_round_trip(b: Seq<u8>, p: int, f: FunctionV)
    requires
        function_fits(f),
        matches_at(b, p, enc_function(f)),
    ensures
        dec_function(b, p) == Some((f, p + enc_function(f).len())),
{
    let e0 = enc_u128(f.guid.guid);
    let e1 = enc_symbol(f.symbol);
    let e2 = enc_type(f.ty);
    let e3 = enc_constraints(f.constraints.adjacent);
    let e4 = enc_constraints(f.constraints.call_sites);
    let e5 = enc_constraints(f.constraints.caller_sites);
    lemma_matches_split(b, p, e0 + e1 + e2 + e3 + e4, e5);
    lemma_matches_split(b, p, e0 + e1 + e2 + e3, e4);
    lemma_matches_split(b, p, e0 + e1 + e2, e3);
    lemma_matches_split(b, p, e0 + e1, e2);
    lemma_matches_split(b, p, e0, e1);
    lemma_u128_round_trip(b, p, f.guid.guid);
    lemma_symbol_round_trip(b, p + e0.len(), f.symbol);
    lemma_type_round_trip(b, p + e0.len() + e1.len(), f.ty);
    lemma_constraints_round_trip(b, p + e0.len() + e1.len() + e2.len(), f.constraints.adjacent);
    lemma_constraints_round_trip(
        b,
        p + e0.len() + e1.len() + e2.len() + e3.len(),
        f.constraints.call_sites,
    );
    lemma_constraints_round_trip(
        b,
        p + e0.len() + e1.len() + e2.len() + e3.len() + e4.len(),
        f.constraints.caller_sites,
    );
}

fn push_function(out: &mut Vec<u8>, f: &SignatureFunction)
    ensures
        final(out)@ == old(out)@ + enc_function(f@),
        function_fits(f@),
{
    let ghost start = out@;
    push_u128(out, f.guid.guid);
    push_symbol(out, &f.symbol);
    push_type(out, &f.ty);
    push_constraints(out, &f.constraints.adjacent);
    push_constraints(out, &f.constraints.call_sites);
    push_constraints(out, &f.constraints.caller_sites);
    assert(out@ =~= start + enc_function(f@));
}

fn read_function(b: &[u8], p: usize) -> (r: Option<(SignatureFunction, usize)>)
    ensures
        match r {
            Some((x, q)) => dec_function(b@, p as int) == Some((x@, q as int)),
            None => dec_function(b@, p as int) is None,
        },
{
    let (g, p1) = match read_u128(b, p) {
        Some(v) => v,
        None => return None,
    };
    let (symbol, p2) = match read_symbol(b, p1) {
        Some(v) => v,
        None => return None,
    };
    let (ty, p3) = match read_type(b, p2) {
        Some(v) => v,
        None => return None,
    };
    let (adjacent, p4) = match read_constraints(b, p3) {
        Some(v) => v,
        None => return None,
    };
    let (call_sites, p5) = match read_constraints(b, p4) {
        Some(v) => v,
        None => return None,
    };
    let (caller_sites, p6) = match read_constraints(b, p5) {
        Some(v) => v,
        None => return None,
    };
    let constraints = crate::signature::FunctionConstraints { adjacent, call_sites, caller_sites };
    Some((SignatureFunction { guid: FunctionGUID { guid: g }, symbol, ty, constraints }, p6))
}

/// A stored type: its content identifier, then the descriptor.
pub open spec fn enc_computed(t: ComputedTypeV) -> Seq<u8> {
    enc_u128(t.guid.guid) + enc_type(t.ty)
}

pub open spec fn dec_computed(b: Seq<u8>, p: int) -> Option<(ComputedTypeV, int)> {
    match dec_u128(b, p) {
        Some((g, p1)) => match dec_type(b, p1) {
            Some((ty, p2)) => Some((ComputedTypeV { guid: TypeGUID { guid: g }, ty }, p2)),
            None => None,
        },
        None => None,
    }
}

proof fn lemma_computed_round_trip(b: Seq<u8>, p: int, t: ComputedTypeV)
    requires
        type_fits(t.ty),
        matches_at(b, p, enc_computed(t)),
    ensures
        dec_computed(b, p) == Some((t, p + enc_computed(t).len())),
{
    lemma_matches_split(b, p, enc_u128(t.guid.guid), enc_type(t.ty));
    lemma_u128_round_trip(b, p, t.guid.guid);
    lemma_type_round_trip(b, p + 16, t.ty);
}

fn push_computed(out: &mut Vec<u8>, t: &ComputedType)
    ensures
        final(out)@ == old(out)@ + enc_computed(t@),
        type_fits(t@.ty),
{
    let ghost start = out@;
    push_u128(out, t.guid.guid);
    push_type(out, &t.ty);
    assert(out@ =~= start + enc_computed(t@));
}

fn read_computed(b: &[u8], p: usize) -> (r: Option<(ComputedType, usize)>)
    ensures
        match r {
            Some((x, q)) => dec_computed(b@, p as int) == Some((x@, q as int)),
            None => dec_computed(b@, p as int) is None,
        },
{
    let (g, p1) = match read_u128(b, p) {
        Some(v) => v,
        None => return None,
    };
    let (ty, p2) = match read_type(b, p1) {
        Some(v) => v,
        None => return None,
    };
    Some((ComputedType { guid: TypeGUID { guid: g }, ty }, p2))
}

pub open spec fn function_encoder() -> spec_fn(FunctionV) -> Seq<u8> {
    |f: FunctionV| enc_function(f)
}

pub open spec fn function_decoder() -> spec_fn(Seq<u8>, int) -> Option<(FunctionV, int)> {
    |bb: Seq<u8>, pp: int| dec_function(bb, pp)
}

pub open spec fn computed_encoder() -> spec_fn(ComputedTypeV) -> Seq<u8> {
    |t: ComputedTypeV| enc_computed(t)
}

pub open spec fn computed_decoder() -> spec_fn(Seq<u8>, int) -> Option<(ComputedTypeV, int)> {
    |bb: Seq<u8>, pp: int| dec_computed(bb, pp)
}

/// The magic word and format version that open every bundle.
pub open spec fn header() -> Seq<u8> {
    seq![0x57u8, 0x53u8, 0x49u8, 0x47u8, 1u8]
}

/// A bundle: the header, the functions, then the types.
pub open spec fn enc_data(d: DataV) -> Seq<u8> {
    header() + enc_u64(d.functions.len() as u64) + enc_items(d.functions, function_encoder())
        + enc_u64(d.types.len() as u64) + enc_items(d.types, computed_encoder())
}

/// Every length in the bundle fits the 64-bit counts of the format.
pub open spec fn data_fits(d: DataV) -> bool {
    &&& d.functions.len() <= u64::MAX
    &&& d.types.len() <= u64::MAX
    &&& forall|i: int| 0 <= i < d.functions.len() ==> function_fits(#[trigger] d.functions[i])
    &&& forall|i: int| 0 <= i < d.types.len() ==> type_fits((#[trigger] d.types[i]).ty)
}

/// The bundle in `b`: header, functions and types, and nothing after them.
pub open spec fn dec_data(b: Seq<u8>) -> Option<DataV> {
    if b.len() < 5 || b.subrange(0, 5) != header() {
        None
    } else {
        match dec_u64(b, 5) {
            Some((nf, p1)) => match dec_items(b, p1, nf as nat, function_decoder()) {
                Some((functions, p2)) => match dec_u64(b, p2) {
                    Some((nt, p3)) => match dec_items(b, p3, nt as nat, computed_decoder()) {
                        Some((types, p4)) => if p4 == b.len() {
                            Some(DataV { functions, types })
                        } else {
                            None
                        },
                        None => None,
                    },
                    None => None,
                },
                None => None,
            },
            None => None,
        }
    }
}

/// Decoding the encoding of a bundle gives back the same functions, with the
/// same fingerprints, symbols, types and constraints, and the same type
/// descriptors, in the same order.
pub proof fn lemma_round_trip(d: DataV)
    requires
        data_fits(d),
    ensures
        dec_data(enc_data(d)) == Some(d),
{
    let b = enc_data(d);
    let h = header();
    let e1 = enc_u64(d.functions.len() as u64);
    let l1 = enc_items(d.functions, function_encoder());
    let e2 = enc_u64(d.types.len() as u64);
    let l2 = enc_items(d.types, computed_encoder());
    assert(matches_at(b, 0, b)) by {
        assert(b.subrange(0, b.len() as int) =~= b);
    }
    lemma_matches_split(b, 0, h + e1 + l1 + e2, l2);
    lemma_matches_split(b, 0, h + e1 + l1, e2);
    lemma_matches_split(b, 0, h + e1, l1);
    lemma_matches_split(b, 0, h, e1);
    assert(b.subrange(0, 5) =~= h);
    lemma_u64_round_trip(b, 5, d.functions.len() as u64);
    let fe = function_encoder();
    let fd = function_decoder();
    let ffits = |f: FunctionV| function_fits(f);
    assert forall|x: FunctionV, bb: Seq<u8>, pp: int|
        #![trigger fd(bb, pp), fe(x)]
        ffits(x) && matches_at(bb, pp, fe(x)) implies fd(bb, pp) == Some((x, pp + fe(x).len())) by {
        lemma_function_round_trip(bb, pp, x);
    }
    assert forall|i: int| 0 <= i < d.functions.len() implies ffits(#[trigger] d.functions[i]) by {
    }
    lemma_items_round_trip(b, 13, d.functions, fe, fd, ffits);
    let p2: int = 13 + l1.len() as int;
    lemma_u64_round_trip(b, p2, d.types.len() as u64);
    let te = computed_encoder();
    let td = computed_decoder();
    let tfits = |t: ComputedTypeV| type_fits(t.ty);
    assert forall|x: ComputedTypeV, bb: Seq<u8>, pp: int|
        #![trigger td(bb, pp), te(x)]
        tfits(x) && matches_at(bb, pp, te(x)) implies td(bb, pp) == Some((x, pp + te(x).len())) by {
        lemma_computed_round_trip(bb, pp, x);
    }
    assert forall|i: int| 0 <= i < d.types.len() implies tfits(#[trigger] d.types[i]) by {
    }
    lemma_items_round_trip(b, p2 + 8, d.types, te, td, tfits);
}

fn read_functions(b: &[u8], p: usize, n: u64) -> (r: Option<(Vec<SignatureFunction>, usize)>)
    ensures
        match r {
            Some((fs, q)) => dec_items(b@, p as int, n as nat, function_decoder()) == Some(
                (fs@.map_values(|f: SignatureFunction| f@), q as int),
            ),
            None => dec_items(b@, p as int, n as nat, function_decoder()) is None,
        },
{
    let mut functions: Vec<SignatureFunction> = Vec::new();
    let mut cur: usize = p;
    let mut i: u64 = 0;
    while i < n
        invariant
            i <= n,
            dec_items(b@, p as int, n as nat, function_decoder()) == match dec_items(
                b@,
                cur as int,
                (n - i) as nat,
                function_decoder(),
            ) {
                Some((rest, q)) => Some((functions@.map_values(|f: SignatureFunction| f@) + rest, q)),
                None => None,
            },
        decreases n - i,
    {
        proof {
            assert(function_decoder()(b@, cur as int) == dec_function(b@, cur as int));
        }
        match read_function(b, cur) {
            Some((f, p2)) => {
                proof {
                    let rest = dec_items(b@, p2 as int, (n - i - 1) as nat, function_decoder());
                    let vs = functions@.map_values(|f: SignatureFunction| f@);
                    assert(functions@.push(f).map_values(|f: SignatureFunction| f@) =~= vs.push(f@));
                    if let Some((r2, q)) = rest {
                        assert(vs + (seq![f@] + r2) =~= vs.push(f@) + r2);
                    }
                }
                functions.push(f);
                cur = p2;
                i += 1;
            },
            None => {
                return None;
            },
        }
    }
    let ghost fv = functions@.map_values(|f: SignatureFunction| f@);
    assert(fv + Seq::<FunctionV>::empty() =~= fv);
    Some((functions, cur))
}

fn read_computeds(b: &[u8], p: usize, n: u64) -> (r: Option<(Vec<ComputedType>, usize)>)
    ensures
        match r {
            Some((ts, q)) => dec_items(b@, p as int, n as nat, computed_decoder()) == Some(
                (ts@.map_values(|t: ComputedType| t@), q as int),
            ),
            None => dec_items(b@, p as int, n as nat, computed_decoder()) is None,
        },
{
    let mut types: Vec<ComputedType> = Vec::new();
    let mut cur: usize = p;
    let mut i: u64 = 0;
    while i < n
        invariant
            i <= n,
            dec_items(b@, p as int, n as nat, computed_decoder()) == match dec_items(
                b@,
                cur as int,
                (n - i) as nat,
                computed_decoder(),
            ) {
                Some((rest, q)) => Some((types@.map_values(|t: ComputedType| t@) + rest, q)),
                None => None,
            },
        decreases n - i,
    {
        proof {
            assert(computed_decoder()(b@, cur as int) == dec_computed(b@, cur as int));
        }
        match read_computed(b, cur) {
            Some((t, p2)) => {
                proof {
                    let rest = dec_items(b@, p2 as int, (n - i - 1) as nat, computed_decoder());
                    let vs = types@.map_values(|t: ComputedType| t@);
                    assert(types@.push(t).map_values(|t: ComputedType| t@) =~= vs.push(t@));
                    if let Some((r2, q)) = rest {
                        assert(vs + (seq![t@] + r2) =~= vs.push(t@) + r2);
                    }
                }
                types.push(t);
                cur = p2;
                i += 1;
            },
            None => {
                return None;
            },
        }
    }
    let ghost tv = types@.map_values(|t: ComputedType| t@);
    assert(tv + Seq::<ComputedTypeV>::empty() =~= tv);
    Some((types, cur))
}

impl SignatureData {
    /// Encodes the bundle (see `enc_data`).
    pub fn to_bytes(&self) -> (r: Vec<u8>)
        ensures
            r@ == enc_data(self@),
            data_fits(self@),
    {
        let mut out: Vec<u8> = Vec::new();
        out.push(0x57u8);
        out.push(0x53u8);
        out.push(0x49u8);
        out.push(0x47u8);
        out.push(1u8);
        let ghost fs = self@.functions;
        let nf: usize = self.functions.len();
        push_u64(&mut out, nf as u64);
        let ghost mid = out@;
        let mut i: usize = 0;
        while i < nf
            invariant
                nf == self.functions@.len(),
                fs == self@.functions,
                fs == self.functions@.map_values(|f: SignatureFunction| f@),
                i <= nf,
                out@ == mid + enc_items(fs.take(i as int), function_encoder()),
                forall|k: int| 0 <= k < i ==> function_fits(#[trigger] fs[k]),
            decreases nf - i,
        {
            push_function(&mut out, &self.functions[i]);
            proof {
                assert(fs.take(i + 1) =~= fs.take(i as int).push(fs[i as int]));
                lemma_items_push(fs.take(i as int), fs[i as int], function_encoder());
            }
            i += 1;
        }
        assert(fs.take(nf as int) =~= fs);
        let ghost ts = self@.types;
        let nt: usize = self.types.len();
        push_u64(&mut out, nt as u64);
        let ghost mid2 = out@;
        let mut j: usize = 0;
        while j < nt
            invariant
                nt == self.types@.len(),
                ts == self@.types,
                ts == self.types@.map_values(|t: ComputedType| t@),
                j <= nt,
                out@ == mid2 + enc_items(ts.take(j as int), computed_encoder()),
                forall|k: int| 0 <= k < j ==> type_fits((#[trigger] ts[k]).ty),
            decreases nt - j,
        {
            push_computed(&mut out, &self.types[j]);
            proof {
                assert(ts.take(j + 1) =~= ts.take(j as int).push(ts[j as int]));
                lemma_items_push(ts.take(j as int), ts[j as int], computed_encoder());
            }
            j += 1;
        }
        assert(ts.take(nt as int) =~= ts);
        assert(out@ =~= enc_data(self@));
        out
    }

    /// Decodes a bundle; `None` when the bytes are not exactly one encoded bundle.
    pub fn from_bytes(b: &[u8]) -> (r: Option<SignatureData>)
        ensures
            match r {
                Some(d) => dec_data(b@) == Some(d@),
                None => dec_data(b@) is None,
            },
    {
        if b.len() < 5 || b[0] != 0x57u8 || b[1] != 0x53u8 || b[2] != 0x49u8 || b[3] != 0x47u8
            || b[4] != 1u8 {
            assert(b.len() < 5 || b@.subrange(0, 5) != header()) by {
                if b.len() >= 5 {
                    assert(b@.subrange(0, 5)[0] == b@[0]);
                    assert(b@.subrange(0, 5)[1] == b@[1]);
                    assert(b@.subrange(0, 5)[2] == b@[2]);
                    assert(b@.subrange(0, 5)[3] == b@[3]);
                    assert(b@.subrange(0, 5)[4] == b@[4]);
                }
            }
            return None;
        }
        assert(b@.subrange(0, 5) =~= header());
        let (nf, p1) = match read_u64(b, 5) {
            Some(v) => v,
            None => return None,
        };
        let (functions, cur) = match read_functions(b, p1, nf) {
            Some(v) => v,
            None => return None,
        };
        let ghost fv = functions@.map_values(|f: SignatureFunction| f@);
        let (nt, p3) = match read_u64(b, cur) {
            Some(v) => v,
            None => return None,
        };
        let (types, cur2) = match read_computeds(b, p3, nt) {
            Some(v) => v,
            None => return None,
        };
        let ghost tv = types@.map_values(|t: ComputedType| t@);
        if cur2 != b.len() {
            return None;
        }
        let d = SignatureData { functions, types };
        assert(d@ == DataV { functions: fv, types: tv });
        Some(d)
    }
}

} // verus!
