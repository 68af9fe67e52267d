//! 128-bit identifiers and the name-based UUID digest they are derived from.
use vstd::prelude::*;

verus! {

/// What `uuid::Uuid::new_v5` returns, as a big-endian `u128`, for a namespace
/// (also as a big-endian `u128`) and the name bytes hashed under it.
pub uninterp spec fn uuid_v5_of(namespace: u128, name: Seq<u8>) -> u128;

/// Namespace under which the bytes of a basic block are digested.
pub const NAMESPACE_BASIC_BLOCK: u128 = 0x0192a178_7a5f_7936_8653_3cbaa7d6afe7;

/// Namespace under which the concatenated block identifiers of a function are digested.
pub const NAMESPACE_FUNCTION: u128 = 0x0192a179_61ac_7cef_88ed_012296e9492f;

/// Namespace under which the encoding of a type descriptor is digested.
pub const NAMESPACE_TYPE: u128 = 0x0192a17b_3a3c_7d4e_9c5a_7f40c2d15e01;

/// Namespace under which platform names are digested.
pub const NAMESPACE_PLATFORM: u128 = 0x0192a17c_5d2e_7a01_8b3f_41c6e9d0a7b2;

/// Relies on `uuid::Uuid::new_v5` (SHA-1 name-based UUID, RFC 4122): the
/// result depends on the namespace and the name bytes alone.
#[verifier::external_body]
pub(crate) fn digest(namespace: u128, name: &[u8]) -> (r: u128)
    ensures
        r == uuid_v5_of(namespace, name@),
{
    uuid::Uuid::new_v5(&uuid::Uuid::from_u128(namespace), name).as_u128()
}

/// The sixteen big-endian bytes of a 128-bit value.
pub open spec fn be_bytes(x: u128) -> Seq<u8> {
    Seq::new(16, |i: int| ((x >> (8 * (15 - i)) as u128) & 0xff) as u8)
}

/// Identifier of one basic block: the digest of its contributing bytes.
#[derive(Clone, Copy, Debug, PartialEq, Eq, Hash, PartialOrd, Ord, Structural)]
pub struct BasicBlockGUID {
    pub guid: u128,
}

/// Identifier of a function: the digest of its blocks' identifiers.
#[derive(Clone, Copy, Debug, PartialEq, Eq, Hash, PartialOrd, Ord, Structural)]
pub struct FunctionGUID {
    pub guid: u128,
}

/// Content identifier of a type descriptor.
#[derive(Clone, Copy, Debug, PartialEq, Eq, Hash, PartialOrd, Ord, Structural)]
pub struct TypeGUID {
    pub guid: u128,
}

/// Concatenation of the big-endian bytes of each identifier, in order.
pub open spec fn concat_guid_bytes(guids: Seq<BasicBlockGUID>) -> Seq<u8>
    decreases guids.len(),
{
    if guids.len() == 0 {
        Seq::empty()
    } else {
        concat_guid_bytes(guids.drop_last()) + be_bytes(guids.last().guid)
    }
}

pub open spec fn block_guid_of(bytes: Seq<u8>) -> BasicBlockGUID {
    BasicBlockGUID { guid: uuid_v5_of(NAMESPACE_BASIC_BLOCK, bytes) }
}

pub open spec fn function_guid_of(blocks: Seq<BasicBlockGUID>) -> FunctionGUID {
    FunctionGUID { guid: uuid_v5_of(NAMESPACE_FUNCTION, concat_guid_bytes(blocks)) }
}

/// Appends the sixteen big-endian bytes of `x` to `out`.
pub fn push_be_bytes(out: &mut Vec<u8>, x: u128)
    ensures
        final(out)@ == old(out)@ + be_bytes(x),
{
    let ghost start = out@;
    let mut i: usize = 0;
    while i < 16
        invariant
            i <= 16,
            out@.len() == start.len() + i,
            out@.subrange(0, start.len() as int) == start,
            forall|k: int| 0 <= k < i ==> out@[start.len() + k] == be_bytes(x)[k],
        decreases 16 - i,
    {
        let shift: u128 = (8 * (15 - i)) as u128;
        out.push(((x >> shift) & 0xff) as u8);
        i += 1;
    }
    assert(out@ =~= start + be_bytes(x));
}

impl BasicBlockGUID {
    /// Digest of the bytes that a basic block contributes.
    pub fn from_bytes(bytes: &[u8]) -> (r: BasicBlockGUID)
        ensures
            r == block_guid_of(bytes@),
    {
        BasicBlockGUID { guid: digest(NAMESPACE_BASIC_BLOCK, bytes) }
    }
}

impl FunctionGUID {
    /// Digest of a function's block identifiers, taken in the order given.
    pub fn from_basic_blocks(blocks: &[BasicBlockGUID]) -> (r: FunctionGUID)
        ensures
            r == function_guid_of(blocks@),
    {
        let mut bytes: Vec<u8> = Vec::new();
        let mut i: usize = 0;
        while i < blocks.len()
            invariant
                i <= blocks@.len(),
                bytes@ == concat_guid_bytes(blocks@.take(i as int)),
            decreases blocks@.len() - i,
        {
            push_be_bytes(&mut bytes, blocks[i].guid);
            assert(blocks@.take(i + 1).drop_last() =~= blocks@.take(i as int));
            i += 1;
        }
        assert(blocks@.take(i as int) =~= blocks@);
        FunctionGUID { guid: digest(NAMESPACE_FUNCTION, bytes.as_slice()) }
    }
}

} // verus!
