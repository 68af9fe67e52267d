use warp_ninja::fingerprint::{
    basic_block_guid, function_guid, sorted_basic_blocks, AddressRange, BasicBlock, Expr, IlInstr,
    Instruction, ProgramLayout, Register,
};
use warp_ninja::guid::{BasicBlockGUID, FunctionGUID};

fn layout() -> ProgramLayout {
    ProgramLayout {
        sections: vec![AddressRange { start: 0x1000, end: 0x2000 }],
        function_addresses: vec![0x5000],
        data_addresses: vec![0x6000],
    }
}

fn plain(bytes: &[u8]) -> Instruction {
    Instruction {
        bytes: bytes.to_vec(),
        length: Some(bytes.len()),
        il: Some(IlInstr::Other(Expr::Op { op: 1, operands: vec![Expr::Reg(Register::Temp(0))] })),
    }
}

fn self_move(extends: bool) -> Instruction {
    let r = Register::Arch { id: 7, implicit_extend: extends };
    Instruction {
        bytes: vec![0x89, 0xff],
        length: Some(2),
        il: Some(IlInstr::SetReg { dest: r, src: Expr::Reg(r) }),
    }
}

fn load_ptr(ptr: u32) -> Instruction {
    let b = ptr.to_le_bytes();
    Instruction {
        bytes: vec![0x48, 0x8d, 0x05, b[0], b[1], b[2], b[3]],
        length: Some(7),
        il: Some(IlInstr::SetReg {
            dest: Register::Arch { id: 0, implicit_extend: false },
            src: Expr::Op { op: 3, operands: vec![Expr::ConstPtr(ptr as u64)] },
        }),
    }
}

fn block(start: u64, instructions: Vec<Instruction>) -> BasicBlock {
    BasicBlock { start, end: start + 16, instructions }
}

#[test]
fn empty_block_digest_is_fixed() {
    let g = basic_block_guid(&block(0, vec![]), &layout());
    assert_eq!(g, BasicBlockGUID { guid: 0x24cedfce2b125056b1a738064b22ccc7 });
}

#[test]
fn block_digest_of_known_bytes() {
    let g = basic_block_guid(&block(0, vec![plain(&[0x55]), plain(&[0x48, 0x89, 0xe5])]), &layout());
    assert_eq!(g, BasicBlockGUID { guid: 0x90ecdcdce06453789bc5083554023587 });
}

#[test]
fn function_digest_of_known_block() {
    let f = function_guid(&[block(0x400, vec![plain(&[0x55, 0x48, 0x89, 0xe5])])], &layout());
    assert_eq!(f, FunctionGUID { guid: 0xab3ba00fdb86569880087c04ee61e494 });
    assert_eq!(
        FunctionGUID::from_basic_blocks(&[BasicBlockGUID { guid: 0x24cedfce2b125056b1a738064b22ccc7 }]),
        FunctionGUID { guid: 0x3b0e34db732f583389ea20cd037b8a2d }
    );
}

#[test]
fn fingerprint_is_deterministic() {
    let blocks = vec![block(0x10, vec![plain(&[1, 2, 3])]), block(0x20, vec![plain(&[4])])];
    assert_eq!(function_guid(&blocks, &layout()), function_guid(&blocks, &layout()));
}

#[test]
fn fingerprint_ignores_load_address() {
    let a = vec![block(0x10, vec![plain(&[1, 2, 3])]), block(0x20, vec![plain(&[4])])];
    let b = vec![block(0x9010, vec![plain(&[1, 2, 3])]), block(0x9020, vec![plain(&[4])])];
    assert_eq!(function_guid(&a, &layout()), function_guid(&b, &layout()));
}

#[test]
fn blocks_are_taken_by_start_address() {
    let sorted = vec![block(0x10, vec![plain(&[1])]), block(0x20, vec![plain(&[2])])];
    let shuffled = vec![block(0x20, vec![plain(&[2])]), block(0x10, vec![plain(&[1])])];
    assert_eq!(function_guid(&sorted, &layout()), function_guid(&shuffled, &layout()));
    assert_eq!(sorted_basic_blocks(&shuffled), vec![1, 0]);
    let ties = vec![block(5, vec![]), block(3, vec![]), block(5, vec![]), block(1, vec![])];
    assert_eq!(sorted_basic_blocks(&ties), vec![3, 1, 0, 2]);
}

#[test]
fn block_order_matters() {
    let a = vec![block(0x10, vec![plain(&[1])]), block(0x20, vec![plain(&[2])])];
    let b = vec![block(0x10, vec![plain(&[2])]), block(0x20, vec![plain(&[1])])];
    assert_ne!(function_guid(&a, &layout()), function_guid(&b, &layout()));
}

#[test]
fn harmless_self_move_is_elided() {
    let base = block(0, vec![plain(&[0x55]), plain(&[0xc3])]);
    let patched = block(0, vec![self_move(false), plain(&[0x55]), plain(&[0xc3])]);
    assert_eq!(basic_block_guid(&base, &layout()), basic_block_guid(&patched, &layout()));
    let nop = Instruction { bytes: vec![0x90], length: Some(1), il: Some(IlInstr::Nop) };
    let with_nop = block(0, vec![plain(&[0x55]), nop, plain(&[0xc3])]);
    assert_eq!(basic_block_guid(&base, &layout()), basic_block_guid(&with_nop, &layout()));
}

#[test]
fn extending_self_move_counts() {
    let base = block(0, vec![plain(&[0x55]), plain(&[0xc3])]);
    let patched = block(0, vec![self_move(true), plain(&[0x55]), plain(&[0xc3])]);
    assert_ne!(basic_block_guid(&base, &layout()), basic_block_guid(&patched, &layout()));
}

#[test]
fn relocated_pointer_is_masked() {
    let a = vec![block(0, vec![load_ptr(0x1100), plain(&[0xc3])])];
    let b = vec![block(0, vec![load_ptr(0x1800), plain(&[0xc3])])];
    assert_eq!(function_guid(&a, &layout()), function_guid(&b, &layout()));
    let masked = block(0, vec![plain(&[0, 0, 0, 0, 0, 0, 0]), plain(&[0xc3])]);
    assert_eq!(basic_block_guid(&a[0], &layout()), basic_block_guid(&masked, &layout()));
}

#[test]
fn pointer_outside_sections_is_kept() {
    let a = vec![block(0, vec![load_ptr(0x3100)])];
    let b = vec![block(0, vec![load_ptr(0x3800)])];
    assert_ne!(function_guid(&a, &layout()), function_guid(&b, &layout()));
}

#[test]
fn known_addresses_and_externs_are_masked() {
    let lay = layout();
    assert!(Expr::Const(0x5000).is_variant(&lay));
    assert!(Expr::Const(0x6000).is_variant(&lay));
    assert!(Expr::ExternPtr(0).is_variant(&lay));
    assert!(!Expr::Const(0x7000).is_variant(&lay));
    assert!(!Expr::Const(0x2000).is_variant(&lay));
    assert!(Expr::Const(0x1fff).is_variant(&lay));
}

#[test]
fn undecoded_or_unlifted_instructions_contribute_nothing() {
    let base = block(0, vec![plain(&[0x55])]);
    let undecoded = Instruction { bytes: vec![0xff, 0xff], length: None, il: Some(IlInstr::Nop) };
    let unlifted = Instruction { bytes: vec![0x0f, 0x0b], length: Some(2), il: None };
    let other = block(0, vec![undecoded, plain(&[0x55]), unlifted]);
    assert_eq!(basic_block_guid(&base, &layout()), basic_block_guid(&other, &layout()));
}

#[test]
fn raw_bytes_are_cut_to_decoded_length() {
    let mut long = plain(&[0x55, 0xaa, 0xbb]);
    long.length = Some(1);
    let a = block(0, vec![long]);
    let b = block(0, vec![plain(&[0x55])]);
    assert_eq!(basic_block_guid(&a, &layout()), basic_block_guid(&b, &layout()));
}
