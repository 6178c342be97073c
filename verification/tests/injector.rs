use bytecode_obfuscator::analysis::jump_seq::find_jump_seq;
use bytecode_obfuscator::constant::dead_bytecodes::dead_bytecodes;
use bytecode_obfuscator::error::ObfuscationError;
use bytecode_obfuscator::helper::bytecode::{
    get_dead_bytecode, pick_random_dead_bytecode, relocate_dead_bytecode,
};
use bytecode_obfuscator::walker::walk;

fn relocate(fragment: &str, position: i32) -> Result<String, ObfuscationError> {
    relocate_dead_bytecode(&String::from(fragment), position)
}

#[test]
fn catalogue_has_ten_fragments() {
    let catalogue = dead_bytecodes();
    assert_eq!(catalogue.len(), 10);
    assert_eq!(
        catalogue[0],
        "61000b566005600601505b603260331650603460351750603660371850600060011460ff57"
    );
    assert_eq!(
        catalogue[9],
        "61000b566005600601505b6017601801506019601a0250601b601c0350601d601e0450600060011460f757"
    );
    let lengths: Vec<usize> = catalogue.iter().map(|f| f.len()).collect();
    assert_eq!(lengths, vec![74, 110, 96, 102, 98, 110, 80, 90, 86, 86]);
}

#[test]
fn every_fragment_can_be_walked_to_its_end() {
    for fragment in dead_bytecodes() {
        let instructions = walk(&fragment).unwrap();
        let last = instructions.last().unwrap();
        assert_eq!(last.offset + last.length, fragment.len());
        // The first jump lands on a JUMPDEST ten bytes into the fragment.
        assert!(instructions.iter().any(|i| i.offset == 20 && i.opcode == 0x5b));
    }
}

#[test]
fn every_fragment_jumps_once_to_byte_11() {
    for fragment in dead_bytecodes() {
        let found = find_jump_seq(&fragment).unwrap();
        assert_eq!(found.len(), 1);
        assert_eq!(found[0].byteoffset_decimal, 0);
        assert_eq!(found[0].instruction_bits, "61");
        assert_eq!(found[0].value_decimal, 11);
        assert_eq!(found[0].value_hex, "000b");
    }
}

#[test]
fn relocation_adds_the_position_to_every_target() {
    for fragment in dead_bytecodes() {
        for position in [0, 1, 25, 0x1234, 0xffff - 11] {
            let before = find_jump_seq(&fragment).unwrap();
            let moved = relocate_dead_bytecode(&fragment, position).unwrap();
            let after = find_jump_seq(&moved).unwrap();
            assert_eq!(after.len(), before.len());
            for (a, b) in after.iter().zip(before.iter()) {
                assert_eq!(a.value_decimal, b.value_decimal + position);
                assert_eq!(a.byteoffset_decimal, b.byteoffset_decimal);
                assert_eq!(a.instruction_position, b.instruction_position);
                assert_eq!(a.instruction_bits, b.instruction_bits);
            }
            assert_eq!(moved.len(), fragment.len());
            assert_eq!(walk(&moved), walk(&fragment));
        }
    }
}

#[test]
fn relocation_of_a_catalogue_fragment() {
    let catalogue = dead_bytecodes();
    assert_eq!(
        relocate_dead_bytecode(&catalogue[0], 25),
        Ok(String::from(
            "610024566005600601505b603260331650603460351750603660371850600060011460ff57"
        ))
    );
    assert_eq!(
        relocate_dead_bytecode(&catalogue[4], 0x100),
        Ok(String::from(
            "61010b566002600402505b6200000a60020150600160030a5061000460020650600060011460fe57600260031850600450"
        ))
    );
}

#[test]
fn relocation_moves_every_jump() {
    assert_eq!(relocate("60035660055600", 16), Ok(String::from("60135660155600")));
    assert_eq!(relocate("6003565b00", 4), Ok(String::from("6007565b00")));
    assert_eq!(relocate("6003565b", 252), Ok(String::from("60ff565b")));
}

#[test]
fn relocation_leaves_other_pushes() {
    assert_eq!(relocate("60035760055b", 16), Ok(String::from("60035760055b")));
    assert_eq!(relocate("", 7), Ok(String::new()));
    assert_eq!(relocate("5b5b", 7), Ok(String::from("5b5b")));
}

#[test]
fn relocation_by_a_negative_position() {
    assert_eq!(relocate("6003565b", -3), Ok(String::from("6000565b")));
    assert_eq!(relocate("6003565b", -4), Err(ObfuscationError::OperandOverflow));
    assert_eq!(relocate("6003565b", i32::MIN), Err(ObfuscationError::OperandOverflow));
}

#[test]
fn relocation_refuses_a_target_that_does_not_fit() {
    assert_eq!(relocate("6003565b", 253), Err(ObfuscationError::OperandOverflow));
    assert_eq!(relocate("5f56", 1), Err(ObfuscationError::OperandOverflow));
    assert_eq!(relocate("637fffffff56", 1), Err(ObfuscationError::OperandOverflow));
    assert_eq!(relocate("6003565b", i32::MAX), Err(ObfuscationError::OperandOverflow));
    assert_eq!(relocate("60015660ff56", 1), Err(ObfuscationError::OperandOverflow));
}

#[test]
fn relocation_that_just_fits() {
    assert_eq!(relocate("5f56", 0), Ok(String::from("5f56")));
    assert_eq!(relocate("637ffffffe56", 1), Ok(String::from("637fffffff56")));
    assert_eq!(relocate("6100005600", 0xffff), Ok(String::from("61ffff5600")));
}

#[test]
fn relocation_fails_with_the_search() {
    assert_eq!(relocate("61000b56ff", 1), Err(ObfuscationError::UnknownOpcode));
    assert_eq!(relocate("61000b5", 1), Err(ObfuscationError::InvalidHex));
    assert_eq!(relocate("638000000056", 0), Err(ObfuscationError::OperandOverflow));
}

#[test]
fn random_pick_is_of_the_catalogue_and_never_its_first() {
    let catalogue = dead_bytecodes();
    for _ in 0..300 {
        let picked = pick_random_dead_bytecode();
        assert!(catalogue[1..].contains(&picked));
        assert_ne!(picked, catalogue[0]);
    }
}

#[test]
fn random_pick_is_not_always_the_same() {
    let first = pick_random_dead_bytecode();
    let mut other = false;
    for _ in 0..400 {
        if pick_random_dead_bytecode() != first {
            other = true;
        }
    }
    assert!(other);
}

#[test]
fn dead_bytecode_is_a_relocated_fragment() {
    let catalogue = dead_bytecodes();
    for position in [0, 25, 0x1234] {
        let expected: Vec<String> = catalogue[1..]
            .iter()
            .map(|f| relocate_dead_bytecode(f, position).unwrap())
            .collect();
        for _ in 0..50 {
            let dead = get_dead_bytecode(position).unwrap();
            assert!(expected.contains(&dead));
        }
    }
}

#[test]
fn dead_bytecode_fails_when_the_target_does_not_fit() {
    assert_eq!(get_dead_bytecode(0xffff - 10), Err(ObfuscationError::OperandOverflow));
    assert_eq!(get_dead_bytecode(-12), Err(ObfuscationError::OperandOverflow));
    assert!(get_dead_bytecode(0xffff - 11).is_ok());
    assert!(get_dead_bytecode(-11).is_ok());
}
