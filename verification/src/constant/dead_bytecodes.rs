//! The catalogue of decoy fragments: inert code that is put between a
//! jump and its target.
//!
//! Each fragment begins with a jump over its first instructions to a
//! JUMPDEST of its own, and goes on with arithmetic whose results it
//! drops and with conditional jumps that are never taken. The target of
//! the first jump is written as if the fragment began one byte after
//! position 0; it is moved to where the fragment is put.

use crate::constant::opcodes::JUMP;
use crate::helper::bytecode::{has_one_jump, lemma_one_jump_relocates, relocated};
use crate::hex::{is_hex_text, texts};
use crate::walker::{decoded, is_complete, lemma_walk_end, walk_end, walk_lacks};
use vstd::prelude::*;
use vstd::string::*;

verus! {

/// The decoy fragments.
pub open spec fn dead_bytecode_catalogue() -> Seq<Seq<char>> {
    seq![
        "61000b566005600601505b603260331650603460351750603660371850600060011460ff57"@,
        "61000b566001600201505b6002600301506100036004025060006001146100fa5760056006035060078001506008800250600960010350"@,
        "61000b566001600201505b61000360040250600060011460fa57600160021060fb57600260031460fc57600560061650"@,
        "61000b566003600401505b6005600660078190035061000860090250600a600b1060fd57600c600d1060fe5760018001505050"@,
        "61000b566002600402505b6200000a60020150600160030a5061000460020650600060011460fe57600260031850600450"@,
        "61000b566001600201505b60036004600508506002600360040950610006600760081060fd576001600060021260fe5760098002035050"@,
        "61000b566005600601505b600760080150600a600903600060011460f25760028002506003905050"@,
        "61000b566005600601505b600b600c0250600d600e0450600160021060f357600360041060f457600560061650"@,
        "61000b566005600601505b600f60101650601160121750601360141850601560160650600060011460f657"@,
        "61000b566005600601505b6017601801506019601a0250601b601c0350601d601e0450600060011460f757"@,
    ]
}

/// A fragment that the random choice can return: any of the catalogue but
/// the first.
pub open spec fn is_dead_bytecode_choice(text: Seq<char>) -> bool {
    exists|i: int|
        1 <= i < dead_bytecode_catalogue().len() && text == #[trigger] dead_bytecode_catalogue()[i]
}

/// Whether a text is code that can be walked from its first instruction
/// to its last, none of its instructions lacking digits.
pub open spec fn can_be_walked(text: Seq<char>) -> bool {
    decoded(text) matches Ok(instructions) && is_complete(text, instructions)
}

/// The catalogue of decoy fragments.
pub fn dead_bytecodes() -> (r: Vec<String>)
    ensures
        texts(r@) == dead_bytecode_catalogue(),
        r@.len() == 10,
        forall|i: int| 0 <= i < 10 ==> (#[trigger] r@[i])@ == dead_bytecode_catalogue()[i],
{
    let dead_bytecodes: Vec<String> = vec![
        String::from_str(
            "61000b566005600601505b603260331650603460351750603660371850600060011460ff57",
        ),
        String::from_str(
            "61000b566001600201505b6002600301506100036004025060006001146100fa5760056006035060078001506008800250600960010350",
        ),
        String::from_str(
            "61000b566001600201505b61000360040250600060011460fa57600160021060fb57600260031460fc57600560061650",
        ),
        String::from_str(
            "61000b566003600401505b6005600660078190035061000860090250600a600b1060fd57600c600d1060fe5760018001505050",
        ),
        String::from_str(
            "61000b566002600402505b6200000a60020150600160030a5061000460020650600060011460fe57600260031850600450",
        ),
        String::from_str(
            "61000b566001600201505b60036004600508506002600360040950610006600760081060fd576001600060021260fe5760098002035050",
        ),
        String::from_str(
            "61000b566005600601505b600760080150600a600903600060011460f25760028002506003905050",
        ),
        String::from_str(
            "61000b566005600601505b600b600c0250600d600e0450600160021060f357600360041060f457600560061650",
        ),
        String::from_str(
            "61000b566005600601505b600f60101650601160121750601360141850601560160650600060011460f657",
        ),
        String::from_str(
            "61000b566005600601505b6017601801506019601a0250601b601c0350601d601e0450600060011460f757",
        ),
    ];
    proof {
        assert(texts(dead_bytecodes@) =~= dead_bytecode_catalogue());
        assert forall|i: int| 0 <= i < 10 implies (#[trigger] dead_bytecodes@[i])@
            == dead_bytecode_catalogue()[i] by {
            assert(texts(dead_bytecodes@)[i] == dead_bytecodes@[i]@);
        }
    }
    dead_bytecodes
}

/// The walk of fragment 0, in strides of four instructions.
proof fn lemma_fragment_0()
    ensures
        can_be_walked(dead_bytecode_catalogue()[0]),
        has_one_jump(dead_bytecode_catalogue()[0]),
{
    let s = dead_bytecode_catalogue()[0];
    reveal_strlit(
        "61000b566005600601505b603260331650603460351750603660371850600060011460ff57",
    );
    assert(s.len() == 74);
    assert(is_hex_text(s));
    assert(walk_end(s, 62) == walk_end(s, 74)) by {
        reveal_with_fuel(walk_end, 5);
    }
    assert(walk_end(s, 50) == walk_end(s, 62)) by {
        reveal_with_fuel(walk_end, 5);
    }
    assert(walk_end(s, 38) == walk_end(s, 50)) by {
        reveal_with_fuel(walk_end, 5);
    }
    assert(walk_end(s, 26) == walk_end(s, 38)) by {
        reveal_with_fuel(walk_end, 5);
    }
    assert(walk_end(s, 16) == walk_end(s, 26)) by {
        reveal_with_fuel(walk_end, 5);
    }
    assert(walk_end(s, 0) == walk_end(s, 16)) by {
        reveal_with_fuel(walk_end, 5);
    }
    assert(walk_lacks(s, JUMP, 68) == walk_lacks(s, JUMP, 74)) by {
        reveal_with_fuel(walk_lacks, 5);
    }
    assert(walk_lacks(s, JUMP, 56) == walk_lacks(s, JUMP, 68)) by {
        reveal_with_fuel(walk_lacks, 5);
    }
    assert(walk_lacks(s, JUMP, 44) == walk_lacks(s, JUMP, 56)) by {
        reveal_with_fuel(walk_lacks, 5);
    }
    assert(walk_lacks(s, JUMP, 32) == walk_lacks(s, JUMP, 44)) by {
        reveal_with_fuel(walk_lacks, 5);
    }
    assert(walk_lacks(s, JUMP, 20) == walk_lacks(s, JUMP, 32)) by {
        reveal_with_fuel(walk_lacks, 5);
    }
    assert(walk_lacks(s, JUMP, 8) == walk_lacks(s, JUMP, 20)) by {
        reveal_with_fuel(walk_lacks, 5);
    }
    assert(walk_lacks(s, JUMP, 8));
    lemma_walk_end(s, 0);
}

/// The walk of fragment 1, in strides of four instructions.
proof fn lemma_fragment_1()
    ensures
        can_be_walked(dead_bytecode_catalogue()[1]),
        has_one_jump(dead_bytecode_catalogue()[1]),
{
    let s = dead_bytecode_catalogue()[1];
    reveal_strlit(
        "61000b566001600201505b6002600301506100036004025060006001146100fa5760056006035060078001506008800250600960010350",
    );
    assert(s.len() == 110);
    assert(is_hex_text(s));
    assert(walk_end(s, 98) == walk_end(s, 110)) by {
        reveal_with_fuel(walk_end, 5);
    }
    assert(walk_end(s, 88) == walk_end(s, 98)) by {
        reveal_with_fuel(walk_end, 5);
    }
    assert(walk_end(s, 78) == walk_end(s, 88)) by {
        reveal_with_fuel(walk_end, 5);
    }
    assert(walk_end(s, 66) == walk_end(s, 78)) by {
        reveal_with_fuel(walk_end, 5);
    }
    assert(walk_end(s, 52) == walk_end(s, 66)) by {
        reveal_with_fuel(walk_end, 5);
    }
    assert(walk_end(s, 40) == walk_end(s, 52)) by {
        reveal_with_fuel(walk_end, 5);
    }
    assert(walk_end(s, 26) == walk_end(s, 40)) by {
        reveal_with_fuel(walk_end, 5);
    }
    assert(walk_end(s, 16) == walk_end(s, 26)) by {
        reveal_with_fuel(walk_end, 5);
    }
    assert(walk_end(s, 0) == walk_end(s, 16)) by {
        reveal_with_fuel(walk_end, 5);
    }
    assert(walk_lacks(s, JUMP, 106) == walk_lacks(s, JUMP, 110)) by {
        reveal_with_fuel(walk_lacks, 5);
    }
    assert(walk_lacks(s, JUMP, 94) == walk_lacks(s, JUMP, 106)) by {
        reveal_with_fuel(walk_lacks, 5);
    }
    assert(walk_lacks(s, JUMP, 84) == walk_lacks(s, JUMP, 94)) by {
        reveal_with_fuel(walk_lacks, 5);
    }
    assert(walk_lacks(s, JUMP, 74) == walk_lacks(s, JUMP, 84)) by {
        reveal_with_fuel(walk_lacks, 5);
    }
    assert(walk_lacks(s, JUMP, 58) == walk_lacks(s, JUMP, 74)) by {
        reveal_with_fuel(walk_lacks, 5);
    }
    assert(walk_lacks(s, JUMP, 46) == walk_lacks(s, JUMP, 58)) by {
        reveal_with_fuel(walk_lacks, 5);
    }
    assert(walk_lacks(s, JUMP, 32) == walk_lacks(s, JUMP, 46)) by {
        reveal_with_fuel(walk_lacks, 5);
    }
    assert(walk_lacks(s, JUMP, 20) == walk_lacks(s, JUMP, 32)) by {
        reveal_with_fuel(walk_lacks, 5);
    }
    assert(walk_lacks(s, JUMP, 8) == walk_lacks(s, JUMP, 20)) by {
        reveal_with_fuel(walk_lacks, 5);
    }
    assert(walk_lacks(s, JUMP, 8));
    lemma_walk_end(s, 0);
}

/// The walk of fragment 2, in strides of four instructions.
proof fn lemma_fragment_2()
    ensures
        can_be_walked(dead_bytecode_catalogue()[2]),
        has_one_jump(dead_bytecode_catalogue()[2]),
{
    let s = dead_bytecode_catalogue()[2];
    reveal_strlit(
        "61000b566001600201505b61000360040250600060011460fa57600160021060fb57600260031460fc57600560061650",
    );
    assert(s.len() == 96);
    assert(is_hex_text(s));
    assert(walk_end(s, 92) == walk_end(s, 96)) by {
        reveal_with_fuel(walk_end, 5);
    }
    assert(walk_end(s, 78) == walk_end(s, 92)) by {
        reveal_with_fuel(walk_end, 5);
    }
    assert(walk_end(s, 66) == walk_end(s, 78)) by {
        reveal_with_fuel(walk_end, 5);
    }
    assert(walk_end(s, 52) == walk_end(s, 66)) by {
        reveal_with_fuel(walk_end, 5);
    }
    assert(walk_end(s, 40) == walk_end(s, 52)) by {
        reveal_with_fuel(walk_end, 5);
    }
    assert(walk_end(s, 28) == walk_end(s, 40)) by {
        reveal_with_fuel(walk_end, 5);
    }
    assert(walk_end(s, 16) == walk_end(s, 28)) by {
        reveal_with_fuel(walk_end, 5);
    }
    assert(walk_end(s, 0) == walk_end(s, 16)) by {
        reveal_with_fuel(walk_end, 5);
    }
    assert(walk_lacks(s, JUMP, 84) == walk_lacks(s, JUMP, 96)) by {
        reveal_with_fuel(walk_lacks, 5);
    }
    assert(walk_lacks(s, JUMP, 72) == walk_lacks(s, JUMP, 84)) by {
        reveal_with_fuel(walk_lacks, 5);
    }
    assert(walk_lacks(s, JUMP, 60) == walk_lacks(s, JUMP, 72)) by {
        reveal_with_fuel(walk_lacks, 5);
    }
    assert(walk_lacks(s, JUMP, 46) == walk_lacks(s, JUMP, 60)) by {
        reveal_with_fuel(walk_lacks, 5);
    }
    assert(walk_lacks(s, JUMP, 34) == walk_lacks(s, JUMP, 46)) by {
        reveal_with_fuel(walk_lacks, 5);
    }
    assert(walk_lacks(s, JUMP, 20) == walk_lacks(s, JUMP, 34)) by {
        reveal_with_fuel(walk_lacks, 5);
    }
    assert(walk_lacks(s, JUMP, 8) == walk_lacks(s, JUMP, 20)) by {
        reveal_with_fuel(walk_lacks, 5);
    }
    assert(walk_lacks(s, JUMP, 8));
    lemma_walk_end(s, 0);
}

/// The walk of fragment 3, in strides of four instructions.
proof fn lemma_fragment_3()
    ensures
        can_be_walked(dead_bytecode_catalogue()[3]),
        has_one_jump(dead_bytecode_catalogue()[3]),
{
    let s = dead_bytecode_catalogue()[3];
    reveal_strlit(
        "61000b566003600401505b6005600660078190035061000860090250600a600b1060fd57600c600d1060fe5760018001505050",
    );
    assert(s.len() == 102);
    assert(is_hex_text(s));
    assert(walk_end(s, 98) == walk_end(s, 102)) by {
        reveal_with_fuel(walk_end, 5);
    }
    assert(walk_end(s, 88) == walk_end(s, 98)) by {
        reveal_with_fuel(walk_end, 5);
    }
    assert(walk_end(s, 76) == walk_end(s, 88)) by {
        reveal_with_fuel(walk_end, 5);
    }
    assert(walk_end(s, 64) == walk_end(s, 76)) by {
        reveal_with_fuel(walk_end, 5);
    }
    assert(walk_end(s, 52) == walk_end(s, 64)) by {
        reveal_with_fuel(walk_end, 5);
    }
    assert(walk_end(s, 38) == walk_end(s, 52)) by {
        reveal_with_fuel(walk_end, 5);
    }
    assert(walk_end(s, 26) == walk_end(s, 38)) by {
        reveal_with_fuel(walk_end, 5);
    }
    assert(walk_end(s, 16) == walk_end(s, 26)) by {
        reveal_with_fuel(walk_end, 5);
    }
    assert(walk_end(s, 0) == walk_end(s, 16)) by {
        reveal_with_fuel(walk_end, 5);
    }
    assert(walk_lacks(s, JUMP, 94) == walk_lacks(s, JUMP, 102)) by {
        reveal_with_fuel(walk_lacks, 5);
    }
    assert(walk_lacks(s, JUMP, 82) == walk_lacks(s, JUMP, 94)) by {
        reveal_with_fuel(walk_lacks, 5);
    }
    assert(walk_lacks(s, JUMP, 70) == walk_lacks(s, JUMP, 82)) by {
        reveal_with_fuel(walk_lacks, 5);
    }
    assert(walk_lacks(s, JUMP, 56) == walk_lacks(s, JUMP, 70)) by {
        reveal_with_fuel(walk_lacks, 5);
    }
    assert(walk_lacks(s, JUMP, 42) == walk_lacks(s, JUMP, 56)) by {
        reveal_with_fuel(walk_lacks, 5);
    }
    assert(walk_lacks(s, JUMP, 34) == walk_lacks(s, JUMP, 42)) by {
        reveal_with_fuel(walk_lacks, 5);
    }
    assert(walk_lacks(s, JUMP, 20) == walk_lacks(s, JUMP, 34)) by {
        reveal_with_fuel(walk_lacks, 5);
    }
    assert(walk_lacks(s, JUMP, 8) == walk_lacks(s, JUMP, 20)) by {
        reveal_with_fuel(walk_lacks, 5);
    }
    assert(walk_lacks(s, JUMP, 8));
    lemma_walk_end(s, 0);
}

/// The walk of fragment 4, in strides of four instructions.
proof fn lemma_fragment_4()
    ensures
        can_be_walked(dead_bytecode_catalogue()[4]),
        has_one_jump(dead_bytecode_catalogue()[4]),
{
    let s = dead_bytecode_catalogue()[4];
    reveal_strlit(
        "61000b566002600402505b6200000a60020150600160030a5061000460020650600060011460fe57600260031850600450",
    );
    assert(s.len() == 98);
    assert(is_hex_text(s));
    assert(walk_end(s, 92) == walk_end(s, 98)) by {
        reveal_with_fuel(walk_end, 5);
    }
    assert(walk_end(s, 80) == walk_end(s, 92)) by {
        reveal_with_fuel(walk_end, 5);
    }
    assert(walk_end(s, 68) == walk_end(s, 80)) by {
        reveal_with_fuel(walk_end, 5);
    }
    assert(walk_end(s, 56) == walk_end(s, 68)) by {
        reveal_with_fuel(walk_end, 5);
    }
    assert(walk_end(s, 42) == walk_end(s, 56)) by {
        reveal_with_fuel(walk_end, 5);
    }
    assert(walk_end(s, 30) == walk_end(s, 42)) by {
        reveal_with_fuel(walk_end, 5);
    }
    assert(walk_end(s, 16) == walk_end(s, 30)) by {
        reveal_with_fuel(walk_end, 5);
    }
    assert(walk_end(s, 0) == walk_end(s, 16)) by {
        reveal_with_fuel(walk_end, 5);
    }
    assert(walk_lacks(s, JUMP, 88) == walk_lacks(s, JUMP, 98)) by {
        reveal_with_fuel(walk_lacks, 5);
    }
    assert(walk_lacks(s, JUMP, 74) == walk_lacks(s, JUMP, 88)) by {
        reveal_with_fuel(walk_lacks, 5);
    }
    assert(walk_lacks(s, JUMP, 62) == walk_lacks(s, JUMP, 74)) by {
        reveal_with_fuel(walk_lacks, 5);
    }
    assert(walk_lacks(s, JUMP, 48) == walk_lacks(s, JUMP, 62)) by {
        reveal_with_fuel(walk_lacks, 5);
    }
    assert(walk_lacks(s, JUMP, 36) == walk_lacks(s, JUMP, 48)) by {
        reveal_with_fuel(walk_lacks, 5);
    }
    assert(walk_lacks(s, JUMP, 20) == walk_lacks(s, JUMP, 36)) by {
        reveal_with_fuel(walk_lacks, 5);
    }
    assert(walk_lacks(s, JUMP, 8) == walk_lacks(s, JUMP, 20)) by {
        reveal_with_fuel(walk_lacks, 5);
    }
    assert(walk_lacks(s, JUMP, 8));
    lemma_walk_end(s, 0);
}

/// The walk of fragment 5, in strides of four instructions.
proof fn lemma_fragment_5()
    ensures
        can_be_walked(dead_bytecode_catalogue()[5]),
        has_one_jump(dead_bytecode_catalogue()[5]),
{
    let s = dead_bytecode_catalogue()[5];
    reveal_strlit(
        "61000b566001600201505b60036004600508506002600360040950610006600760081060fd576001600060021260fe5760098002035050",
    );
    assert(s.len() == 110);
    assert(is_hex_text(s));
    assert(walk_end(s, 104) == walk_end(s, 110)) by {
        reveal_with_fuel(walk_end, 5);
    }
    assert(walk_end(s, 94) == walk_end(s, 104)) by {
        reveal_with_fuel(walk_end, 5);
    }
    assert(walk_end(s, 80) == walk_end(s, 94)) by {
        reveal_with_fuel(walk_end, 5);
    }
    assert(walk_end(s, 68) == walk_end(s, 80)) by {
        reveal_with_fuel(walk_end, 5);
    }
    assert(walk_end(s, 52) == walk_end(s, 68)) by {
        reveal_with_fuel(walk_end, 5);
    }
    assert(walk_end(s, 38) == walk_end(s, 52)) by {
        reveal_with_fuel(walk_end, 5);
    }
    assert(walk_end(s, 26) == walk_end(s, 38)) by {
        reveal_with_fuel(walk_end, 5);
    }
    assert(walk_end(s, 16) == walk_end(s, 26)) by {
        reveal_with_fuel(walk_end, 5);
    }
    assert(walk_end(s, 0) == walk_end(s, 16)) by {
        reveal_with_fuel(walk_end, 5);
    }
    assert(walk_lacks(s, JUMP, 108) == walk_lacks(s, JUMP, 110)) by {
        reveal_with_fuel(walk_lacks, 5);
    }
    assert(walk_lacks(s, JUMP, 100) == walk_lacks(s, JUMP, 108)) by {
        reveal_with_fuel(walk_lacks, 5);
    }
    assert(walk_lacks(s, JUMP, 88) == walk_lacks(s, JUMP, 100)) by {
        reveal_with_fuel(walk_lacks, 5);
    }
    assert(walk_lacks(s, JUMP, 74) == walk_lacks(s, JUMP, 88)) by {
        reveal_with_fuel(walk_lacks, 5);
    }
    assert(walk_lacks(s, JUMP, 60) == walk_lacks(s, JUMP, 74)) by {
        reveal_with_fuel(walk_lacks, 5);
    }
    assert(walk_lacks(s, JUMP, 46) == walk_lacks(s, JUMP, 60)) by {
        reveal_with_fuel(walk_lacks, 5);
    }
    assert(walk_lacks(s, JUMP, 34) == walk_lacks(s, JUMP, 46)) by {
        reveal_with_fuel(walk_lacks, 5);
    }
    assert(walk_lacks(s, JUMP, 20) == walk_lacks(s, JUMP, 34)) by {
        reveal_with_fuel(walk_lacks, 5);
    }
    assert(walk_lacks(s, JUMP, 8) == walk_lacks(s, JUMP, 20)) by {
        reveal_with_fuel(walk_lacks, 5);
    }
    assert(walk_lacks(s, JUMP, 8));
    lemma_walk_end(s, 0);
}

/// The walk of fragment 6, in strides of four instructions.
proof fn lemma_fragment_6()
    ensures
        can_be_walked(dead_bytecode_catalogue()[6]),
        has_one_jump(dead_bytecode_catalogue()[6]),
{
    let s = dead_bytecode_catalogue()[6];
    reveal_strlit(
        "61000b566005600601505b600760080150600a600903600060011460f25760028002506003905050",
    );
    assert(s.len() == 80);
    assert(is_hex_text(s));
    assert(walk_end(s, 74) == walk_end(s, 80)) by {
        reveal_with_fuel(walk_end, 5);
    }
    assert(walk_end(s, 64) == walk_end(s, 74)) by {
        reveal_with_fuel(walk_end, 5);
    }
    assert(walk_end(s, 52) == walk_end(s, 64)) by {
        reveal_with_fuel(walk_end, 5);
    }
    assert(walk_end(s, 38) == walk_end(s, 52)) by {
        reveal_with_fuel(walk_end, 5);
    }
    assert(walk_end(s, 26) == walk_end(s, 38)) by {
        reveal_with_fuel(walk_end, 5);
    }
    assert(walk_end(s, 16) == walk_end(s, 26)) by {
        reveal_with_fuel(walk_end, 5);
    }
    assert(walk_end(s, 0) == walk_end(s, 16)) by {
        reveal_with_fuel(walk_end, 5);
    }
    assert(walk_lacks(s, JUMP, 78) == walk_lacks(s, JUMP, 80)) by {
        reveal_with_fuel(walk_lacks, 5);
    }
    assert(walk_lacks(s, JUMP, 68) == walk_lacks(s, JUMP, 78)) by {
        reveal_with_fuel(walk_lacks, 5);
    }
    assert(walk_lacks(s, JUMP, 58) == walk_lacks(s, JUMP, 68)) by {
        reveal_with_fuel(walk_lacks, 5);
    }
    assert(walk_lacks(s, JUMP, 44) == walk_lacks(s, JUMP, 58)) by {
        reveal_with_fuel(walk_lacks, 5);
    }
    assert(walk_lacks(s, JUMP, 32) == walk_lacks(s, JUMP, 44)) by {
        reveal_with_fuel(walk_lacks, 5);
    }
    assert(walk_lacks(s, JUMP, 20) == walk_lacks(s, JUMP, 32)) by {
        reveal_with_fuel(walk_lacks, 5);
    }
    assert(walk_lacks(s, JUMP, 8) == walk_lacks(s, JUMP, 20)) by {
        reveal_with_fuel(walk_lacks, 5);
    }
    assert(walk_lacks(s, JUMP, 8));
    lemma_walk_end(s, 0);
}

/// The walk of fragment 7, in strides of four instructions.
proof fn lemma_fragment_7()
    ensures
        can_be_walked(dead_bytecode_catalogue()[7]),
        has_one_jump(dead_bytecode_catalogue()[7]),
{
    let s = dead_bytecode_catalogue()[7];
    reveal_strlit(
        "61000b566005600601505b600b600c0250600d600e0450600160021060f357600360041060f457600560061650",
    );
    assert(s.len() == 90);
    assert(is_hex_text(s));
    assert(walk_end(s, 88) == walk_end(s, 90)) by {
        reveal_with_fuel(walk_end, 5);
    }
    assert(walk_end(s, 76) == walk_end(s, 88)) by {
        reveal_with_fuel(walk_end, 5);
    }
    assert(walk_end(s, 62) == walk_end(s, 76)) by {
        reveal_with_fuel(walk_end, 5);
    }
    assert(walk_end(s, 50) == walk_end(s, 62)) by {
        reveal_with_fuel(walk_end, 5);
    }
    assert(walk_end(s, 38) == walk_end(s, 50)) by {
        reveal_with_fuel(walk_end, 5);
    }
    assert(walk_end(s, 26) == walk_end(s, 38)) by {
        reveal_with_fuel(walk_end, 5);
    }
    assert(walk_end(s, 16) == walk_end(s, 26)) by {
        reveal_with_fuel(walk_end, 5);
    }
    assert(walk_end(s, 0) == walk_end(s, 16)) by {
        reveal_with_fuel(walk_end, 5);
    }
    assert(walk_lacks(s, JUMP, 82) == walk_lacks(s, JUMP, 90)) by {
        reveal_with_fuel(walk_lacks, 5);
    }
    assert(walk_lacks(s, JUMP, 70) == walk_lacks(s, JUMP, 82)) by {
        reveal_with_fuel(walk_lacks, 5);
    }
    assert(walk_lacks(s, JUMP, 56) == walk_lacks(s, JUMP, 70)) by {
        reveal_with_fuel(walk_lacks, 5);
    }
    assert(walk_lacks(s, JUMP, 44) == walk_lacks(s, JUMP, 56)) by {
        reveal_with_fuel(walk_lacks, 5);
    }
    assert(walk_lacks(s, JUMP, 32) == walk_lacks(s, JUMP, 44)) by {
        reveal_with_fuel(walk_lacks, 5);
    }
    assert(walk_lacks(s, JUMP, 20) == walk_lacks(s, JUMP, 32)) by {
        reveal_with_fuel(walk_lacks, 5);
    }
    assert(walk_lacks(s, JUMP, 8) == walk_lacks(s, JUMP, 20)) by {
        reveal_with_fuel(walk_lacks, 5);
    }
    assert(walk_lacks(s, JUMP, 8));
    lemma_walk_end(s, 0);
}

/// The walk of fragment 8, in strides of four instructions.
proof fn lemma_fragment_8()
    ensures
        can_be_walked(dead_bytecode_catalogue()[8]),
        has_one_jump(dead_bytecode_catalogue()[8]),
{
    let s = dead_bytecode_catalogue()[8];
    reveal_strlit(
        "61000b566005600601505b600f60101650601160121750601360141850601560160650600060011460f657",
    );
    assert(s.len() == 86);
    assert(is_hex_text(s));
    assert(walk_end(s, 74) == walk_end(s, 86)) by {
        reveal_with_fuel(walk_end, 5);
    }
    assert(walk_end(s, 62) == walk_end(s, 74)) by {
        reveal_with_fuel(walk_end, 5);
    }
    assert(walk_end(s, 50) == walk_end(s, 62)) by {
        reveal_with_fuel(walk_end, 5);
    }
    assert(walk_end(s, 38) == walk_end(s, 50)) by {
        reveal_with_fuel(walk_end, 5);
    }
    assert(walk_end(s, 26) == walk_end(s, 38)) by {
        reveal_with_fuel(walk_end, 5);
    }
    assert(walk_end(s, 16) == walk_end(s, 26)) by {
        reveal_with_fuel(walk_end, 5);
    }
    assert(walk_end(s, 0) == walk_end(s, 16)) by {
        reveal_with_fuel(walk_end, 5);
    }
    assert(walk_lacks(s, JUMP, 80) == walk_lacks(s, JUMP, 86)) by {
        reveal_with_fuel(walk_lacks, 5);
    }
    assert(walk_lacks(s, JUMP, 68) == walk_lacks(s, JUMP, 80)) by {
        reveal_with_fuel(walk_lacks, 5);
    }
    assert(walk_lacks(s, JUMP, 56) == walk_lacks(s, JUMP, 68)) by {
        reveal_with_fuel(walk_lacks, 5);
    }
    assert(walk_lacks(s, JUMP, 44) == walk_lacks(s, JUMP, 56)) by {
        reveal_with_fuel(walk_lacks, 5);
    }
    assert(walk_lacks(s, JUMP, 32) == walk_lacks(s, JUMP, 44)) by {
        reveal_with_fuel(walk_lacks, 5);
    }
    assert(walk_lacks(s, JUMP, 20) == walk_lacks(s, JUMP, 32)) by {
        reveal_with_fuel(walk_lacks, 5);
    }
    assert(walk_lacks(s, JUMP, 8) == walk_lacks(s, JUMP, 20)) by {
        reveal_with_fuel(walk_lacks, 5);
    }
    assert(walk_lacks(s, JUMP, 8));
    lemma_walk_end(s, 0);
}

/// The walk of fragment 9, in strides of four instructions.
proof fn lemma_fragment_9()
    ensures
        can_be_walked(dead_bytecode_catalogue()[9]),
        has_one_jump(dead_bytecode_catalogue()[9]),
{
    let s = dead_bytecode_catalogue()[9];
    reveal_strlit(
        "61000b566005600601505b6017601801506019601a0250601b601c0350601d601e0450600060011460f757",
    );
    assert(s.len() == 86);
    assert(is_hex_text(s));
    assert(walk_end(s, 74) == walk_end(s, 86)) by {
        reveal_with_fuel(walk_end, 5);
    }
    assert(walk_end(s, 62) == walk_end(s, 74)) by {
        reveal_with_fuel(walk_end, 5);
    }
    assert(walk_end(s, 50) == walk_end(s, 62)) by {
        reveal_with_fuel(walk_end, 5);
    }
    assert(walk_end(s, 38) == walk_end(s, 50)) by {
        reveal_with_fuel(walk_end, 5);
    }
    assert(walk_end(s, 26) == walk_end(s, 38)) by {
        reveal_with_fuel(walk_end, 5);
    }
    assert(walk_end(s, 16) == walk_end(s, 26)) by {
        reveal_with_fuel(walk_end, 5);
    }
    assert(walk_end(s, 0) == walk_end(s, 16)) by {
        reveal_with_fuel(walk_end, 5);
    }
    assert(walk_lacks(s, JUMP, 80) == walk_lacks(s, JUMP, 86)) by {
        reveal_with_fuel(walk_lacks, 5);
    }
    assert(walk_lacks(s, JUMP, 68) == walk_lacks(s, JUMP, 80)) by {
        reveal_with_fuel(walk_lacks, 5);
    }
    assert(walk_lacks(s, JUMP, 56) == walk_lacks(s, JUMP, 68)) by {
        reveal_with_fuel(walk_lacks, 5);
    }
    assert(walk_lacks(s, JUMP, 44) == walk_lacks(s, JUMP, 56)) by {
        reveal_with_fuel(walk_lacks, 5);
    }
    assert(walk_lacks(s, JUMP, 32) == walk_lacks(s, JUMP, 44)) by {
        reveal_with_fuel(walk_lacks, 5);
    }
    assert(walk_lacks(s, JUMP, 20) == walk_lacks(s, JUMP, 32)) by {
        reveal_with_fuel(walk_lacks, 5);
    }
    assert(walk_lacks(s, JUMP, 8) == walk_lacks(s, JUMP, 20)) by {
        reveal_with_fuel(walk_lacks, 5);
    }
    assert(walk_lacks(s, JUMP, 8));
    lemma_walk_end(s, 0);
}

/// Every fragment of the catalogue can be walked from its first
/// instruction to its last, and none of its instructions lacks digits.
/// Each begins with `PUSH2 000b; JUMP` and has no other JUMP.
pub proof fn lemma_catalogue_can_be_walked()
    ensures
        dead_bytecode_catalogue().len() == 10,
        forall|i: int|
            0 <= i < dead_bytecode_catalogue().len() ==> can_be_walked(
                #[trigger] dead_bytecode_catalogue()[i],
            ) && has_one_jump(dead_bytecode_catalogue()[i]),
{
    lemma_fragment_0();
    lemma_fragment_1();
    lemma_fragment_2();
    lemma_fragment_3();
    lemma_fragment_4();
    lemma_fragment_5();
    lemma_fragment_6();
    lemma_fragment_7();
    lemma_fragment_8();
    lemma_fragment_9();
}

/// Whatever fragment is picked at random can be walked.
pub proof fn lemma_choice_can_be_walked(text: Seq<char>)
    requires
        is_dead_bytecode_choice(text),
    ensures
        can_be_walked(text),
{
    lemma_catalogue_can_be_walked();
}

/// Whatever fragment is picked at random can be put after every byte
/// position that leaves the target of its jump, eleven bytes on, within
/// two bytes.
pub proof fn lemma_choice_relocates(text: Seq<char>, position: int)
    requires
        is_dead_bytecode_choice(text),
        0 <= 11 + position <= 0xffff,
    ensures
        relocated(text, position) is Ok,
{
    lemma_catalogue_can_be_walked();
    lemma_one_jump_relocates(text, position);
}

} // verus!
