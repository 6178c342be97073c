use bytecode_obfuscator::analysis::jump_seq::find_jump_seq;
use bytecode_obfuscator::constant::dead_bytecodes::dead_bytecodes;
use bytecode_obfuscator::error::ObfuscationError;
use bytecode_obfuscator::helper::bytecode::get_last_instruction_position;
use bytecode_obfuscator::obfuscation::obfuscate::{
    count_jump_sites, divide_code, obfuscate, obfuscate_jump_site, obfuscate_with,
};
use bytecode_obfuscator::walker::walk;

const SAMPLE: &str = "6042600a5652602060005b0033602f01601656003360ff5b00";

const CONTRACT: &str = "61000d8061000c5f395ff3fe6003565b00";

fn with(code: &str, picks: &[usize]) -> (Result<(), ObfuscationError>, String) {
    let catalogue = dead_bytecodes();
    let fragments: Vec<String> = picks.iter().map(|i| catalogue[*i].clone()).collect();
    let mut buffer = String::from(code);
    let r = obfuscate_with(&mut buffer, &fragments);
    (r, buffer)
}

#[test]
fn one_site_of_code_without_initialization() {
    assert_eq!(
        with(SAMPLE, &[1]),
        (
            Ok(()),
            String::from(
                "604260195652602060005b0033602f01601656003360ff5b005b610024566001600201505b6002600301506100036004025060006001146100fa576005600603506007800150600880025060096001035061000a56"
            )
        )
    );
}

#[test]
fn two_sites_of_code_without_initialization() {
    assert_eq!(
        with(SAMPLE, &[1, 2]),
        (
            Ok(()),
            String::from(
                "604260195652602060005b0033602f01605556003360ff5b005b610024566001600201505b6002600301506100036004025060006001146100fa576005600603506007800150600880025060096001035061000a565b610060566001600201505b61000360040250600060011460fa57600160021060fb57600260031460fc5760056006165061001656"
            )
        )
    );
}

#[test]
fn more_fragments_than_sites() {
    assert_eq!(
        with(SAMPLE, &[9, 1, 2]),
        (
            Ok(()),
            String::from(
                "604260195652602060005b0033602f01604956003360ff5b005b610024566005600601505b6017601801506019601a0250601b601c0350601d601e0450600060011460f75761000a565b610054566001600201505b6002600301506100036004025060006001146100fa576005600603506007800150600880025060096001035061001656"
            )
        )
    );
}

#[test]
fn no_fragment_no_detour() {
    assert_eq!(with(SAMPLE, &[]), (Ok(()), String::from(SAMPLE)));
    assert_eq!(with("5b00", &[1, 2]), (Ok(()), String::from("5b00")));
    assert_eq!(with("", &[1]), (Ok(()), String::new()));
}

#[test]
fn contract_with_initialization_code() {
    assert_eq!(
        with(CONTRACT, &[1]),
        (
            Ok(()),
            String::from(
                "6100428061000c5f395ff3fe6005565b005b610010566001600201505b6002600301506100036004025060006001146100fa576005600603506007800150600880025060096001035061000356"
            )
        )
    );
    assert_eq!(
        with(CONTRACT, &[2]),
        (
            Ok(()),
            String::from(
                "61003b8061000c5f395ff3fe6005565b005b610010566001600201505b61000360040250600060011460fa57600160021060fb57600260031460fc5760056006165061000356"
            )
        )
    );
}

#[test]
fn the_length_is_set_anew_even_without_a_detour() {
    assert_eq!(with(CONTRACT, &[]), (Ok(()), String::from("6100068061000c5f395ff3fe6003565b00")));
}

#[test]
fn a_leading_0x_is_dropped() {
    assert_eq!(
        with("0x61000d8061000c5f395ff3fe6003565b00", &[3]),
        (
            Ok(()),
            String::from(
                "61003e8061000c5f395ff3fe6005565b005b610010566003600401505b6005600660078190035061000860090250600a600b1060fd57600c600d1060fe576001800150505061000356"
            )
        )
    );
    assert_eq!(with("0x5b", &[1]), (Ok(()), String::from("5b")));
}

#[test]
fn growth_is_a_jumpdest_a_fragment_and_a_push_jump_for_each_site() {
    let catalogue = dead_bytecodes();
    for picks in [vec![1], vec![4, 7], vec![9, 9], vec![2, 3, 5]] {
        let (r, out) = with(SAMPLE, &picks);
        assert_eq!(r, Ok(()));
        let sites = picks.len().min(2);
        let mut expected = SAMPLE.len();
        for pick in &picks[..sites] {
            expected += 2 + catalogue[*pick].len() + 8;
        }
        assert_eq!(out.len(), expected);
        assert!(out.len() > SAMPLE.len());
        assert!(out.len() >= SAMPLE.len() + sites * (2 + 74 + 8));
    }
    let (r, out) = with(CONTRACT, &[6]);
    assert_eq!(r, Ok(()));
    assert_eq!(out.len(), CONTRACT.len() + 2 + 80 + 8);
}

#[test]
fn detour_leads_back_to_the_target() {
    let (r, out) = with(SAMPLE, &[1]);
    assert_eq!(r, Ok(()));
    // The first PUSH now pushes the position of the appended JUMPDEST.
    assert_eq!(&out[4..8], "6019");
    assert_eq!(&out[50..52], "5b");
    // The fragment begins one byte later and lands on its own JUMPDEST.
    assert_eq!(&out[52..60], "61002456");
    assert_eq!(&out[72..74], "5b");
    // The tail pushes the first target of the site and jumps.
    assert!(out.ends_with("61000a56"));
    assert_eq!(get_last_instruction_position(&out), Ok((out.len() / 2) as i32 - 1));
}

#[test]
fn one_site_step_by_step() {
    let runtime = String::from("6003565b00");
    let sites = find_jump_seq(&runtime).unwrap();
    let catalogue = dead_bytecodes();
    let mut code = runtime.clone();
    assert_eq!(obfuscate_jump_site(&mut code, &sites[0], &catalogue[1]), Ok(()));
    assert_eq!(
        code,
        "6005565b005b610010566001600201505b6002600301506100036004025060006001146100fa576005600603506007800150600880025060096001035061000356"
    );
}

#[test]
fn site_with_a_fragment_of_one_instruction() {
    let runtime = String::from("6003565b00");
    let sites = find_jump_seq(&runtime).unwrap();
    let mut code = runtime.clone();
    assert_eq!(obfuscate_jump_site(&mut code, &sites[0], &String::from("00")), Ok(()));
    assert_eq!(code, "6005565b005b0061000356");
    let mut code = runtime.clone();
    assert_eq!(obfuscate_jump_site(&mut code, &sites[0], &String::new()), Ok(()));
    assert_eq!(code, "6005565b005b61000356");
}

#[test]
fn site_failures_leave_the_code() {
    let runtime = String::from("6003565b00");
    let sites = find_jump_seq(&runtime).unwrap();
    let mut code = runtime.clone();
    assert_eq!(
        obfuscate_jump_site(&mut code, &sites[0], &String::from("ff")),
        Err(ObfuscationError::UnknownOpcode)
    );
    assert_eq!(
        obfuscate_jump_site(&mut code, &sites[0], &String::from("5")),
        Err(ObfuscationError::InvalidHex)
    );
    assert_eq!(
        obfuscate_jump_site(&mut code, &sites[0], &String::from("60ff56")),
        Err(ObfuscationError::OperandOverflow)
    );
    assert_eq!(code, runtime);
    let mut other = String::from("5b5b5b5b");
    assert_eq!(
        obfuscate_jump_site(&mut other, &sites[0], &String::from("00")),
        Err(ObfuscationError::OperandOverflow)
    );
    assert_eq!(other, "5b5b5b5b");
}

#[test]
fn a_jumpdest_beyond_the_reach_of_push1() {
    let mut long = String::from("600356");
    long.push_str(&"5b".repeat(253));
    let (r, out) = with(&long, &[1]);
    assert_eq!(r, Err(ObfuscationError::OperandOverflow));
    assert_eq!(out, long);
    let mut short = String::from("600356");
    short.push_str(&"5b".repeat(252));
    let (r, out) = with(&short, &[1]);
    assert_eq!(r, Ok(()));
    assert_eq!(&out[..6], "60ff56");
}

#[test]
fn a_site_with_a_wide_push_gets_its_detour() {
    // The site is a PUSH3 of 4: the way back is a PUSH2 of 4.
    assert_eq!(
        with("62000004565b00", &[1]),
        (
            Ok(()),
            String::from(
                "62000007565b005b610012566001600201505b6002600301506100036004025060006001146100fa576005600603506007800150600880025060096001035061000456"
            )
        )
    );
    assert_eq!(
        with("61000d8061000c5f395ff3fe62000003565b00", &[2]),
        (
            Ok(()),
            String::from(
                "61003d8061000c5f395ff3fe62000007565b005b610012566001600201505b61000360040250600060011460fa57600160021060fb57600260031460fc5760056006165061000356"
            )
        )
    );
}

#[test]
fn a_site_with_a_push32_gets_its_detour() {
    let mut code = String::from("7f");
    code.push_str(&"00".repeat(31));
    code.push_str("2356");
    code.push_str(&"5b".repeat(0x22));
    code.push_str("00");
    let (r, out) = with(&code, &[6]);
    assert_eq!(r, Ok(()));
    assert_eq!(
        out,
        "7f0000000000000000000000000000000000000000000000000000000000000045565b5b5b5b5b5b5b5b5b5b5b5b5b5b5b5b5b5b5b5b5b5b5b5b5b5b5b5b5b5b5b5b5b5b005b610050566005600601505b600760080150600a600903600060011460f2576002800250600390505061002356"
    );
    assert_eq!(out.len(), code.len() + 2 + 80 + 8);
}

#[test]
fn a_target_above_two_bytes() {
    let code = "62010000565b00";
    let (r, out) = with(code, &[1]);
    assert_eq!(r, Err(ObfuscationError::OperandOverflow));
    assert_eq!(out, code);
}

#[test]
fn failures_leave_the_contract() {
    assert_eq!(with("0xff", &[1]), (Err(ObfuscationError::UnknownOpcode), String::from("0xff")));
    assert_eq!(with("0x5", &[1]), (Err(ObfuscationError::InvalidHex), String::from("0x5")));
    assert_eq!(with("5B", &[]), (Err(ObfuscationError::InvalidHex), String::from("5B")));
    assert_eq!(
        with("0x638000000056", &[]),
        (Err(ObfuscationError::OperandOverflow), String::from("0x638000000056"))
    );
}

#[test]
fn initialization_code_without_a_length() {
    let code = "395b5b5b6003565b00";
    assert_eq!(
        with(code, &[1]),
        (Err(ObfuscationError::NoCodecopyLengthPattern), String::from(code))
    );
    assert_eq!(
        with(code, &[]),
        (Err(ObfuscationError::NoCodecopyLengthPattern), String::from(code))
    );
}

#[test]
fn initialization_code_whose_length_does_not_fit() {
    let code = "60058080803900f3fe6003565b00";
    assert_eq!(with(code, &[]), (Ok(()), String::from("60068080803900f3fe6003565b00")));
    let mut fragments: Vec<String> = Vec::new();
    fragments.push("5b".repeat(250));
    let mut buffer = String::from(code);
    assert_eq!(obfuscate_with(&mut buffer, &fragments), Err(ObfuscationError::OperandOverflow));
    assert_eq!(buffer, code);
}

#[test]
fn divide_code_falls_back_to_runtime_code() {
    assert_eq!(
        divide_code(&String::from("0x5b00")),
        Ok((String::new(), String::from("5b00"), false))
    );
    assert_eq!(
        divide_code(&String::from(CONTRACT)),
        Ok((String::from("61000d8061000c5f395ff3fe"), String::from("6003565b00"), true))
    );
    assert_eq!(divide_code(&String::from("0x0x5b")), Err(ObfuscationError::InvalidHex));
    assert_eq!(divide_code(&String::from("ff")), Err(ObfuscationError::UnknownOpcode));
}

#[test]
fn jump_sites_are_counted_in_the_runtime_code() {
    assert_eq!(count_jump_sites(&String::from(SAMPLE)), Ok(2));
    assert_eq!(count_jump_sites(&String::from(CONTRACT)), Ok(1));
    assert_eq!(count_jump_sites(&String::from("0x600156395b5b5b5b")), Ok(0));
    assert_eq!(count_jump_sites(&String::from("0x")), Ok(0));
    assert_eq!(count_jump_sites(&String::from("0xff")), Err(ObfuscationError::UnknownOpcode));
}

fn outcomes(code: &str, sites: usize) -> Vec<String> {
    let mut all: Vec<String> = Vec::new();
    if sites == 0 {
        all.push(with(code, &[]).1);
    } else if sites == 1 {
        for i in 1..10 {
            all.push(with(code, &[i]).1);
        }
    } else {
        for i in 1..10 {
            for j in 1..10 {
                all.push(with(code, &[i, j]).1);
            }
        }
    }
    all
}

#[test]
fn random_obfuscation_is_one_of_the_possible_ones() {
    for _ in 0..20 {
        let mut code = String::from("62000004565b00");
        assert_eq!(obfuscate(&mut code, 1), Ok(()));
        assert!(outcomes("62000004565b00", 1).contains(&code));
    }
    for _ in 0..40 {
        let mut code = String::from(SAMPLE);
        assert_eq!(obfuscate(&mut code, 1), Ok(()));
        assert!(outcomes(SAMPLE, 1).contains(&code));
        let mut code = String::from(CONTRACT);
        assert_eq!(obfuscate(&mut code, 5), Ok(()));
        assert!(outcomes(CONTRACT, 1).contains(&code));
    }
    for _ in 0..10 {
        let mut code = String::from(SAMPLE);
        assert_eq!(obfuscate(&mut code, usize::MAX), Ok(()));
        assert!(outcomes(SAMPLE, 2).contains(&code));
    }
}

#[test]
fn random_obfuscation_never_uses_the_first_fragment() {
    let with_first = with(SAMPLE, &[0]).1;
    for _ in 0..200 {
        let mut code = String::from(SAMPLE);
        assert_eq!(obfuscate(&mut code, 1), Ok(()));
        assert_ne!(code, with_first);
    }
}

#[test]
fn random_obfuscation_varies() {
    let mut first = String::from(SAMPLE);
    assert_eq!(obfuscate(&mut first, 1), Ok(()));
    let mut other = false;
    for _ in 0..400 {
        let mut code = String::from(SAMPLE);
        assert_eq!(obfuscate(&mut code, 1), Ok(()));
        if code != first {
            other = true;
        }
    }
    assert!(other);
}

#[test]
fn cap_of_zero_makes_no_detour() {
    let mut code = String::from(SAMPLE);
    assert_eq!(obfuscate(&mut code, 0), Ok(()));
    assert_eq!(code, SAMPLE);
    let mut code = String::from("0x61000d8061000c5f395ff3fe6003565b00");
    assert_eq!(obfuscate(&mut code, 0), Ok(()));
    assert_eq!(code, "6100068061000c5f395ff3fe6003565b00");
}

#[test]
fn random_obfuscation_grows_by_site() {
    let mut code = String::from(SAMPLE);
    assert_eq!(obfuscate(&mut code, 2), Ok(()));
    assert!(code.len() >= SAMPLE.len() + 2 * (2 + 80 + 8));
    assert!(code.starts_with("604260195652602060005b0033602f0160"));
}

#[test]
fn random_obfuscation_failures_leave_the_contract() {
    let mut code = String::from("0xff");
    assert_eq!(obfuscate(&mut code, 3), Err(ObfuscationError::UnknownOpcode));
    assert_eq!(code, "0xff");
    let mut code = String::from("395b5b5b6003565b00");
    assert_eq!(obfuscate(&mut code, 3), Err(ObfuscationError::NoCodecopyLengthPattern));
    assert_eq!(code, "395b5b5b6003565b00");
    let mut code = String::from("62010000565b00");
    assert_eq!(obfuscate(&mut code, 3), Err(ObfuscationError::OperandOverflow));
    assert_eq!(code, "62010000565b00");
    let mut code = String::from("6g");
    assert_eq!(obfuscate(&mut code, 3), Err(ObfuscationError::InvalidHex));
    assert_eq!(code, "6g");
}

#[test]
fn sites_stay_where_they_were_found() {
    let before = find_jump_seq(&String::from(SAMPLE)).unwrap();
    let (r, out) = with(SAMPLE, &[4, 7]);
    assert_eq!(r, Ok(()));
    let after = find_jump_seq(&out).unwrap();
    // Each decoy and each way back is a jump of its own, after the old ones.
    assert_eq!(after.len(), before.len() + 4);
    let catalogue = dead_bytecodes();
    let mut landing = SAMPLE.len();
    for (i, pick) in [4usize, 7].iter().enumerate() {
        assert_eq!(after[i].byteoffset_decimal, before[i].byteoffset_decimal);
        assert_eq!(after[i].instruction_position, before[i].instruction_position);
        assert_eq!(after[i].instruction_bits, before[i].instruction_bits);
        assert_eq!(after[i].value_decimal as usize, landing / 2);
        assert_eq!(&out[landing..landing + 2], "5b");
        landing += 2 + catalogue[*pick].len() + 8;
    }
    assert_eq!(landing, out.len());
}

#[test]
fn sites_without_a_detour_keep_their_records() {
    let before = find_jump_seq(&String::from(SAMPLE)).unwrap();
    let (r, out) = with(SAMPLE, &[3]);
    assert_eq!(r, Ok(()));
    let after = find_jump_seq(&out).unwrap();
    assert_eq!(after[1], before[1]);
    assert_ne!(after[0], before[0]);
}

#[test]
fn the_way_back_pushes_the_old_target() {
    let before = find_jump_seq(&String::from(SAMPLE)).unwrap();
    let (r, out) = with(SAMPLE, &[2, 5]);
    assert_eq!(r, Ok(()));
    let after = find_jump_seq(&out).unwrap();
    // After the two old sites come the jump of the first decoy, the first
    // way back, the jump of the second decoy and the second way back.
    assert_eq!(after[3].instruction_bits, "61");
    assert_eq!(after[3].value_decimal, before[0].value_decimal);
    assert_eq!(after[5].instruction_bits, "61");
    assert_eq!(after[5].value_decimal, before[1].value_decimal);
    assert_eq!(after[5].byteoffset_decimal as usize, out.len() - 8);
}

#[test]
fn obfuscated_code_can_be_walked() {
    for picks in [vec![], vec![1], vec![5, 8], vec![9, 9, 9]] {
        let (r, out) = with(SAMPLE, &picks);
        assert_eq!(r, Ok(()));
        assert!(walk(&out).is_ok());
        let (r, out) = with(CONTRACT, &picks);
        assert_eq!(r, Ok(()));
        assert!(walk(&out).is_ok());
    }
}

#[test]
fn a_fragment_that_breaks_the_walk_is_refused() {
    // The cut PUSH1 of the fragment takes the PUSH2 of the way back as its
    // immediate, and the walk meets `0c`, which the table lacks.
    let mut fragments: Vec<String> = Vec::new();
    fragments.push(String::from("60"));
    let mut code = String::from("600c565b");
    assert_eq!(obfuscate_with(&mut code, &fragments), Err(ObfuscationError::UnknownOpcode));
    assert_eq!(code, "600c565b");
    let mut contract = String::from("61000d8061000c5f395ff3fe600c565b");
    assert_eq!(obfuscate_with(&mut contract, &fragments), Err(ObfuscationError::UnknownOpcode));
    assert_eq!(contract, "61000d8061000c5f395ff3fe600c565b");
}

#[test]
fn a_cut_fragment_that_still_walks_is_taken() {
    let mut fragments: Vec<String> = Vec::new();
    fragments.push(String::from("62"));
    let mut code = String::from("6003565b");
    assert_eq!(obfuscate_with(&mut code, &fragments), Ok(()));
    assert_eq!(code, "6004565b5b6261000356");
}

#[test]
fn many_sites_in_one_pass() {
    let catalogue = dead_bytecodes();
    let code = "6100035600".repeat(300);
    let fragments: Vec<String> = (0..300).map(|i| catalogue[1 + i % 9].clone()).collect();
    let mut buffer = code.clone();
    assert_eq!(obfuscate_with(&mut buffer, &fragments), Ok(()));
    let mut expected = code.len();
    for fragment in &fragments {
        expected += 2 + fragment.len() + 8;
    }
    assert_eq!(buffer.len(), expected);
    let before = find_jump_seq(&code).unwrap();
    let after = find_jump_seq(&buffer).unwrap();
    assert_eq!(before.len(), 300);
    assert_eq!(after.len(), 900);
    let mut landing = code.len();
    for i in 0..300 {
        assert_eq!(after[i].byteoffset_decimal, before[i].byteoffset_decimal);
        assert_eq!(after[i].value_decimal as usize, landing / 2);
        landing += 2 + fragments[i].len() + 8;
    }
}
