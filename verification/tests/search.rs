use gadgets::Gadget;
use gadgets::GadgetIterator;
use iced_x86::Decoder;
use iced_x86::DecoderOptions;
use iced_x86::Instruction;
use iced_x86::Mnemonic;

/// For each offset of `bytes`, the instruction that decoding gives from there.
fn decode_each(bytes: &[u8]) -> Vec<Instruction> {
    let mut table = Vec::new();
    for start in 0..bytes.len() {
        let mut decoder = Decoder::with_ip(64, &bytes[start..], start as u64, DecoderOptions::NONE);
        table.push(decoder.decode());
    }
    table
}

fn any_head(_instruction: &Instruction, _noisy: bool) -> bool {
    true
}

fn head_lengths(gadget: &Gadget) -> usize {
    let body = gadget.instructions();
    body[..body.len() - 1].iter().map(|instruction| instruction.len()).sum()
}

// `add [rcx], eax`, `add ecx, ecx` and `leave` overlap in the three bytes in
// front of `ret`.
const OVERLAPPING: [u8; 4] = [0x01, 0x01, 0xc9, 0xc3];

#[test]
fn overlapping_decodes_have_the_expected_lengths() {
    let table = decode_each(&OVERLAPPING);
    assert_eq!(table[0].len(), 2);
    assert_eq!(table[1].len(), 2);
    assert_eq!(table[2].len(), 1);
    assert_eq!(table[3].len(), 1);
    assert_eq!(table[0].mnemonic(), Mnemonic::Add);
    assert_eq!(table[1].mnemonic(), Mnemonic::Add);
    assert_eq!(table[2].mnemonic(), Mnemonic::Leave);
    assert_eq!(table[3].mnemonic(), Mnemonic::Ret);
}

#[test]
fn every_overlapping_start_yields_its_gadget() {
    let table = decode_each(&OVERLAPPING);
    let (a, b, c, tail) = (table[0], table[1], table[2], table[3]);
    let mut search = GadgetIterator::new(0x1000, tail, &table[..3], 3, false, 0, any_head).unwrap();

    let first = search.next().unwrap();
    assert_eq!(first.file_offset(), 0x1000);
    assert_eq!(first.instructions(), &[a, c, tail]);

    let second = search.next().unwrap();
    assert_eq!(second.file_offset(), 0x1001);
    assert_eq!(second.instructions(), &[b, tail]);

    let third = search.next().unwrap();
    assert_eq!(third.file_offset(), 0x1002);
    assert_eq!(third.instructions(), &[c, tail]);

    assert!(search.next().is_none());
    assert!(search.next().is_none());
}

#[test]
fn collect_gives_the_three_gadgets_in_address_order() {
    let table = decode_each(&OVERLAPPING);
    let (a, b, c, tail) = (table[0], table[1], table[2], table[3]);
    let search = GadgetIterator::new(0, tail, &table[..3], 3, false, 0, any_head).unwrap();
    let all = search.collect();
    assert_eq!(all.len(), 3);
    assert_eq!(all[0].file_offset(), 0);
    assert_eq!(all[0].instructions(), &[a, c, tail]);
    assert_eq!(all[1].file_offset(), 1);
    assert_eq!(all[1].instructions(), &[b, tail]);
    assert_eq!(all[2].file_offset(), 2);
    assert_eq!(all[2].instructions(), &[c, tail]);
}

#[test]
fn a_refused_head_discards_only_its_own_start() {
    let table = decode_each(&OVERLAPPING);
    let (a, b, c, tail) = (table[0], table[1], table[2], table[3]);
    // Refuse `add ecx, ecx`, the instruction at offset 1, and nothing else.
    let refuse_b = |instruction: &Instruction, _noisy: bool| {
        !(instruction.mnemonic() == Mnemonic::Add && instruction.ip() == 1)
    };
    assert!(!refuse_b(&b, false));
    assert!(refuse_b(&a, false));
    let search = GadgetIterator::new(0, tail, &table[..3], 3, false, 0, refuse_b).unwrap();
    let all = search.collect();
    assert_eq!(all.len(), 2);
    assert_eq!(all[0].file_offset(), 0);
    assert_eq!(all[0].instructions(), &[a, c, tail]);
    assert_eq!(all[1].file_offset(), 2);
    assert_eq!(all[1].instructions(), &[c, tail]);
}

#[test]
fn a_refused_instruction_breaks_every_chain_through_it() {
    let table = decode_each(&OVERLAPPING);
    let (b, tail) = (table[1], table[3]);
    let refuse_leave =
        |instruction: &Instruction, _noisy: bool| instruction.mnemonic() != Mnemonic::Leave;
    let search = GadgetIterator::new(0, tail, &table[..3], 3, false, 0, refuse_leave).unwrap();
    let all = search.collect();
    assert_eq!(all.len(), 1);
    assert_eq!(all[0].file_offset(), 1);
    assert_eq!(all[0].instructions(), &[b, tail]);
}

#[test]
fn every_gadget_ends_in_the_tail_and_spans_to_it() {
    // Eight bytes in front of `ret`, decoded from every offset.
    let bytes = [0x48, 0x89, 0xd8, 0x5b, 0x01, 0x01, 0xc9, 0x58, 0xc3];
    let table = decode_each(&bytes);
    let window = bytes.len() - 1;
    let tail = table[window];
    let section_start = 0x40_0000;
    for max_instructions in 1..6 {
        let search = GadgetIterator::new(
            section_start,
            tail,
            &table[..window],
            max_instructions,
            false,
            0,
            any_head,
        )
        .unwrap();
        for gadget in search.collect() {
            let body = gadget.instructions();
            assert_eq!(body[body.len() - 1], tail);
            assert!(1 <= body.len() && body.len() <= max_instructions);
            assert_eq!(gadget.file_offset() + head_lengths(&gadget), section_start + window);
        }
    }
}

#[test]
fn the_limit_counts_the_tail() {
    let table = decode_each(&OVERLAPPING);
    let (b, c, tail) = (table[1], table[2], table[3]);
    let search = GadgetIterator::new(0, tail, &table[..3], 2, false, 0, any_head).unwrap();
    let all = search.collect();
    assert_eq!(all.len(), 2);
    assert_eq!(all[0].instructions(), &[b, tail]);
    assert_eq!(all[1].instructions(), &[c, tail]);
}

#[test]
fn a_limit_of_one_leaves_no_room_in_front_of_the_tail() {
    let table = decode_each(&OVERLAPPING);
    let search = GadgetIterator::new(0, table[3], &table[..3], 1, false, 0, any_head).unwrap();
    assert!(search.collect().is_empty());
}

#[test]
fn a_limit_of_zero_is_turned_down() {
    let table = decode_each(&OVERLAPPING);
    assert!(GadgetIterator::new(0, table[3], &table[..3], 0, false, 0, any_head).is_none());
    assert!(GadgetIterator::new(0, table[3], &table[..0], 0, true, 7, any_head).is_none());
    assert!(GadgetIterator::new(0, table[3], &table[..3], 1, false, 0, any_head).is_some());
}

#[test]
fn an_empty_window_holds_no_gadget() {
    let table = decode_each(&OVERLAPPING);
    let mut search = GadgetIterator::new(0, table[3], &table[..0], 3, false, 0, any_head).unwrap();
    assert_eq!(search.remaining(), 0);
    assert!(search.step().is_none());
    assert_eq!(search.remaining(), 0);
    assert!(search.next().is_none());
    assert!(search.collect().is_empty());
}

#[test]
fn an_instruction_that_oversteps_the_tail_starts_no_gadget() {
    // `add ebx, eax` at offset 0 is two bytes long, but the tail begins at offset 1.
    let table = decode_each(&[0x01, 0xc3, 0x90]);
    assert_eq!(table[0].len(), 2);
    let search = GadgetIterator::new(0, table[1], &table[..1], 5, false, 0, any_head).unwrap();
    assert!(search.collect().is_empty());
}

#[test]
fn an_instruction_without_length_starts_no_gadget() {
    let table = decode_each(&OVERLAPPING);
    // Where no bytes are left the decoder gives an instruction without length.
    let stuck = Decoder::with_ip(64, &[], 0, DecoderOptions::NONE).decode();
    assert_eq!(stuck.len(), 0);
    let window = [stuck, table[1], table[2]];
    let search = GadgetIterator::new(0, table[3], &window, 4, false, 0, any_head).unwrap();
    let all = search.collect();
    assert_eq!(all.len(), 2);
    assert_eq!(all[0].file_offset(), 1);
    assert_eq!(all[1].file_offset(), 2);
}

#[test]
fn each_step_shrinks_the_window_by_one() {
    let table = decode_each(&OVERLAPPING);
    let refuse_all = |_instruction: &Instruction, _noisy: bool| false;
    let mut refused = GadgetIterator::new(0, table[3], &table[..3], 3, false, 0, refuse_all).unwrap();
    let mut admitted = GadgetIterator::new(0, table[3], &table[..3], 3, false, 0, any_head).unwrap();
    for left in (0..3).rev() {
        assert!(refused.step().is_none());
        assert_eq!(refused.remaining(), left);
        assert!(admitted.step().is_some());
        assert_eq!(admitted.remaining(), left);
    }
    assert!(refused.step().is_none());
    assert!(admitted.step().is_none());
    assert_eq!(refused.remaining(), 0);
    assert_eq!(admitted.remaining(), 0);
}

#[test]
fn next_passes_over_the_offsets_without_a_gadget() {
    let table = decode_each(&OVERLAPPING);
    let (c, tail) = (table[2], table[3]);
    let only_leave =
        |instruction: &Instruction, _noisy: bool| instruction.mnemonic() == Mnemonic::Leave;
    let mut search = GadgetIterator::new(0, tail, &table[..3], 3, false, 0, only_leave).unwrap();
    assert_eq!(search.remaining(), 3);
    let found = search.next().unwrap();
    assert_eq!(found.file_offset(), 2);
    assert_eq!(found.instructions(), &[c, tail]);
    assert_eq!(search.remaining(), 0);
    assert!(search.next().is_none());
}

#[test]
fn a_window_of_n_bytes_is_exhausted_after_n_steps() {
    let bytes = [0x48, 0x89, 0xd8, 0x5b, 0x01, 0x01, 0xc9, 0x58, 0xc3];
    let table = decode_each(&bytes);
    let window = bytes.len() - 1;
    let mut search =
        GadgetIterator::new(0, table[window], &table[..window], 4, false, 0, any_head).unwrap();
    let mut steps = 0;
    while search.remaining() > 0 {
        let before = search.remaining();
        search.step();
        assert_eq!(search.remaining(), before - 1);
        steps += 1;
    }
    assert_eq!(steps, window);
}

#[test]
fn the_mode_is_handed_to_the_head_rule() {
    let table = decode_each(&OVERLAPPING);
    let only_noisy = |_instruction: &Instruction, noisy: bool| noisy;
    let quiet = GadgetIterator::new(0, table[3], &table[..3], 3, false, 0, only_noisy).unwrap();
    assert!(quiet.collect().is_empty());
    let noisy = GadgetIterator::new(0, table[3], &table[..3], 3, true, 0, only_noisy).unwrap();
    assert_eq!(noisy.collect().len(), 3);
}

#[test]
fn offsets_count_from_the_section_start_and_the_start_index() {
    let table = decode_each(&OVERLAPPING);
    let search =
        GadgetIterator::new(0x1000, table[3], &table[..3], 3, false, 0x20, any_head).unwrap();
    let offsets: Vec<usize> = search.collect().iter().map(|gadget| gadget.file_offset()).collect();
    assert_eq!(offsets, vec![0x1020, 0x1021, 0x1022]);
}

#[test]
fn another_search_over_the_same_table_finds_the_same() {
    let table = decode_each(&OVERLAPPING);
    let mut first = GadgetIterator::new(0, table[3], &table[..3], 3, false, 0, any_head).unwrap();
    let second = GadgetIterator::new(0, table[3], &table[..3], 3, false, 0, any_head).unwrap();
    let mut drained = Vec::new();
    while let Some(gadget) = first.next() {
        drained.push(gadget);
    }
    assert_eq!(drained, second.collect());
}
