use gadgets::section::decode_each;
use gadgets::section::find_gadgets;
use gadgets::Gadget;
use gadgets::GadgetIterator;
use iced_x86::Decoder;
use iced_x86::DecoderOptions;
use iced_x86::Instruction;
use iced_x86::Mnemonic;

fn admit_every_head(_instruction: &Instruction, _noisy: bool) -> bool {
    true
}

// `add [rcx], eax`, `add ecx, ecx` and `leave` overlap in the three bytes in
// front of `ret`.
const OVERLAPPING: [u8; 4] = [0x01, 0x01, 0xc9, 0xc3];

#[test]
fn the_table_holds_what_the_decoder_gives_at_each_offset() {
    let bytes = [0x48, 0x89, 0xd8, 0x5b, 0x01, 0x01, 0xc9, 0x58, 0xc3];
    let table = decode_each(64, &bytes, 0x40_1000, DecoderOptions::NONE).unwrap();
    assert_eq!(table.len(), bytes.len());
    for start in 0..bytes.len() {
        let mut decoder =
            Decoder::with_ip(64, &bytes[start..], 0x40_1000 + start as u64, DecoderOptions::NONE);
        let expected = decoder.decode();
        assert!(table[start].eq_all_bits(&expected));
        assert_eq!(table[start].ip(), 0x40_1000 + start as u64);
    }
    assert_eq!(table[0].mnemonic(), Mnemonic::Mov);
    assert_eq!(table[0].len(), 3);
    assert_eq!(table[8].mnemonic(), Mnemonic::Ret);
}

#[test]
fn the_bitness_and_the_options_reach_the_decoder() {
    // 0x40 is `inc eax` in 32-bit code and a prefix in 64-bit code.
    let bytes = [0x40, 0x50, 0xc3];
    let narrow = decode_each(32, &bytes, 0, DecoderOptions::NONE).unwrap();
    assert_eq!(narrow[0].mnemonic(), Mnemonic::Inc);
    assert_eq!(narrow[0].len(), 1);
    let wide = decode_each(64, &bytes, 0, DecoderOptions::NONE).unwrap();
    assert_eq!(wide[0].mnemonic(), Mnemonic::Push);
    assert_eq!(wide[0].len(), 2);
    // `lock add eax, eax` is invalid unless the check is switched off.
    let locked = [0xf0, 0x01, 0xc0];
    let checked = decode_each(64, &locked, 0, DecoderOptions::NONE).unwrap();
    assert!(checked[0].is_invalid());
    let unchecked = decode_each(64, &locked, 0, DecoderOptions::NO_INVALID_CHECK).unwrap();
    assert_eq!(unchecked[0].mnemonic(), Mnemonic::Add);
}

#[test]
fn there_is_no_table_for_another_bitness() {
    for bitness in [0, 8, 17, 48, 128] {
        assert!(decode_each(bitness, &OVERLAPPING, 0, DecoderOptions::NONE).is_none());
        assert!(decode_each(bitness, &[], 0, DecoderOptions::NONE).is_none());
    }
    for bitness in [16, 32, 64] {
        assert!(decode_each(bitness, &OVERLAPPING, 0, DecoderOptions::NONE).is_some());
    }
}

#[test]
fn there_is_no_table_for_a_section_beyond_the_address_space() {
    assert!(decode_each(64, &OVERLAPPING, usize::MAX - 3, DecoderOptions::NONE).is_none());
    assert!(decode_each(64, &OVERLAPPING, usize::MAX, DecoderOptions::NONE).is_none());
    assert!(decode_each(64, &OVERLAPPING, usize::MAX - 4, DecoderOptions::NONE).is_some());
}

#[test]
fn an_empty_section_has_an_empty_table() {
    assert!(decode_each(64, &[], 0x1000, DecoderOptions::NONE).unwrap().is_empty());
    assert!(decode_each(16, &[], usize::MAX, DecoderOptions::NONE).unwrap().is_empty());
}

#[test]
fn a_section_is_decoded_and_searched_in_one() {
    let table = decode_each(64, &OVERLAPPING, 0x1000, DecoderOptions::NONE).unwrap();
    let (a, b, c, tail) = (table[0], table[1], table[2], table[3]);
    let all =
        find_gadgets(64, &OVERLAPPING, DecoderOptions::NONE, 0x1000, 0, 3, 3, false, admit_every_head)
            .unwrap();
    assert_eq!(all.len(), 3);
    assert_eq!(all[0].file_offset(), 0x1000);
    assert_eq!(all[0].instructions(), &[a, c, tail]);
    assert_eq!(all[1].file_offset(), 0x1001);
    assert_eq!(all[1].instructions(), &[b, tail]);
    assert_eq!(all[2].file_offset(), 0x1002);
    assert_eq!(all[2].instructions(), &[c, tail]);
}

#[test]
fn searching_a_section_is_searching_its_table() {
    let bytes = [0x48, 0x89, 0xd8, 0x5b, 0x01, 0x01, 0xc9, 0x58, 0xc3, 0x90, 0xc3];
    let table = decode_each(64, &bytes, 0x2000, DecoderOptions::NONE).unwrap();
    for (start_index, tail_index) in [(0, 8), (3, 8), (8, 8), (0, 10), (9, 10), (2, 5)] {
        let found = find_gadgets(
            64,
            &bytes,
            DecoderOptions::NONE,
            0x2000,
            start_index,
            tail_index,
            4,
            true,
            admit_every_head,
        )
        .unwrap();
        let expected = GadgetIterator::new(
            0x2000,
            table[tail_index],
            &table[start_index..tail_index],
            4,
            true,
            start_index,
            admit_every_head,
        )
        .unwrap()
        .collect();
        assert_eq!(found, expected);
        let offsets: Vec<usize> = found.iter().map(|gadget| gadget.file_offset()).collect();
        let expected_offsets: Vec<usize> =
            expected.iter().map(|gadget| gadget.file_offset()).collect();
        assert_eq!(offsets, expected_offsets);
        for gadget in &found {
            assert!(gadget.file_offset() >= 0x2000 + start_index);
            assert!(gadget.file_offset() < 0x2000 + tail_index);
        }
    }
}

#[test]
fn the_search_of_a_section_starts_at_the_start_index() {
    let all =
        find_gadgets(64, &OVERLAPPING, DecoderOptions::NONE, 0x1000, 1, 3, 3, false, admit_every_head)
            .unwrap();
    let offsets: Vec<usize> = all.iter().map(|gadget| gadget.file_offset()).collect();
    assert_eq!(offsets, vec![0x1001, 0x1002]);
}

#[test]
fn a_section_is_not_searched_on_arguments_that_do_not_fit() {
    let none = DecoderOptions::NONE;
    // another bitness
    assert!(find_gadgets(8, &OVERLAPPING, none, 0, 0, 3, 3, false, admit_every_head).is_none());
    // the tail outside of the section
    assert!(find_gadgets(64, &OVERLAPPING, none, 0, 0, 4, 3, false, admit_every_head).is_none());
    assert!(find_gadgets(64, &[], none, 0, 0, 0, 3, false, admit_every_head).is_none());
    // the tail in front of the start
    assert!(find_gadgets(64, &OVERLAPPING, none, 0, 3, 2, 3, false, admit_every_head).is_none());
    // no room for the tail
    assert!(find_gadgets(64, &OVERLAPPING, none, 0, 0, 3, 0, false, admit_every_head).is_none());
    // the section beyond the address space
    assert!(find_gadgets(64, &OVERLAPPING, none, usize::MAX, 0, 3, 3, false, admit_every_head)
        .is_none());
    // and on arguments that fit
    assert!(find_gadgets(64, &OVERLAPPING, none, 0, 0, 3, 3, false, admit_every_head).is_some());
    assert!(find_gadgets(64, &OVERLAPPING, none, 0, 3, 3, 3, false, admit_every_head)
        .unwrap()
        .is_empty());
}

#[test]
fn what_a_section_gives_can_be_rendered() {
    let all =
        find_gadgets(64, &OVERLAPPING, DecoderOptions::NONE, 0x1000, 0, 3, 3, false, admit_every_head)
            .unwrap();
    let mut tokens = Vec::new();
    all[0].format_full(&mut tokens);
    let text: String = tokens.iter().map(|token| token.text.as_str()).collect();
    assert_eq!(text, "0x00001000: add [rcx], eax; leave; ret;");
}

#[test]
fn instructions_that_the_decoder_turns_down_are_rendered_too() {
    // 0x06 is no instruction in 64-bit code.
    let table = decode_each(64, &[0x06, 0xc3], 0, DecoderOptions::NONE).unwrap();
    assert!(table[0].is_invalid());
    let gadget = Gadget::new(0, vec![table[0], table[1]]).unwrap();
    let mut tokens = Vec::new();
    gadget.format_instruction(&mut tokens);
    let text: String = tokens.iter().map(|token| token.text.as_str()).collect();
    assert_eq!(text, "(bad); ret;");
}
