use qr_encoder::encoder::{
    build_payload, capacity_of, ecc_blocks_of, encode_data, parity_codewords_of, select_version,
    total_codewords_of, QrError,
};
use qr_encoder::grid::{Cell, Grid};
use qr_encoder::mask::{apply_mask, mask_hit_exec, write_format};
use qr_encoder::penalty::{
    balance_cost_exec, blocks_exec, dark_exec, pattern_count_exec, penalty_exec, run_penalty_exec,
};
use qr_encoder::placement::{place_data, place_reserved_areas};
use qr_encoder::qr::QR;

const FORMAT_WORDS: [u32; 8] = [0x355F, 0x3068, 0x3F31, 0x3A06, 0x24B4, 0x2183, 0x2EDA, 0x2BED];

fn is_data(c: Cell) -> bool {
    c == Cell::DataDark || c == Cell::DataLight
}

fn reserved_grid(version: usize) -> Grid {
    let size = (version - 1) * 4 + 21;
    let mut g = Grid::filled_with(Cell::Unwritten, size);
    place_reserved_areas(&mut g, version);
    g
}

#[test]
fn version_selection_by_length() {
    assert_eq!(select_version(0), Ok(1));
    assert_eq!(select_version(10), Ok(1));
    assert_eq!(select_version(11), Ok(2));
    assert_eq!(select_version(19), Ok(2));
    assert_eq!(select_version(20), Err(QrError::MessageTooLong));
    assert_eq!(select_version(21), Err(QrError::MessageTooLong));
}

#[test]
fn too_long_message_is_refused() {
    let msg = "x".repeat(152);
    assert!(matches!(QR::new(msg), Err(QrError::MessageTooLong)));
    assert!(matches!(QR::encode(&[7u8; 20]), Err(QrError::MessageTooLong)));
}

#[test]
fn data_codewords_of_single_letter() {
    let d = encode_data(b"A", 1);
    assert_eq!(
        d,
        vec![0x40, 0x14, 0x10, 0xEC, 0x11, 0xEC, 0x11, 0xEC, 0x11, 0xEC, 0x11, 0xEC, 0x11]
    );
}

#[test]
fn data_codewords_fill_version_two() {
    let msg = [0xABu8; 19];
    let d = encode_data(&msg, 2);
    assert_eq!(d.len(), 22);
    assert_eq!(d[0], 0x41);
    assert_eq!(d[1], 0x3A);
    assert_eq!(d[2], 0xBA);
    assert_eq!(d[20], 0xB0);
    assert_eq!(d[21], 0xEC);
}

#[test]
fn payload_appends_parity() {
    let d = encode_data(b"A", 1);
    let p = build_payload(d.clone(), 1).unwrap();
    assert_eq!(p.len(), 26);
    assert_eq!(&p[..13], &d[..]);
    assert_ne!(&p[13..], &d[..]);
    assert!(p[13..].iter().any(|&b| b != 0));
    let d2 = encode_data(b"hello world!", 2);
    let p2 = build_payload(d2.clone(), 2).unwrap();
    assert_eq!(p2.len(), 44);
    assert_eq!(&p2[..22], &d2[..]);
}

#[test]
fn multi_block_layouts_are_refused() {
    assert_eq!(build_payload(vec![0u8; 34], 3), Err(QrError::UnsupportedLayout));
    assert_eq!(build_payload(vec![0u8; 48], 4), Err(QrError::UnsupportedLayout));
    assert_eq!(build_payload(vec![0u8; 154], 10), Err(QrError::UnsupportedLayout));
}

#[test]
fn level_q_table() {
    assert_eq!(capacity_of(1), 11);
    assert_eq!(capacity_of(2), 20);
    assert_eq!(capacity_of(10), 151);
    assert_eq!(total_codewords_of(1) - parity_codewords_of(1), 13);
    assert_eq!(total_codewords_of(2) - parity_codewords_of(2), 22);
    assert_eq!(total_codewords_of(3) - parity_codewords_of(3), 34);
    assert_eq!(total_codewords_of(10) - parity_codewords_of(10), 154);
    assert_eq!(ecc_blocks_of(1), 1);
    assert_eq!(ecc_blocks_of(2), 1);
    assert_eq!(ecc_blocks_of(3), 2);
    assert_eq!(ecc_blocks_of(10), 8);
}

#[test]
fn single_letter_symbol() {
    let q = QR::encode(b"A").unwrap();
    assert_eq!(q.version(), 1);
    assert_eq!(q.size(), 21);
    assert_eq!(q.data()[0], 0x40);
    assert_eq!(q.data()[1], 0x14);
    assert_eq!(q.data()[2], 0x10);
    assert!(q.mask() < 8);
    for r in 0..21 {
        for c in 0..21 {
            assert_ne!(q.module(r, c), Cell::Unwritten);
            assert_ne!(q.unmasked_module(r, c), Cell::Unwritten);
            assert_ne!(q.module(r, c), Cell::FormatReserved);
        }
    }
}

#[test]
fn encoding_is_reproducible() {
    let a = QR::encode(b"A").unwrap();
    let b = QR::encode(b"A").unwrap();
    assert_eq!(a.mask(), b.mask());
    for r in 0..21 {
        for c in 0..21 {
            assert_eq!(a.module(r, c), b.module(r, c));
        }
    }
    let mut c = QR::new(String::from("A")).unwrap();
    c.generate().unwrap();
    c.generate().unwrap();
    assert_eq!(c.mask(), a.mask());
    assert_eq!(c.payload(), a.payload());
}

#[test]
fn version_two_has_alignment_pattern() {
    let q = QR::encode(&[b'q'; 15]).unwrap();
    assert_eq!(q.version(), 2);
    assert_eq!(q.size(), 25);
    assert_eq!(q.unmasked_module(18, 18), Cell::ReservedDark);
    assert_eq!(q.unmasked_module(17, 17), Cell::ReservedLight);
    assert_eq!(q.unmasked_module(16, 16), Cell::ReservedDark);
    let v1 = QR::encode(b"A").unwrap();
    assert!(is_data(v1.unmasked_module(14, 14)));
    assert!(is_data(v1.unmasked_module(12, 12)));
}

#[test]
fn reserved_layout_of_version_one() {
    let g = reserved_grid(1);
    assert_eq!(g.get(0, 0), Cell::ReservedDark);
    assert_eq!(g.get(1, 1), Cell::ReservedLight);
    assert_eq!(g.get(3, 3), Cell::ReservedDark);
    assert_eq!(g.get(7, 7), Cell::ReservedLight);
    assert_eq!(g.get(7, 0), Cell::ReservedLight);
    assert_eq!(g.get(0, 13), Cell::ReservedLight);
    assert_eq!(g.get(3, 17), Cell::ReservedDark);
    assert_eq!(g.get(17, 3), Cell::ReservedDark);
    assert_eq!(g.get(6, 8), Cell::ReservedDark);
    assert_eq!(g.get(6, 9), Cell::ReservedLight);
    assert_eq!(g.get(9, 6), Cell::ReservedLight);
    assert_eq!(g.get(12, 6), Cell::ReservedDark);
    assert_eq!(g.get(13, 8), Cell::ReservedDark);
    assert_eq!(g.get(8, 0), Cell::FormatReserved);
    assert_eq!(g.get(0, 8), Cell::FormatReserved);
    assert_eq!(g.get(8, 20), Cell::FormatReserved);
    assert_eq!(g.get(20, 8), Cell::FormatReserved);
    assert_eq!(g.get(10, 10), Cell::Unwritten);
    let mut unwritten = 0;
    for r in 0..21 {
        for c in 0..21 {
            if g.get(r, c) == Cell::Unwritten {
                unwritten += 1;
            }
        }
    }
    assert_eq!(unwritten, 208);
}

#[test]
fn zig_zag_starts_bottom_right() {
    let mut g = reserved_grid(1);
    let payload = [0x40u8; 26];
    place_data(&mut g, &payload);
    assert_eq!(g.get(20, 20), Cell::DataLight);
    assert_eq!(g.get(20, 19), Cell::DataDark);
    assert_eq!(g.get(19, 20), Cell::DataLight);
    assert_eq!(g.get(19, 19), Cell::DataLight);
    assert_eq!(g.get(16, 20), Cell::DataLight);
    assert_eq!(g.get(16, 19), Cell::DataDark);
    for r in 0..21 {
        for c in 0..21 {
            assert_ne!(g.get(r, c), Cell::Unwritten);
        }
    }
}

#[test]
fn zig_zag_turns_at_the_top() {
    let mut g = reserved_grid(1);
    let mut payload = [0u8; 26];
    // strip 0 holds 12 rows of two cells below row 9: 24 bits
    payload[3] = 0x80;
    place_data(&mut g, &payload);
    assert_eq!(g.get(9, 18), Cell::DataDark);
    assert_eq!(g.get(9, 17), Cell::DataLight);
}

#[test]
fn leftover_cells_become_light() {
    let mut g = reserved_grid(1);
    place_data(&mut g, &[0xFFu8; 2]);
    assert_eq!(g.get(20, 20), Cell::DataDark);
    assert_eq!(g.get(0, 0), Cell::ReservedDark);
    assert_eq!(g.get(10, 10), Cell::DataLight);
}

#[test]
fn mask_predicates() {
    assert!(mask_hit_exec(0, 0, 0));
    assert!(!mask_hit_exec(0, 1, 0));
    assert!(mask_hit_exec(1, 3, 2));
    assert!(mask_hit_exec(2, 3, 1));
    assert!(!mask_hit_exec(2, 4, 1));
    assert!(mask_hit_exec(3, 1, 2));
    assert!(mask_hit_exec(4, 3, 2));
    assert!(!mask_hit_exec(4, 0, 2));
    assert!(mask_hit_exec(5, 6, 1));
    assert!(!mask_hit_exec(5, 2, 1));
    assert!(mask_hit_exec(6, 2, 1));
    assert!(!mask_hit_exec(6, 3, 1));
    assert!(mask_hit_exec(7, 0, 0));
    assert!(!mask_hit_exec(7, 1, 1));
}

#[test]
fn masking_leaves_reserved_cells() {
    let mut g = reserved_grid(1);
    place_data(&mut g, &[0u8; 26]);
    let m = apply_mask(&g, 0);
    assert_eq!(m.get(20, 20), Cell::DataDark);
    assert_eq!(m.get(20, 19), Cell::DataLight);
    assert_eq!(m.get(0, 0), Cell::ReservedDark);
    assert_eq!(m.get(1, 1), Cell::ReservedLight);
    assert_eq!(m.get(8, 0), Cell::FormatReserved);
}

#[test]
fn format_bits_of_each_mask() {
    for k in 0..8usize {
        let mut g = reserved_grid(1);
        place_data(&mut g, &[0u8; 26]);
        write_format(&mut g, k);
        let w = FORMAT_WORDS[k];
        let bit = |i: u32| if (w >> i) & 1 == 1 { Cell::ReservedDark } else { Cell::ReservedLight };
        assert_eq!(g.get(8, 0), bit(14));
        assert_eq!(g.get(8, 8), bit(7));
        assert_eq!(g.get(8, 13), bit(7));
        assert_eq!(g.get(8, 20), bit(0));
        assert_eq!(g.get(0, 8), bit(0));
        assert_eq!(g.get(7, 8), bit(6));
        assert_eq!(g.get(14, 8), bit(8));
        assert_eq!(g.get(15, 8), bit(9));
        assert_eq!(g.get(20, 8), bit(14));
        for c in 0..21 {
            assert_ne!(g.get(8, c), Cell::FormatReserved);
            assert_ne!(g.get(c, 8), Cell::FormatReserved);
        }
    }
}

#[test]
fn finished_symbol_carries_its_format() {
    let q = QR::encode(b"hello").unwrap();
    let w = FORMAT_WORDS[q.mask()];
    assert_eq!(q.module(8, 0).is_dark(), (w >> 14) & 1 == 1);
    assert_eq!(q.module(0, 8).is_dark(), w & 1 == 1);
}

#[test]
fn run_rule_on_dark_lines() {
    assert_eq!(run_penalty_exec(&vec![true; 5]), 3);
    assert_eq!(run_penalty_exec(&vec![true; 8]), 6);
    assert_eq!(run_penalty_exec(&vec![true; 21]), 19);
    assert_eq!(run_penalty_exec(&vec![true; 4]), 0);
    let mut line = vec![false; 6];
    line.extend(vec![true; 2]);
    line.extend(vec![false; 7]);
    assert_eq!(run_penalty_exec(&line), 4 + 5);
}

#[test]
fn pattern_rule_counts_both_directions() {
    let fwd = vec![true, false, true, true, true, false, true, false, false, false, false];
    assert_eq!(pattern_count_exec(&fwd), 1);
    let mut bwd = fwd.clone();
    bwd.reverse();
    assert_eq!(pattern_count_exec(&bwd), 1);
    let mut both = bwd.clone();
    both.extend(vec![false, false, false, false]);
    assert_eq!(pattern_count_exec(&both), 2);
    assert_eq!(pattern_count_exec(&vec![true; 11]), 0);
    assert_eq!(pattern_count_exec(&vec![true; 3]), 0);
}

#[test]
fn balance_rule() {
    assert_eq!(balance_cost_exec(50, 100), 0);
    assert_eq!(balance_cost_exec(25, 100), 40);
    assert_eq!(balance_cost_exec(0, 100), 90);
    assert_eq!(balance_cost_exec(441, 441), 100);
    assert_eq!(balance_cost_exec(220, 441), 0);
}

#[test]
fn block_and_dark_counts() {
    let g = Grid::filled_with(Cell::ReservedDark, 3);
    assert_eq!(blocks_exec(&g), 4);
    assert_eq!(dark_exec(&g), 9);
    let l = Grid::filled_with(Cell::DataLight, 21);
    assert_eq!(dark_exec(&l), 0);
    // runs: 42 lines of 21 cost 19 each; blocks: 400 * 3; balance: 0% dark
    assert_eq!(penalty_exec(&l), 42 * 19 + 400 * 3 + 90);
}
