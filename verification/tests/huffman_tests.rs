use preflate_rs::huffman_calc::{
    calc_bit_lengths, calc_miniz_bit_lengths, calc_zlib_bit_lengths, HufftreeBitCalc,
};

/// What the codes take of the code space, in units of the longest code.
fn code_space(lengths: &[u8], max_bits: u32) -> u32 {
    lengths
        .iter()
        .filter(|&&l| l != 0)
        .map(|&l| 1u32 << (max_bits - l as u32))
        .sum()
}

fn random_counts(n: usize, seed: u32, zero_every: u32) -> Vec<u16> {
    let mut v = seed;
    (0..n)
        .map(|_| {
            v = v.wrapping_mul(1664525).wrapping_add(1013904223);
            if zero_every != 0 && (v >> 8) % zero_every == 0 {
                0
            } else {
                ((v >> 16) % 2000) as u16
            }
        })
        .collect()
}

#[test]
fn lengths_of_a_small_alphabet() {
    for calc in [HufftreeBitCalc::Zlib, HufftreeBitCalc::Miniz] {
        assert_eq!(calc_bit_lengths(calc, &[1, 1, 1, 1], 15), vec![2, 2, 2, 2]);
        assert_eq!(calc_bit_lengths(calc, &[100, 50, 25, 1], 15), vec![1, 2, 3, 3]);
        assert_eq!(calc_bit_lengths(calc, &[100, 50, 25], 15), vec![1, 2, 2]);
        assert_eq!(calc_bit_lengths(calc, &[8, 0, 4, 0, 2, 1, 1, 0], 15), vec![1, 0, 2, 0, 3, 4, 4]);
        assert_eq!(calc_bit_lengths(calc, &[3, 3, 0, 0], 15), vec![1, 1]);
    }
}

#[test]
fn lengths_end_with_the_last_symbol_in_use() {
    for calc in [HufftreeBitCalc::Zlib, HufftreeBitCalc::Miniz] {
        let mut counts = vec![0u16; 286];
        counts[0] = 100;
        counts[1] = 50;
        counts[2] = 25;
        counts[256] = 1;
        let lengths = calc_bit_lengths(calc, &counts, 15);
        assert_eq!(lengths.len(), 257);
        assert_eq!(&lengths[0..3], &[1, 2, 3]);
        assert_eq!(lengths[256], 3);
        assert!(lengths[3..256].iter().all(|&l| l == 0));
    }
}

#[test]
fn zlib_forces_two_codes() {
    assert_eq!(calc_zlib_bit_lengths(&[0, 0, 0, 0], 15), vec![1, 1]);
    assert_eq!(calc_zlib_bit_lengths(&[7, 0, 0, 0], 15), vec![1, 1]);
    assert_eq!(calc_zlib_bit_lengths(&[0, 7, 0, 0], 15), vec![0, 1, 1]);
    assert_eq!(calc_zlib_bit_lengths(&[0, 0, 0, 0, 0, 9], 15), vec![1, 0, 0, 0, 0, 1]);
}

#[test]
fn miniz_codes_the_symbols_in_use_only() {
    assert_eq!(calc_miniz_bit_lengths(&[0, 0, 0, 0], 15), Vec::<u8>::new());
    assert_eq!(calc_miniz_bit_lengths(&[7, 0, 0, 0], 15), vec![1]);
    assert_eq!(calc_miniz_bit_lengths(&[0, 0, 0, 0, 0, 9], 15), vec![0, 0, 0, 0, 0, 1]);
}

#[test]
fn codes_fill_the_code_space() {
    for calc in [HufftreeBitCalc::Zlib, HufftreeBitCalc::Miniz] {
        for (n, max_bits) in [(286usize, 15u32), (30, 15), (19, 7)] {
            for seed in 1..20u32 {
                let counts = random_counts(n, seed, seed % 4);
                if counts.iter().filter(|&&c| c != 0).count() < 2 {
                    continue;
                }
                let lengths = calc_bit_lengths(calc, &counts, max_bits);
                assert!(lengths.len() <= n);
                assert!(lengths.iter().all(|&l| l as u32 <= max_bits));
                for (i, &l) in lengths.iter().enumerate() {
                    assert_eq!(l == 0, counts[i] == 0, "symbol {}", i);
                }
                assert!(counts[lengths.len()..].iter().all(|&c| c == 0));
                assert_eq!(code_space(&lengths, max_bits), 1 << max_bits);
                // A symbol that occurs more often has no longer code.
                for i in 0..lengths.len() {
                    for j in 0..lengths.len() {
                        if counts[i] > counts[j] && counts[j] != 0 {
                            assert!(lengths[i] <= lengths[j]);
                        }
                    }
                }
            }
        }
    }
}

#[test]
fn long_codes_are_cut_at_the_limit() {
    // Counts that grow like this make a code of 18 bits for the rarest.
    let counts: Vec<u16> = vec![
        1, 1, 2, 3, 5, 8, 13, 21, 34, 55, 89, 144, 233, 377, 610, 987, 1597, 2584, 4181,
    ];
    for calc in [HufftreeBitCalc::Zlib, HufftreeBitCalc::Miniz] {
        let free = calc_bit_lengths(calc, &counts[0..16], 15);
        assert_eq!(free, vec![15, 15, 14, 13, 12, 11, 10, 9, 8, 7, 6, 5, 4, 3, 2, 1]);
        for max_bits in [7u32, 9, 15] {
            let lengths = calc_bit_lengths(calc, &counts, max_bits);
            assert_eq!(lengths.len(), 19);
            assert!(lengths.iter().all(|&l| 1 <= l && l as u32 <= max_bits));
            assert_eq!(code_space(&lengths, max_bits), 1 << max_bits);
            assert_eq!(lengths[0] as u32, max_bits);
            assert_eq!(lengths[18], 1);
        }
    }
    // Thirteen codes are too long by up to eleven bits. Each of the eleven
    // steps that make room moves a code of the longest shorter length one
    // level down, until the three shortest codes are left as they were.
    assert_eq!(
        calc_zlib_bit_lengths(&counts, 7),
        vec![7, 7, 7, 7, 7, 7, 7, 7, 7, 7, 7, 7, 7, 7, 7, 7, 3, 2, 1]
    );
    assert_eq!(
        calc_miniz_bit_lengths(&counts, 7),
        vec![7, 7, 7, 7, 7, 7, 7, 7, 7, 7, 7, 7, 7, 7, 7, 7, 3, 2, 1]
    );
}
