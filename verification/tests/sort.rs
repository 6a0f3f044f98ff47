use chrusty::nnue::network::Aligned;
use chrusty::sort::{co_occurrence_mapping, record_activity, HALF};

fn block_cost(activity: &[Vec<u64>], block: &[usize]) -> u32 {
    (0..activity[0].len()).map(|w| block.iter().fold(0u64, |u, &n| u | activity[n][w]).count_ones()).sum()
}

fn check_permutation(mapping: &[usize; 768]) {
    let mut seen = vec![false; HALF];
    for &m in &mapping[..HALF] {
        assert!(m < HALF && !seen[m]);
        seen[m] = true;
    }
    for (i, &m) in mapping.iter().enumerate().skip(HALF) {
        assert_eq!(m, i);
    }
}

#[test]
fn co_active_neurons_share_a_block() {
    // neuron i is active exactly in position i % 96: four neurons per position
    let mut activity = vec![vec![0u64; 2]; HALF];
    for (i, row) in activity.iter_mut().enumerate() {
        let g = i % 96;
        row[g / 64] |= 1 << (g % 64);
    }
    let mapping = co_occurrence_mapping(&activity, 2);
    check_permutation(&mapping);
    for b in 0..96 {
        let block = &mapping[4 * b..4 * b + 4];
        assert!(block.iter().all(|&n| n % 96 == block[0] % 96), "{:?}", block);
        assert_eq!(block_cost(&activity, block), 1);
    }
}

#[test]
fn no_exchange_between_blocks_lowers_the_cost() {
    // a pseudo-random activity pattern
    let mut x: u64 = 0x9e37_79b9_7f4a_7c15;
    let mut activity = vec![vec![0u64; 1]; HALF];
    for row in activity.iter_mut() {
        x ^= x << 13;
        x ^= x >> 7;
        x ^= x << 17;
        row[0] = x & (x >> 3) & (x >> 5);
    }
    let mapping = co_occurrence_mapping(&activity, 1);
    check_permutation(&mapping);
    for a in 0..96 {
        for b in a + 1..96 {
            let ba: Vec<usize> = mapping[4 * a..4 * a + 4].to_vec();
            let bb: Vec<usize> = mapping[4 * b..4 * b + 4].to_vec();
            let old = block_cost(&activity, &ba) + block_cost(&activity, &bb);
            for ia in 0..4 {
                for ib in 0..4 {
                    let mut na = ba.clone();
                    let mut nb = bb.clone();
                    na[ia] = bb[ib];
                    nb[ib] = ba[ia];
                    assert!(block_cost(&activity, &na) + block_cost(&activity, &nb) >= old);
                }
            }
        }
    }
}

#[test]
fn a_sample_marks_the_active_neurons_only() {
    let mut activity = vec![vec![0u64; 3]; HALF];
    let mut ft = Aligned([0u8; 768]);
    ft.0[5] = 7;
    ft.0[200] = 1;
    ft.0[500] = 9; // second half: not recorded
    record_activity(&mut activity, &ft, 0x1234_5678_9abc_def3, 70);
    // sample 70 lands in word 2; bit 0xf3 % 64 = 51
    assert_eq!(activity[5], vec![0, 0, 1u64 << 51]);
    assert_eq!(activity[200], vec![0, 0, 1u64 << 51]);
    assert!(activity.iter().enumerate().all(|(i, row)| i == 5 || i == 200 || row.iter().all(|w| *w == 0)));
}
