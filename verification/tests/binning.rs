use ferrum_core::binning::{
    bin_counts, clamp_bin_index, cumulative_2d, cumulative_counts, emitted_cells, grid_positions, sturges_floor,
};

#[test]
fn raw_indices_clamp_to_the_bins() {
    assert_eq!(clamp_bin_index(-3, 4), 0);
    assert_eq!(clamp_bin_index(2, 4), 2);
    assert_eq!(clamp_bin_index(4, 4), 3);
    assert_eq!(clamp_bin_index(i64::MAX, 1), 0);
}

#[test]
fn bin_counts_and_saturating_cumulative_counts() {
    let counts = bin_counts(&vec![0, 2, 2, 1, 2], 4);
    assert_eq!(counts, vec![1, 1, 3, 0]);
    let cum = cumulative_counts(&counts);
    assert_eq!(cum, vec![1, 2, 5, 5]);
    assert!(cum.windows(2).all(|w| w[0] <= w[1]));
    assert_eq!(cumulative_counts(&vec![u64::MAX - 1, 5, 0]), vec![u64::MAX - 1, u64::MAX, u64::MAX]);
}

#[test]
fn grid_counts_prefix_sums_and_emitted_cells() {
    // A 3 wide, 2 tall grid; cells are (x bin, y bin).
    let cells = vec![(0, 0), (2, 0), (2, 1), (2, 1), (1, 1)];
    let pos = grid_positions(&cells, 3, 2);
    assert_eq!(pos, vec![0, 2, 5, 5, 4]);
    let mut counts = bin_counts(&pos, 6);
    assert_eq!(counts, vec![1, 0, 1, 0, 1, 2]);
    assert_eq!(emitted_cells(&counts, 3, 2, false), vec![(0, 0), (0, 2), (1, 1), (1, 2)]);
    assert_eq!(emitted_cells(&counts, 3, 2, true).len(), 6);
    cumulative_2d(&mut counts, 3, 2);
    assert_eq!(counts, vec![1, 1, 2, 1, 2, 5]);
    // Monotone along rows and columns; the last cell holds the total.
    for r in 0..2 {
        for c in 0..3 {
            if c > 0 {
                assert!(counts[r * 3 + c - 1] <= counts[r * 3 + c]);
            }
            if r > 0 {
                assert!(counts[(r - 1) * 3 + c] <= counts[r * 3 + c]);
            }
        }
    }
    assert_eq!(counts[5], cells.len() as u64);
}

#[test]
fn sturges_rule_bin_counts() {
    assert_eq!(sturges_floor(0), 1);
    assert_eq!(sturges_floor(1), 1);
    assert_eq!(sturges_floor(2), 2);
    assert_eq!(sturges_floor(8), 4);
    assert_eq!(sturges_floor(9), 5);
    assert_eq!(sturges_floor(100), 8);
}

#[test]
fn bin_counts_add_up_to_the_number_of_values() {
    let positions = vec![0usize, 2, 2, 1, 4, 4, 4];
    let counts = bin_counts(&positions, 5);
    assert_eq!(counts.iter().sum::<u64>(), positions.len() as u64);
    assert_eq!(*cumulative_counts(&counts).last().unwrap(), positions.len() as u64);
}
