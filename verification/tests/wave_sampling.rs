use maze_defence::systems::wave_sampling::{
    derive_base_seed, derive_labeled_seed, derive_species_seed, fnv1a, resolve_burst_count, sample_burst_starts, sample_uniform_inclusive,
    SplitMix64, FNV_OFFSET_BASIS,
};

#[test]
fn splitmix_replaces_zero_seed_and_matches_reference_outputs() {
    let mut rng = SplitMix64::new(0);
    assert_eq!(rng.state, 0x9e37_79b9_7f4a_7c15);
    assert_eq!(rng.next_u64(), 0x6e78_9e6a_a1b9_65f4);
    assert_eq!(rng.next_u64(), 0x06c4_5d18_8009_454f);
    assert_eq!(rng.next_u64(), 0xf88b_b8a8_724c_81ec);
}

#[test]
fn rng_sequence_is_stable_across_instances() {
    let mut a = SplitMix64::new(42);
    let mut b = SplitMix64::new(42);
    for _ in 0..16 {
        assert_eq!(a.next_u64(), b.next_u64());
    }
    let mut c = SplitMix64::new(42);
    assert_eq!(c.next_u64(), 13_679_457_532_755_275_413);
    assert_eq!(c.next_u64(), 2_949_826_092_126_892_291);
}

#[test]
fn uniform_samples_stay_in_range_and_skip_draws_for_equal_bounds() {
    let mut rng = SplitMix64::new(42);
    assert_eq!(sample_uniform_inclusive(&mut rng, 5, 5), 5);
    assert_eq!(rng.state, 42);
    assert_eq!(sample_uniform_inclusive(&mut rng, 0, 9), 3);
    for _ in 0..64 {
        let v = sample_uniform_inclusive(&mut rng, 10, 20);
        assert!((10..=20).contains(&v));
    }
    // A reversed range collapses to its lower bound.
    assert_eq!(sample_uniform_inclusive(&mut rng, 20, 10), 20);
}

#[test]
fn burst_count_covers_total_within_cap() {
    assert_eq!(resolve_burst_count(10, 4, 5), 3);
    assert_eq!(resolve_burst_count(10, 4, 2), 2);
    assert_eq!(resolve_burst_count(10, 0, 5), 1);
    assert_eq!(resolve_burst_count(0, 4, 5), 1);
    assert_eq!(resolve_burst_count(10, 4, 0), 1);
}

#[test]
fn burst_schedule_splits_evenly_and_spaces_starts() {
    let mut rng = SplitMix64::new(42);
    let schedule = sample_burst_starts(10, 100, 200, 4, 5, &mut rng);
    assert_eq!(schedule.burst_sizes, vec![4, 3, 3]);
    assert_eq!(schedule.starts, vec![23, 186, 329]);
    assert_eq!(rng.state, 15_755_400_384_260_043_881);
}

#[test]
fn fnv1a_folds_bytes_with_the_configured_prime() {
    // The multiplier is 2^32 + 0x1b3.
    assert_eq!(fnv1a(FNV_OFFSET_BASIS, b"a"), 0x1162_bb90_8601_ec8c);
    assert_eq!(fnv1a(0, &[1, 2]), ((1u64 * 0x1_0000_01b3) ^ 2).wrapping_mul(0x1_0000_01b3));
    assert_eq!(fnv1a(FNV_OFFSET_BASIS, b""), FNV_OFFSET_BASIS);
}

#[test]
fn labeled_seed_hashes_base_and_label() {
    assert_eq!(derive_labeled_seed(7, "pressure"), 18_004_866_697_104_733_047);
    assert_ne!(derive_labeled_seed(7, "pressure"), derive_labeled_seed(8, "pressure"));
    assert_ne!(derive_labeled_seed(7, "pressure"), derive_labeled_seed(7, "dirichlet"));
}

#[test]
fn base_and_species_seeds_hash_their_inputs() {
    assert_eq!(derive_base_seed(42, 3, 2), 338_494_327_351_438_259);
    assert_ne!(derive_base_seed(42, 3, 2), derive_base_seed(42, 2, 3));
    assert_eq!(derive_species_seed(42, "species:", 5), 3_074_834_787_667_533_477);
    assert_ne!(derive_species_seed(42, "species:", 5), derive_species_seed(42, "species:", 6));
}
