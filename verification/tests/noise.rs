use voxelengine::noise::{SimplexNoise, NOISE_ONE, PERM};

#[test]
fn hash_reads_the_permutation_table() {
    assert_eq!(SimplexNoise::hash(0), 151);
    assert_eq!(SimplexNoise::hash(1), 160);
    assert_eq!(SimplexNoise::hash(5), 15);
    // only the low byte of the input is used
    assert_eq!(SimplexNoise::hash(256), 151);
    assert_eq!(SimplexNoise::hash(511), PERM[255]);
}

#[test]
fn grad_picks_axes_and_signs_from_the_hash() {
    // hash 0: u = y, v = x, both positive: u + 2v
    assert_eq!(SimplexNoise::grad_2d(0, 65536, 0), 131072);
    assert_eq!(SimplexNoise::grad_2d(0, 0, 65536), 65536);
    // hash 1: u = -y
    assert_eq!(SimplexNoise::grad_2d(1, 0, 65536), -65536);
    // hash 4: u = x, v = y
    assert_eq!(SimplexNoise::grad_2d(4, 65536, 0), 65536);
}

#[test]
fn two_d_is_deterministic_and_in_unit_range() {
    let a = SimplexNoise::two_d(123 * NOISE_ONE / 10, -987 * NOISE_ONE / 100);
    let b = SimplexNoise::two_d(123 * NOISE_ONE / 10, -987 * NOISE_ONE / 100);
    assert_eq!(a, b);
    // the base sample stays within one unit either way
    assert!(a >= -NOISE_ONE && a <= NOISE_ONE);
}

#[test]
fn fractal_noise_is_deterministic() {
    // two calls with identical inputs return bit-identical output
    let a = SimplexNoise::generate_noise(37 * NOISE_ONE, 11 * NOISE_ONE, 6, 32768);
    let b = SimplexNoise::generate_noise(37 * NOISE_ONE, 11 * NOISE_ONE, 6, 32768);
    assert_eq!(a, b);
}

#[test]
fn fractal_noise_stays_in_the_unit_range() {
    let mut x: i64 = -40 * NOISE_ONE;
    while x <= 40 * NOISE_ONE {
        let v = SimplexNoise::generate_noise(x, x / 2 + 3 * NOISE_ONE, 5, 30000);
        assert!(v >= 0 && v <= NOISE_ONE);
        x += 7 * NOISE_ONE + 1234;
    }
}

#[test]
fn fractal_noise_varies_with_position() {
    let mut seen_different = false;
    let first = SimplexNoise::generate_noise(0, 0, 4, 32768);
    let mut x: i64 = 1;
    while x < 60 {
        let v = SimplexNoise::generate_noise(x * NOISE_ONE + x * 7919, -x * NOISE_ONE / 3, 4, 32768);
        if v != first {
            seen_different = true;
        }
        x += 1;
    }
    assert!(seen_different);
}

#[test]
fn one_d_noise_is_deterministic_and_bounded() {
    let a = SimplexNoise::one_d(5 * NOISE_ONE + 4321);
    let b = SimplexNoise::one_d(5 * NOISE_ONE + 4321);
    assert_eq!(a, b);
    assert!(a >= -600000 && a <= 600000);
    // a lattice point has zero offset at its own corner but not at the next
    let c = SimplexNoise::one_d(-3 * NOISE_ONE - 100);
    assert!(c >= -600000 && c <= 600000);
}

#[test]
fn stepped_noise_stays_within_its_amplitude() {
    let amplitude = 10 * NOISE_ONE;
    for x in 0..20u32 {
        let v = SimplexNoise::noise_2d(x * 7, x * 3 + 1, 655, 12004, amplitude, 32768, 5);
        assert!(v >= 0 && v <= amplitude);
    }
}

#[test]
fn stepped_noise_is_deterministic() {
    let a = SimplexNoise::noise_2d(100, 200, 6553, 777, 5 * NOISE_ONE, 30000, 8);
    let b = SimplexNoise::noise_2d(100, 200, 6553, 777, 5 * NOISE_ONE, 30000, 8);
    assert_eq!(a, b);
}
