use voxelengine::camera::Controls;
use voxelengine::gpu::{pad_size_to_min_aligment, Binding, TextureArray};

#[test]
fn controls_track_key_state() {
    let mut c = Controls::new();
    assert!(!c.get_state(17));
    c.update_key(17, true);
    assert!(c.get_state(17));
    assert!(!c.get_state(16));
    c.update_key(17, false);
    assert!(!c.get_state(17));
}

#[test]
fn controls_reset_releases_everything() {
    let mut c = Controls::new();
    c.update_key(0, true);
    c.update_key(192, true);
    c.reset_state();
    assert!(!c.get_state(0));
    assert!(!c.get_state(192));
}

#[test]
fn binding_slot_count_skips_the_undefined_marker() {
    assert_eq!(Binding::variants(), 4);
    assert_ne!(Binding::CombinedImage, Binding::UNDEFINED);
}

#[test]
fn padding_rounds_up_to_the_alignment() {
    assert_eq!(pad_size_to_min_aligment(0, 16), 0);
    assert_eq!(pad_size_to_min_aligment(1, 16), 16);
    assert_eq!(pad_size_to_min_aligment(16, 16), 16);
    assert_eq!(pad_size_to_min_aligment(17, 16), 32);
    assert_eq!(pad_size_to_min_aligment(255, 256), 256);
    assert_eq!(pad_size_to_min_aligment(300, 64), 320);
    assert_eq!(pad_size_to_min_aligment(5, 1), 5);
    // the largest size the contract admits for this alignment
    assert_eq!(pad_size_to_min_aligment(0xFFFF_FFF0, 16), 0xFFFF_FFF0);
}

#[test]
fn texture_array_length_counts_whole_tiles() {
    // a 64x64 atlas of 16-pixel tiles at four bytes per pixel
    assert_eq!(TextureArray::expected_data_len((64, 64), 16, 4), 4 * 4 * 16 * 16 * 4);
    // partial tiles at the rim are dropped
    assert_eq!(TextureArray::expected_data_len((70, 64), 16, 4), 4 * 4 * 16 * 16 * 4);
    let t = TextureArray { dimensions: (32, 32), grid: 16, pixel_size: 4, data: vec![0; 4096] };
    assert_eq!(t.data.len(), 4096);
}
