use wboit_splats::pack::{index_bytes, word_bytes};
use wboit_splats::surface::CompositeAlpha::{
    Auto, Inherit, Opaque, PostMultiplied, PreMultiplied,
};
use wboit_splats::surface::{
    choose_alpha_mode, choose_format, surface_extent, unpack_pixels, HistogramParams, ReadbackLayout,
};

#[test]
fn words_are_their_memory() {
    let words = [0x0102_0304u32, 0xfff0_0001, 0];
    let expected: Vec<u8> = words.iter().flat_map(|w| w.to_ne_bytes()).collect();
    assert_eq!(word_bytes(&words), expected);
    assert!(word_bytes(&[]).is_empty());
}

#[test]
fn indices_are_their_memory() {
    let indices = [0x0102u16, 0xff01, 0];
    let expected: Vec<u8> = indices.iter().flat_map(|w| w.to_ne_bytes()).collect();
    assert_eq!(index_bytes(&indices), expected);
    assert!(index_bytes(&[]).is_empty());
}

#[test]
fn different_words_have_different_memory() {
    assert_ne!(word_bytes(&[1, 2]), word_bytes(&[2, 1]));
}

#[test]
fn surfaces_are_never_empty() {
    assert_eq!(surface_extent(0), 1);
    assert_eq!(surface_extent(1), 1);
    assert_eq!(surface_extent(1920), 1920);
}

#[test]
fn the_first_srgb_format_is_taken() {
    assert_eq!(choose_format(&[false, true, true]), 1);
    assert_eq!(choose_format(&[false, false]), 0);
    assert_eq!(choose_format(&[true]), 0);
}

#[test]
fn premultiplied_alpha_is_preferred() {
    assert_eq!(choose_alpha_mode(&[Opaque, PostMultiplied, PreMultiplied]), PreMultiplied);
    assert_eq!(choose_alpha_mode(&[Opaque, PostMultiplied]), PostMultiplied);
    assert_eq!(choose_alpha_mode(&[Inherit, Opaque]), Inherit);
    assert_eq!(choose_alpha_mode(&[Auto]), Auto);
}

#[test]
fn tiles_cover_the_surface() {
    let params = HistogramParams::for_surface(1280, 720);
    assert_eq!(params.words(), [40, 23, 64, 32]);
    assert_eq!(params.histogram_buffer_size(), 40 * 23 * 64 * 4);
    assert_eq!(HistogramParams::for_surface(1, 1).words(), [1, 1, 64, 32]);
    assert_eq!(HistogramParams::for_surface(32, 33).words(), [1, 2, 64, 32]);
    // Every pixel lies in a tile, and no tile is without one.
    for size in 1..200u32 {
        let params = HistogramParams::for_surface(size, size);
        assert!((size - 1) / params.tile_size < params.tile_count_x);
        assert!((params.tile_count_x - 1) * params.tile_size < size);
    }
}

#[test]
fn rows_are_read_back_padded() {
    let layout = ReadbackLayout::for_image(640, 360);
    assert_eq!(layout.unpadded_bytes_per_row, 2560);
    assert_eq!(layout.bytes_per_row, 2560);
    assert_eq!(layout.size, 2560 * 360);
    let layout = ReadbackLayout::for_image(65, 3);
    assert_eq!(layout.unpadded_bytes_per_row, 260);
    assert_eq!(layout.bytes_per_row, 512);
    assert_eq!(layout.size, 1536);
    assert_eq!(ReadbackLayout::for_image(0, 5).bytes_per_row, 0);
}

#[test]
fn pixels_are_unpacked_without_the_padding() {
    let layout = ReadbackLayout::for_image(2, 2);
    let mut bytes = vec![0xeeu8; layout.size as usize];
    bytes[0..8].copy_from_slice(&[1, 2, 3, 4, 5, 6, 7, 8]);
    bytes[256..264].copy_from_slice(&[9, 10, 11, 12, 13, 14, 15, 16]);
    assert_eq!(
        unpack_pixels(&bytes, &layout, 2, 2, false),
        vec![[1, 2, 3, 4], [5, 6, 7, 8], [9, 10, 11, 12], [13, 14, 15, 16]]
    );
    assert_eq!(
        unpack_pixels(&bytes, &layout, 2, 2, true),
        vec![[3, 2, 1, 4], [7, 6, 5, 8], [11, 10, 9, 12], [15, 14, 13, 16]]
    );
}
