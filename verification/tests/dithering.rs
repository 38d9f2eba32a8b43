use ansimoe::ansi::{ImageBuffer, ToAnsi};
use ansimoe::bayer::{MatrixSize, BAYER_2X2, BAYER_4X4, BAYER_8X8};
use ansimoe::dither::{
    dither, indexed_image, mix, mix_2x2, mix_4x4, mix_8x8, next_errors, next_input, pick_by_luma,
    DitherMethod, ErrorGain, PatternDither,
};
use ansimoe::encoder::{FFPacket, FFToAnsi};
use ansimoe::error::ErrorKind;
use ansimoe::floyd_steinberg::{diffuse_step, floyd_steinberg, index_colors};
use ansimoe::metadata::ColorMode;
use ansimoe::packet::{Packet, PacketDataType};
use ansimoe::palette::{AnsiColorMap, DistanceMethod, Palette, Rgb};
use ansimoe::video::{pixels_from_bytes, AnsiVideoEncoder};

/// The nearest colour from index 16 on, by the plain distance of the channels.
struct Plain;

impl DistanceMethod for Plain {
    fn closest(color: &[u8; 3]) -> usize {
        let palette = Palette::vga();
        let mut best = 16usize;
        let mut best_distance = u32::MAX;
        for idx in 16..=255u8 {
            let c = palette.get(idx);
            let d: u32 = (0..3)
                .map(|k| {
                    let diff = color[k] as i32 - c[k] as i32;
                    (diff * diff) as u32
                })
                .sum();
            if d < best_distance {
                best_distance = d;
                best = idx as usize;
            }
        }
        best
    }
}

/// The blue of the cube that is nearest to the blue of the colour.
struct Blue;

impl DistanceMethod for Blue {
    fn closest(color: &[u8; 3]) -> usize {
        let levels = [0i32, 95, 135, 175, 215, 255];
        let mut best = 0usize;
        for (i, level) in levels.iter().enumerate() {
            if (color[2] as i32 - level).abs() < (color[2] as i32 - levels[best]).abs() {
                best = i;
            }
        }
        16 + best
    }
}

/// Always the index 167.
struct Fixed;

impl DistanceMethod for Fixed {
    fn closest(_: &[u8; 3]) -> usize {
        167
    }
}

fn plain_map() -> AnsiColorMap<Plain> {
    AnsiColorMap::new(Palette::vga())
}

fn gain_of(numerator: u32, denominator: u32) -> ErrorGain {
    let mut table = Vec::with_capacity(0x1_0000);
    for color in 0..256u32 {
        for err in 0..256u32 {
            table.push((color + err * numerator / denominator).min(255) as u8);
        }
    }
    ErrorGain::from_table(table).unwrap()
}

#[test]
fn matrix_sizes() {
    for word in ["two", "2", "2x2"] {
        assert_eq!(MatrixSize::from_str(word), Ok(MatrixSize::Two));
    }
    for word in ["four", "4", "4x4"] {
        assert_eq!(MatrixSize::from_str(word), Ok(MatrixSize::Four));
    }
    for word in ["eight", "8", "8x8"] {
        assert_eq!(MatrixSize::from_str(word), Ok(MatrixSize::Eight));
    }
    assert!(MatrixSize::from_str("three").is_err());
    // Every size is named by the word that it is read from.
    assert_eq!(MatrixSize::Two.to_string(), "two");
    assert_eq!(MatrixSize::Four.to_string(), "four");
    assert_eq!(MatrixSize::Eight.to_string(), "eight");
    for size in [MatrixSize::Two, MatrixSize::Four, MatrixSize::Eight] {
        assert_eq!(MatrixSize::from_str(size.to_string()), Ok(size));
    }
    assert_eq!(MatrixSize::try_from(0), Some(MatrixSize::Eight));
    assert_eq!(MatrixSize::try_from(1), Some(MatrixSize::Four));
    assert_eq!(MatrixSize::try_from(2), Some(MatrixSize::Two));
    assert_eq!(MatrixSize::try_from(3), None);
    assert_eq!(MatrixSize::Two.candidates(), 4);
    assert_eq!(MatrixSize::Four.candidates(), 16);
    assert_eq!(MatrixSize::Eight.candidates(), 64);
}

#[test]
fn bayer_matrices() {
    assert_eq!(BAYER_2X2, [0, 2, 3, 1]);
    assert_eq!(BAYER_4X4, [0, 8, 2, 10, 12, 4, 14, 6, 3, 11, 1, 9, 15, 7, 13, 5]);
    for (matrix, n) in [(&BAYER_2X2[..], 4usize), (&BAYER_4X4[..], 16), (&BAYER_8X8[..], 64)] {
        let mut seen = vec![false; n];
        for &entry in matrix {
            assert!(!seen[entry]);
            seen[entry] = true;
        }
    }
    assert_eq!(BAYER_8X8[0], 0);
    assert_eq!(BAYER_8X8[1], 48);
    assert_eq!(BAYER_8X8[63], 21);
    // At x = 3, y = 1 the matrix of 4 by 4 picks the seventh candidate.
    assert_eq!(MatrixSize::Four.pick(3, 1), 6);
    assert_eq!(MatrixSize::Four.pick(7, 5), 6);
    assert_eq!(MatrixSize::Two.pick(1, 0), 2);
    assert_eq!(MatrixSize::Two.pick(0, 1), 3);
    assert_eq!(MatrixSize::Eight.pick(9, 8), 48);
    assert_eq!(MatrixSize::Eight.pick(0, 1), 32);
}

#[test]
fn error_gain() {
    let identity = ErrorGain::identity();
    for (color, err) in [(0u8, 0u8), (0, 255), (17, 3), (255, 255), (200, 1)] {
        assert_eq!(identity.boost(color, err), color);
    }
    assert!(ErrorGain::from_table(vec![0; 65535]).is_none());
    assert!(ErrorGain::from_table(vec![0; 65537]).is_none());
    let half = gain_of(1, 2);
    assert_eq!(half.boost(10, 20), 20);
    assert_eq!(half.boost(250, 20), 255);
    assert_eq!(half.boost(10, 0), 10);
}

#[test]
fn mix_without_error_gives_the_quantized_colour() {
    let map = plain_map();
    let gain = ErrorGain::identity();
    // A colour of the palette: its own index, whatever is picked.
    for pick in 0..16 {
        assert_eq!(mix_4x4([0, 95, 0], &gain, &map, pick), 22);
        assert_eq!(mix([8, 8, 8], &gain, &map, 16, pick), 232);
    }
    for pick in 0..4 {
        assert_eq!(mix_2x2([255, 255, 255], &gain, &map, pick), 231);
    }
    // Any other colour: the index that it is quantized to.
    let nearest = map.index_of(&Rgb([229, 57, 53])) as u8;
    for pick in 0..64 {
        assert_eq!(mix_8x8([229, 57, 53], &gain, &map, pick), nearest);
    }
    assert_eq!(mix_4x4([229, 57, 53], &gain, &map, MatrixSize::Four.pick(3, 1)), nearest);
}

#[test]
fn mix_orders_the_candidates_by_brightness() {
    // With the whole error added in, a mid gray between two grays of the
    // ramp is mixed from both.
    let map = plain_map();
    let gain = gain_of(1, 1);
    let picks: Vec<u8> = (0..4).map(|pick| mix_2x2([23, 23, 23], &gain, &map, pick)).collect();
    // Looked up: 23 gives the gray 18 (index 233), which leaves an error of
    // 5; 28 gives the gray 28 (index 234), which is above 23 and adds
    // nothing to the error; and so on.
    assert_eq!(picks, vec![233, 234, 234, 234]);
    // 32 lies between 28 and 38: 28 first, error 4; then 36 gives 38, error
    // stays 4; so three of the four candidates are the brighter gray.
    let picks: Vec<u8> = (0..4).map(|pick| mix_2x2([32, 32, 32], &gain, &map, pick)).collect();
    assert_eq!(picks, vec![234, 235, 235, 235]);
}

#[test]
fn candidates_are_picked_from_dark_to_bright() {
    let palette = Palette::vga();
    // White, black, the gray 128, bright red, the gray 128 of the theme's
    // bright black is another: 244 is 128 128 128, 8 is 85 85 85.
    let choices = [231u8, 16, 244, 196, 8, 244];
    let order: Vec<u8> = (0..6).map(|pick| pick_by_luma(&palette, &choices, pick)).collect();
    assert_eq!(order, vec![16, 196, 8, 244, 244, 231]);
    // Two colours of one brightness keep the order in which they were chosen:
    // 0 and 16 are both black.
    let same = [16u8, 0, 231, 0];
    let order: Vec<u8> = (0..4).map(|pick| pick_by_luma(&palette, &same, pick)).collect();
    assert_eq!(order, vec![16, 0, 0, 231]);
    assert_eq!(pick_by_luma(&palette, &[7], 0), 7);
    let full = [3u8; 64];
    assert_eq!(pick_by_luma(&palette, &full, 63), 3);
}

#[test]
fn errors_gather_within_a_byte() {
    assert_eq!(next_errors(&[10, 200, 0], &[4, 250, 0], &[0, 9, 7]), [6, 9, 7]);
    assert_eq!(next_errors(&[255, 255, 255], &[0, 0, 254], &[1, 250, 255]), [255, 255, 255]);
    let half = gain_of(1, 2);
    assert_eq!(next_input(&[10, 250, 0], &half, &[20, 20, 0]), [20, 255, 0]);
    assert_eq!(next_input(&[10, 250, 0], &ErrorGain::identity(), &[20, 20, 9]), [10, 250, 0]);
}

#[test]
fn one_step_of_error_diffusion() {
    // Three by three, the pixel in the middle becomes black and hands on what
    // it had: 160 of red.
    let mut pixels = vec![Rgb([0, 0, 0]); 9];
    pixels[4] = Rgb([160, 0, 0]);
    pixels[5] = Rgb([250, 1, 2]);
    diffuse_step(&mut pixels, 3, 3, 1, 1, [0, 0, 0]);
    let red: Vec<u8> = pixels.iter().map(|p| p.0[0]).collect();
    assert_eq!(red, vec![0, 0, 0, 0, 0, 255, 30, 50, 10]);
    assert_eq!(pixels[5].0, [255, 1, 2]);
    // A pixel that becomes brighter takes colour away from its neighbours.
    let mut pixels = vec![Rgb([100, 100, 100]); 4];
    diffuse_step(&mut pixels, 2, 2, 0, 0, [110, 100, 255]);
    assert_eq!(pixels[0].0, [110, 100, 255]);
    assert_eq!(pixels[1].0, [96, 100, 33]);
    assert_eq!(pixels[2].0, [97, 100, 52]);
    assert_eq!(pixels[3].0, [100, 100, 91]);
    // In the last column and the last row nothing is handed on.
    let mut pixels = vec![Rgb([100, 100, 100]); 4];
    diffuse_step(&mut pixels, 2, 2, 1, 1, [0, 0, 0]);
    assert_eq!(pixels[0].0, [100, 100, 100]);
    assert_eq!(pixels[2].0, [100, 100, 100]);
}

#[test]
fn pattern_dither_of_a_plain_area() {
    let map = plain_map();
    let gain = ErrorGain::identity();
    let image = ImageBuffer::from_vec(5, 3, vec![Rgb([229, 57, 53]); 15]).unwrap();
    let nearest = map.index_of(&Rgb([229, 57, 53])) as u8;
    for size in [MatrixSize::Two, MatrixSize::Four, MatrixSize::Eight] {
        assert_eq!(dither(&image, size, &gain, &map), vec![nearest; 15]);
    }
    let indexed = image.pattern_dither(MatrixSize::Four, &gain, &map);
    assert_eq!(indexed.width(), 5);
    assert_eq!(indexed.height(), 3);
    assert!(indexed.as_slice().iter().all(|p| p.0[0] == nearest));
}

#[test]
fn pattern_dither_follows_the_matrix() {
    let map = plain_map();
    let gain = gain_of(1, 1);
    let image = ImageBuffer::from_vec(2, 2, vec![Rgb([32, 32, 32]); 4]).unwrap();
    // The matrix of 2 by 2 is 0 2 / 3 1, and only the darkest candidate is
    // the darker gray.
    assert_eq!(dither(&image, MatrixSize::Two, &gain, &map), vec![234, 235, 235, 235]);
}

#[test]
fn floyd_steinberg_of_palette_colours_changes_nothing() {
    let map = plain_map();
    let pixels: Vec<Rgb> = (16..=255u8).map(|idx| Rgb(map.colors().get(idx))).collect();
    let image = ImageBuffer::from_vec(24, 10, pixels.clone()).unwrap();
    let diffused = floyd_steinberg(image, &map);
    assert_eq!(diffused.width(), 24);
    assert_eq!(diffused.height(), 10);
    for (after, before) in diffused.as_slice().iter().zip(pixels.iter()) {
        assert_eq!(after.0, before.0);
    }
    let indexed = index_colors(&diffused, &map).unwrap();
    for (i, pixel) in indexed.as_slice().iter().enumerate() {
        assert_eq!(pixel.0[0] as usize, 16 + i);
    }
}

#[test]
fn floyd_steinberg_spreads_the_error() {
    // One row of two pixels: 103 103 103 becomes the gray 98 and loses 5 in
    // each channel, of which 7/16, which is 2, goes to the right.
    let map = plain_map();
    let image = ImageBuffer::from_vec(2, 1, vec![Rgb([103, 103, 103]), Rgb([93, 93, 93])]).unwrap();
    let diffused = floyd_steinberg(image, &map);
    assert_eq!(diffused.as_slice()[0].0, [98, 98, 98]);
    // 93 + 2 = 95: the second pixel lands on a colour of the cube.
    assert_eq!(diffused.as_slice()[1].0, [95, 95, 95]);

    // Two rows of three: the pixel in the middle of the first row hands on
    // 7/16 to the right, 3/16 below left, 5/16 below, 1/16 below right.
    let mut pixels = vec![Rgb([0, 0, 0]); 6];
    pixels[1] = Rgb([0, 0, 40]);
    for at in [2usize, 3, 4, 5] {
        pixels[at] = Rgb([0, 0, 20]);
    }
    let image = ImageBuffer::from_vec(3, 2, pixels).unwrap();
    let blue: AnsiColorMap<Blue> = AnsiColorMap::new(Palette::vga());
    let diffused = floyd_steinberg(image, &blue);
    // 0 0 40 becomes black and loses 40 of blue: 17, 7, 12 and 2 go on. The
    // pixel to the right is then 0 0 37, which becomes black too and hands
    // 11 and 2 to the pixels below it and below left.
    assert_eq!(diffused.as_slice()[1].0, [0, 0, 0]);
    assert_eq!(diffused.as_slice()[2].0, [0, 0, 0]);
    // Below left: 20 + 7 = 27, black, loses 27: 11 goes right.
    assert_eq!(diffused.as_slice()[3].0, [0, 0, 0]);
    // Below: 20 + 12 + 6 (3/16 of 37) + 11 = 49: nearer to 0 0 95 than to
    // black.
    assert_eq!(diffused.as_slice()[4].0, [0, 0, 95]);
    // Below right: 20 + 2 + 11 (5/16 of 37), and 7/16 of the 46 that the
    // pixel before it gained are taken away: 33 - 20 = 13.
    assert_eq!(diffused.as_slice()[5].0, [0, 0, 0]);

    // Two by two: the error of the first pixel goes right (7), below (5) and
    // below right (1); taking colour rounds towards zero.
    let image = ImageBuffer::from_vec(
        2,
        2,
        vec![Rgb([90, 90, 90]), Rgb([0, 0, 0]), Rgb([0, 0, 0]), Rgb([0, 0, 0])],
    )
    .unwrap();
    let diffused = floyd_steinberg(image, &map);
    // 90 becomes 88 (gray 240 is 88), the error is 2: 14/16, 10/16 and 2/16
    // are all nothing.
    assert_eq!(diffused.as_slice()[0].0, [88, 88, 88]);
    assert_eq!(diffused.as_slice()[1].0, [0, 0, 0]);
    assert_eq!(diffused.as_slice()[2].0, [0, 0, 0]);
    assert_eq!(diffused.as_slice()[3].0, [0, 0, 0]);
}

#[test]
fn floyd_steinberg_takes_colour_away() {
    // 60 60 60 becomes 58 (gray 237): nothing to hand on. 252 becomes 255
    // (white of the cube) and is 3 short: the pixel to its right loses
    // 21/16, which is 1.
    let map = plain_map();
    let image = ImageBuffer::from_vec(2, 1, vec![Rgb([252, 252, 252]), Rgb([9, 9, 9])]).unwrap();
    let diffused = floyd_steinberg(image, &map);
    assert_eq!(diffused.as_slice()[0].0, [255, 255, 255]);
    assert_eq!(diffused.as_slice()[1].0, [8, 8, 8]);
    let indexed = index_colors(&diffused, &map).unwrap();
    assert_eq!(indexed.as_slice()[0].0[0], 231);
    assert_eq!(indexed.as_slice()[1].0[0], 232);
}

#[test]
fn index_colors_needs_palette_colours() {
    let map = plain_map();
    let image = ImageBuffer::from_vec(1, 2, vec![Rgb([0, 0, 95]), Rgb([1, 2, 3])]).unwrap();
    assert!(index_colors(&image, &map).is_none());
    let indexed = indexed_image(2, 1, vec![4, 5]);
    assert_eq!(indexed.as_slice()[1].0[0], 5);
}

fn count(haystack: &[u8], needle: &[u8]) -> usize {
    haystack.windows(needle.len()).filter(|w| *w == needle).count()
}

fn red_frame() -> FFPacket {
    let mut input = FFPacket::default();
    let pixels: Vec<u8> = std::iter::repeat([0xe5u8, 0x39, 0x35]).take(16).flatten().collect();
    input.ingest_video(0, 0, 40_000, 40_000, &pixels);
    input
}

fn encoder_with<T: DistanceMethod>(
    color_mode: ColorMode,
    dither_mode: DitherMethod,
    color_map: AnsiColorMap<T>,
) -> AnsiVideoEncoder<T> {
    AnsiVideoEncoder {
        color_mode,
        dither_mode,
        matrix_size: MatrixSize::Four,
        gain: ErrorGain::identity(),
        width: 4,
        height: 4,
        color_map,
    }
}

#[test]
fn solid_red_video_in_256_colours() {
    // Two frames of 4 by 4 pixels, all of the colour E53935, which is the red
    // of the terminal's theme, with error diffusion: every pixel gets the
    // index that the colour maps back to, and each frame sets foreground and
    // background once.
    let mut theme = ansimoe::palette::vga_theme();
    theme[1] = [0xe5, 0x39, 0x35];
    let nearest: AnsiColorMap<Fixed> = AnsiColorMap::new(Palette::new(&theme));
    assert_eq!(nearest.index_of(&Rgb([0xe5, 0x39, 0x35])), 1);
    assert_eq!(nearest.reverse_lookup(&[0xe5, 0x39, 0x35]), Some(1));
    let mut encoder = encoder_with(ColorMode::EightBit, DitherMethod::FloydSteinberg, nearest);
    for _ in 0..2 {
        let input = red_frame();
        let pixels = pixels_from_bytes(&input.binary_data, 16);
        let image = ImageBuffer::from_vec(4, 4, pixels).unwrap();
        let diffused = floyd_steinberg(image, &encoder.color_map);
        let indexed = index_colors(&diffused, &encoder.color_map).unwrap();
        assert!(indexed.as_slice().iter().all(|p| p.0[0] == 1));

        let mut packet = Packet::default();
        let mut data = Vec::new();
        assert_eq!(encoder.process(&input, &mut packet, &mut data), Ok(()));
        assert_eq!(count(&data, b"38;5;"), 1);
        assert_eq!(count(&data, b"48;5;"), 1);
        assert!(data.starts_with(b"\x1b[38;5;1m\x1b[48;5;1m\xe2\x96\x80"));
        assert_eq!(packet.data_type, PacketDataType::Video);
        assert_eq!(packet.data_len, data.len() as u64);
    }
}

#[test]
fn video_encoder_modes() {
    let input = red_frame();

    let mut full = encoder_with(ColorMode::Full, DitherMethod::Pattern, plain_map());
    let mut packet = Packet::default();
    let mut data = vec![b'#'];
    assert_eq!(full.process(&input, &mut packet, &mut data), Ok(()));
    let row = b"\xe2\x96\x80\xe2\x96\x80\xe2\x96\x80\xe2\x96\x80\x1b[1E";
    let mut expected = b"#\x1b[38;2;229;57;53m\x1b[48;2;229;57;53m".to_vec();
    expected.extend_from_slice(row);
    expected.extend_from_slice(row);
    assert_eq!(data, expected);
    assert_eq!(packet.data_len, data.len() as u64);

    let mut pattern = encoder_with(ColorMode::EightBit, DitherMethod::Pattern, plain_map());
    let nearest = pattern.color_map.index_of(&Rgb([229, 57, 53]));
    let mut data = Vec::new();
    assert_eq!(pattern.process(&input, &mut packet, &mut data), Ok(()));
    let image = indexed_image(4, 4, vec![nearest as u8; 16]);
    let mut expected = Vec::new();
    image.to_ansi(&mut expected).unwrap();
    assert_eq!(data, expected);
}

#[test]
fn video_encoder_refuses_what_does_not_fit() {
    let input = red_frame();
    let mut packet = Packet::default();
    let mut data = vec![1];
    let mut encoder = encoder_with(ColorMode::Full, DitherMethod::Pattern, plain_map());
    encoder.width = 5;
    assert_eq!(
        encoder.process(&input, &mut packet, &mut data),
        Err(ErrorKind::ParameterOutOfRange)
    );
    encoder.width = -4;
    assert_eq!(
        encoder.process(&input, &mut packet, &mut data),
        Err(ErrorKind::ParameterOutOfRange)
    );
    encoder.width = 4;
    encoder.height = 1 << 40;
    assert_eq!(
        encoder.process(&input, &mut packet, &mut data),
        Err(ErrorKind::ParameterOutOfRange)
    );
    assert_eq!(data, vec![1]);
    assert_eq!(packet.data_type, PacketDataType::Invalid);
    // A frame with more bytes than needed: the first ones are taken.
    encoder.height = 2;
    assert_eq!(encoder.process(&input, &mut packet, &mut data), Ok(()));
}

#[test]
fn a_gain_leaves_a_channel_without_error_as_it_is() {
    // A table that changes a channel while no error has gathered is no gain.
    let mut table = vec![0u8; 0x1_0000];
    for color in 0..256usize {
        for err in 0..256usize {
            table[color * 256 + err] = color as u8;
        }
    }
    assert!(ErrorGain::from_table(table.clone()).is_some());
    table[17 * 256] = 18;
    assert!(ErrorGain::from_table(table.clone()).is_none());
    table[17 * 256] = 17;
    table[17 * 256 + 1] = 200;
    let gain = ErrorGain::from_table(table).unwrap();
    assert_eq!(gain.boost(17, 0), 17);
    assert_eq!(gain.boost(17, 1), 200);
    assert!(ErrorGain::from_table(vec![0; 0x1_0000]).is_none());
}

#[test]
fn a_plain_area_of_a_palette_colour_stays_plain_under_any_gain() {
    let fixed: AnsiColorMap<Fixed> = AnsiColorMap::new(Palette::vga());
    let plain = plain_map();
    for gain in [ErrorGain::identity(), gain_of(1, 11), gain_of(1, 1), gain_of(3, 1)] {
        for (color, index) in [([0u8, 95, 0], 22u8), ([8, 8, 8], 232), ([255, 255, 255], 231)] {
            let image = ImageBuffer::from_vec(7, 5, vec![Rgb(color); 35]).unwrap();
            for size in [MatrixSize::Two, MatrixSize::Four, MatrixSize::Eight] {
                assert_eq!(dither(&image, size, &gain, &plain), vec![index; 35]);
                assert_eq!(dither(&image, size, &gain, &fixed), vec![index; 35]);
            }
        }
    }
}
