use ansimoe::ansi::{AnsiFrame, AnsiPixel, ImageBuffer, Luma, ToAnsi};
use ansimoe::bytes::ByteReader;
use ansimoe::error::ErrorKind;
use ansimoe::metadata::ColorMode;
use ansimoe::packet::{EncodableData, PacketDataType, TypedData};
use ansimoe::palette::{vga_theme, AnsiColorMap, DistanceMethod, Palette, Rgb};

/// The nearest colour by the plain distance of the channels.
struct Plain;

impl DistanceMethod for Plain {
    fn closest(color: &[u8; 3]) -> usize {
        let palette = Palette::vga();
        let mut best = 0usize;
        let mut best_distance = u32::MAX;
        for idx in 0..=255u8 {
            let c = palette.get(idx);
            let d: u32 = (0..3)
                .map(|k| {
                    let diff = color[k] as i32 - c[k] as i32;
                    (diff * diff) as u32
                })
                .sum();
            if d < best_distance {
                best_distance = d;
                best = idx as usize;
            }
        }
        best
    }
}

/// Always the same index.
struct Fixed;

impl DistanceMethod for Fixed {
    fn closest(_: &[u8; 3]) -> usize {
        200
    }
}

fn distinct_theme() -> [[u8; 3]; 16] {
    let mut theme = [[0u8; 3]; 16];
    for (i, entry) in theme.iter_mut().enumerate() {
        *entry = [1, 2, 100 + i as u8];
    }
    theme
}

#[test]
fn palette_layout() {
    let palette = Palette::vga();
    assert_eq!(palette.get(0), [0, 0, 0]);
    assert_eq!(palette.get(1), [170, 0, 0]);
    assert_eq!(palette.get(3), [170, 85, 0]);
    assert_eq!(palette.get(15), [255, 255, 255]);
    assert_eq!(palette.get(16), [0, 0, 0]);
    assert_eq!(palette.get(17), [0, 0, 95]);
    assert_eq!(palette.get(21), [0, 0, 255]);
    assert_eq!(palette.get(22), [0, 95, 0]);
    assert_eq!(palette.get(52), [95, 0, 0]);
    assert_eq!(palette.get(196), [255, 0, 0]);
    assert_eq!(palette.get(231), [255, 255, 255]);
    assert_eq!(palette.get(232), [8, 8, 8]);
    assert_eq!(palette.get(233), [18, 18, 18]);
    assert_eq!(palette.get(255), [238, 238, 238]);
    assert_eq!(vga_theme()[9], [255, 85, 85]);
}

#[test]
fn reverse_lookup_gives_the_index_back() {
    let palette = Palette::new(&distinct_theme());
    for idx in 0..=255u8 {
        assert_eq!(palette.reverse_lookup(&palette.get(idx)), Some(idx));
    }
}

#[test]
fn reverse_lookup_takes_the_last_of_two() {
    let palette = Palette::vga();
    // Black and white of the theme come again in the cube.
    assert_eq!(palette.reverse_lookup(&[0, 0, 0]), Some(16));
    assert_eq!(palette.reverse_lookup(&[255, 255, 255]), Some(231));
    for idx in 1..=255u8 {
        if idx != 15 {
            assert_eq!(palette.reverse_lookup(&palette.get(idx)), Some(idx));
        }
    }
    // Within the theme the later index wins too.
    let mut theme = distinct_theme();
    theme[4] = theme[9];
    let palette = Palette::new(&theme);
    assert_eq!(palette.reverse_lookup(&theme[4]), Some(9));
}

#[test]
fn reverse_lookup_of_other_colours() {
    let palette = Palette::vga();
    assert_eq!(palette.reverse_lookup(&[1, 2, 3]), None);
    assert_eq!(palette.reverse_lookup(&[95, 95, 96]), None);
    assert_eq!(palette.reverse_lookup(&[55, 55, 55]), None);
    assert_eq!(palette.reverse_lookup(&[248, 248, 248]), None);
    assert_eq!(palette.reverse_lookup(&[8, 8, 18]), None);
    assert_eq!(palette.reverse_lookup(&[95, 135, 175]), Some(16 + 36 + 12 + 3));
    assert_eq!(palette.reverse_lookup(&[128, 128, 128]), Some(244));
}

#[test]
fn quantizer_keeps_palette_colours() {
    // Whatever the distance method says, a colour of the palette maps to the
    // index that it maps back to.
    let palette = Palette::new(&distinct_theme());
    let fixed: AnsiColorMap<Fixed> = AnsiColorMap::new(Palette::new(&distinct_theme()));
    let plain: AnsiColorMap<Plain> = AnsiColorMap::new(Palette::new(&distinct_theme()));
    for idx in 0..=255u8 {
        let color = Rgb(palette.get(idx));
        assert_eq!(fixed.index_of(&color), idx as usize);
        assert_eq!(plain.index_of(&color), idx as usize);
        assert_eq!(fixed.reverse_lookup(&color.0), Some(idx));
    }
    // Other colours go by the distance method.
    assert_eq!(fixed.index_of(&Rgb([1, 1, 1])), 200);
    let vga: AnsiColorMap<Plain> = AnsiColorMap::new(Palette::vga());
    assert_eq!(vga.index_of(&Rgb([254, 1, 1])), 196);
    assert_eq!(vga.index_of(&Rgb([9, 9, 9])), 232);
}

#[test]
fn color_map_lookup() {
    let map: AnsiColorMap<Fixed> = AnsiColorMap::new(Palette::vga());
    assert!(map.has_lookup());
    assert_eq!(map.lookup(196).map(|c| c.0), Some([255, 0, 0]));
    assert!(map.lookup(256).is_none());
    assert_eq!(map.colors().get(232), [8, 8, 8]);
    let mut color = Rgb([3, 3, 3]);
    map.map_color(&mut color);
    assert_eq!(color.0, map.colors().get(200));
    let mut kept = Rgb([0, 95, 0]);
    map.map_color(&mut kept);
    assert_eq!(kept.0, [0, 95, 0]);
}

#[test]
fn pixel_codes() {
    let mut out = Vec::new();
    Rgb([229, 57, 53]).fg_code(&mut out);
    assert_eq!(out, b"\x1b[38;2;229;57;53m");
    out.clear();
    Rgb([0, 7, 255]).bg_code(&mut out);
    assert_eq!(out, b"\x1b[48;2;0;7;255m");
    out.clear();
    Luma([0]).fg_code(&mut out);
    Luma([9]).bg_code(&mut out);
    Luma([10]).fg_code(&mut out);
    Luma([255]).bg_code(&mut out);
    assert_eq!(out, b"\x1b[38;5;0m\x1b[48;5;9m\x1b[38;5;10m\x1b[48;5;255m");
    assert!(Luma([4]).same(&Luma([4])));
    assert!(!Luma([4]).same(&Luma([5])));
    assert!(Rgb([1, 2, 3]).same(&Rgb([1, 2, 3])));
    assert!(!Rgb([1, 2, 3]).same(&Rgb([1, 2, 4])));
}

fn count(haystack: &[u8], needle: &[u8]) -> usize {
    haystack.windows(needle.len()).filter(|w| *w == needle).count()
}

#[test]
fn uniform_frame_sets_each_colour_once() {
    let image = ImageBuffer::from_vec(4, 4, vec![Luma([167]); 16]).unwrap();
    let mut out = Vec::new();
    assert_eq!(image.to_ansi(&mut out), Ok(()));
    assert_eq!(count(&out, b"38;5;"), 1);
    assert_eq!(count(&out, b"48;5;"), 1);
    assert_eq!(count(&out, b"\xe2\x96\x80"), 8);
    assert_eq!(count(&out, b"\x1b[1E"), 2);
    let row = b"\xe2\x96\x80\xe2\x96\x80\xe2\x96\x80\xe2\x96\x80\x1b[1E";
    let mut expected = b"\x1b[38;5;167m\x1b[48;5;167m".to_vec();
    expected.extend_from_slice(row);
    expected.extend_from_slice(row);
    assert_eq!(out, expected);

    let image = ImageBuffer::from_vec(3, 2, vec![Rgb([229, 57, 53]); 6]).unwrap();
    let mut out = vec![b'>'];
    assert_eq!(image.to_ansi(&mut out), Ok(()));
    assert_eq!(
        out,
        b">\x1b[38;2;229;57;53m\x1b[48;2;229;57;53m\xe2\x96\x80\xe2\x96\x80\xe2\x96\x80\x1b[1E"
    );
}

#[test]
fn frame_sets_a_colour_when_it_changes() {
    // Rows:  1 1      upper of the first row of cells
    //        2 3      lower
    //        1 4      upper of the second row of cells
    //        3 3      lower
    let pixels: Vec<Luma> = [1, 1, 2, 3, 1, 4, 3, 3].into_iter().map(|v| Luma([v])).collect();
    let image = ImageBuffer::from_vec(2, 4, pixels).unwrap();
    let mut out = Vec::new();
    image.to_ansi(&mut out).unwrap();
    let expected = [
        &b"\x1b[38;5;1m\x1b[48;5;2m\xe2\x96\x80"[..],
        &b"\x1b[48;5;3m\xe2\x96\x80\x1b[1E"[..],
        // The colours carry over from the row before.
        &b"\xe2\x96\x80"[..],
        &b"\x1b[38;5;4m\xe2\x96\x80\x1b[1E"[..],
    ]
    .concat();
    assert_eq!(out, expected);
}

#[test]
fn frame_leaves_out_an_odd_last_row() {
    let pixels: Vec<Luma> = [1, 2, 3].into_iter().map(|v| Luma([v])).collect();
    let image = ImageBuffer::from_vec(1, 3, pixels).unwrap();
    let mut out = Vec::new();
    image.to_ansi(&mut out).unwrap();
    assert_eq!(out, b"\x1b[38;5;1m\x1b[48;5;2m\xe2\x96\x80\x1b[1E");

    for (width, height) in [(1u32, 1u32), (0, 0), (5, 0), (5, 1)] {
        let image = ImageBuffer::from_vec(width, height, vec![Luma([1]); (width * height) as usize])
            .unwrap();
        let mut out = Vec::new();
        image.to_ansi(&mut out).unwrap();
        assert!(out.is_empty());
    }
    // Without columns only the moves to the next line are left.
    let image: ImageBuffer<Luma> = ImageBuffer::from_vec(0, 4, vec![]).unwrap();
    let mut out = Vec::new();
    image.to_ansi(&mut out).unwrap();
    assert_eq!(out, b"\x1b[1E\x1b[1E");
}

#[test]
fn image_buffer() {
    assert!(ImageBuffer::from_vec(2, 2, vec![Luma([0]); 3]).is_none());
    let image = ImageBuffer::from_vec(2, 3, vec![Luma([7]); 6]).unwrap();
    assert_eq!(image.width(), 2);
    assert_eq!(image.height(), 3);
    assert_eq!(image.as_slice().len(), 6);
    assert_eq!(image.est_size(), Some(120));
    assert_eq!(image.into_vec().len(), 6);
}

#[test]
fn ansi_frame_is_a_video_payload() {
    let image = ImageBuffer::from_vec(1, 2, vec![Luma([1]), Luma([2])]).unwrap();
    let frame = AnsiFrame::from(image);
    assert_eq!(frame.get().width(), 1);
    assert_eq!(frame.estimated_size(), Some(40));
    let mut out = Vec::new();
    let written = frame.encode_into(&mut out);
    assert_eq!(out, b"\x1b[38;5;1m\x1b[48;5;2m\xe2\x96\x80\x1b[1E");
    assert_eq!(written, out.len() as u64);
    assert_eq!(<AnsiFrame<ImageBuffer<Luma>> as TypedData>::KIND, PacketDataType::Video);
    let mut reader = ByteReader::new(&out);
    assert!(matches!(
        AnsiFrame::<ImageBuffer<Luma>>::decode_from(&mut reader),
        Err(ErrorKind::InvalidData)
    ));
    assert_eq!(frame.into_inner().height(), 2);
}

#[test]
fn color_modes() {
    for word in ["full", "rgb", "true", "24bit"] {
        assert_eq!(ColorMode::from_str(word), Ok(ColorMode::Full));
    }
    for word in ["eightbit", "8bit", "eight", "256", "256color"] {
        assert_eq!(ColorMode::from_str(word), Ok(ColorMode::EightBit));
    }
    assert!(ColorMode::from_str("16bit").is_err());
    assert_eq!(ColorMode::Full.to_string(), "full");
    assert_eq!(ColorMode::EightBit.to_string(), "8bit");
    assert_eq!(ColorMode::Full.code(), 0);
    assert_eq!(ColorMode::EightBit.code(), 1);
}
