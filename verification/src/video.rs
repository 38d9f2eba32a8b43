//! The first stage for video streams: a frame of RGB pixels becomes terminal
//! output.

use vstd::prelude::*;

use crate::ansi::{frame_ansi, AnsiFrame, ImageBuffer, Luma, ToAnsi};
use crate::bayer::MatrixSize;
use crate::dither::{dithers, DitherMethod, ErrorGain, PatternDither};
use crate::encoder::{FFPacket, FFToAnsi};
use crate::error::ErrorKind;
use crate::floyd_steinberg::{
    colors_of, diffuses, floyd_steinberg, index_colors, law_diffused_in_palette,
};
use crate::metadata::ColorMode;
use crate::packet::{EncodableData, Packet, PacketDataType, PacketView};
use crate::palette::{AnsiColorMap, DistanceMethod, Rgb};

verus! {

/// The pixels that `bytes` hold, three bytes for each: red, green, blue.
pub open spec fn rgb_pixels(bytes: Seq<u8>, count: int) -> Seq<Seq<u8>> {
    Seq::new(count as nat, |i: int| bytes.subrange(3 * i, 3 * i + 3))
}

/// The first `count` pixels of `bytes`.
pub fn pixels_from_bytes(bytes: &[u8], count: usize) -> (pixels: Vec<Rgb>)
    requires
        3 * count <= bytes@.len(),
    ensures
        colors_of(pixels@) == rgb_pixels(bytes@, count as int),
        pixels@.len() == count,
{
    let mut pixels: Vec<Rgb> = Vec::new();
    let mut i: usize = 0;
    let total: usize = bytes.len();
    while i < count
        invariant
            i <= count,
            3 * count <= bytes@.len(),
            bytes@.len() == total,
            pixels@.len() == i,
            forall|j: int| 0 <= j < i ==> (#[trigger] pixels@[j]).0@ == bytes@.subrange(
                3 * j,
                3 * j + 3,
            ),
        decreases count - i,
    {
        let pixel: [u8; 3] = [bytes[3 * i], bytes[3 * i + 1], bytes[3 * i + 2]];
        proof {
            assert(pixel@ =~= bytes@.subrange(3 * i, 3 * i + 3));
        }
        pixels.push(Rgb(pixel));
        i = i + 1;
    }
    proof {
        assert(colors_of(pixels@) =~= rgb_pixels(bytes@, count as int));
    }
    pixels
}

/// Makes the payload of video packets: each frame as terminal output, in 24-bit
/// colour or in the 256 colours of the palette, which are reached by error
/// diffusion or by ordered dithering.
pub struct AnsiVideoEncoder<T: DistanceMethod> {
    pub color_mode: ColorMode,
    pub dither_mode: DitherMethod,
    pub matrix_size: MatrixSize,
    /// Stands for the multiplier of the error in ordered dithering.
    pub gain: ErrorGain,
    pub width: i64,
    pub height: i64,
    pub color_map: AnsiColorMap<T>,
}

impl<T: DistanceMethod> AnsiVideoEncoder<T> {
    /// Whether the encoder can take a frame of `len` bytes: width and height
    /// fit 32 bits, and the frame holds three bytes for every pixel.
    pub open spec fn accepts(&self, len: int) -> bool {
        &&& 0 <= self.width <= u32::MAX
        &&& 0 <= self.height <= u32::MAX
        &&& 3 * (self.width * self.height) <= len
    }

    /// Whether `payload` may be the terminal output for a frame with the
    /// pixels `pixels`.
    pub open spec fn renders(&self, pixels: Seq<Rgb>, payload: Seq<u8>) -> bool {
        match self.color_mode {
            ColorMode::Full => payload == frame_ansi(pixels, self.width as int, self.height as int),
            ColorMode::EightBit => exists|indexed: Seq<Luma>|
                {
                    &&& #[trigger] self.indexes(pixels, indexed)
                    &&& payload == frame_ansi(indexed, self.width as int, self.height as int)
                },
        }
    }

    /// Whether `indexed` may be the palette indices for the pixels `pixels`.
    pub open spec fn indexes(&self, pixels: Seq<Rgb>, indexed: Seq<Luma>) -> bool {
        &&& indexed.len() == pixels.len()
        &&& match self.dither_mode {
            DitherMethod::FloydSteinberg => exists|choices: Seq<int>, after: Seq<Seq<u8>>|
                {
                    &&& #[trigger] diffuses(
                        colors_of(pixels),
                        self.width as int,
                        self.height as int,
                        self.color_map.palette(),
                        choices,
                        after,
                    )
                    &&& forall|i: int|
                        0 <= i < pixels.len() ==> self.color_map.palette().maps_back(
                            after[i],
                            (#[trigger] indexed[i]).0@[0] as int,
                        )
                },
            DitherMethod::Pattern => forall|i: int|
                0 <= i < pixels.len() ==> dithers(
                    self.color_map.palette(),
                    self.gain,
                    self.matrix_size,
                    i % (self.width as int),
                    i / (self.width as int),
                    pixels[i].0@,
                    (#[trigger] indexed[i]).0@[0],
                ),
        }
    }

    /// The frame in the palette's colours by error diffusion.
    fn floyd_steinberg(&self, image: ImageBuffer<Rgb>) -> (r: ImageBuffer<Luma>)
        requires
            self.dither_mode == DitherMethod::FloydSteinberg,
            image.columns() == self.width,
            image.rows() == self.height,
            image.pixels().len() == image.columns() * image.rows(),
        ensures
            r.columns() == image.columns(),
            r.rows() == image.rows(),
            self.indexes(image.pixels(), r.pixels()),
    {
        let ghost before = colors_of(image.pixels());
        let _ = image.width();
        let diffused: ImageBuffer<Rgb> = floyd_steinberg(image, &self.color_map);
        let _ = diffused.width();
        let ghost after = colors_of(diffused.pixels());
        let ghost choices = choose|choices: Seq<int>| #[trigger]
            diffuses(
                before,
                image.columns(),
                image.rows(),
                self.color_map.palette(),
                choices,
                after,
            );
        proof {
            assert(before.len() == image.pixels().len());
            assert(after.len() == diffused.pixels().len());
            assert forall|i: int| 0 <= i < before.len() implies self.color_map.palette().has_color(
                #[trigger] diffused.pixels()[i].0@,
            ) by {
                assert(after[i] == diffused.pixels()[i].0@);
                law_diffused_in_palette(
                    before,
                    image.columns(),
                    image.rows(),
                    self.color_map.palette(),
                    choices,
                    after,
                    i,
                );
            }
        }
        match index_colors(&diffused, &self.color_map) {
            Some(indexed) => {
                proof {
                    assert forall|i: int| 0 <= i < before.len() implies self.color_map.palette().maps_back(
                        after[i],
                        (#[trigger] indexed.pixels()[i]).0@[0] as int,
                    ) by {
                        assert(after[i] == diffused.pixels()[i].0@);
                    }
                }
                indexed
            },
            None => {
                proof {
                    assert(false);
                }
                vstd::pervasive::unreached()
            },
        }
    }
}

impl<T: DistanceMethod> FFToAnsi for AnsiVideoEncoder<T> {
    open spec fn answers(
        &self,
        input: FFPacket,
        before: PacketView,
        data_before: Seq<u8>,
        failure: Option<ErrorKind>,
        after: PacketView,
        data_after: Seq<u8>,
    ) -> bool {
        if self.accepts(input.binary_data@.len() as int) {
            &&& failure is None
            &&& exists|pixels: Seq<Rgb>, payload: Seq<u8>|
                {
                    &&& colors_of(pixels) == rgb_pixels(
                        input.binary_data@,
                        self.width * self.height,
                    )
                    &&& #[trigger] self.renders(pixels, payload)
                    &&& data_after == data_before + payload
                }
            &&& after == (PacketView {
                data_len: data_after.len() as u64,
                data_type: PacketDataType::Video,
                ..before
            })
        } else {
            failure == Some(ErrorKind::ParameterOutOfRange) && after == before && data_after
                == data_before
        }
    }

    /// Appends the terminal output for the frame of `input` to `data`, and
    /// sets the header's payload type and length. Fails with
    /// `ParameterOutOfRange`, changing nothing, where the encoder cannot take
    /// the frame.
    fn process(&mut self, input: &FFPacket, packet: &mut Packet, data: &mut Vec<u8>) -> (r: Result<
        (),
        ErrorKind,
    >)
        ensures
            *final(self) == *old(self),
            match r {
                Ok(_) => {
                    &&& old(self).accepts(input.binary_data@.len() as int)
                    &&& exists|pixels: Seq<Rgb>, payload: Seq<u8>|
                        {
                            &&& colors_of(pixels) == rgb_pixels(
                                input.binary_data@,
                                old(self).width * old(self).height,
                            )
                            &&& #[trigger] old(self).renders(pixels, payload)
                            &&& final(data)@ == old(data)@ + payload
                        }
                    &&& final(packet)@ == (PacketView {
                        data_len: final(data)@.len() as u64,
                        data_type: PacketDataType::Video,
                        ..old(packet)@
                    })
                },
                Err(e) => {
                    &&& e == ErrorKind::ParameterOutOfRange
                    &&& !old(self).accepts(input.binary_data@.len() as int)
                    &&& final(data)@ == old(data)@
                    &&& final(packet)@ == old(packet)@
                },
            },
    {
        if self.width < 0 || self.width > u32::MAX as i64 || self.height < 0 || self.height
            > u32::MAX as i64 {
            return Err(ErrorKind::ParameterOutOfRange);
        }
        let width: u32 = self.width as u32;
        let height: u32 = self.height as u32;
        assert((width as u64) * (height as u64) <= 0xffff_ffff * 0xffff_ffff) by (nonlinear_arith)
            requires
                width <= 0xffff_ffff,
                height <= 0xffff_ffff,
        ;
        let count: u64 = (width as u64) * (height as u64);
        if count > (input.binary_data.len() / 3) as u64 {
            return Err(ErrorKind::ParameterOutOfRange);
        }
        let pixels: Vec<Rgb> = pixels_from_bytes(input.binary_data.as_slice(), count as usize);
        let ghost shown = pixels@;
        let image: ImageBuffer<Rgb> = match ImageBuffer::from_vec(width, height, pixels) {
            Some(image) => image,
            None => {
                proof {
                    assert(false);
                }
                vstd::pervasive::unreached()
            },
        };
        let ghost before = data@;
        let _ = image.width();
        match self.color_mode {
            ColorMode::Full => {
                let ghost payload = image.ansi();
                let _ = image.to_ansi(data);
                proof {
                    assert(self.renders(shown, payload));
                }
            },
            ColorMode::EightBit => {
                let indexed: ImageBuffer<Luma> = match self.dither_mode {
                    DitherMethod::FloydSteinberg => self.floyd_steinberg(image),
                    DitherMethod::Pattern => image.pattern_dither(
                        self.matrix_size,
                        &self.gain,
                        &self.color_map,
                    ),
                };
                let _ = indexed.width();
                let ghost payload = indexed.ansi();
                let _ = indexed.to_ansi(data);
                proof {
                    assert(self.indexes(shown, indexed.pixels()));
                    assert(self.renders(shown, payload));
                }
            },
        }
        packet.data_len = data.len() as u64;
        packet.data_type = PacketDataType::Video;
        Ok(())
    }
}

} // verus!
