//! What the header of a file says about its streams.

use vstd::prelude::*;

use crate::text::same_text;

verus! {

/// How many colours a video stream uses.
#[derive(Clone, Copy, Debug, PartialEq, Eq, Hash, Structural)]
pub enum ColorMode {
    /// 24-bit colour.
    Full,
    /// The 256 colours of the palette.
    EightBit,
}

impl ColorMode {
    /// The colour mode that a word names.
    pub open spec fn named(s: Seq<char>) -> Option<ColorMode> {
        if s == "full"@ || s == "rgb"@ || s == "true"@ || s == "24bit"@ {
            Some(ColorMode::Full)
        } else if s == "eightbit"@ || s == "8bit"@ || s == "eight"@ || s == "256"@ || s
            == "256color"@ {
            Some(ColorMode::EightBit)
        } else {
            None
        }
    }

    /// The word for the colour mode.
    pub open spec fn name(&self) -> Seq<char> {
        match self {
            ColorMode::Full => "full"@,
            ColorMode::EightBit => "8bit"@,
        }
    }

    /// The colour mode that `s` names.
    pub fn from_str(s: &str) -> (r: Result<ColorMode, &'static str>)
        ensures
            match Self::named(s@) {
                Some(mode) => r == Ok::<ColorMode, &'static str>(mode),
                None => r is Err,
            },
    {
        if same_text(s, "full") || same_text(s, "rgb") || same_text(s, "true") || same_text(
            s,
            "24bit",
        ) {
            Ok(ColorMode::Full)
        } else if same_text(s, "eightbit") || same_text(s, "8bit") || same_text(s, "eight")
            || same_text(s, "256") || same_text(s, "256color") {
            Ok(ColorMode::EightBit)
        } else {
            Err("Invalid color mode!")
        }
    }

    /// The word for the colour mode: `full` or `8bit`.
    pub fn to_string(&self) -> (s: &'static str)
        ensures
            s@ == self.name(),
    {
        match self {
            ColorMode::Full => "full",
            ColorMode::EightBit => "8bit",
        }
    }

    /// The number that stands for the colour mode in a header.
    pub fn code(&self) -> (c: u8)
        ensures
            c == match self {
                ColorMode::Full => 0u8,
                ColorMode::EightBit => 1u8,
            },
    {
        match self {
            ColorMode::Full => 0,
            ColorMode::EightBit => 1,
        }
    }
}

/// How the payloads of a stream are compressed.
#[derive(Clone, Copy, Debug, PartialEq, Eq, Hash, Structural)]
pub enum CompressionMode {
    /// No compression.
    Uncompressed,
    Zstd,
    Lz4,
}

impl CompressionMode {
    /// The compression mode that a word names.
    pub open spec fn named(s: Seq<char>) -> Option<CompressionMode> {
        if s == "none"@ || s == "null"@ {
            Some(CompressionMode::Uncompressed)
        } else if s == "zst"@ || s == "zstd"@ {
            Some(CompressionMode::Zstd)
        } else if s == "lz4"@ {
            Some(CompressionMode::Lz4)
        } else {
            None
        }
    }

    /// The word for the compression mode.
    pub open spec fn name(&self) -> Seq<char> {
        match self {
            CompressionMode::Uncompressed => "none"@,
            CompressionMode::Zstd => "zstd"@,
            CompressionMode::Lz4 => "lz4"@,
        }
    }

    /// The number that stands for the compression mode, in a header and in
    /// side data.
    pub open spec fn byte(&self) -> u8 {
        match self {
            CompressionMode::Uncompressed => 0,
            CompressionMode::Zstd => 1,
            CompressionMode::Lz4 => 2,
        }
    }

    /// The compression mode that `s` names.
    pub fn from_str(s: &str) -> (r: Result<CompressionMode, &'static str>)
        ensures
            match Self::named(s@) {
                Some(mode) => r == Ok::<CompressionMode, &'static str>(mode),
                None => r is Err,
            },
    {
        if same_text(s, "none") || same_text(s, "null") {
            Ok(CompressionMode::Uncompressed)
        } else if same_text(s, "zst") || same_text(s, "zstd") {
            Ok(CompressionMode::Zstd)
        } else if same_text(s, "lz4") {
            Ok(CompressionMode::Lz4)
        } else {
            Err("Invalid compression mode!")
        }
    }

    /// The word for the compression mode: `none`, `zstd` or `lz4`.
    pub fn to_string(&self) -> (s: &'static str)
        ensures
            s@ == self.name(),
    {
        match self {
            CompressionMode::Uncompressed => "none",
            CompressionMode::Zstd => "zstd",
            CompressionMode::Lz4 => "lz4",
        }
    }

    /// The number that stands for the compression mode.
    pub fn to_byte(&self) -> (b: u8)
        ensures
            b == self.byte(),
    {
        match self {
            CompressionMode::Uncompressed => 0,
            CompressionMode::Zstd => 1,
            CompressionMode::Lz4 => 2,
        }
    }
}

/// The parameters of a video stream: its size in pixels and its colours.
#[derive(Clone, Copy, Debug, PartialEq, Eq, Hash, Structural)]
pub struct VideoParameters {
    pub width: u16,
    pub height: u16,
    pub color: ColorMode,
}

impl VideoParameters {
    pub fn new(width: u16, height: u16, color: ColorMode) -> (p: VideoParameters)
        ensures
            p == (VideoParameters { width, height, color }),
    {
        VideoParameters { width, height, color }
    }
}

/// The parameters of a subtitle stream: its language and the size, in cells,
/// of the area that its rectangles are placed in.
pub struct SubtitleParameters {
    pub lang: String,
    pub play_width: u16,
    pub play_height: u16,
}

impl SubtitleParameters {
    pub fn new(lang: String, play_width: u16, play_height: u16) -> (p: SubtitleParameters)
        ensures
            p.lang == lang,
            p.play_width == play_width,
            p.play_height == play_height,
    {
        SubtitleParameters { lang, play_width, play_height }
    }
}

/// The parameters of a stream, by its kind.
pub enum CodecParameters {
    Subtitle(SubtitleParameters),
    Video(VideoParameters),
}

impl CodecParameters {
    pub fn is_video(&self) -> (b: bool)
        ensures
            b == (self is Video),
    {
        match self {
            CodecParameters::Video(_) => true,
            _ => false,
        }
    }

    pub fn is_subtitle(&self) -> (b: bool)
        ensures
            b == (self is Subtitle),
    {
        match self {
            CodecParameters::Subtitle(_) => true,
            _ => false,
        }
    }

    pub fn as_video(&self) -> (r: Option<&VideoParameters>)
        ensures
            match self {
                CodecParameters::Video(v) => r == Some(v),
                CodecParameters::Subtitle(_) => r is None,
            },
    {
        match self {
            CodecParameters::Video(video_parameters) => Some(video_parameters),
            _ => None,
        }
    }
}

/// One stream of a file.
pub struct Stream {
    pub name: String,
    pub index: u8,
    /// In microseconds.
    pub duration: u64,
    pub extradata: Vec<u8>,
    pub compression_mode: CompressionMode,
    pub compression_dict: Option<Vec<u8>>,
    pub parameters: CodecParameters,
}

impl Stream {
    pub fn new(
        name: String,
        index: u8,
        duration: u64,
        extradata: Vec<u8>,
        compression_dict: Option<Vec<u8>>,
        compression_mode: CompressionMode,
        parameters: CodecParameters,
    ) -> (s: Stream)
        ensures
            s.name == name,
            s.index == index,
            s.duration == duration,
            s.extradata == extradata,
            s.compression_mode == compression_mode,
            s.compression_dict == compression_dict,
            s.parameters == parameters,
    {
        Stream {
            name,
            index,
            duration,
            extradata,
            compression_mode,
            compression_dict,
            parameters,
        }
    }
}

/// The header of a file: the format, the encoder that wrote it, its streams.
pub struct FormatData {
    pub format_name: String,
    pub encoder: String,
    pub tracks: Vec<Stream>,
}

impl FormatData {
    pub fn new(format_name: String, encoder: String, tracks: Vec<Stream>) -> (f: FormatData)
        ensures
            f.format_name == format_name,
            f.encoder == encoder,
            f.tracks == tracks,
    {
        FormatData { format_name, encoder, tracks }
    }

    /// The index in `tracks` of the first video stream.
    pub fn video_track(&self) -> (r: Option<usize>)
        ensures
            match r {
                Some(i) => i < self.tracks@.len() && self.tracks@[i as int].parameters is Video
                    && forall|j: int| 0 <= j < i ==> !(self.tracks@[j].parameters is Video),
                None => forall|j: int|
                    0 <= j < self.tracks@.len() ==> !(self.tracks@[j].parameters is Video),
            },
    {
        let mut i: usize = 0;
        while i < self.tracks.len()
            invariant
                i <= self.tracks@.len(),
                forall|j: int| 0 <= j < i ==> !(self.tracks@[j].parameters is Video),
            decreases self.tracks@.len() - i,
        {
            if self.tracks[i].parameters.is_video() {
                return Some(i);
            }
            i = i + 1;
        }
        None
    }

    /// The stream index of the first subtitle stream.
    pub fn first_subtitle_stream(&self) -> (r: Option<u8>)
        ensures
            match r {
                Some(index) => exists|i: int|
                    0 <= i < self.tracks@.len() && self.tracks@[i].parameters is Subtitle
                        && self.tracks@[i].index == index && forall|j: int|
                        0 <= j < i ==> !(self.tracks@[j].parameters is Subtitle),
                None => forall|j: int|
                    0 <= j < self.tracks@.len() ==> !(self.tracks@[j].parameters is Subtitle),
            },
    {
        let mut i: usize = 0;
        while i < self.tracks.len()
            invariant
                i <= self.tracks@.len(),
                forall|j: int| 0 <= j < i ==> !(self.tracks@[j].parameters is Subtitle),
            decreases self.tracks@.len() - i,
        {
            if self.tracks[i].parameters.is_subtitle() {
                return Some(self.tracks[i].index);
            }
            i = i + 1;
        }
        None
    }
}

} // verus!
