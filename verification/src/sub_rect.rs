//! Subtitle rectangles: a line of text at a terminal cell, with its colours.

use vstd::bytes::*;
use vstd::prelude::*;
use vstd::slice::slice_to_vec;
use vstd::string::StringExecFns;
use vstd::utf8::{
    decode_utf8, decode_utf8_encode_utf8, encode_utf8, encode_utf8_decode_utf8,
    encode_utf8_valid_utf8, valid_utf8,
};

use crate::bytes::{i16_bits, i16_of_bits, put_i16_le, put_u16_le, put_u32_le, ByteReader};
use crate::error::ErrorKind;
use crate::packet::{EncodableData, PacketDataType, TypedData};
use crate::text::{decimal, push_decimal, string_from_utf8};

verus! {

/// One line of a subtitle: the cell of its first character, counted from 1,
/// the palette indices of its colours, and the text.
pub struct SubRect {
    pub x: i16,
    pub y: i16,
    pub fg: u8,
    pub bg: u8,
    pub text: String,
}

/// What a subtitle rectangle holds.
pub ghost struct SubRectView {
    pub x: i16,
    pub y: i16,
    pub fg: u8,
    pub bg: u8,
    pub text: Seq<char>,
}

impl View for SubRect {
    type V = SubRectView;

    open spec fn view(&self) -> SubRectView {
        SubRectView { x: self.x, y: self.y, fg: self.fg, bg: self.bg, text: self.text@ }
    }
}

/// Whether a rectangle can be written: its text has fewer than 2^32 bytes.
pub open spec fn sub_rect_encodable(r: SubRectView) -> bool {
    encode_utf8(r.text).len() <= u32::MAX
}

/// The bytes of a rectangle: x, y, foreground, background, the length of the
/// text in bytes, the text in UTF-8.
pub open spec fn sub_rect_bytes(r: SubRectView) -> Seq<u8> {
    spec_u16_to_le_bytes(i16_bits(r.x)) + spec_u16_to_le_bytes(i16_bits(r.y)) + seq![r.fg, r.bg]
        + spec_u32_to_le_bytes(encode_utf8(r.text).len() as u32) + encode_utf8(r.text)
}

/// What the front of `s` reads as: a rectangle and its length, or why there is
/// none. The end of the input is met before text that is not UTF-8.
pub open spec fn sub_rect_parse(s: Seq<u8>) -> Result<(SubRectView, nat), ErrorKind> {
    if s.len() < 10 {
        Err(ErrorKind::UnexpectedEof)
    } else {
        let n = spec_u32_from_le_bytes(s.subrange(6, 10)) as int;
        if s.len() < 10 + n {
            Err(ErrorKind::UnexpectedEof)
        } else if !valid_utf8(s.subrange(10, 10 + n)) {
            Err(ErrorKind::InvalidData)
        } else {
            Ok(
                (
                    SubRectView {
                        x: i16_of_bits(spec_u16_from_le_bytes(s.subrange(0, 2))),
                        y: i16_of_bits(spec_u16_from_le_bytes(s.subrange(2, 4))),
                        fg: s[4],
                        bg: s[5],
                        text: decode_utf8(s.subrange(10, 10 + n)),
                    },
                    (10 + n) as nat,
                ),
            )
        }
    }
}

/// The text that places a rectangle on the terminal: the cursor to row `y` and
/// column `x`, the two colours, then the text.
pub open spec fn sub_rect_text(r: SubRectView) -> Seq<char> {
    seq!['\x1b', '['] + decimal(r.y as int) + seq![';'] + decimal(r.x as int) + seq![
        'H',
        '\x1b',
        '[',
        '3',
        '8',
        ';',
        '5',
        ';',
    ] + decimal(r.fg as int) + seq!['m', '\x1b', '[', '4', '8', ';', '5', ';'] + decimal(
        r.bg as int,
    ) + seq!['m'] + r.text
}

impl SubRect {
    /// The escape sequences and text that show the rectangle.
    pub fn to_string(&self) -> (s: String)
        ensures
            s@ == sub_rect_text(self@),
    {
        proof {
            reveal_strlit("\x1b[");
            reveal_strlit(";");
            reveal_strlit("H\x1b[38;5;");
            reveal_strlit("m\x1b[48;5;");
            reveal_strlit("m");
            assert("\x1b["@ =~= seq!['\x1b', '[']);
            assert(";"@ =~= seq![';']);
            assert("H\x1b[38;5;"@ =~= seq!['H', '\x1b', '[', '3', '8', ';', '5', ';']);
            assert("m\x1b[48;5;"@ =~= seq!['m', '\x1b', '[', '4', '8', ';', '5', ';']);
            assert("m"@ =~= seq!['m']);
        }
        let mut s: String = String::from_str("\x1b[");
        push_decimal(&mut s, self.y as i64);
        s.append(";");
        push_decimal(&mut s, self.x as i64);
        s.append("H\x1b[38;5;");
        push_decimal(&mut s, self.fg as i64);
        s.append("m\x1b[48;5;");
        push_decimal(&mut s, self.bg as i64);
        s.append("m");
        s.append(self.text.as_str());
        proof {
            assert(s@ =~= sub_rect_text(self@));
        }
        s
    }
}

impl EncodableData for SubRect {
    open spec fn encodable(&self) -> bool {
        sub_rect_encodable(self@)
    }

    open spec fn encoding(&self) -> Seq<u8> {
        sub_rect_bytes(self@)
    }

    /// The exact number of bytes of the encoding, where it can be counted.
    fn estimated_size(&self) -> (r: Option<usize>)
        ensures
            r matches Some(n) ==> n == 10 + encode_utf8(self.text@).len(),
            r is None <==> 10 + encode_utf8(self.text@).len() > usize::MAX,
    {
        self.text.as_str().as_bytes().len().checked_add(10)
    }

    fn encode_into(&self, out: &mut Vec<u8>) -> (n: u64) {
        proof {
            lemma_auto_spec_u16_to_from_le_bytes();
            lemma_auto_spec_u32_to_from_le_bytes();
        }
        let text: &[u8] = self.text.as_str().as_bytes();
        put_i16_le(out, self.x);
        put_i16_le(out, self.y);
        out.push(self.fg);
        out.push(self.bg);
        put_u32_le(out, text.len() as u32);
        out.extend_from_slice(text);
        proof {
            assert(out@ =~= old(out)@ + sub_rect_bytes(self@));
        }
        10 + text.len() as u64
    }

    fn decode_from(input: &mut ByteReader) -> (r: Result<Self, ErrorKind>)
        ensures
            match sub_rect_parse(old(input).remaining()) {
                Ok((rect, n)) => {
                    &&& r matches Ok(sub_rect)
                    &&& sub_rect@ == rect
                    &&& old(input).advanced(final(input), n as int)
                },
                Err(e) => r matches Err(f) && f == e,
            },
    {
        let ghost s = input.remaining();
        let ghost at0 = *input;
        let x: i16 = input.read_i16()?;
        let ghost at2 = *input;
        let y: i16 = input.read_i16()?;
        let ghost at4 = *input;
        proof {
            at0.lemma_advanced_twice(&at2, &at4, 2, 2);
            assert(s.skip(2).subrange(0, 2) =~= s.subrange(2, 4));
        }
        let fg: u8 = input.read_u8()?;
        let ghost at5 = *input;
        proof {
            at0.lemma_advanced_twice(&at4, &at5, 4, 1);
        }
        let bg: u8 = input.read_u8()?;
        let ghost at6 = *input;
        proof {
            at0.lemma_advanced_twice(&at5, &at6, 5, 1);
        }
        let text_len: u32 = input.read_u32()?;
        let ghost at10 = *input;
        proof {
            at0.lemma_advanced_twice(&at6, &at10, 6, 4);
            assert(s.skip(6).subrange(0, 4) =~= s.subrange(6, 10));
        }
        let body: &[u8] = input.take(text_len as usize)?;
        proof {
            at0.lemma_advanced_twice(&at10, &*input, 10, text_len as int);
            assert(body@ =~= s.subrange(10, 10 + text_len));
        }
        match string_from_utf8(slice_to_vec(body)) {
            Some(text) => Ok(SubRect { x, y, fg, bg, text }),
            None => Err(ErrorKind::InvalidData),
        }
    }
}

/// Reading back a written rectangle gives the rectangle, and takes exactly the
/// bytes that were written, whatever follows them.
pub proof fn lemma_sub_rect_roundtrip(r: SubRectView, rest: Seq<u8>)
    requires
        sub_rect_encodable(r),
    ensures
        sub_rect_parse(sub_rect_bytes(r) + rest) == Ok::<(SubRectView, nat), ErrorKind>(
            (r, sub_rect_bytes(r).len()),
        ),
{
    lemma_auto_spec_u16_to_from_le_bytes();
    lemma_auto_spec_u32_to_from_le_bytes();
    crate::bytes::lemma_i16_bits_roundtrip(r.x, 0);
    crate::bytes::lemma_i16_bits_roundtrip(r.y, 0);
    encode_utf8_valid_utf8(r.text);
    encode_utf8_decode_utf8(r.text);
    let s = sub_rect_bytes(r) + rest;
    let text = encode_utf8(r.text);
    let n = text.len() as int;
    assert(s.subrange(0, 2) =~= spec_u16_to_le_bytes(i16_bits(r.x)));
    assert(s.subrange(2, 4) =~= spec_u16_to_le_bytes(i16_bits(r.y)));
    assert(s.subrange(6, 10) =~= spec_u32_to_le_bytes(n as u32));
    assert(s.subrange(10, 10 + n) =~= text);
    assert(s[4] == r.fg);
    assert(s[5] == r.bg);
}

/// The rectangles of one subtitle packet.
pub struct SubRectVec {
    pub inner: Vec<SubRect>,
}

/// The rectangles that a vector holds.
pub open spec fn sub_rect_views(rects: Seq<SubRect>) -> Seq<SubRectView> {
    Seq::new(rects.len(), |i: int| rects[i]@)
}

impl View for SubRectVec {
    type V = Seq<SubRectView>;

    open spec fn view(&self) -> Seq<SubRectView> {
        sub_rect_views(self.inner@)
    }
}

/// The bytes of the rectangles, one after the other.
pub open spec fn sub_rects_bytes(rects: Seq<SubRectView>) -> Seq<u8>
    decreases rects.len(),
{
    if rects.len() == 0 {
        Seq::empty()
    } else {
        sub_rects_bytes(rects.drop_last()) + sub_rect_bytes(rects.last())
    }
}

/// The bytes of a subtitle payload: the number of rectangles, then the
/// rectangles.
pub open spec fn sub_rect_vec_bytes(rects: Seq<SubRectView>) -> Seq<u8> {
    spec_u16_to_le_bytes(rects.len() as u16) + sub_rects_bytes(rects)
}

/// Whether the rectangles can be written: there are fewer than 2^16, each of
/// which can be written.
pub open spec fn sub_rect_vec_encodable(rects: Seq<SubRectView>) -> bool {
    &&& rects.len() <= u16::MAX
    &&& forall|i: int| 0 <= i < rects.len() ==> sub_rect_encodable(#[trigger] rects[i])
}

/// What the front of `s` reads as `count` rectangles, and their length
/// together.
pub open spec fn sub_rects_parse(s: Seq<u8>, count: nat) -> Result<
    (Seq<SubRectView>, nat),
    ErrorKind,
>
    decreases count,
{
    if count == 0 {
        Ok((Seq::empty(), 0))
    } else {
        match sub_rects_parse(s, (count - 1) as nat) {
            Err(e) => Err(e),
            Ok((rects, n)) => match sub_rect_parse(s.skip(n as int)) {
                Err(e) => Err(e),
                Ok((rect, m)) => Ok((rects.push(rect), n + m)),
            },
        }
    }
}

/// What the front of `s` reads as a subtitle payload.
pub open spec fn sub_rect_vec_parse(s: Seq<u8>) -> Result<(Seq<SubRectView>, nat), ErrorKind> {
    if s.len() < 2 {
        Err(ErrorKind::UnexpectedEof)
    } else {
        match sub_rects_parse(s.skip(2), spec_u16_from_le_bytes(s.subrange(0, 2)) as nat) {
            Err(e) => Err(e),
            Ok((rects, n)) => Ok((rects, n + 2)),
        }
    }
}

impl SubRectVec {
    /// The rectangles.
    pub fn into_inner(self) -> (v: Vec<SubRect>)
        ensures
            v == self.inner,
    {
        self.inner
    }

    /// The payload that holds `value`.
    pub fn from(value: Vec<SubRect>) -> (v: SubRectVec)
        ensures
            v.inner == value,
    {
        SubRectVec { inner: value }
    }
}

/// Whether the rectangles can be written as one payload.
pub fn sub_rects_encodable(rects: &[SubRect]) -> (ok: bool)
    ensures
        ok == sub_rect_vec_encodable(sub_rect_views(rects@)),
{
    if rects.len() > 0xffff {
        return false;
    }
    let mut i: usize = 0;
    while i < rects.len()
        invariant
            i <= rects@.len(),
            rects@.len() <= u16::MAX,
            forall|j: int| 0 <= j < i ==> sub_rect_encodable(#[trigger] sub_rect_views(rects@)[j]),
        decreases rects@.len() - i,
    {
        if rects[i].text.as_str().as_bytes().len() > 0xffff_ffff {
            assert(!sub_rect_encodable(sub_rect_views(rects@)[i as int]));
            return false;
        }
        i = i + 1;
    }
    true
}

/// Appends the payload that holds `rects` to `out` and returns its length.
pub fn encode_sub_rects(rects: &[SubRect], out: &mut Vec<u8>) -> (n: u64)
    requires
        sub_rect_vec_encodable(sub_rect_views(rects@)),
    ensures
        final(out)@ == old(out)@ + sub_rect_vec_bytes(sub_rect_views(rects@)),
        n == sub_rect_vec_bytes(sub_rect_views(rects@)).len(),
{
    proof {
        lemma_auto_spec_u16_to_from_le_bytes();
    }
    let ghost views = sub_rect_views(rects@);
    let count: usize = rects.len();
    put_u16_le(out, count as u16);
    let mut total: u64 = 2;
    let mut i: usize = 0;
    while i < count
        invariant
            i <= count,
            count == rects@.len(),
            views == sub_rect_views(rects@),
            sub_rect_vec_encodable(views),
            total == 2 + sub_rects_bytes(views.take(i as int)).len(),
            total <= 2 + i * 0x1_0000_000a,
            out@ == old(out)@ + spec_u16_to_le_bytes(count as u16) + sub_rects_bytes(
                views.take(i as int),
            ),
        decreases count - i,
    {
        proof {
            lemma_auto_spec_u16_to_from_le_bytes();
            lemma_auto_spec_u32_to_from_le_bytes();
            let next = views.take(i + 1);
            assert(next.drop_last() =~= views.take(i as int));
            assert(next.last() == rects@[i as int]@);
            assert(sub_rect_encodable(views[i as int]));
        }
        let part: u64 = rects[i].encode_into(out);
        proof {
            assert(out@ =~= old(out)@ + spec_u16_to_le_bytes(count as u16) + sub_rects_bytes(
                views.take(i + 1),
            ));
        }
        total = total + part;
        i = i + 1;
    }
    proof {
        assert(views.take(i as int) =~= views);
    }
    total
}

impl EncodableData for SubRectVec {
    open spec fn encodable(&self) -> bool {
        sub_rect_vec_encodable(self@)
    }

    open spec fn encoding(&self) -> Seq<u8> {
        sub_rect_vec_bytes(self@)
    }

    /// The exact number of bytes of the encoding, where it can be counted.
    fn estimated_size(&self) -> (r: Option<usize>)
        ensures
            r == if sub_rect_vec_bytes(self@).len() <= usize::MAX {
                Some(sub_rect_vec_bytes(self@).len() as usize)
            } else {
                None
            },
    {
        proof {
            lemma_auto_spec_u16_to_from_le_bytes();
            lemma_sub_rects_bytes_grows(self@, 0);
        }
        let mut total: usize = 2;
        let mut i: usize = 0;
        while i < self.inner.len()
            invariant
                i <= self.inner@.len(),
                self@.len() == self.inner@.len(),
                total == 2 + sub_rects_bytes(self@.take(i as int)).len(),
            decreases self.inner@.len() - i,
        {
            proof {
                lemma_auto_spec_u16_to_from_le_bytes();
                lemma_auto_spec_u32_to_from_le_bytes();
                let next = self@.take(i + 1);
                assert(next.drop_last() =~= self@.take(i as int));
                assert(next.last() == self.inner@[i as int]@);
                lemma_sub_rects_bytes_grows(self@, i + 1);
            }
            let part: usize = match self.inner[i].estimated_size() {
                Some(n) => n,
                None => {
                    return None;
                },
            };
            total = match total.checked_add(part) {
                Some(n) => n,
                None => {
                    return None;
                },
            };
            i = i + 1;
        }
        proof {
            assert(self@.take(i as int) =~= self@);
        }
        Some(total)
    }

    fn encode_into(&self, out: &mut Vec<u8>) -> (n: u64) {
        encode_sub_rects(self.inner.as_slice(), out)
    }

    fn decode_from(input: &mut ByteReader) -> (r: Result<Self, ErrorKind>)
        ensures
            match sub_rect_vec_parse(old(input).remaining()) {
                Ok((rects, n)) => {
                    &&& r matches Ok(v)
                    &&& v@ == rects
                    &&& old(input).advanced(final(input), n as int)
                },
                Err(e) => r matches Err(f) && f == e,
            },
    {
        let ghost start = input.remaining();
        let count: u16 = input.read_u16()?;
        let ghost body = start.skip(2);
        let mut rects: Vec<SubRect> = Vec::new();
        let mut i: u16 = 0;
        let ghost mut taken: int = 0;
        proof {
            assert(sub_rect_views(rects@) =~= Seq::<SubRectView>::empty());
        }
        while i < count
            invariant
                i <= count,
                old(input).advanced(&*input, 2 + taken),
                old(input).remaining().len() >= 2,
                count == spec_u16_from_le_bytes(old(input).remaining().subrange(0, 2)),
                body == old(input).remaining().skip(2),
                sub_rects_parse(body, i as nat) == Ok::<(Seq<SubRectView>, nat), ErrorKind>(
                    (sub_rect_views(rects@), taken as nat),
                ),
                taken >= 0,
            decreases count - i,
        {
            proof {
                assert(input.remaining() =~= body.skip(taken));
            }
            let ghost at_rect = *input;
            let rect: SubRect = match SubRect::decode_from(input) {
                Ok(r) => r,
                Err(e) => {
                    proof {
                        lemma_sub_rects_parse_fails(body, (i + 1) as nat, count as nat);
                    }
                    return Err(e);
                },
            };
            proof {
                let n = sub_rect_parse(body.skip(taken)).unwrap().1 as int;
                old(input).lemma_advanced_twice(&at_rect, &*input, 2 + taken, n);
                assert(sub_rect_views(rects@.push(rect)) =~= sub_rect_views(rects@).push(rect@));
                taken = taken + n;
            }
            rects.push(rect);
            i = i + 1;
        }
        Ok(SubRectVec { inner: rects })
    }
}

impl TypedData for SubRectVec {
    const KIND: PacketDataType = PacketDataType::Subtitle;
}

/// The bytes of more rectangles are no fewer.
proof fn lemma_sub_rects_bytes_grows(rects: Seq<SubRectView>, i: int)
    requires
        0 <= i <= rects.len(),
    ensures
        sub_rects_bytes(rects.take(i)).len() <= sub_rects_bytes(rects).len(),
    decreases rects.len() - i,
{
    if i < rects.len() {
        let next = rects.take(i + 1);
        assert(next.drop_last() =~= rects.take(i));
        lemma_sub_rects_bytes_grows(rects, i + 1);
    } else {
        assert(rects.take(i) =~= rects);
    }
}

/// Reading back written rectangles gives the rectangles, over exactly their
/// bytes.
pub proof fn lemma_sub_rects_roundtrip(rects: Seq<SubRectView>, rest: Seq<u8>)
    requires
        forall|i: int| 0 <= i < rects.len() ==> sub_rect_encodable(#[trigger] rects[i]),
    ensures
        sub_rects_parse(sub_rects_bytes(rects) + rest, rects.len()) == Ok::<
            (Seq<SubRectView>, nat),
            ErrorKind,
        >((rects, sub_rects_bytes(rects).len())),
    decreases rects.len(),
{
    if rects.len() == 0 {
        assert(rects =~= Seq::<SubRectView>::empty());
    } else {
        let front = rects.drop_last();
        let last = rects.last();
        let tail = sub_rect_bytes(last) + rest;
        let s = sub_rects_bytes(rects) + rest;
        assert(s =~= sub_rects_bytes(front) + tail);
        assert forall|i: int| 0 <= i < front.len() implies sub_rect_encodable(
            #[trigger] front[i],
        ) by {
            assert(front[i] == rects[i]);
        }
        lemma_sub_rects_roundtrip(front, tail);
        assert(s.skip(sub_rects_bytes(front).len() as int) =~= tail);
        lemma_sub_rect_roundtrip(last, rest);
        assert(front.push(last) =~= rects);
    }
}

/// Reading back a written subtitle payload gives its rectangles, and takes
/// exactly the bytes that were written, whatever follows them.
pub proof fn law_sub_rect_vec_roundtrip(rects: Seq<SubRectView>, rest: Seq<u8>)
    requires
        sub_rect_vec_encodable(rects),
    ensures
        sub_rect_vec_parse(sub_rect_vec_bytes(rects) + rest) == Ok::<
            (Seq<SubRectView>, nat),
            ErrorKind,
        >((rects, sub_rect_vec_bytes(rects).len())),
{
    lemma_auto_spec_u16_to_from_le_bytes();
    let s = sub_rect_vec_bytes(rects) + rest;
    assert(s.subrange(0, 2) =~= spec_u16_to_le_bytes(rects.len() as u16));
    assert(s.skip(2) =~= sub_rects_bytes(rects) + rest);
    lemma_sub_rects_roundtrip(rects, rest);
}

/// Once reading rectangles fails, reading more of them fails in the same way.
pub proof fn lemma_sub_rects_parse_fails(s: Seq<u8>, count: nat, more: nat)
    requires
        count <= more,
        sub_rects_parse(s, count) is Err,
    ensures
        sub_rects_parse(s, more) == sub_rects_parse(s, count),
    decreases more - count,
{
    if count < more {
        lemma_sub_rects_parse_fails(s, count, (more - 1) as nat);
    }
}

} // verus!
