//! Side data: a packet's tagged values, kept in the order in which their tags
//! were first set.

use vstd::array::array_as_slice;
use vstd::prelude::*;
use vstd::slice::slice_to_vec;
use vstd::string::StringExecFns;
use vstd::utf8::{
    decode_utf8, encode_utf8, encode_utf8_decode_utf8, encode_utf8_valid_utf8, is_ascii_chars,
    is_ascii_chars_encode_utf8, valid_utf8,
};

use crate::bytes::ByteReader;
use crate::error::ErrorKind;
use crate::packet::EncodableData;
use crate::text::{list_text, push_list, string_from_utf8};

verus! {

/// One more than the greatest number of entries, and of bytes in a value.
pub const SIDE_DATA_LIMIT: usize = 256;

/// A name of four bytes for a side-data value.
#[derive(Clone, Copy, Debug)]
pub struct Tag {
    inner: [u8; 4],
}

/// A printable ASCII character other than the space.
pub open spec fn is_graphic(b: u8) -> bool {
    0x21 <= b <= 0x7e
}

impl Tag {
    /// The four bytes of the tag.
    pub closed spec fn bytes(&self) -> Seq<u8> {
        self.inner@
    }

    /// A tag is four bytes long.
    pub proof fn lemma_len(&self)
        ensures
            self.bytes().len() == 4,
    {
    }

    /// The tag with the given printable bytes.
    pub fn new_checked(tag: [u8; 4]) -> (t: Tag)
        requires
            forall|i: int| 0 <= i < 4 ==> is_graphic(#[trigger] tag[i]),
        ensures
            t.bytes() == tag@,
            valid_utf8(t.bytes()),
            decode_utf8(t.bytes()) == characters(tag@),
    {
        proof {
            lemma_printable_is_text(tag@);
        }
        Tag { inner: tag }
    }

    /// The tag with the given bytes, whatever they are.
    pub fn from_bytes(tag: [u8; 4]) -> (t: Tag)
        ensures
            t.bytes() == tag@,
    {
        Tag { inner: tag }
    }

    /// The bytes of the tag.
    pub fn to_bytes(&self) -> (b: [u8; 4])
        ensures
            b@ == self.bytes(),
    {
        self.inner
    }

    /// The tag between angle brackets.
    pub open spec fn text(&self) -> Seq<char> {
        tag_text(self.bytes())
    }

    /// The tag between angle brackets, for a tag whose bytes are text.
    pub fn to_string(&self) -> (s: String)
        requires
            valid_utf8(self.bytes()),
        ensures
            s@ == self.text(),
    {
        proof {
            reveal_strlit("<");
            reveal_strlit(">");
            assert("<"@ =~= seq!['<']);
            assert(">"@ =~= seq!['>']);
        }
        let mut s: String = String::from_str("<");
        match string_from_utf8(slice_to_vec(array_as_slice(&self.inner))) {
            Some(name) => {
                s.append(name.as_str());
            },
            None => {},
        }
        s.append(">");
        s
    }

    /// Whether two tags have the same bytes.
    pub fn same(&self, other: &Tag) -> (b: bool)
        ensures
            b == (self.bytes() == other.bytes()),
    {
        let eq: bool = self.inner[0] == other.inner[0] && self.inner[1] == other.inner[1]
            && self.inner[2] == other.inner[2] && self.inner[3] == other.inner[3];
        proof {
            if eq {
                assert(self.bytes() =~= other.bytes());
            }
        }
        eq
    }
}

/// The tag `CMPM`: the compression method, one byte.
pub fn compression_method_tag() -> (t: Tag)
    ensures
        t.bytes() == compression_method_bytes(),
        valid_utf8(t.bytes()),
{
    let t: Tag = Tag { inner: [0x43, 0x4d, 0x50, 0x4d] };
    proof {
        assert(t.bytes() =~= compression_method_bytes());
        lemma_printable_is_text(compression_method_bytes());
    }
    t
}

/// The tag `DCLE`: the length of the payload before compression, eight bytes,
/// least significant first.
pub fn decompressed_len_tag() -> (t: Tag)
    ensures
        t.bytes() == decompressed_len_bytes(),
        valid_utf8(t.bytes()),
{
    let t: Tag = Tag { inner: [0x44, 0x43, 0x4c, 0x45] };
    proof {
        assert(t.bytes() =~= decompressed_len_bytes());
        lemma_printable_is_text(decompressed_len_bytes());
    }
    t
}

/// The bytes `CMPM`.
pub open spec fn compression_method_bytes() -> Seq<u8> {
    seq![0x43u8, 0x4du8, 0x50u8, 0x4du8]
}

/// The bytes `DCLE`.
pub open spec fn decompressed_len_bytes() -> Seq<u8> {
    seq![0x44u8, 0x43u8, 0x4cu8, 0x45u8]
}

/// The characters with the codes `bytes`.
pub open spec fn characters(bytes: Seq<u8>) -> Seq<char> {
    Seq::new(bytes.len(), |i: int| bytes[i] as char)
}

/// Printable bytes are text, a character for each byte.
pub proof fn lemma_printable_is_text(bytes: Seq<u8>)
    requires
        forall|i: int| 0 <= i < bytes.len() ==> is_graphic(#[trigger] bytes[i]),
    ensures
        valid_utf8(bytes),
        decode_utf8(bytes) == characters(bytes),
{
    let chars = characters(bytes);
    assert(is_ascii_chars(chars)) by {
        assert forall|i: int| 0 <= i < chars.len() implies '\0' <= #[trigger] chars[i]
            <= '\u{7f}' by {
            assert(is_graphic(bytes[i]));
        }
    }
    is_ascii_chars_encode_utf8(chars);
    assert(encode_utf8(chars) =~= bytes) by {
        assert forall|i: int| 0 <= i < bytes.len() implies encode_utf8(chars)[i] == bytes[i] by {
            assert(is_graphic(bytes[i]));
            assert(chars[i] as u8 == bytes[i]);
        }
    }
    encode_utf8_valid_utf8(chars);
    encode_utf8_decode_utf8(chars);
}

/// The text of the bytes `tag` between angle brackets.
pub open spec fn tag_text(tag: Seq<u8>) -> Seq<char> {
    seq!['<'] + decode_utf8(tag) + seq!['>']
}

/// A tag's bytes and the value under it.
pub type Entry = (Seq<u8>, Seq<u8>);

/// The index of the entry of `entries` with the tag `tag`, if there is one.
pub open spec fn position_of(entries: Seq<Entry>, tag: Seq<u8>) -> Option<int>
    decreases entries.len(),
{
    if entries.len() == 0 {
        None
    } else if entries.last().0 == tag {
        Some(entries.len() - 1)
    } else {
        position_of(entries.drop_last(), tag)
    }
}

/// `entries` with `value` under `tag`: in the place of the old value where the
/// tag is there already, at the end where it is new.
pub open spec fn with_entry(entries: Seq<Entry>, tag: Seq<u8>, value: Seq<u8>) -> Seq<Entry> {
    match position_of(entries, tag) {
        Some(i) => entries.update(i, (tag, value)),
        None => entries.push((tag, value)),
    }
}

/// The value under `tag`, if there is one.
pub open spec fn value_of(entries: Seq<Entry>, tag: Seq<u8>) -> Option<Seq<u8>> {
    match position_of(entries, tag) {
        Some(i) => Some(entries[i].1),
        None => None,
    }
}

/// No tag occurs twice.
pub open spec fn distinct_tags(entries: Seq<Entry>) -> bool {
    forall|i: int, j: int|
        0 <= i < j < entries.len() ==> (#[trigger] entries[i]).0 != (#[trigger] entries[j]).0
}

/// What side data may hold: at most 255 entries with tags of four bytes, no
/// tag twice, and at most 255 bytes in a value.
pub open spec fn valid_side_data(entries: Seq<Entry>) -> bool {
    &&& entries.len() < SIDE_DATA_LIMIT
    &&& distinct_tags(entries)
    &&& forall|i: int|
        0 <= i < entries.len() ==> (#[trigger] entries[i]).0.len() == 4 && entries[i].1.len()
            < SIDE_DATA_LIMIT
}

/// The bytes of one entry: the tag, the length of the value, the value.
pub open spec fn entry_bytes(e: Entry) -> Seq<u8> {
    e.0 + seq![e.1.len() as u8] + e.1
}

/// The bytes of the entries, one after the other.
pub open spec fn entries_bytes(entries: Seq<Entry>) -> Seq<u8>
    decreases entries.len(),
{
    if entries.len() == 0 {
        Seq::empty()
    } else {
        entries_bytes(entries.drop_last()) + entry_bytes(entries.last())
    }
}

/// The bytes of side data: the number of entries, then the entries.
pub open spec fn side_data_bytes(entries: Seq<Entry>) -> Seq<u8> {
    seq![entries.len() as u8] + entries_bytes(entries)
}

/// What the front of `s` reads as one entry: the entry and its length.
pub open spec fn entry_parse(s: Seq<u8>) -> Result<(Entry, nat), ErrorKind> {
    if s.len() < 5 || s.len() < 5 + s[4] {
        Err(ErrorKind::UnexpectedEof)
    } else {
        Ok(((s.take(4), s.subrange(5, 5 + s[4])), (5 + s[4]) as nat))
    }
}

/// What the front of `s` reads as `count` entries: the entries in the order
/// in which they stand, and their length together.
pub open spec fn entries_parse(s: Seq<u8>, count: nat) -> Result<(Seq<Entry>, nat), ErrorKind>
    decreases count,
{
    if count == 0 {
        Ok((Seq::empty(), 0))
    } else {
        match entries_parse(s, (count - 1) as nat) {
            Err(e) => Err(e),
            Ok((entries, n)) => match entry_parse(s.skip(n as int)) {
                Err(e) => Err(e),
                Ok((entry, m)) => Ok((entries.push(entry), n + m)),
            },
        }
    }
}

/// The side data that results from setting the entries one by one: of two
/// entries with one tag the later gives the value, the earlier the place.
pub open spec fn collected(raw: Seq<Entry>) -> Seq<Entry>
    decreases raw.len(),
{
    if raw.len() == 0 {
        Seq::empty()
    } else {
        with_entry(collected(raw.drop_last()), raw.last().0, raw.last().1)
    }
}

/// What the front of `s` reads as side data: the entries and the length of
/// what was read.
pub open spec fn side_data_parse(s: Seq<u8>) -> Result<(Seq<Entry>, nat), ErrorKind> {
    if s.len() < 1 {
        Err(ErrorKind::UnexpectedEof)
    } else {
        match entries_parse(s.skip(1), s[0] as nat) {
            Err(e) => Err(e),
            Ok((raw, n)) => Ok((collected(raw), n + 1)),
        }
    }
}

/// Whether the tags of `entries` are text.
pub open spec fn tags_are_text(entries: Seq<Entry>) -> bool {
    forall|i: int| 0 <= i < entries.len() ==> valid_utf8(#[trigger] entries[i].0)
}

/// The line that shows one entry: the tag, an arrow, and the value as a list
/// of numbers.
pub open spec fn entry_text(e: Entry) -> Seq<char> {
    seq!['\t', '\t'] + tag_text(e.0) + seq![' ', '=', '>', ' '] + list_text(e.1) + seq!['\n']
}

/// The lines that show `entries`, one after the other.
pub open spec fn entries_text(entries: Seq<Entry>) -> Seq<char>
    decreases entries.len(),
{
    if entries.len() == 0 {
        Seq::empty()
    } else {
        entries_text(entries.drop_last()) + entry_text(entries.last())
    }
}

/// The text that shows side data: a heading, a line for each entry, and a
/// closing brace.
pub open spec fn side_data_text(entries: Seq<Entry>) -> Seq<char> {
    "Side Data {\n"@ + entries_text(entries) + "\t}\n"@
}

/// One entry of side data.
pub struct SideEntry {
    tag: Tag,
    value: Vec<u8>,
}

/// A packet's side data.
pub struct SideData {
    entries: Vec<SideEntry>,
}

impl View for SideData {
    type V = Seq<Entry>;

    closed spec fn view(&self) -> Seq<Entry> {
        entries_view(self.entries@)
    }
}

/// The tags and values that a vector of entries holds.
spec fn entries_view(entries: Seq<SideEntry>) -> Seq<Entry> {
    Seq::new(entries.len(), |i: int| (entries[i].tag.bytes(), entries[i].value@))
}

impl SideData {
    #[verifier::type_invariant]
    spec fn well_formed(self) -> bool {
        valid_side_data(self@)
    }

    /// Empty side data.
    pub fn new() -> (s: SideData)
        ensures
            s@ == Seq::<Entry>::empty(),
    {
        let s = SideData { entries: Vec::new() };
        assert(s@ =~= Seq::<Entry>::empty());
        s
    }

    /// The number of entries.
    pub fn len(&self) -> (n: usize)
        ensures
            n == self@.len(),
            valid_side_data(self@),
    {
        proof {
            use_type_invariant(self);
        }
        self.entries.len()
    }

    /// The tag of the `i`-th entry.
    pub fn tag_at(&self, i: usize) -> (t: Tag)
        requires
            i < self@.len(),
        ensures
            t.bytes() == self@[i as int].0,
    {
        self.entries[i].tag
    }

    /// The value of the `i`-th entry.
    pub fn value_at(&self, i: usize) -> (v: &[u8])
        requires
            i < self@.len(),
        ensures
            v@ == self@[i as int].1,
            v@.len() < SIDE_DATA_LIMIT,
    {
        proof {
            use_type_invariant(self);
            assert(self@[i as int].1.len() < SIDE_DATA_LIMIT);
        }
        self.entries[i].value.as_slice()
    }

    /// The index of the entry with the tag `tag`.
    pub fn find(&self, tag: &Tag) -> (r: Option<usize>)
        ensures
            match r {
                Some(i) => position_of(self@, tag.bytes()) == Some(i as int) && i < self@.len(),
                None => position_of(self@, tag.bytes()) is None,
            },
    {
        let mut i: usize = self.entries.len();
        proof {
            assert(self@.take(i as int) =~= self@);
        }
        while i > 0
            invariant
                i <= self@.len(),
                self@.len() == self.entries@.len(),
                position_of(self@, tag.bytes()) == position_of(self@.take(i as int), tag.bytes()),
            decreases i,
        {
            proof {
                let front = self@.take(i as int);
                assert(front.last() == self@[i - 1]);
                assert(front.drop_last() =~= self@.take(i - 1));
            }
            if self.entries[i - 1].tag.same(tag) {
                return Some(i - 1);
            }
            i = i - 1;
        }
        None
    }

    /// The value under `tag`.
    pub fn get(&self, tag: &Tag) -> (r: Option<&[u8]>)
        ensures
            match r {
                Some(v) => value_of(self@, tag.bytes()) == Some(v@),
                None => value_of(self@, tag.bytes()) is None,
            },
    {
        match self.find(tag) {
            Some(i) => Some(self.value_at(i)),
            None => None,
        }
    }

    /// The side data as text, entry by entry in their order, where every tag
    /// is text.
    pub fn to_string(&self) -> (s: String)
        requires
            tags_are_text(self@),
        ensures
            s@ == side_data_text(self@),
    {
        proof {
            reveal_strlit("\t\t");
            reveal_strlit(" => ");
            reveal_strlit("\n");
            assert("\t\t"@ =~= seq!['\t', '\t']);
            assert(" => "@ =~= seq![' ', '=', '>', ' ']);
            assert("\n"@ =~= seq!['\n']);
        }
        let mut s: String = String::from_str("Side Data {\n");
        let mut i: usize = 0;
        while i < self.entries.len()
            invariant
                i <= self.entries@.len(),
                self@.len() == self.entries@.len(),
                tags_are_text(self@),
                s@ == "Side Data {\n"@ + entries_text(self@.take(i as int)),
                "\t\t"@ == seq!['\t', '\t'],
                " => "@ == seq![' ', '=', '>', ' '],
                "\n"@ == seq!['\n'],
            decreases self.entries@.len() - i,
        {
            let ghost before = s@;
            let ghost e = self@[i as int];
            assert(valid_utf8(e.0));
            let tag: String = self.entries[i].tag.to_string();
            s.append("\t\t");
            s.append(tag.as_str());
            s.append(" => ");
            push_list(&mut s, self.entries[i].value.as_slice());
            s.append("\n");
            proof {
                let next = self@.take(i + 1);
                assert(next.drop_last() =~= self@.take(i as int));
                assert(next.last() == e);
                assert(s@ =~= before + entry_text(e));
                assert(s@ =~= "Side Data {\n"@ + entries_text(next));
            }
            i += 1;
        }
        s.append("\t}\n");
        proof {
            assert(self@.take(i as int) =~= self@);
        }
        s
    }

    /// Puts `value` under `tag`. Fails with `ParameterOutOfRange`, changing
    /// nothing, when the value has more than 255 bytes or a 256th entry would
    /// be needed.
    pub fn insert(&mut self, tag: Tag, value: &[u8]) -> (r: Result<(), ErrorKind>)
        ensures
            match r {
                Ok(_) => {
                    &&& value@.len() < SIDE_DATA_LIMIT
                    &&& final(self)@ == with_entry(old(self)@, tag.bytes(), value@)
                    &&& final(self)@.len() < SIDE_DATA_LIMIT
                },
                Err(e) => {
                    &&& e == ErrorKind::ParameterOutOfRange
                    &&& final(self)@ == old(self)@
                    &&& (value@.len() >= SIDE_DATA_LIMIT || (old(self)@.len() + 1
                        == SIDE_DATA_LIMIT && position_of(old(self)@, tag.bytes()) is None))
                },
            },
    {
        proof {
            use_type_invariant(&*self);
            tag.lemma_len();
        }
        if value.len() >= SIDE_DATA_LIMIT {
            return Err(ErrorKind::ParameterOutOfRange);
        }
        let ghost before = self@;
        match self.find(&tag) {
            Some(i) => {
                let entry = SideEntry { tag, value: slice_to_vec(value) };
                let mut entries: Vec<SideEntry> = Vec::new();
                std::mem::swap(&mut entries, &mut self.entries);
                entries.set(i, entry);
                proof {
                    lemma_with_entry_valid(before, tag.bytes(), value@);
                    assert(entries_view(entries@) =~= with_entry(before, tag.bytes(), value@));
                }
                *self = SideData { entries };
                Ok(())
            },
            None => {
                if self.entries.len() + 1 >= SIDE_DATA_LIMIT {
                    return Err(ErrorKind::ParameterOutOfRange);
                }
                let entry = SideEntry { tag, value: slice_to_vec(value) };
                let mut entries: Vec<SideEntry> = Vec::new();
                std::mem::swap(&mut entries, &mut self.entries);
                entries.push(entry);
                proof {
                    lemma_with_entry_valid(before, tag.bytes(), value@);
                    assert(entries_view(entries@) =~= with_entry(before, tag.bytes(), value@));
                }
                *self = SideData { entries };
                Ok(())
            },
        }
    }
}

impl EncodableData for SideData {
    open spec fn encodable(&self) -> bool {
        true
    }

    open spec fn encoding(&self) -> Seq<u8> {
        side_data_bytes(self@)
    }

    /// The exact number of bytes of the encoding.
    fn estimated_size(&self) -> (r: Option<usize>)
        ensures
            r == Some(self.encoding().len() as usize),
            self.encoding().len() <= 1 + 255 * 260,
    {
        proof {
            use_type_invariant(self);
        }
        let mut total: usize = 1;
        let mut i: usize = 0;
        while i < self.entries.len()
            invariant
                i <= self.entries@.len(),
                self@.len() == self.entries@.len(),
                valid_side_data(self@),
                total == 1 + entries_bytes(self@.take(i as int)).len(),
                total <= 1 + i * 260,
            decreases self.entries@.len() - i,
        {
            proof {
                let next = self@.take(i + 1);
                assert(next.drop_last() =~= self@.take(i as int));
                assert(next.last() == self@[i as int]);
                assert(self@[i as int].0.len() == 4);
            }
            total = total + 5 + self.entries[i].value.len();
            i = i + 1;
        }
        proof {
            assert(self@.take(i as int) =~= self@);
        }
        Some(total)
    }

    fn encode_into(&self, out: &mut Vec<u8>) -> (n: u64) {
        proof {
            use_type_invariant(self);
        }
        let count: usize = self.entries.len();
        out.push(count as u8);
        let mut total: u64 = 1;
        let mut i: usize = 0;
        while i < count
            invariant
                i <= count,
                count == self.entries@.len(),
                self@.len() == self.entries@.len(),
                valid_side_data(self@),
                total == 1 + entries_bytes(self@.take(i as int)).len(),
                total <= 1 + i * 260,
                out@ == old(out)@ + seq![count as u8] + entries_bytes(self@.take(i as int)),
            decreases count - i,
        {
            proof {
                let next = self@.take(i + 1);
                assert(next.drop_last() =~= self@.take(i as int));
                assert(next.last() == self@[i as int]);
                assert(self@[i as int].0.len() == 4);
            }
            let entry: &SideEntry = &self.entries[i];
            let ghost before = out@;
            out.extend_from_slice(array_as_slice(&entry.tag.inner));
            out.push(entry.value.len() as u8);
            out.extend_from_slice(entry.value.as_slice());
            proof {
                assert(out@ =~= before + entry_bytes(self@[i as int]));
            }
            total = total + 5 + entry.value.len() as u64;
            i = i + 1;
        }
        proof {
            assert(self@.take(i as int) =~= self@);
            assert(out@ =~= old(out)@ + side_data_bytes(self@));
        }
        total
    }

    fn decode_from(input: &mut ByteReader) -> (r: Result<Self, ErrorKind>)
        ensures
            match side_data_parse(old(input).remaining()) {
                Ok((entries, n)) => {
                    &&& r matches Ok(side_data)
                    &&& side_data@ == entries
                    &&& old(input).advanced(final(input), n as int)
                },
                Err(e) => r matches Err(f) && f == e,
            },
    {
        let ghost start = input.remaining();
        let count: u8 = input.read_u8()?;
        let ghost body = start.skip(1);
        let mut data: SideData = SideData::new();
        let mut i: u8 = 0;
        let ghost mut raw: Seq<Entry> = Seq::empty();
        let ghost mut taken: nat = 0;
        proof {
            assert(input.remaining() =~= body.skip(0));
        }
        while i < count
            invariant
                i <= count,
                old(input).advanced(&*input, (1 + taken) as int),
                old(input).remaining().len() >= 1,
                count == old(input).remaining()[0],
                body == old(input).remaining().skip(1),
                entries_parse(body, i as nat) == Ok::<(Seq<Entry>, nat), ErrorKind>((raw, taken)),
                raw.len() == i,
                data@ == collected(raw),
                data@.len() <= i,
            decreases count - i,
        {
            proof {
                assert(input.remaining() =~= body.skip(taken as int));
            }
            let ghost front = input.remaining();
            let ghost at_entry = *input;
            let tag_bytes: &[u8] = match input.take(4) {
                Ok(t) => t,
                Err(e) => {
                    proof {
                        assert(entries_parse(body, (i + 1) as nat) is Err);
                        lemma_entries_parse_fails(body, (i + 1) as nat, count as nat);
                    }
                    return Err(e);
                },
            };
            let ghost at_marker = *input;
            let marker: u8 = match input.read_u8() {
                Ok(m) => m,
                Err(e) => {
                    proof {
                        assert(entries_parse(body, (i + 1) as nat) is Err);
                        lemma_entries_parse_fails(body, (i + 1) as nat, count as nat);
                    }
                    return Err(e);
                },
            };
            let ghost at_value = *input;
            proof {
                at_entry.lemma_advanced_twice(&at_marker, &at_value, 4, 1);
                assert(marker == front[4]);
            }
            let value: &[u8] = match input.take(marker as usize) {
                Ok(v) => v,
                Err(e) => {
                    proof {
                        assert(entries_parse(body, (i + 1) as nat) is Err);
                        lemma_entries_parse_fails(body, (i + 1) as nat, count as nat);
                    }
                    return Err(e);
                },
            };
            let tag: Tag = Tag::from_bytes([tag_bytes[0], tag_bytes[1], tag_bytes[2], tag_bytes[3]]);
            proof {
                at_entry.lemma_advanced_twice(&at_value, &*input, 5, marker as int);
                old(input).lemma_advanced_twice(&at_entry, &*input, (1 + taken) as int, 5 + marker);
                assert(tag.bytes() =~= front.take(4));
                assert(value@ =~= front.subrange(5, 5 + marker));
                lemma_position_of(data@, tag.bytes());
            }
            match data.insert(tag, value) {
                Ok(_) => {},
                Err(e) => {
                    return Err(e);
                },
            }
            proof {
                let entry: Entry = (tag.bytes(), value@);
                assert(raw.push(entry).drop_last() =~= raw);
                raw = raw.push(entry);
                taken = taken + 5 + marker as nat;
            }
            i = i + 1;
        }
        Ok(data)
    }
}

/// Once reading entries fails, reading more of them fails in the same way.
pub proof fn lemma_entries_parse_fails(s: Seq<u8>, count: nat, more: nat)
    requires
        count <= more,
        entries_parse(s, count) is Err,
    ensures
        entries_parse(s, more) == entries_parse(s, count),
    decreases more - count,
{
    if count < more {
        lemma_entries_parse_fails(s, count, (more - 1) as nat);
    }
}

/// An index that `position_of` gives lies in the sequence, at the tag asked
/// for, and nothing after it has that tag; without one no entry has the tag.
pub proof fn lemma_position_of(entries: Seq<Entry>, tag: Seq<u8>)
    ensures
        match position_of(entries, tag) {
            Some(i) => 0 <= i < entries.len() && entries[i].0 == tag && forall|j: int|
                i < j < entries.len() ==> (#[trigger] entries[j]).0 != tag,
            None => forall|j: int| 0 <= j < entries.len() ==> (#[trigger] entries[j]).0 != tag,
        },
    decreases entries.len(),
{
    if entries.len() == 0 {
    } else if entries.last().0 == tag {
    } else {
        let front = entries.drop_last();
        lemma_position_of(front, tag);
        assert forall|j: int| 0 <= j < front.len() implies front[j] == entries[j] by {}
        match position_of(front, tag) {
            Some(i) => {
                assert forall|j: int| i < j < entries.len() implies (#[trigger] entries[j]).0
                    != tag by {
                    if j < front.len() {
                        assert(front[j].0 != tag);
                    }
                }
            },
            None => {
                assert forall|j: int| 0 <= j < entries.len() implies (#[trigger] entries[j]).0
                    != tag by {
                    if j < front.len() {
                        assert(front[j].0 != tag);
                    }
                }
            },
        }
    }
}

/// Putting a value of at most 255 bytes under a tag of four bytes keeps side
/// data valid, provided there is room for the entry.
pub proof fn lemma_with_entry_valid(entries: Seq<Entry>, tag: Seq<u8>, value: Seq<u8>)
    requires
        valid_side_data(entries),
        tag.len() == 4,
        value.len() < SIDE_DATA_LIMIT,
        position_of(entries, tag) is Some || entries.len() + 1 < SIDE_DATA_LIMIT,
    ensures
        valid_side_data(with_entry(entries, tag, value)),
{
    lemma_position_of(entries, tag);
    let next = with_entry(entries, tag, value);
    assert forall|i: int, j: int| 0 <= i < j < next.len() implies (#[trigger] next[i]).0 != (
    #[trigger] next[j]).0 by {
        match position_of(entries, tag) {
            Some(p) => {
                assert(entries[i].0 != entries[j].0);
            },
            None => {
                if j < entries.len() {
                    assert(entries[i].0 != entries[j].0);
                } else {
                    assert(entries[i].0 != tag);
                }
            },
        }
    }
}

/// Setting entries with distinct tags one by one keeps them as they are.
pub proof fn lemma_collected_distinct(entries: Seq<Entry>)
    requires
        distinct_tags(entries),
    ensures
        collected(entries) == entries,
    decreases entries.len(),
{
    if entries.len() == 0 {
        assert(entries =~= Seq::<Entry>::empty());
    } else {
        let front = entries.drop_last();
        lemma_collected_distinct(front);
        lemma_position_of(front, entries.last().0);
        match position_of(front, entries.last().0) {
            Some(i) => {
                assert(front[i] == entries[i]);
                assert(entries[i].0 != entries[entries.len() - 1].0);
            },
            None => {},
        }
        assert(front.push(entries.last()) =~= entries);
    }
}

/// Reading back written entries gives the entries, over exactly their bytes.
pub proof fn lemma_entries_roundtrip(entries: Seq<Entry>, rest: Seq<u8>)
    requires
        forall|i: int|
            0 <= i < entries.len() ==> (#[trigger] entries[i]).0.len() == 4 && entries[i].1.len()
                < SIDE_DATA_LIMIT,
    ensures
        entries_parse(entries_bytes(entries) + rest, entries.len()) == Ok::<
            (Seq<Entry>, nat),
            ErrorKind,
        >((entries, entries_bytes(entries).len())),
    decreases entries.len(),
{
    if entries.len() == 0 {
        assert(entries =~= Seq::<Entry>::empty());
    } else {
        let front = entries.drop_last();
        let last = entries.last();
        let tail = entry_bytes(last) + rest;
        let s = entries_bytes(entries) + rest;
        assert(s =~= entries_bytes(front) + tail);
        assert forall|i: int| 0 <= i < front.len() implies (#[trigger] front[i]).0.len() == 4
            && front[i].1.len() < SIDE_DATA_LIMIT by {
            assert(front[i] == entries[i]);
        }
        lemma_entries_roundtrip(front, tail);
        let n = entries_bytes(front).len();
        assert(s.skip(n as int) =~= tail);
        assert(last.0.len() == 4 && last.1.len() < SIDE_DATA_LIMIT);
        assert(tail[4] == last.1.len() as u8);
        assert(tail.take(4) =~= last.0);
        assert(tail.subrange(5, 5 + tail[4]) =~= last.1);
        assert(front.push(last) =~= entries);
    }
}

/// Reading back written side data gives the side data, and takes exactly the
/// bytes that were written, whatever follows them.
pub proof fn lemma_side_data_roundtrip(entries: Seq<Entry>, rest: Seq<u8>)
    requires
        valid_side_data(entries),
    ensures
        side_data_parse(side_data_bytes(entries) + rest) == Ok::<(Seq<Entry>, nat), ErrorKind>(
            (entries, side_data_bytes(entries).len()),
        ),
{
    let s = side_data_bytes(entries) + rest;
    assert(s.skip(1) =~= entries_bytes(entries) + rest);
    assert(s[0] == entries.len() as u8);
    lemma_entries_roundtrip(entries, rest);
    lemma_collected_distinct(entries);
}

} // verus!
