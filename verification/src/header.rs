//! The two header layouts of a save file and the preview decoded from them.
//!
//! The bytes do not say which layout they follow, so the caller names it.

use crate::bytes::i32_le;
use crate::bytes::u32_le;
use crate::bytes::word_at;
use crate::bytes::ByteReader;
use crate::bytes::DecodeError;
use vstd::prelude::*;

verus! {

/// Bytes taken by the six leading integers of either layout.
pub const STATS_LEN: usize = 24;

/// Where the extended layout stores the length of the ship name: directly
/// behind the six integers.
pub const OFFSET_NAME_LEN: usize = 24;

/// Where the extended layout stores the ship name itself: directly behind
/// its length.
pub const OFFSET_NAME: usize = 28;

/// The placeholder the game writes for a glyph it cannot draw.
pub const PLACEHOLDER: char = '?';

/// The byte-offset interpretation to decode with.
#[derive(Clone, Copy, Debug, PartialEq, Eq, Structural)]
pub enum Layout {
    /// Six signed integers, and a length-prefixed ship name further on.
    Extended,
    /// Six unsigned integers from the first byte on, and no name.
    Compact,
}

/// The six signed integers that open an extended save.
#[derive(Clone, Copy, Debug, PartialEq, Eq, Structural)]
pub struct Header {
    pub version: i32,
    pub ships_defeated: i32,
    pub jumps_in_sector: i32,
    pub scrap_collected: i32,
    pub crew_recruited: i32,
    pub xxx: i32,
}

/// The fixed-width record at the start of a save: the header and the
/// unsigned length that follows it directly.
#[derive(Clone, Copy, Debug, PartialEq, Eq, Structural)]
pub struct Sav {
    pub header: Header,
    pub player_name_len: u32,
}

/// What a preview shows of a save.
#[derive(Clone, Debug)]
pub struct DecodedHeader {
    pub version: i64,
    pub difficulty: i64,
    pub ships_defeated: i64,
    pub jumps_in_sector: i64,
    pub scrap_collected: i64,
    pub crew_recruited: i64,
    /// Present only for the layout that carries a name.
    pub ship_name: Option<String>,
}

/// The mathematical content of a [`DecodedHeader`].
pub ghost struct Preview {
    pub version: int,
    pub difficulty: int,
    pub ships_defeated: int,
    pub jumps_in_sector: int,
    pub scrap_collected: int,
    pub crew_recruited: int,
    pub ship_name: Option<Seq<char>>,
}

impl View for DecodedHeader {
    type V = Preview;

    open spec fn view(&self) -> Preview {
        Preview {
            version: self.version as int,
            difficulty: self.difficulty as int,
            ships_defeated: self.ships_defeated as int,
            jumps_in_sector: self.jumps_in_sector as int,
            scrap_collected: self.scrap_collected as int,
            crew_recruited: self.crew_recruited as int,
            ship_name: match self.ship_name {
                Some(name) => Some(name@),
                None => None,
            },
        }
    }
}

/// The text that `String::from_utf8_lossy` makes of `bytes`.
pub uninterp spec fn utf8_lossy(bytes: Seq<u8>) -> Seq<char>;

/// Trusted: `String::from_utf8_lossy`. The text depends on the bytes alone;
/// invalid sequences become U+FFFD, so the call never fails, and bytes that
/// are valid UTF-8 give exactly the characters they encode.
#[verifier::external_body]
fn lossy_text(bytes: &[u8]) -> (text: String)
    ensures
        text@ == utf8_lossy(bytes@),
        vstd::utf8::valid_utf8(bytes@) ==> text@ == vstd::utf8::decode_utf8(bytes@),
{
    String::from_utf8_lossy(bytes).into_owned()
}

/// `text` with every placeholder glyph left out and the rest in order.
pub open spec fn without_placeholders(text: Seq<char>) -> Seq<char> {
    text.filter(|c: char| c != PLACEHOLDER)
}

/// The signed integer at `offset`.
pub open spec fn signed_at(bytes: Seq<u8>, offset: int) -> int {
    i32_le(word_at(bytes, offset))
}

/// The unsigned integer at `offset`.
pub open spec fn unsigned_at(bytes: Seq<u8>, offset: int) -> int {
    u32_le(word_at(bytes, offset))
}

/// The six signed integers at the start of `bytes`.
pub open spec fn header_of(bytes: Seq<u8>) -> Header {
    Header {
        version: signed_at(bytes, 0) as i32,
        ships_defeated: signed_at(bytes, 4) as i32,
        jumps_in_sector: signed_at(bytes, 8) as i32,
        scrap_collected: signed_at(bytes, 12) as i32,
        crew_recruited: signed_at(bytes, 16) as i32,
        xxx: signed_at(bytes, 20) as i32,
    }
}

/// The fixed-width record at the start of `bytes`.
pub open spec fn sav_of(bytes: Seq<u8>) -> Sav {
    Sav { header: header_of(bytes), player_name_len: unsigned_at(bytes, 24) as u32 }
}

/// The preview of a compact save.
pub open spec fn compact_preview(bytes: Seq<u8>) -> Preview {
    Preview {
        version: unsigned_at(bytes, 0),
        difficulty: unsigned_at(bytes, 4),
        ships_defeated: unsigned_at(bytes, 8),
        jumps_in_sector: unsigned_at(bytes, 12),
        scrap_collected: unsigned_at(bytes, 16),
        crew_recruited: unsigned_at(bytes, 20),
        ship_name: None,
    }
}

/// The name length that an extended save declares.
pub open spec fn declared_name_len(bytes: Seq<u8>) -> int {
    signed_at(bytes, OFFSET_NAME_LEN as int)
}

/// Whether an extended save holds its length field and the whole name that
/// the field declares.
pub open spec fn name_in_range(bytes: Seq<u8>) -> bool {
    &&& OFFSET_NAME as int <= bytes.len()
    &&& 0 <= declared_name_len(bytes)
    &&& OFFSET_NAME as int + declared_name_len(bytes) <= bytes.len()
}

/// The bytes of the ship name in an extended save.
pub open spec fn raw_name(bytes: Seq<u8>) -> Seq<u8> {
    bytes.subrange(OFFSET_NAME as int, OFFSET_NAME as int + declared_name_len(bytes))
}

/// The ship name as a preview shows it.
pub open spec fn ship_name_of(bytes: Seq<u8>) -> Seq<char> {
    without_placeholders(utf8_lossy(raw_name(bytes)))
}

/// The preview of an extended save. The layout has no difficulty field, so
/// the preview reports zero there.
pub open spec fn extended_preview(bytes: Seq<u8>) -> Preview {
    Preview {
        version: signed_at(bytes, 0),
        difficulty: 0,
        ships_defeated: signed_at(bytes, 4),
        jumps_in_sector: signed_at(bytes, 8),
        scrap_collected: signed_at(bytes, 12),
        crew_recruited: signed_at(bytes, 16),
        ship_name: Some(ship_name_of(bytes)),
    }
}

/// Whether `bytes` can be decoded under `layout`.
pub open spec fn decodable(bytes: Seq<u8>, layout: Layout) -> bool {
    match layout {
        Layout::Extended => name_in_range(bytes),
        Layout::Compact => STATS_LEN as int <= bytes.len(),
    }
}

/// The preview of `bytes` under `layout`.
pub open spec fn preview(bytes: Seq<u8>, layout: Layout) -> Preview {
    match layout {
        Layout::Extended => extended_preview(bytes),
        Layout::Compact => compact_preview(bytes),
    }
}

/// How many leading bytes of a save a preview under `layout` reads.
pub open spec fn extent(bytes: Seq<u8>, layout: Layout) -> int {
    match layout {
        Layout::Extended => OFFSET_NAME as int + declared_name_len(bytes),
        Layout::Compact => STATS_LEN as int,
    }
}

/// Removes every placeholder glyph from `text` and keeps all other
/// characters, in their order.
pub fn strip_placeholders(text: &str) -> (clean: String)
    ensures
        clean@ == without_placeholders(text@),
{
    let n: usize = text.unicode_len();
    let mut clean = String::new();
    let mut i: usize = 0;
    proof {
        reveal(Seq::filter);
        assert(text@.subrange(0, 0) =~= Seq::<char>::empty());
    }
    while i < n
        invariant
            i <= n,
            n == text@.len(),
            clean@ == without_placeholders(text@.subrange(0, i as int)),
        decreases n - i,
    {
        let c = text.get_char(i);
        if c != PLACEHOLDER {
            clean.append(text.substring_char(i, i + 1));
        }
        proof {
            let next = text@.subrange(0, i + 1);
            reveal(Seq::filter);
            assert(next.drop_last() =~= text@.subrange(0, i as int));
            assert(next.last() == c);
            assert(text@.subrange(i as int, i + 1) =~= seq![c]);
            assert(clean@ =~= without_placeholders(next));
        }
        i += 1;
    }
    assert(text@.subrange(0, n as int) =~= text@);
    clean
}

/// The six signed integers at the start of an extended save.
pub fn read_header(bytes: &[u8]) -> (header: Result<Header, DecodeError>)
    ensures
        header is Ok <==> STATS_LEN as int <= bytes@.len(),
        header is Ok ==> header->Ok_0 == header_of(bytes@),
        header is Err ==> header->Err_0 == DecodeError::OutOfRange,
{
    if bytes.len() < STATS_LEN {
        return Err(DecodeError::OutOfRange);
    }
    let reader = ByteReader::new(bytes);
    Ok(
        Header {
            version: reader.read_i32_le(0)?,
            ships_defeated: reader.read_i32_le(4)?,
            jumps_in_sector: reader.read_i32_le(8)?,
            scrap_collected: reader.read_i32_le(12)?,
            crew_recruited: reader.read_i32_le(16)?,
            xxx: reader.read_i32_le(20)?,
        },
    )
}

/// The fixed-width record at the start of a save. Bytes after it are ignored.
pub fn read_sav(bytes: &[u8]) -> (sav: Result<Sav, DecodeError>)
    ensures
        sav is Ok <==> STATS_LEN as int + 4 <= bytes@.len(),
        sav is Ok ==> sav->Ok_0 == sav_of(bytes@),
        sav is Err ==> sav->Err_0 == DecodeError::OutOfRange,
{
    if bytes.len() < STATS_LEN + 4 {
        return Err(DecodeError::OutOfRange);
    }
    let reader = ByteReader::new(bytes);
    let header = read_header(bytes)?;
    let player_name_len = reader.read_u32_le(STATS_LEN)?;
    Ok(Sav { header, player_name_len })
}

/// Decodes the compact layout: six unsigned integers from the first byte on.
/// Whatever follows them is ignored.
pub fn decode_compact(bytes: &[u8]) -> (decoded: Result<DecodedHeader, DecodeError>)
    ensures
        decoded is Ok <==> STATS_LEN as int <= bytes@.len(),
        decoded is Ok ==> decoded->Ok_0@ == compact_preview(bytes@),
        decoded is Err ==> decoded->Err_0 == DecodeError::OutOfRange,
{
    if bytes.len() < STATS_LEN {
        return Err(DecodeError::OutOfRange);
    }
    let reader = ByteReader::new(bytes);
    let version = reader.read_u32_le(0)?;
    let difficulty = reader.read_u32_le(4)?;
    let ships_defeated = reader.read_u32_le(8)?;
    let jumps_in_sector = reader.read_u32_le(12)?;
    let scrap_collected = reader.read_u32_le(16)?;
    let crew_recruited = reader.read_u32_le(20)?;
    Ok(
        DecodedHeader {
            version: version as i64,
            difficulty: difficulty as i64,
            ships_defeated: ships_defeated as i64,
            jumps_in_sector: jumps_in_sector as i64,
            scrap_collected: scrap_collected as i64,
            crew_recruited: crew_recruited as i64,
            ship_name: None,
        },
    )
}

/// The bytes of the ship name of an extended save, or `OutOfRange` when the
/// length field or the name it declares does not lie inside `bytes`.
pub fn read_raw_name(bytes: &[u8]) -> (raw: Result<Vec<u8>, DecodeError>)
    ensures
        raw is Ok <==> name_in_range(bytes@),
        raw is Ok ==> raw->Ok_0@ == raw_name(bytes@),
        raw is Err ==> raw->Err_0 == DecodeError::OutOfRange,
{
    let reader = ByteReader::new(bytes);
    let declared: i32 = reader.read_i32_le(OFFSET_NAME_LEN)?;
    if declared < 0 {
        return Err(DecodeError::OutOfRange);
    }
    reader.read_bytes(OFFSET_NAME, declared as usize)
}

/// The ship name of an extended save as a preview shows it: decoded
/// leniently, then without placeholder glyphs.
pub fn get_save_info(bytes: &[u8]) -> (name: Result<String, DecodeError>)
    ensures
        name is Ok <==> name_in_range(bytes@),
        name is Ok ==> name->Ok_0@ == ship_name_of(bytes@),
        name is Ok && vstd::utf8::valid_utf8(raw_name(bytes@)) ==> name->Ok_0@
            == without_placeholders(vstd::utf8::decode_utf8(raw_name(bytes@))),
        name is Err ==> name->Err_0 == DecodeError::OutOfRange,
{
    let raw = read_raw_name(bytes)?;
    let text = lossy_text(raw.as_slice());
    Ok(strip_placeholders(text.as_str()))
}

/// Decodes the extended layout: the six signed integers and the ship name.
pub fn decode_extended(bytes: &[u8]) -> (decoded: Result<DecodedHeader, DecodeError>)
    ensures
        decoded is Ok <==> name_in_range(bytes@),
        decoded is Ok ==> decoded->Ok_0@ == extended_preview(bytes@),
        decoded is Ok && vstd::utf8::valid_utf8(raw_name(bytes@)) ==> decoded->Ok_0@.ship_name
            == Some(without_placeholders(vstd::utf8::decode_utf8(raw_name(bytes@)))),
        decoded is Err ==> decoded->Err_0 == DecodeError::OutOfRange,
{
    let name = get_save_info(bytes)?;
    let header = read_header(bytes)?;
    Ok(
        DecodedHeader {
            version: header.version as i64,
            difficulty: 0,
            ships_defeated: header.ships_defeated as i64,
            jumps_in_sector: header.jumps_in_sector as i64,
            scrap_collected: header.scrap_collected as i64,
            crew_recruited: header.crew_recruited as i64,
            ship_name: Some(name),
        },
    )
}

/// How many leading bytes of a save must be read for its preview, told from
/// the first `OFFSET_NAME` of them. A caller that reads a file piece by piece
/// reads this many and no more. An extended save that is shorter than its
/// length field, or declares a negative length, is `OutOfRange`.
pub fn bytes_needed(prefix: &[u8], layout: Layout) -> (needed: Result<usize, DecodeError>)
    ensures
        needed is Ok <==> (layout == Layout::Extended ==> {
            &&& OFFSET_NAME as int <= prefix@.len()
            &&& 0 <= declared_name_len(prefix@)
        }),
        needed is Ok ==> needed->Ok_0 as int == extent(prefix@, layout),
        needed is Err ==> needed->Err_0 == DecodeError::OutOfRange,
{
    match layout {
        Layout::Compact => Ok(STATS_LEN),
        Layout::Extended => {
            let declared: i32 = ByteReader::new(prefix).read_i32_le(OFFSET_NAME_LEN)?;
            if declared < 0 {
                return Err(DecodeError::OutOfRange);
            }
            Ok(OFFSET_NAME + declared as usize)
        },
    }
}

/// Decodes `bytes` under the layout that the caller names.
pub fn decode(bytes: &[u8], layout: Layout) -> (decoded: Result<DecodedHeader, DecodeError>)
    ensures
        decoded is Ok <==> decodable(bytes@, layout),
        decoded is Ok ==> decoded->Ok_0@ == preview(bytes@, layout),
        decoded is Err ==> decoded->Err_0 == DecodeError::OutOfRange,
{
    match layout {
        Layout::Extended => decode_extended(bytes),
        Layout::Compact => decode_compact(bytes),
    }
}

/// The preview of one slot's bytes, or `None` where they cannot be decoded.
/// A failure stays here: it says nothing about any other slot.
pub fn preview_of(bytes: &[u8], layout: Layout) -> (shown: Option<DecodedHeader>)
    ensures
        shown is Some <==> decodable(bytes@, layout),
        shown is Some ==> shown->0@ == preview(bytes@, layout),
{
    match decode(bytes, layout) {
        Ok(decoded) => Some(decoded),
        Err(_) => None,
    }
}

/// A preview depends on the bytes that it reads and on nothing behind them:
/// two saves that agree on the extent of the first decode alike.
pub proof fn leading_bytes_decide(a: Seq<u8>, b: Seq<u8>, layout: Layout)
    requires
        decodable(a, layout),
        extent(a, layout) <= b.len(),
        a.subrange(0, extent(a, layout)) == b.subrange(0, extent(a, layout)),
    ensures
        decodable(b, layout),
        extent(b, layout) == extent(a, layout),
        preview(a, layout) == preview(b, layout),
{
    let n = extent(a, layout);
    let head = a.subrange(0, n);
    assert forall|k: int| 0 <= k && k + 4 <= n implies word_at(a, k) == word_at(b, k) by {
        assert(word_at(a, k) =~= head.subrange(k, k + 4));
        assert(word_at(b, k) =~= b.subrange(0, n).subrange(k, k + 4));
    }
    match layout {
        Layout::Compact => {
            assert(word_at(a, 0) == word_at(b, 0));
            assert(word_at(a, 4) == word_at(b, 4));
            assert(word_at(a, 8) == word_at(b, 8));
            assert(word_at(a, 12) == word_at(b, 12));
            assert(word_at(a, 16) == word_at(b, 16));
            assert(word_at(a, 20) == word_at(b, 20));
        },
        Layout::Extended => {
            assert(word_at(a, 0) == word_at(b, 0));
            assert(word_at(a, 4) == word_at(b, 4));
            assert(word_at(a, 8) == word_at(b, 8));
            assert(word_at(a, 12) == word_at(b, 12));
            assert(word_at(a, 16) == word_at(b, 16));
            assert(word_at(a, OFFSET_NAME_LEN as int) == word_at(b, OFFSET_NAME_LEN as int));
            assert(raw_name(a) =~= head.subrange(OFFSET_NAME as int, n));
            assert(raw_name(b) =~= b.subrange(0, n).subrange(OFFSET_NAME as int, n));
        },
    }
}

/// Two compact saves that agree on their first twenty-four bytes decode
/// alike, whatever follows in either.
pub proof fn compact_ignores_trailing_bytes(a: Seq<u8>, b: Seq<u8>)
    requires
        STATS_LEN as int <= a.len(),
        STATS_LEN as int <= b.len(),
        a.subrange(0, STATS_LEN as int) == b.subrange(0, STATS_LEN as int),
    ensures
        compact_preview(a) == compact_preview(b),
{
    leading_bytes_decide(a, b, Layout::Compact);
}

/// An extended save whose declared name would end after the last byte is not
/// decodable: no shorter name is made up for it.
pub proof fn overlong_name_is_rejected(bytes: Seq<u8>)
    requires
        OFFSET_NAME as int + declared_name_len(bytes) > bytes.len(),
    ensures
        !decodable(bytes, Layout::Extended),
{
}

/// A cleaned name holds no placeholder glyph, holds every other character of
/// the text it was made from, and is that text where it had no placeholder.
pub proof fn placeholders_are_gone(text: Seq<char>)
    ensures
        !without_placeholders(text).contains(PLACEHOLDER),
        forall|i: int|
            0 <= i < text.len() && text[i] != PLACEHOLDER ==> without_placeholders(text).contains(
                #[trigger] text[i],
            ),
        !text.contains(PLACEHOLDER) ==> without_placeholders(text) == text,
    decreases text.len(),
{
    let keep = |c: char| c != PLACEHOLDER;
    reveal(Seq::filter);
    if text.len() > 0 {
        let front = text.drop_last();
        placeholders_are_gone(front);
        let cleaned = without_placeholders(text);
        let cleaned_front = without_placeholders(front);
        if cleaned.contains(PLACEHOLDER) {
            let j = choose|j: int| 0 <= j < cleaned.len() && cleaned[j] == PLACEHOLDER;
            if j < cleaned_front.len() {
                assert(cleaned_front[j] == PLACEHOLDER);
                assert(cleaned_front.contains(PLACEHOLDER));
            }
        }
        assert forall|i: int| 0 <= i < text.len() && text[i] != PLACEHOLDER implies cleaned.contains(
            #[trigger] text[i],
        ) by {
            if i < front.len() {
                assert(front[i] == text[i]);
                let j = choose|j: int| 0 <= j < cleaned_front.len() && cleaned_front[j] == text[i];
                assert(cleaned[j] == text[i]);
            } else {
                assert(cleaned[cleaned.len() - 1] == text[i]);
            }
        }
        if !text.contains(PLACEHOLDER) {
            assert(text[text.len() - 1] != PLACEHOLDER);
            assert forall|c: char| front.contains(c) implies c != PLACEHOLDER by {
                let j = choose|j: int| 0 <= j < front.len() && front[j] == c;
                assert(text[j] == c);
            }
            assert(cleaned =~= text);
        }
    }
}

} // verus!
