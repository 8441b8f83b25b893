//! WBXML codec for the ActiveSync code pages that calendar handling uses.

use vstd::prelude::*;
use vstd::string::*;
use crate::error::GatewayError;
use vstd::utf8::*;
use crate::text::{push_all, push_range, range_eq, string_from_utf8};

verus! {

/// Token that changes the active code page; the page number follows it.
pub const SWITCH_PAGE: u8 = 0x00;

/// Token that closes the innermost open element.
pub const END: u8 = 0x01;

/// Token that introduces a NUL-terminated inline string.
pub const STR_I: u8 = 0x03;

/// Bit of a tag token that says the element has content.
pub const WITH_CONTENT: u8 = 0x40;

/// Bit of a tag token that says the element has attributes.
pub const WITH_ATTRIBUTES: u8 = 0x80;

/// Code page of the AirSync namespace.
pub const PAGE_AIRSYNC: u8 = 0;

/// Code page of the Calendar namespace.
pub const PAGE_CALENDAR: u8 = 4;

/// Code page of the AirSyncBase namespace.
pub const PAGE_AIRSYNCBASE: u8 = 17;

/// The tag that a token stands for on a code page, if the page defines it.
pub open spec fn tag_name(page: u8, token: u8) -> Option<&'static str> {
    if page == 0 {
        if token == 0x05 { Some("Sync") }
        else if token == 0x06 { Some("Responses") }
        else if token == 0x07 { Some("Add") }
        else if token == 0x08 { Some("Change") }
        else if token == 0x09 { Some("Delete") }
        else if token == 0x0B { Some("SyncKey") }
        else if token == 0x0C { Some("ClientId") }
        else if token == 0x0D { Some("ServerId") }
        else if token == 0x0E { Some("Status") }
        else if token == 0x0F { Some("Collection") }
        else if token == 0x10 { Some("Class") }
        else if token == 0x12 { Some("CollectionId") }
        else if token == 0x26 { Some("Commands") }
        else if token == 0x2A { Some("ApplicationData") }
        else { None }
    } else if page == 4 {
        if token == 0x05 { Some("Timezone") }
        else if token == 0x06 { Some("AllDayEvent") }
        else if token == 0x07 { Some("Attendees") }
        else if token == 0x08 { Some("Attendee") }
        else if token == 0x0B { Some("StartTime") }
        else if token == 0x0C { Some("EndTime") }
        else if token == 0x11 { Some("DtStamp") }
        else if token == 0x13 { Some("Subject") }
        else if token == 0x14 { Some("Location") }
        else if token == 0x15 { Some("Body") }
        else if token == 0x1B { Some("Recurrence") }
        else if token == 0x23 { Some("Organizer") }
        else if token == 0x24 { Some("RecurrenceId") }
        else if token == 0x27 { Some("Recurrences") }
        else { None }
    } else if page == 17 {
        if token == 0x05 { Some("BodyPreference") }
        else if token == 0x06 { Some("Type") }
        else if token == 0x0A { Some("Body") }
        else if token == 0x0B { Some("Data") }
        else if token == 0x0C { Some("EstimatedDataSize") }
        else if token == 0x0D { Some("Truncated") }
        else { None }
    } else {
        None
    }
}

/// The UTF-8 bytes of the tag that a token stands for.
pub open spec fn tag_bytes(page: u8, token: u8) -> Option<Seq<u8>> {
    match tag_name(page, token) {
        Some(s) => Some(s.spec_bytes()),
        None => None,
    }
}

/// The lowest token at or above `from` that stands for `name` on `page`.
pub open spec fn token_from(page: u8, name: Seq<u8>, from: int) -> Option<u8>
    decreases 64 - from,
{
    if from < 5 || from >= 64 {
        None
    } else if tag_bytes(page, from as u8) == Some(name) {
        Some(from as u8)
    } else {
        token_from(page, name, from + 1)
    }
}

/// The token that stands for `name` on `page`, if the page defines the tag.
pub open spec fn token_of(page: u8, name: Seq<u8>) -> Option<u8> {
    token_from(page, name, 5)
}


/// Reads one multi-byte unsigned integer: seven-bit groups, most significant
/// first, every byte but the last with its top bit set. `acc` is the value of
/// the groups read so far and `used` their number. Gives the value and the
/// number of bytes read in all, or nothing where the input ends inside the
/// integer, the integer has more than five groups or does not fit 32 bits.
pub open spec fn mb_groups(s: Seq<u8>, acc: nat, used: int) -> Option<(nat, int)>
    decreases s.len(),
{
    if s.len() == 0 || used >= 5 {
        None
    } else {
        let v = acc * 128 + (s[0] % 128) as nat;
        if s[0] >= 0x80 {
            mb_groups(s.skip(1), v, used + 1)
        } else if v > u32::MAX {
            None
        } else {
            Some((v, used + 1))
        }
    }
}

/// The multi-byte unsigned integer at the start of `s` and its length in bytes.
pub open spec fn mb_uint(s: Seq<u8>) -> Option<(nat, int)> {
    mb_groups(s, 0, 0)
}

/// The groups of a number that come before its last group, most significant
/// first, each with the continuation bit set; none for zero.
pub open spec fn mb_leading(q: nat) -> Seq<u8>
    decreases q,
{
    if q == 0 {
        Seq::empty()
    } else {
        mb_leading(q / 128).push((128 + q % 128) as u8)
    }
}

/// A number as a multi-byte unsigned integer, in the fewest groups.
pub open spec fn mb_form(v: nat) -> Seq<u8> {
    mb_leading(v / 128).push((v % 128) as u8)
}

/// The number of bytes that the document header takes: the version byte, the
/// public identifier, the character set, the length of the string table and
/// the string table itself. Nothing where the header is truncated or one of
/// its integers is malformed.
pub open spec fn header_len(s: Seq<u8>) -> Option<int> {
    if s.len() == 0 {
        None
    } else {
        match mb_uint(s.skip(1)) {
            None => None,
            Some((_, n1)) => match mb_uint(s.skip(1 + n1)) {
                None => None,
                Some((_, n2)) => match mb_uint(s.skip(1 + n1 + n2)) {
                    None => None,
                    Some((table, n3)) => if 1 + n1 + n2 + n3 + table <= s.len() {
                        Some(1 + n1 + n2 + n3 + table)
                    } else {
                        None
                    },
                },
            },
        }
    }
}

/// The position of the first occurrence of `b` in `s`.
pub open spec fn find_byte(s: Seq<u8>, b: u8) -> Option<int>
    decreases s.len(),
{
    if s.len() == 0 {
        None
    } else if s[0] == b {
        Some(0)
    } else {
        match find_byte(s.skip(1), b) {
            Some(k) => Some(k + 1),
            None => None,
        }
    }
}

/// How one byte of text is written in markup.
pub open spec fn escape_byte(b: u8) -> Seq<u8> {
    if b == 0x26 {
        // &amp;
        seq![0x26u8, 0x61, 0x6d, 0x70, 0x3b]
    } else if b == 0x3c {
        // &lt;
        seq![0x26u8, 0x6c, 0x74, 0x3b]
    } else if b == 0x3e {
        // &gt;
        seq![0x26u8, 0x67, 0x74, 0x3b]
    } else {
        seq![b]
    }
}

/// How a text is written in markup: `&`, `<` and `>` as entities.
pub open spec fn escape_text(s: Seq<u8>) -> Seq<u8>
    decreases s.len(),
{
    if s.len() == 0 {
        Seq::empty()
    } else {
        escape_byte(s[0]) + escape_text(s.skip(1))
    }
}

/// `<Name>`
pub open spec fn open_markup(name: Seq<u8>) -> Seq<u8> {
    seq![0x3cu8] + name + seq![0x3eu8]
}

/// `</Name>`
pub open spec fn close_markup(name: Seq<u8>) -> Seq<u8> {
    seq![0x3cu8, 0x2f] + name + seq![0x3eu8]
}

/// `<Name/>`
pub open spec fn empty_markup(name: Seq<u8>) -> Seq<u8> {
    seq![0x3cu8] + name + seq![0x2fu8, 0x3e]
}

/// The name of an element on the stack of open elements.
pub open spec fn name_of(entry: (u8, u8)) -> Seq<u8> {
    match tag_bytes(entry.0, entry.1) {
        Some(n) => n,
        None => Seq::empty(),
    }
}

/// `prefix` followed by the rest of a decoding, where the rest succeeds.
pub open spec fn after(prefix: Seq<u8>, rest: Option<Seq<u8>>) -> Option<Seq<u8>> {
    match rest {
        Some(r) => Some(prefix + r),
        None => None,
    }
}

/// The markup that a token stream stands for, read with `page` active and the
/// elements in `open` not yet closed (innermost last). Nothing where the
/// stream is malformed: a page switch or an inline string that the input cuts
/// short, an END with no element open, a token that the active page does not
/// define, a tag with attributes, another global token, or an element left
/// open at the end.
#[verifier::opaque]
pub open spec fn decode_body(s: Seq<u8>, page: u8, open: Seq<(u8, u8)>) -> Option<Seq<u8>>
    decreases s.len(),
{
    if s.len() == 0 {
        if open.len() == 0 {
            Some(Seq::empty())
        } else {
            None
        }
    } else if s[0] == SWITCH_PAGE {
        if s.len() < 2 {
            None
        } else {
            decode_body(s.skip(2), s[1], open)
        }
    } else if s[0] == END {
        if open.len() == 0 {
            None
        } else {
            after(close_markup(name_of(open.last())), decode_body(s.skip(1), page, open.drop_last()))
        }
    } else if s[0] == STR_I {
        match find_byte(s.skip(1), 0) {
            None => None,
            Some(n) => if 0 <= n && 2 + n <= s.len() {
                after(escape_text(s.subrange(1, 1 + n)), decode_body(s.skip(2 + n), page, open))
            } else {
                None
            },
        }
    } else if s[0] >= WITH_ATTRIBUTES || s[0] % 64 < 5 {
        None
    } else {
        match tag_bytes(page, s[0] % 64) {
            None => None,
            Some(name) => if s[0] >= WITH_CONTENT {
                after(open_markup(name), decode_body(s.skip(1), page, open.push((page, s[0] % 64))))
            } else {
                after(empty_markup(name), decode_body(s.skip(1), page, open))
            },
        }
    }
}

/// The markup that a payload stands for when decoding starts on `page`: the
/// payload itself where it already begins with `<`, else the decoded token
/// stream behind the header.
pub open spec fn decode_spec(page: u8, s: Seq<u8>) -> Option<Seq<u8>> {
    if s.len() == 0 {
        None
    } else if s[0] == 0x3c {
        Some(s)
    } else {
        match header_len(s) {
            None => None,
            Some(h) => decode_body(s.skip(h), page, Seq::empty()),
        }
    }
}

/// Whether `s` starts with `&amp;`.
pub open spec fn at_amp(s: Seq<u8>) -> bool {
    s.len() >= 5 && s[0] == 0x26 && s[1] == 0x61 && s[2] == 0x6d && s[3] == 0x70 && s[4] == 0x3b
}

/// Whether `s` starts with `&lt;`.
pub open spec fn at_lt(s: Seq<u8>) -> bool {
    s.len() >= 4 && s[0] == 0x26 && s[1] == 0x6c && s[2] == 0x74 && s[3] == 0x3b
}

/// Whether `s` starts with `&gt;`.
pub open spec fn at_gt(s: Seq<u8>) -> bool {
    s.len() >= 4 && s[0] == 0x26 && s[1] == 0x67 && s[2] == 0x74 && s[3] == 0x3b
}

/// Whether `s` starts with `&quot;`.
pub open spec fn at_quot(s: Seq<u8>) -> bool {
    s.len() >= 6 && s[0] == 0x26 && s[1] == 0x71 && s[2] == 0x75 && s[3] == 0x6f && s[4] == 0x74
        && s[5] == 0x3b
}

/// Whether `s` starts with `&apos;`.
pub open spec fn at_apos(s: Seq<u8>) -> bool {
    s.len() >= 6 && s[0] == 0x26 && s[1] == 0x61 && s[2] == 0x70 && s[3] == 0x6f && s[4] == 0x73
        && s[5] == 0x3b
}

/// The text that a stretch of character data stands for: the five predefined
/// entities replaced by their characters, everything else kept.
pub open spec fn unescape_text(s: Seq<u8>) -> Seq<u8>
    decreases s.len(),
{
    if s.len() == 0 {
        Seq::empty()
    } else if at_amp(s) {
        seq![0x26u8] + unescape_text(s.skip(5))
    } else if at_lt(s) {
        seq![0x3cu8] + unescape_text(s.skip(4))
    } else if at_gt(s) {
        seq![0x3eu8] + unescape_text(s.skip(4))
    } else if at_quot(s) {
        seq![0x22u8] + unescape_text(s.skip(6))
    } else if at_apos(s) {
        seq![0x27u8] + unescape_text(s.skip(6))
    } else {
        seq![s[0]] + unescape_text(s.skip(1))
    }
}

/// Where the tag `name` is defined: on the active page if it is there, else
/// on the first of the AirSync, Calendar and AirSyncBase pages that has it.
pub open spec fn locate(page: u8, name: Seq<u8>) -> Option<(u8, u8)> {
    if let Some(t) = token_of(page, name) {
        Some((page, t))
    } else if let Some(t) = token_of(PAGE_AIRSYNC, name) {
        Some((PAGE_AIRSYNC, t))
    } else if let Some(t) = token_of(PAGE_CALENDAR, name) {
        Some((PAGE_CALENDAR, t))
    } else if let Some(t) = token_of(PAGE_AIRSYNCBASE, name) {
        Some((PAGE_AIRSYNCBASE, t))
    } else {
        None
    }
}

/// What a piece of markup between `<` and `>` is.
pub enum Piece {
    /// `<Name>` of a known tag, with its page and token.
    Open(u8, u8),
    /// `<Name/>` of a known tag, with its page and token.
    Empty(u8, u8),
    /// `</Name>` of a known tag.
    Close,
    /// Anything else.
    Unknown,
}

/// Classifies what stands between `<` and `>`.
pub open spec fn piece_of(page: u8, inner: Seq<u8>) -> Piece {
    if inner.len() > 0 && inner[0] == 0x2f && locate(page, inner.skip(1)) is Some {
        Piece::Close
    } else if inner.len() > 0 && inner.last() == 0x2f && locate(page, inner.drop_last()) is Some {
        let at = locate(page, inner.drop_last())->0;
        Piece::Empty(at.0, at.1)
    } else if let Some(at) = locate(page, inner) {
        Piece::Open(at.0, at.1)
    } else {
        Piece::Unknown
    }
}

/// The tokens that select `to` where `from` is the active page.
pub open spec fn switch_to(from: u8, to: u8) -> Seq<u8> {
    if from == to {
        Seq::empty()
    } else {
        seq![SWITCH_PAGE, to]
    }
}

/// An inline string: STR_I, the bytes, NUL.
pub open spec fn inline_string(text: Seq<u8>) -> Seq<u8> {
    seq![STR_I] + text + seq![0u8]
}

/// The token stream for markup, with `page` active. Known tags become tag
/// tokens (after a page switch where the tag lives on another page), known
/// closing tags become END, character data becomes an inline string of the
/// text it stands for, and any other markup becomes an inline string of
/// itself.
#[verifier::opaque]
pub open spec fn encode_body(s: Seq<u8>, page: u8) -> Seq<u8>
    decreases s.len(),
{
    if s.len() == 0 {
        Seq::empty()
    } else if s[0] == 0x3c {
        match find_byte(s, 0x3e) {
            Some(j) => if 0 < j < s.len() {
                match piece_of(page, s.subrange(1, j)) {
                    Piece::Open(p, t) => switch_to(page, p) + seq![(t + WITH_CONTENT) as u8]
                        + encode_body(s.skip(j + 1), p),
                    Piece::Empty(p, t) => switch_to(page, p) + seq![t] + encode_body(
                        s.skip(j + 1),
                        p,
                    ),
                    Piece::Close => seq![END] + encode_body(s.skip(j + 1), page),
                    Piece::Unknown => inline_string(s.subrange(0, j + 1)) + encode_body(
                        s.skip(j + 1),
                        page,
                    ),
                }
            } else {
                inline_string(s)
            },
            None => inline_string(s),
        }
    } else {
        match find_byte(s, 0x3c) {
            Some(n) => if 0 < n < s.len() {
                inline_string(unescape_text(s.subrange(0, n))) + encode_body(s.skip(n), page)
            } else {
                inline_string(unescape_text(s))
            },
            None => inline_string(unescape_text(s)),
        }
    }
}

/// The version byte that the encoder writes: WBXML 1.3.
pub const VERSION: u8 = 0x03;

/// The public identifier that the encoder writes: unknown.
pub const PUBLIC_ID: u32 = 1;

/// The character set that the encoder writes: UTF-8.
pub const CHARSET: u32 = 106;

/// The header that the encoder writes: the version, the public identifier,
/// the character set, and the length of an empty string table.
pub open spec fn header() -> Seq<u8> {
    seq![VERSION] + mb_form(PUBLIC_ID as nat) + mb_form(CHARSET as nat) + mb_form(0)
}

/// The document for a markup fragment, or nothing where the fragment holds a
/// NUL byte, which no inline string can carry.
pub open spec fn encode_spec(page: u8, s: Seq<u8>) -> Option<Seq<u8>> {
    if s.contains(0u8) {
        None
    } else {
        Some(header() + encode_body(s, page))
    }
}

/// Attaching two prefixes in turn is attaching their concatenation.
pub proof fn lemma_after_after(a: Seq<u8>, b: Seq<u8>, rest: Option<Seq<u8>>)
    ensures
        after(a, after(b, rest)) == after(a + b, rest),
{
    if let Some(r) = rest {
        assert(a + (b + r) =~= (a + b) + r);
    }
}

/// Attaching nothing changes nothing.
pub proof fn lemma_after_empty(rest: Option<Seq<u8>>)
    ensures
        after(Seq::empty(), rest) == rest,
{
    if let Some(r) = rest {
        assert(Seq::<u8>::empty() + r =~= r);
    }
}

/// What the first occurrence of a byte is: it is there, and not before.
pub proof fn lemma_find_byte(s: Seq<u8>, b: u8)
    ensures
        match find_byte(s, b) {
            Some(k) => 0 <= k < s.len() && s[k] == b && forall|i: int| 0 <= i < k ==> s[i] != b,
            None => forall|i: int| 0 <= i < s.len() ==> s[i] != b,
        },
    decreases s.len(),
{
    if s.len() > 0 && s[0] != b {
        lemma_find_byte(s.skip(1), b);
        assert(forall|i: int| 1 <= i < s.len() ==> s[i] == s.skip(1)[i - 1]);
    }
}

/// A token that the tables give for a name is a tag token.
pub proof fn lemma_token_range(page: u8, name: Seq<u8>, from: int)
    ensures
        token_from(page, name, from) matches Some(t) ==> 5 <= t < 64 && from <= t && tag_bytes(
            page,
            t,
        ) == Some(name),
    decreases 64 - from,
{
    if from < 5 || from >= 64 {
    } else if tag_bytes(page, from as u8) == Some(name) {
    } else {
        lemma_token_range(page, name, from + 1);
    }
}

/// A located tag is a tag token of its page that spells the name.
pub proof fn lemma_locate_token(page: u8, name: Seq<u8>)
    ensures
        locate(page, name) matches Some(at) ==> 5 <= at.1 < 64 && tag_bytes(at.0, at.1) == Some(
            name,
        ),
{
    lemma_token_range(page, name, 5);
    lemma_token_range(PAGE_AIRSYNC, name, 5);
    lemma_token_range(PAGE_CALENDAR, name, 5);
    lemma_token_range(PAGE_AIRSYNCBASE, name, 5);
}

/// Tells whether a byte string holds a NUL byte.
pub fn has_nul(bytes: &[u8]) -> (r: bool)
    ensures
        r == bytes@.contains(0u8),
{
    let mut i: usize = 0;
    while i < bytes.len()
        invariant
            i <= bytes@.len(),
            forall|k: int| 0 <= k < i ==> bytes@[k] != 0,
        decreases bytes@.len() - i,
    {
        if bytes[i] == 0 {
            return true;
        }
        i += 1;
    }
    false
}

/// Reads the multi-byte unsigned integer at `pos`.
pub fn read_mb_uint(bytes: &[u8], pos: usize) -> (r: Option<(u32, usize)>)
    requires
        pos <= bytes@.len(),
    ensures
        match mb_uint(bytes@.skip(pos as int)) {
            Some((v, n)) => r == Some((v as u32, (pos + n) as usize)) && 1 <= n <= 5 && v <= u32::MAX
                && pos + n <= bytes@.len(),
            None => r is None,
        },
{
    let mut acc: u64 = 0;
    let mut i: usize = pos;
    let mut used: u8 = 0;
    loop
        invariant
            pos <= i <= bytes@.len(),
            used <= 5,
            i == pos + used,
            used == 0 ==> acc == 0,
            used == 1 ==> acc < 0x80,
            used == 2 ==> acc < 0x4000,
            used == 3 ==> acc < 0x20_0000,
            used == 4 ==> acc < 0x1000_0000,
            used == 5 ==> acc < 0x8_0000_0000,
            mb_uint(bytes@.skip(pos as int)) == mb_groups(bytes@.skip(i as int), acc as nat, used as int),
        decreases bytes@.len() - i,
    {
        if i >= bytes.len() || used >= 5 {
            return None;
        }
        let b = bytes[i];
        assert(bytes@.skip(i as int)[0] == b);
        assert(bytes@.skip(i as int).skip(1) =~= bytes@.skip(i + 1));
        let v: u64 = acc * 128 + (b % 128) as u64;
        if b >= 0x80 {
            acc = v;
            i += 1;
            used += 1;
        } else if v > 0xffff_ffff {
            return None;
        } else {
            return Some((v as u32, i + 1));
        }
    }
}

/// Writes a number as a multi-byte unsigned integer, in the fewest groups.
pub fn push_mb_uint(out: &mut Vec<u8>, v: u32)
    ensures
        final(out)@ == old(out)@ + mb_form(v as nat),
{
    let ghost start = out@;
    let g4: u32 = v / 268_435_456;
    let g3: u32 = (v / 2_097_152) % 128;
    let g2: u32 = (v / 16_384) % 128;
    let g1: u32 = (v / 128) % 128;
    let g0: u32 = v % 128;
    let ghost q1 = (v / 128) as nat;
    let ghost q2 = (v / 16_384) as nat;
    let ghost q3 = (v / 2_097_152) as nat;
    let ghost q4 = (v / 268_435_456) as nat;
    proof {
        assert(q4 < 128);
        assert(q4 / 128 == 0);
        assert(q3 / 128 == q4 && q3 % 128 == g3);
        assert(q2 / 128 == q3 && q2 % 128 == g2);
        assert(q1 / 128 == q2 && q1 % 128 == g1);
        assert(mb_leading(0) =~= Seq::<u8>::empty());
        assert(start + mb_leading(0) =~= start);
    }
    if v >= 268_435_456 {
        out.push((128 + g4) as u8);
    }
    assert(out@ =~= start + mb_leading(q4)) by {
        reveal_with_fuel(mb_leading, 2);
    }
    if v >= 2_097_152 {
        out.push((128 + g3) as u8);
    }
    assert(out@ =~= start + mb_leading(q3));
    if v >= 16_384 {
        out.push((128 + g2) as u8);
    }
    assert(out@ =~= start + mb_leading(q2));
    if v >= 128 {
        out.push((128 + g1) as u8);
    }
    assert(out@ =~= start + mb_leading(q1));
    out.push(g0 as u8);
    assert(out@ =~= start + mb_form(v as nat));
}

/// Finds the first occurrence of `b` at or after `pos`.
pub fn find_from(bytes: &[u8], pos: usize, b: u8) -> (r: Option<usize>)
    requires
        pos <= bytes@.len(),
    ensures
        match find_byte(bytes@.skip(pos as int), b) {
            Some(k) => r == Some((pos + k) as usize) && 0 <= k && pos + k < bytes@.len(),
            None => r is None,
        },
{
    let mut i: usize = pos;
    while i < bytes.len()
        invariant
            pos <= i <= bytes@.len(),
            find_byte(bytes@.skip(pos as int), b) == match find_byte(bytes@.skip(i as int), b) {
                Some(k) => Some(k + (i - pos)),
                None => None,
            },
        decreases bytes@.len() - i,
    {
        assert(bytes@.skip(i as int)[0] == bytes@[i as int]);
        assert(bytes@.skip(i as int).skip(1) =~= bytes@.skip(i + 1));
        if bytes[i] == b {
            return Some(i);
        }
        i += 1;
    }
    None
}

/// Writes a stretch of text as markup.
pub fn push_escaped(out: &mut Vec<u8>, bytes: &[u8], from: usize, to: usize)
    requires
        from <= to <= bytes@.len(),
    ensures
        final(out)@ == old(out)@ + escape_text(bytes@.subrange(from as int, to as int)),
{
    let mut i: usize = from;
    let ghost tail_all = escape_text(bytes@.subrange(from as int, to as int));
    while i < to
        invariant
            from <= i <= to <= bytes@.len(),
            old(out)@ + tail_all == out@ + escape_text(bytes@.subrange(i as int, to as int)),
        decreases to - i,
    {
        let b = bytes[i];
        let ghost before = out@;
        assert(bytes@.subrange(i as int, to as int)[0] == b);
        assert(bytes@.subrange(i as int, to as int).skip(1) =~= bytes@.subrange(i + 1, to as int));
        if b == 0x26 {
            out.push(0x26);
            out.push(0x61);
            out.push(0x6d);
            out.push(0x70);
            out.push(0x3b);
        } else if b == 0x3c {
            out.push(0x26);
            out.push(0x6c);
            out.push(0x74);
            out.push(0x3b);
        } else if b == 0x3e {
            out.push(0x26);
            out.push(0x67);
            out.push(0x74);
            out.push(0x3b);
        } else {
            out.push(b);
        }
        assert(out@ =~= before + escape_byte(b));
        assert(before + (escape_byte(b) + escape_text(bytes@.subrange(i + 1, to as int)))
            =~= (before + escape_byte(b)) + escape_text(bytes@.subrange(i + 1, to as int)));
        i += 1;
    }
    assert(escape_text(bytes@.subrange(to as int, to as int)) =~= Seq::<u8>::empty());
    assert(out@ + Seq::<u8>::empty() =~= out@);
}

/// Measures the document header at the start of `bytes`.
pub fn read_header(bytes: &[u8]) -> (r: Option<usize>)
    ensures
        match header_len(bytes@) {
            Some(h) => r == Some(h as usize) && 4 <= h <= bytes@.len(),
            None => r is None,
        },
{
    if bytes.len() == 0 {
        return None;
    }
    let at_charset = match read_mb_uint(bytes, 1) {
        Some((_, next)) => next,
        None => { return None; },
    };
    let at_table_len = match read_mb_uint(bytes, at_charset) {
        Some((_, next)) => next,
        None => { return None; },
    };
    let (table, at_table) = match read_mb_uint(bytes, at_table_len) {
        Some(r) => r,
        None => { return None; },
    };
    if table as u64 > (bytes.len() - at_table) as u64 {
        return None;
    }
    Some(at_table + table as usize)
}

/// Writes `<Name>`.
fn push_open(out: &mut Vec<u8>, name: &[u8])
    ensures
        final(out)@ == old(out)@ + open_markup(name@),
{
    out.push(0x3c);
    push_all(out, name);
    out.push(0x3e);
    assert(out@ =~= old(out)@ + open_markup(name@));
}

/// Writes `</Name>`.
fn push_close(out: &mut Vec<u8>, name: &[u8])
    ensures
        final(out)@ == old(out)@ + close_markup(name@),
{
    out.push(0x3c);
    out.push(0x2f);
    push_all(out, name);
    out.push(0x3e);
    assert(out@ =~= old(out)@ + close_markup(name@));
}

/// Writes `<Name/>`.
fn push_empty(out: &mut Vec<u8>, name: &[u8])
    ensures
        final(out)@ == old(out)@ + empty_markup(name@),
{
    out.push(0x3c);
    push_all(out, name);
    out.push(0x2f);
    out.push(0x3e);
    assert(out@ =~= old(out)@ + empty_markup(name@));
}

/// Writes the text that a stretch of character data stands for.
pub fn push_unescaped(out: &mut Vec<u8>, bytes: &[u8], from: usize, to: usize)
    requires
        from <= to <= bytes@.len(),
    ensures
        final(out)@ == old(out)@ + unescape_text(bytes@.subrange(from as int, to as int)),
{
    let mut i: usize = from;
    let ghost all = unescape_text(bytes@.subrange(from as int, to as int));
    while i < to
        invariant
            from <= i <= to <= bytes@.len(),
            old(out)@ + all == out@ + unescape_text(bytes@.subrange(i as int, to as int)),
        decreases to - i,
    {
        let ghost before = out@;
        let ghost rest = bytes@.subrange(i as int, to as int);
        let left = to - i;
        let b = bytes[i];
        assert(rest[0] == b);
        assert(forall|k: int| 0 <= k < left ==> rest[k] == bytes@[i + k]);
        let step: usize;
        let c: u8;
        if b == 0x26 && left >= 5 && bytes[i + 1] == 0x61 && bytes[i + 2] == 0x6d && bytes[i + 3]
            == 0x70 && bytes[i + 4] == 0x3b {
            step = 5;
            c = 0x26;
        } else if b == 0x26 && left >= 4 && bytes[i + 1] == 0x6c && bytes[i + 2] == 0x74 && bytes[i
            + 3] == 0x3b {
            step = 4;
            c = 0x3c;
        } else if b == 0x26 && left >= 4 && bytes[i + 1] == 0x67 && bytes[i + 2] == 0x74 && bytes[i
            + 3] == 0x3b {
            step = 4;
            c = 0x3e;
        } else if b == 0x26 && left >= 6 && bytes[i + 1] == 0x71 && bytes[i + 2] == 0x75 && bytes[i
            + 3] == 0x6f && bytes[i + 4] == 0x74 && bytes[i + 5] == 0x3b {
            step = 6;
            c = 0x22;
        } else if b == 0x26 && left >= 6 && bytes[i + 1] == 0x61 && bytes[i + 2] == 0x70 && bytes[i
            + 3] == 0x6f && bytes[i + 4] == 0x73 && bytes[i + 5] == 0x3b {
            step = 6;
            c = 0x27;
        } else {
            step = 1;
            c = b;
        }
        out.push(c);
        proof {
            let next = bytes@.subrange(i + step, to as int);
            assert(rest.skip(step as int) =~= next);
            assert(unescape_text(rest) == seq![c] + unescape_text(next));
            assert(out@ =~= before + seq![c]);
            assert(before + (seq![c] + unescape_text(next)) =~= (before + seq![c]) + unescape_text(
                next,
            ));
        }
        i += step;
    }
    assert(unescape_text(bytes@.subrange(to as int, to as int)) =~= Seq::<u8>::empty());
    assert(out@ + Seq::<u8>::empty() =~= out@);
}

/// Writes an inline string that carries a stretch of character data.
fn push_text(out: &mut Vec<u8>, bytes: &[u8], from: usize, to: usize)
    requires
        from <= to <= bytes@.len(),
    ensures
        final(out)@ == old(out)@ + inline_string(unescape_text(bytes@.subrange(from as int, to as int))),
{
    out.push(STR_I);
    push_unescaped(out, bytes, from, to);
    out.push(0);
    assert(out@ =~= old(out)@ + inline_string(unescape_text(bytes@.subrange(from as int, to as int))));
}

/// Writes an inline string that carries a stretch of markup as it stands.
fn push_literal(out: &mut Vec<u8>, bytes: &[u8], from: usize, to: usize)
    requires
        from <= to <= bytes@.len(),
    ensures
        final(out)@ == old(out)@ + inline_string(bytes@.subrange(from as int, to as int)),
{
    out.push(STR_I);
    push_range(out, bytes, from, to);
    out.push(0);
    assert(out@ =~= old(out)@ + inline_string(bytes@.subrange(from as int, to as int)));
}

/// Writes the page switch that a tag on page `to` needs.
fn push_switch(out: &mut Vec<u8>, from: u8, to: u8)
    ensures
        final(out)@ == old(out)@ + switch_to(from, to),
{
    if from != to {
        out.push(SWITCH_PAGE);
        out.push(to);
    }
    assert(out@ =~= old(out)@ + switch_to(from, to));
}

/// Token tables of the code pages, with the page that is active when a
/// document starts.
pub struct Wbxml {
    pub codepage: u8,
}

impl Wbxml {
    /// A codec whose documents start on the AirSync page.
    pub fn new() -> (w: Wbxml)
        ensures
            w.codepage == PAGE_AIRSYNC,
    {
        Wbxml { codepage: PAGE_AIRSYNC }
    }

    /// Looks a token up on a code page.
    pub fn token_to_tag(&self, page: u8, token: u8) -> (r: Option<&'static str>)
        ensures
            r == tag_name(page, token),
    {
        if page == 0 {
            if token == 0x05 { Some("Sync") }
            else if token == 0x06 { Some("Responses") }
            else if token == 0x07 { Some("Add") }
            else if token == 0x08 { Some("Change") }
            else if token == 0x09 { Some("Delete") }
            else if token == 0x0B { Some("SyncKey") }
            else if token == 0x0C { Some("ClientId") }
            else if token == 0x0D { Some("ServerId") }
            else if token == 0x0E { Some("Status") }
            else if token == 0x0F { Some("Collection") }
            else if token == 0x10 { Some("Class") }
            else if token == 0x12 { Some("CollectionId") }
            else if token == 0x26 { Some("Commands") }
            else if token == 0x2A { Some("ApplicationData") }
            else { None }
        } else if page == 4 {
            if token == 0x05 { Some("Timezone") }
            else if token == 0x06 { Some("AllDayEvent") }
            else if token == 0x07 { Some("Attendees") }
            else if token == 0x08 { Some("Attendee") }
            else if token == 0x0B { Some("StartTime") }
            else if token == 0x0C { Some("EndTime") }
            else if token == 0x11 { Some("DtStamp") }
            else if token == 0x13 { Some("Subject") }
            else if token == 0x14 { Some("Location") }
            else if token == 0x15 { Some("Body") }
            else if token == 0x1B { Some("Recurrence") }
            else if token == 0x23 { Some("Organizer") }
            else if token == 0x24 { Some("RecurrenceId") }
            else if token == 0x27 { Some("Recurrences") }
            else { None }
        } else if page == 17 {
            if token == 0x05 { Some("BodyPreference") }
            else if token == 0x06 { Some("Type") }
            else if token == 0x0A { Some("Body") }
            else if token == 0x0B { Some("Data") }
            else if token == 0x0C { Some("EstimatedDataSize") }
            else if token == 0x0D { Some("Truncated") }
            else { None }
        } else {
            None
        }
    }

    /// Finds the token of a tag on a code page.
    pub fn tag_to_token(&self, page: u8, tag: &str) -> (r: Option<u8>)
        ensures
            r == token_of(page, tag.spec_bytes()),
    {
        let bytes = tag.as_bytes();
        assert(bytes@.subrange(0, bytes@.len() as int) =~= bytes@);
        self.find_token(page, bytes, 0, bytes.len())
    }

    /// Finds the token of the tag spelled by a stretch of bytes.
    pub fn find_token(&self, page: u8, doc: &[u8], from: usize, to: usize) -> (r: Option<u8>)
        requires
            from <= to <= doc@.len(),
        ensures
            r == token_of(page, doc@.subrange(from as int, to as int)),
    {
        let ghost name = doc@.subrange(from as int, to as int);
        let mut t: u8 = 5;
        while t < 64
            invariant
                5 <= t <= 64,
                from <= to <= doc@.len(),
                name == doc@.subrange(from as int, to as int),
                token_of(page, name) == token_from(page, name, t as int),
            decreases 64 - t,
        {
            match self.token_to_tag(page, t) {
                Some(s) => {
                    if range_eq(doc, from, to, s.as_bytes()) {
                        return Some(t);
                    }
                },
                None => {},
            }
            t += 1;
        }
        None
    }

    /// Decodes the token stream that starts at `start`, with `page` active.
    pub fn decode_tokens(&self, bytes: &[u8], start: usize, page: u8) -> (r: Option<Vec<u8>>)
        requires
            start <= bytes@.len(),
        ensures
            match decode_body(bytes@.skip(start as int), page, Seq::empty()) {
                Some(xml) => r matches Some(v) && v@ == xml,
                None => r is None,
            },
    {
        let ghost whole = decode_body(bytes@.skip(start as int), page, Seq::empty());
        let mut out: Vec<u8> = Vec::new();
        let mut open: Vec<(u8, u8)> = Vec::new();
        let mut cur: u8 = page;
        let mut pos: usize = start;
        proof {
            lemma_after_empty(whole);
        }
        while pos < bytes.len()
            invariant
                start <= pos <= bytes@.len(),
                whole == decode_body(bytes@.skip(start as int), page, Seq::empty()),
                whole == after(out@, decode_body(bytes@.skip(pos as int), cur, open@)),
                forall|k: int| 0 <= k < open@.len() ==> tag_name(open@[k].0, open@[k].1) is Some,
            decreases bytes@.len() - pos,
        {
            let ghost rest = bytes@.skip(pos as int);
            let ghost out0 = out@;
            let t = bytes[pos];
            reveal(decode_body);
            assert(rest[0] == t);
            assert(rest.skip(1) =~= bytes@.skip(pos + 1));
            if t == SWITCH_PAGE {
                if pos + 1 >= bytes.len() {
                    return None;
                }
                assert(rest[1] == bytes@[pos + 1]);
                assert(rest.skip(2) =~= bytes@.skip(pos + 2));
                cur = bytes[pos + 1];
                pos += 2;
            } else if t == END {
                match open.pop() {
                    None => { return None; },
                    Some((p, id)) => {
                        match self.token_to_tag(p, id) {
                            Some(name) => {
                                push_close(&mut out, name.as_bytes());
                            },
                            None => { return None; },
                        }
                        proof {
                            lemma_after_after(
                                out0,
                                close_markup(name_of((p, id))),
                                decode_body(rest.skip(1), cur, open@),
                            );
                        }
                        pos += 1;
                    },
                }
            } else if t == STR_I {
                match find_from(bytes, pos + 1, 0) {
                    None => { return None; },
                    Some(z) => {
                        push_escaped(&mut out, bytes, pos + 1, z);
                        proof {
                            let n = z - (pos + 1);
                            assert(rest.subrange(1, 1 + n) =~= bytes@.subrange(pos + 1, z as int));
                            assert(rest.skip(2 + n) =~= bytes@.skip(z + 1));
                            lemma_after_after(
                                out0,
                                escape_text(rest.subrange(1, 1 + n)),
                                decode_body(rest.skip(2 + n), cur, open@),
                            );
                        }
                        pos = z + 1;
                    },
                }
            } else if t >= WITH_ATTRIBUTES || t % 64 < 5 {
                return None;
            } else {
                let id = t % 64;
                match self.token_to_tag(cur, id) {
                    None => { return None; },
                    Some(name) => {
                        if t >= WITH_CONTENT {
                            push_open(&mut out, name.as_bytes());
                            let ghost open0 = open@;
                            open.push((cur, id));
                            proof {
                                lemma_after_after(
                                    out0,
                                    open_markup(name.spec_bytes()),
                                    decode_body(rest.skip(1), cur, open0.push((cur, id))),
                                );
                            }
                        } else {
                            push_empty(&mut out, name.as_bytes());
                            proof {
                                lemma_after_after(
                                    out0,
                                    empty_markup(name.spec_bytes()),
                                    decode_body(rest.skip(1), cur, open@),
                                );
                            }
                        }
                        pos += 1;
                    },
                }
            }
        }
        reveal(decode_body);
        if open.len() != 0 {
            return None;
        }
        assert(out@ + Seq::<u8>::empty() =~= out@);
        Some(out)
    }

    /// Decodes a payload into markup. A payload that already begins with `<`
    /// is markup and comes back unchanged. Anything else is read as a WBXML
    /// document whose token stream starts on the codec's page. Fails with a
    /// format error on an empty payload, a malformed header or token stream,
    /// and on a result that is not valid UTF-8.
    pub fn decode(&self, bytes: &[u8]) -> (r: Result<String, GatewayError>)
        ensures
            match decode_spec(self.codepage, bytes@) {
                Some(xml) => if valid_utf8(xml) {
                    r matches Ok(s) && encode_utf8(s@) == xml
                } else {
                    r == Err::<String, GatewayError>(GatewayError::Format)
                },
                None => r == Err::<String, GatewayError>(GatewayError::Format),
            },
    {
        if bytes.len() == 0 {
            return Err(GatewayError::Format);
        }
        let xml: Vec<u8> = if bytes[0] == 0x3c {
            let mut v: Vec<u8> = Vec::new();
            push_all(&mut v, bytes);
            assert(v@ =~= bytes@);
            v
        } else {
            let start = match read_header(bytes) {
                Some(h) => h,
                None => { return Err(GatewayError::Format); },
            };
            match self.decode_tokens(bytes, start, self.codepage) {
                Some(v) => v,
                None => { return Err(GatewayError::Format); },
            }
        };
        match string_from_utf8(xml) {
            Some(s) => Ok(s),
            None => Err(GatewayError::Format),
        }
    }

    /// Finds the page and token of the tag spelled by a stretch of bytes,
    /// preferring the active page.
    pub fn locate_tag(&self, page: u8, doc: &[u8], from: usize, to: usize) -> (r: Option<(u8, u8)>)
        requires
            from <= to <= doc@.len(),
        ensures
            r == locate(page, doc@.subrange(from as int, to as int)),
    {
        if let Some(t) = self.find_token(page, doc, from, to) {
            Some((page, t))
        } else if let Some(t) = self.find_token(PAGE_AIRSYNC, doc, from, to) {
            Some((PAGE_AIRSYNC, t))
        } else if let Some(t) = self.find_token(PAGE_CALENDAR, doc, from, to) {
            Some((PAGE_CALENDAR, t))
        } else if let Some(t) = self.find_token(PAGE_AIRSYNCBASE, doc, from, to) {
            Some((PAGE_AIRSYNCBASE, t))
        } else {
            None
        }
    }

    /// Classifies the markup between a `<` at `from - 1` and a `>` at `to`.
    pub fn classify(&self, page: u8, doc: &[u8], from: usize, to: usize) -> (r: Piece)
        requires
            from <= to <= doc@.len(),
        ensures
            r == piece_of(page, doc@.subrange(from as int, to as int)),
    {
        let ghost inner = doc@.subrange(from as int, to as int);
        if from < to && doc[from] == 0x2f {
            assert(inner[0] == doc@[from as int]);
            assert(inner.skip(1) =~= doc@.subrange(from + 1, to as int));
            if self.locate_tag(page, doc, from + 1, to).is_some() {
                return Piece::Close;
            }
        }
        if from < to && doc[to - 1] == 0x2f {
            assert(inner.last() == doc@[to - 1]);
            assert(inner.drop_last() =~= doc@.subrange(from as int, to - 1));
            if let Some((p, t)) = self.locate_tag(page, doc, from, to - 1) {
                return Piece::Empty(p, t);
            }
        }
        match self.locate_tag(page, doc, from, to) {
            Some((p, t)) => Piece::Open(p, t),
            None => Piece::Unknown,
        }
    }

    /// Encodes a markup fragment as a WBXML document whose token stream
    /// starts on the codec's page. No tag makes it fail: what the tables do
    /// not know travels as an inline string. Only a NUL byte in the fragment
    /// is refused, with a format error.
    pub fn encode(&self, xml: &str) -> (r: Result<Vec<u8>, GatewayError>)
        ensures
            match encode_spec(self.codepage, xml.spec_bytes()) {
                Some(doc) => r matches Ok(v) && v@ == doc,
                None => r == Err::<Vec<u8>, GatewayError>(GatewayError::Format),
            },
    {
        let bytes = xml.as_bytes();
        if has_nul(bytes) {
            return Err(GatewayError::Format);
        }
        let mut out: Vec<u8> = Vec::new();
        out.push(VERSION);
        push_mb_uint(&mut out, PUBLIC_ID);
        push_mb_uint(&mut out, CHARSET);
        push_mb_uint(&mut out, 0);
        assert(out@ =~= header());
        let ghost whole = header() + encode_body(bytes@, self.codepage);
        let mut cur: u8 = self.codepage;
        let mut pos: usize = 0;
        assert(bytes@.skip(0) =~= bytes@);
        while pos < bytes.len()
            invariant
                pos <= bytes@.len(),
                whole == out@ + encode_body(bytes@.skip(pos as int), cur),
            decreases bytes@.len() - pos,
        {
            let ghost rest = bytes@.skip(pos as int);
            let ghost out0 = out@;
            reveal(encode_body);
            assert(rest[0] == bytes@[pos as int]);
            if bytes[pos] == 0x3c {
                match find_from(bytes, pos, 0x3e) {
                    None => {
                        push_literal(&mut out, bytes, pos, bytes.len());
                        assert(bytes@.subrange(pos as int, bytes@.len() as int) =~= rest);
                        pos = bytes.len();
                    },
                    Some(z) => {
                        let ghost j = z - pos;
                        proof {
                            lemma_find_byte(rest, 0x3e);
                        }
                        assert(rest.subrange(1, j) =~= bytes@.subrange(pos + 1, z as int));
                        assert(rest.subrange(0, j + 1) =~= bytes@.subrange(pos as int, z + 1));
                        assert(rest.skip(j + 1) =~= bytes@.skip(z + 1));
                        let ghost tail = |p: u8| encode_body(rest.skip(j + 1), p);
                        match self.classify(cur, bytes, pos + 1, z) {
                            Piece::Open(p, t) => {
                                push_switch(&mut out, cur, p);
                                assert(5 <= t < 64) by {
                                    lemma_locate_token(cur, rest.subrange(1, j));
                                }
                                out.push(t + WITH_CONTENT);
                                assert(out@ + tail(p) =~= out0 + (switch_to(cur, p) + seq![
                                    (t + WITH_CONTENT) as u8,
                                ] + tail(p)));
                                cur = p;
                            },
                            Piece::Empty(p, t) => {
                                push_switch(&mut out, cur, p);
                                out.push(t);
                                assert(out@ + tail(p) =~= out0 + (switch_to(cur, p) + seq![t]
                                    + tail(p)));
                                cur = p;
                            },
                            Piece::Close => {
                                out.push(END);
                                assert(out@ + tail(cur) =~= out0 + (seq![END] + tail(cur)));
                            },
                            Piece::Unknown => {
                                push_literal(&mut out, bytes, pos, z + 1);
                                assert(out@ + tail(cur) =~= out0 + (inline_string(rest.subrange(0, j + 1))
                                    + tail(cur)));
                            },
                        }
                        pos = z + 1;
                    },
                }
            } else {
                match find_from(bytes, pos, 0x3c) {
                    None => {
                        push_text(&mut out, bytes, pos, bytes.len());
                        assert(bytes@.subrange(pos as int, bytes@.len() as int) =~= rest);
                        pos = bytes.len();
                    },
                    Some(z) => {
                        let ghost n = z - pos;
                        proof {
                            lemma_find_byte(rest, 0x3c);
                        }
                        assert(rest.subrange(0, n) =~= bytes@.subrange(pos as int, z as int));
                        assert(rest.skip(n) =~= bytes@.skip(z as int));
                        push_text(&mut out, bytes, pos, z);
                        assert(out@ + encode_body(rest.skip(n), cur) =~= out0 + (inline_string(
                            unescape_text(rest.subrange(0, n)),
                        ) + encode_body(rest.skip(n), cur)));
                        pos = z;
                    },
                }
            }
            assert(bytes@.skip(bytes@.len() as int) =~= Seq::<u8>::empty());
            assert(out@ + Seq::<u8>::empty() =~= out@);
        }
        reveal(encode_body);
        assert(bytes@.skip(bytes@.len() as int) =~= Seq::<u8>::empty());
        assert(out@ + Seq::<u8>::empty() =~= out@);
        Ok(out)
    }
}

} // verus!
