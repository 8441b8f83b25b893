//! What holds of the WBXML codec as a whole.

use vstd::prelude::*;
use vstd::string::*;
use vstd::utf8::*;
use crate::wbxml::{
    after, close_markup, decode_body, decode_spec, empty_markup, encode_body, encode_spec, escape_byte,
    escape_text, find_byte, header, header_len, inline_string, lemma_find_byte, lemma_locate_token,
    lemma_token_range, locate, mb_form, mb_groups, mb_leading, mb_uint, name_of, open_markup,
    piece_of, switch_to, tag_bytes, tag_name, token_from, token_of, unescape_text, Piece, END,
    STR_I, SWITCH_PAGE, WITH_CONTENT,
};

verus! {

/// Whether a byte is an ASCII letter.
pub open spec fn is_letter(b: u8) -> bool {
    (0x41 <= b <= 0x5a) || (0x61 <= b <= 0x7a)
}

/// Whether a byte string is a non-empty run of ASCII letters.
pub open spec fn is_word(s: Seq<u8>) -> bool {
    s.len() > 0 && forall|i: int| 0 <= i < s.len() ==> is_letter(#[trigger] s[i])
}

/// Whether a character is an ASCII letter.
pub open spec fn is_letter_char(c: char) -> bool {
    ('A' <= c && c <= 'Z') || ('a' <= c && c <= 'z')
}

/// The bytes of a text made of ASCII letters are those letters.
proof fn lemma_ascii_word(s: &str)
    requires
        s@.len() > 0,
        forall|i: int| 0 <= i < s@.len() ==> is_letter_char(#[trigger] s@[i]),
    ensures
        is_word(s.spec_bytes()),
{
    assert(is_ascii_chars(s@));
    is_ascii_chars_encode_utf8(s@);
    let b = s.spec_bytes();
    assert forall|i: int| 0 <= i < b.len() implies is_letter(#[trigger] b[i]) by {
        assert(b[i] == s@[i] as u8);
    }
}

/// Every tag of the AirSync page is a word.
proof fn lemma_words_airsync(token: u8)
    ensures
        tag_bytes(0, token) matches Some(n) ==> is_word(n),
{
    reveal_strlit("Sync");
    reveal_strlit("Responses");
    reveal_strlit("Add");
    reveal_strlit("Change");
    reveal_strlit("Delete");
    reveal_strlit("SyncKey");
    reveal_strlit("ClientId");
    reveal_strlit("ServerId");
    reveal_strlit("Status");
    reveal_strlit("Collection");
    reveal_strlit("Class");
    reveal_strlit("CollectionId");
    reveal_strlit("Commands");
    reveal_strlit("ApplicationData");
    if let Some(s) = tag_name(0, token) {
        lemma_ascii_word(s);
    }
}

/// Every tag of the Calendar page is a word.
proof fn lemma_words_calendar(token: u8)
    ensures
        tag_bytes(4, token) matches Some(n) ==> is_word(n),
{
    reveal_strlit("Timezone");
    reveal_strlit("AllDayEvent");
    reveal_strlit("Attendees");
    reveal_strlit("Attendee");
    reveal_strlit("StartTime");
    reveal_strlit("EndTime");
    reveal_strlit("DtStamp");
    reveal_strlit("Subject");
    reveal_strlit("Location");
    reveal_strlit("Body");
    reveal_strlit("Recurrence");
    reveal_strlit("Organizer");
    reveal_strlit("RecurrenceId");
    reveal_strlit("Recurrences");
    if let Some(s) = tag_name(4, token) {
        lemma_ascii_word(s);
    }
}

/// Every tag of the AirSyncBase page is a word.
proof fn lemma_words_airsyncbase(token: u8)
    ensures
        tag_bytes(17, token) matches Some(n) ==> is_word(n),
{
    reveal_strlit("BodyPreference");
    reveal_strlit("Type");
    reveal_strlit("Body");
    reveal_strlit("Data");
    reveal_strlit("EstimatedDataSize");
    reveal_strlit("Truncated");
    if let Some(s) = tag_name(17, token) {
        lemma_ascii_word(s);
    }
}

/// Every tag in the tables is a non-empty run of ASCII letters.
pub proof fn lemma_tag_is_word(page: u8, token: u8)
    ensures
        tag_bytes(page, token) matches Some(n) ==> is_word(n),
{
    if page == 0 {
        lemma_words_airsync(token);
    } else if page == 4 {
        lemma_words_calendar(token);
    } else if page == 17 {
        lemma_words_airsyncbase(token);
    }
}

/// Two texts with different characters have different bytes.
proof fn lemma_bytes_differ(a: &str, b: &str)
    requires
        a@ != b@,
    ensures
        a.spec_bytes() != b.spec_bytes(),
{
    encode_utf8_decode_utf8(a@);
    encode_utf8_decode_utf8(b@);
}

/// No two tokens of the AirSync page stand for the same tag.
proof fn lemma_distinct_airsync(a: u8, b: u8)
    requires
        a != b,
        tag_name(0, a) is Some,
    ensures
        tag_bytes(0, a) != tag_bytes(0, b),
{
    reveal_strlit("Sync");
    reveal_strlit("Responses");
    reveal_strlit("Add");
    reveal_strlit("Change");
    reveal_strlit("Delete");
    reveal_strlit("SyncKey");
    reveal_strlit("ClientId");
    reveal_strlit("ServerId");
    reveal_strlit("Status");
    reveal_strlit("Collection");
    reveal_strlit("Class");
    reveal_strlit("CollectionId");
    reveal_strlit("Commands");
    reveal_strlit("ApplicationData");
    if let Some(y) = tag_name(0, b) {
        let x = tag_name(0, a)->0;
        assert(x@ != y@) by {
            if x@.len() == y@.len() {
                assert(x@[0] != y@[0] || x@[1] != y@[1] || x@[2] != y@[2]);
            }
        }
        lemma_bytes_differ(x, y);
    }
}

/// No two tokens of the Calendar page stand for the same tag.
proof fn lemma_distinct_calendar(a: u8, b: u8)
    requires
        a != b,
        tag_name(4, a) is Some,
    ensures
        tag_bytes(4, a) != tag_bytes(4, b),
{
    reveal_strlit("Timezone");
    reveal_strlit("AllDayEvent");
    reveal_strlit("Attendees");
    reveal_strlit("Attendee");
    reveal_strlit("StartTime");
    reveal_strlit("EndTime");
    reveal_strlit("DtStamp");
    reveal_strlit("Subject");
    reveal_strlit("Location");
    reveal_strlit("Body");
    reveal_strlit("Recurrence");
    reveal_strlit("Organizer");
    reveal_strlit("RecurrenceId");
    reveal_strlit("Recurrences");
    if let Some(y) = tag_name(4, b) {
        let x = tag_name(4, a)->0;
        assert(x@ != y@) by {
            if x@.len() == y@.len() {
                assert(x@[0] != y@[0]);
            }
        }
        lemma_bytes_differ(x, y);
    }
}

/// No two tokens of the AirSyncBase page stand for the same tag.
proof fn lemma_distinct_airsyncbase(a: u8, b: u8)
    requires
        a != b,
        tag_name(17, a) is Some,
    ensures
        tag_bytes(17, a) != tag_bytes(17, b),
{
    reveal_strlit("BodyPreference");
    reveal_strlit("Type");
    reveal_strlit("Body");
    reveal_strlit("Data");
    reveal_strlit("EstimatedDataSize");
    reveal_strlit("Truncated");
    if let Some(y) = tag_name(17, b) {
        let x = tag_name(17, a)->0;
        assert(x@ != y@) by {
            if x@.len() == y@.len() {
                assert(x@[0] != y@[0]);
            }
        }
        lemma_bytes_differ(x, y);
    }
}

/// No two tokens of a page stand for the same tag.
pub proof fn lemma_distinct_tags(page: u8, a: u8, b: u8)
    requires
        a != b,
        tag_name(page, a) is Some,
    ensures
        tag_bytes(page, a) != tag_bytes(page, b),
{
    if page == 0 {
        lemma_distinct_airsync(a, b);
    } else if page == 4 {
        lemma_distinct_calendar(a, b);
    } else if page == 17 {
        lemma_distinct_airsyncbase(a, b);
    }
}

/// The search for a tag finds the token that stands for it, from wherever
/// at or below that token the search starts.
proof fn lemma_token_found(page: u8, token: u8, name: Seq<u8>, from: int)
    requires
        tag_bytes(page, token) == Some(name),
        5 <= from <= token < 64,
    ensures
        token_from(page, name, from) == Some(token),
    decreases token - from,
{
    if from < token {
        lemma_distinct_tags(page, token, from as u8);
        lemma_token_found(page, token, name, from + 1);
    }
}

/// The tables are bidirectional: on every page, a token stands for a tag
/// exactly when the tag is looked up to that token.
pub proof fn law_tables_bidirectional(page: u8, token: u8, name: Seq<u8>)
    ensures
        tag_bytes(page, token) == Some(name) <==> token_of(page, name) == Some(token),
{
    lemma_token_range(page, name, 5);
    if tag_bytes(page, token) == Some(name) {
        assert(5 <= token < 64);
        lemma_token_found(page, token, name, 5);
    }
}

/// Whether some code page defines the tag.
pub open spec fn known(name: Seq<u8>) -> bool {
    locate(0, name) is Some
}

/// A known tag is a word, and is found whatever page is active.
pub proof fn lemma_known(page: u8, name: Seq<u8>)
    requires
        known(name),
    ensures
        is_word(name),
        locate(page, name) matches Some(at) && 5 <= at.1 < 64 && tag_bytes(at.0, at.1) == Some(name),
{
    lemma_locate_token(page, name);
    let at = locate(page, name)->0;
    lemma_tag_is_word(at.0, at.1);
}

/// One piece of a markup fragment.
pub enum Node {
    /// `<Name>`
    Open(Seq<u8>),
    /// `<Name/>`
    Empty(Seq<u8>),
    /// `</Name>`
    Close(Seq<u8>),
    /// Character data, given as the text it stands for.
    Text(Seq<u8>),
}

/// Whether a piece is built from known tokens: a tag that the tables define,
/// or a non-empty text without a NUL byte.
pub open spec fn node_ok(n: Node) -> bool {
    match n {
        Node::Open(name) => known(name),
        Node::Empty(name) => known(name),
        Node::Close(name) => known(name),
        Node::Text(text) => text.len() > 0 && !text.contains(0u8),
    }
}

/// Whether every piece is built from known tokens and no text follows
/// another text directly.
pub open spec fn plain(nodes: Seq<Node>) -> bool
    decreases nodes.len(),
{
    nodes.len() == 0 || (node_ok(nodes[0]) && (nodes[0] is Text && nodes.len() > 1 ==> !(nodes[1] is Text))
        && plain(nodes.skip(1)))
}

/// Whether the pieces close exactly the elements they open, innermost
/// first, given the names in `open` of the elements that are open already.
pub open spec fn balanced(nodes: Seq<Node>, open: Seq<Seq<u8>>) -> bool
    decreases nodes.len(),
{
    if nodes.len() == 0 {
        open.len() == 0
    } else {
        match nodes[0] {
            Node::Open(name) => balanced(nodes.skip(1), open.push(name)),
            Node::Close(name) => open.len() > 0 && open.last() == name && balanced(
                nodes.skip(1),
                open.drop_last(),
            ),
            _ => balanced(nodes.skip(1), open),
        }
    }
}

/// The markup of one piece.
pub open spec fn render_node(n: Node) -> Seq<u8> {
    match n {
        Node::Open(name) => open_markup(name),
        Node::Empty(name) => empty_markup(name),
        Node::Close(name) => close_markup(name),
        Node::Text(text) => escape_text(text),
    }
}

/// The markup of a fragment.
pub open spec fn render(nodes: Seq<Node>) -> Seq<u8>
    decreases nodes.len(),
{
    if nodes.len() == 0 {
        Seq::empty()
    } else {
        render_node(nodes[0]) + render(nodes.skip(1))
    }
}

/// The token stream of a fragment, with `page` active.
pub open spec fn emit(nodes: Seq<Node>, page: u8) -> Seq<u8>
    decreases nodes.len(),
{
    if nodes.len() == 0 {
        Seq::empty()
    } else {
        match nodes[0] {
            Node::Open(name) => {
                let at = locate(page, name)->0;
                switch_to(page, at.0) + seq![(at.1 + WITH_CONTENT) as u8] + emit(nodes.skip(1), at.0)
            },
            Node::Empty(name) => {
                let at = locate(page, name)->0;
                switch_to(page, at.0) + seq![at.1] + emit(nodes.skip(1), at.0)
            },
            Node::Close(_) => seq![END] + emit(nodes.skip(1), page),
            Node::Text(text) => inline_string(text) + emit(nodes.skip(1), page),
        }
    }
}

/// A byte that stands at `k` and nowhere before is first found at `k`.
pub proof fn lemma_found_at(s: Seq<u8>, b: u8, k: int)
    requires
        0 <= k < s.len(),
        s[k] == b,
        forall|i: int| 0 <= i < k ==> s[i] != b,
    ensures
        find_byte(s, b) == Some(k),
{
    lemma_find_byte(s, b);
}

/// A byte that stands nowhere is not found.
pub proof fn lemma_not_found(s: Seq<u8>, b: u8)
    requires
        forall|i: int| 0 <= i < s.len() ==> s[i] != b,
    ensures
        find_byte(s, b) is None,
{
    lemma_find_byte(s, b);
}

/// Escaped text holds neither `<` nor `>`, is empty only for an empty text,
/// and holds a NUL byte only where the text does.
pub proof fn lemma_escape_shape(text: Seq<u8>)
    ensures
        forall|i: int| 0 <= i < escape_text(text).len() ==> escape_text(text)[i] != 0x3c
            && escape_text(text)[i] != 0x3e,
        text.len() > 0 ==> escape_text(text).len() > 0,
        !text.contains(0u8) ==> !escape_text(text).contains(0u8),
    decreases text.len(),
{
    if text.len() > 0 {
        lemma_escape_shape(text.skip(1));
        let e = escape_byte(text[0]);
        let t = escape_text(text.skip(1));
        assert(escape_text(text) == e + t);
        if !text.contains(0u8) {
            assert(text[0] != 0);
            assert forall|i: int| 0 <= i < text.skip(1).len() implies text.skip(1)[i] != 0 by {
                assert(text.skip(1)[i] == text[i + 1]);
            }
            assert(!text.skip(1).contains(0u8));
            assert forall|i: int| 0 <= i < (e + t).len() implies (e + t)[i] != 0 by {
                if i >= e.len() {
                    assert(t.contains(t[i - e.len()]));
                }
            }
        }
    }
}

/// Reading escaped text gives the text back.
pub proof fn lemma_unescape_escape(text: Seq<u8>)
    ensures
        unescape_text(escape_text(text)) == text,
    decreases text.len(),
{
    if text.len() > 0 {
        lemma_unescape_escape(text.skip(1));
        let e = escape_byte(text[0]);
        let t = escape_text(text.skip(1));
        let s = e + t;
        assert(escape_text(text) == s);
        assert(s.skip(e.len() as int) =~= t);
        assert(seq![text[0]] + text.skip(1) =~= text);
    } else {
        assert(escape_text(text) =~= Seq::<u8>::empty());
    }
}

/// The markup of a non-empty plain fragment is not empty, and begins with
/// `<` unless the fragment begins with a text.
pub proof fn lemma_render_start(nodes: Seq<Node>)
    requires
        plain(nodes),
        nodes.len() > 0,
    ensures
        render(nodes).len() > 0,
        !(nodes[0] is Text) ==> render(nodes)[0] == 0x3c,
        nodes[0] is Text ==> render(nodes)[0] != 0x3c,
{
    match nodes[0] {
        Node::Text(text) => {
            lemma_escape_shape(text);
        },
        _ => {},
    }
}

/// The markup of a plain fragment holds no NUL byte.
pub proof fn lemma_render_no_nul(nodes: Seq<Node>)
    requires
        plain(nodes),
    ensures
        !render(nodes).contains(0u8),
    decreases nodes.len(),
{
    if nodes.len() > 0 {
        lemma_render_no_nul(nodes.skip(1));
        let a = render_node(nodes[0]);
        let b = render(nodes.skip(1));
        match nodes[0] {
            Node::Open(name) => { lemma_known(0, name); },
            Node::Empty(name) => { lemma_known(0, name); },
            Node::Close(name) => { lemma_known(0, name); },
            Node::Text(text) => { lemma_escape_shape(text); },
        }
        assert forall|i: int| 0 <= i < a.len() implies a[i] != 0 by {
            match nodes[0] {
                Node::Open(name) => {
                    if 1 <= i <= name.len() {
                        assert(is_letter(name[i - 1]));
                    }
                },
                Node::Empty(name) => {
                    if 1 <= i <= name.len() {
                        assert(is_letter(name[i - 1]));
                    }
                },
                Node::Close(name) => {
                    if 2 <= i <= name.len() + 1 {
                        assert(is_letter(name[i - 2]));
                    }
                },
                Node::Text(text) => {
                    assert(a.contains(a[i]));
                },
            }
        }
        assert forall|i: int| 0 <= i < (a + b).len() implies (a + b)[i] != 0 by {
            if i >= a.len() {
                assert(b.contains(b[i - a.len()]));
            }
        }
    }
}

/// How markup that ends at its first `>` is encoded.
proof fn lemma_encode_markup(s: Seq<u8>, page: u8, j: int)
    requires
        0 < j < s.len(),
        s[0] == 0x3c,
        s[j] == 0x3e,
        forall|i: int| 0 <= i < j ==> s[i] != 0x3e,
    ensures
        encode_body(s, page) == match piece_of(page, s.subrange(1, j)) {
            Piece::Open(p, t) => switch_to(page, p) + seq![(t + WITH_CONTENT) as u8] + encode_body(
                s.skip(j + 1),
                p,
            ),
            Piece::Empty(p, t) => switch_to(page, p) + seq![t] + encode_body(s.skip(j + 1), p),
            Piece::Close => seq![END] + encode_body(s.skip(j + 1), page),
            Piece::Unknown => inline_string(s.subrange(0, j + 1)) + encode_body(s.skip(j + 1), page),
        },
{
    reveal(encode_body);
    lemma_found_at(s, 0x3e, j);
}

/// How character data that ends at a `<`, or at the end of the fragment, is
/// encoded.
proof fn lemma_encode_chars(chars: Seq<u8>, tail: Seq<u8>, page: u8)
    requires
        chars.len() > 0,
        forall|i: int| 0 <= i < chars.len() ==> chars[i] != 0x3c,
        tail.len() > 0 ==> tail[0] == 0x3c,
    ensures
        encode_body(chars + tail, page) == inline_string(unescape_text(chars)) + encode_body(tail, page),
{
    reveal(encode_body);
    let s = chars + tail;
    let n = chars.len() as int;
    assert(s[0] == chars[0]);
    if tail.len() == 0 {
        assert(s =~= chars);
        lemma_not_found(s, 0x3c);
        assert(encode_body(tail, page) =~= Seq::<u8>::empty());
        assert(inline_string(unescape_text(chars)) + Seq::<u8>::empty() =~= inline_string(
            unescape_text(chars),
        ));
    } else {
        assert forall|i: int| 0 <= i < n implies s[i] != 0x3c by {
            assert(s[i] == chars[i]);
        }
        assert(s[n] == tail[0]);
        lemma_found_at(s, 0x3c, n);
        assert(s.subrange(0, n) =~= chars);
        assert(s.skip(n) =~= tail);
    }
}

/// What stands between `<` and `>` of the markup of a tag is classified as
/// that tag.
proof fn lemma_piece_of_tag(page: u8, name: Seq<u8>)
    requires
        known(name),
    ensures
        piece_of(page, name) == Piece::Open((locate(page, name)->0).0, (locate(page, name)->0).1),
        piece_of(page, name + seq![0x2fu8]) == Piece::Empty(
            (locate(page, name)->0).0,
            (locate(page, name)->0).1,
        ),
        piece_of(page, seq![0x2fu8] + name) == Piece::Close,
{
    lemma_known(page, name);
    assert(is_letter(name[0]));
    assert(is_letter(name.last()));
    let empty = name + seq![0x2fu8];
    assert(empty[0] == name[0]);
    assert(empty.drop_last() =~= name);
    let close = seq![0x2fu8] + name;
    assert(close.skip(1) =~= name);
}

/// Encoding the markup of a plain fragment gives the fragment's tokens.
pub proof fn lemma_encode_render(nodes: Seq<Node>, page: u8)
    requires
        plain(nodes),
    ensures
        encode_body(render(nodes), page) == emit(nodes, page),
    decreases nodes.len(),
{
    if nodes.len() == 0 {
        reveal(encode_body);
        return ;
    }
    let rest = nodes.skip(1);
    let r = render(rest);
    let a = render_node(nodes[0]);
    let s = a + r;
    assert(render(nodes) == s);
    if rest.len() > 0 {
        lemma_render_start(rest);
    }
    match nodes[0] {
        Node::Open(name) => {
            lemma_known(page, name);
            lemma_piece_of_tag(page, name);
            let j = (name.len() + 1) as int;
            assert forall|i: int| 0 <= i < j implies s[i] != 0x3e by {
                if i >= 1 {
                    assert(is_letter(name[i - 1]));
                }
            }
            assert(s.subrange(1, j) =~= name);
            assert(s.skip(j + 1) =~= r);
            lemma_encode_markup(s, page, j);
            lemma_encode_render(rest, (locate(page, name)->0).0);
        },
        Node::Empty(name) => {
            lemma_known(page, name);
            lemma_piece_of_tag(page, name);
            let j = (name.len() + 2) as int;
            assert forall|i: int| 0 <= i < j implies s[i] != 0x3e by {
                if 1 <= i <= name.len() {
                    assert(is_letter(name[i - 1]));
                }
            }
            assert(s.subrange(1, j) =~= name + seq![0x2fu8]);
            assert(s.skip(j + 1) =~= r);
            lemma_encode_markup(s, page, j);
            lemma_encode_render(rest, (locate(page, name)->0).0);
        },
        Node::Close(name) => {
            lemma_known(page, name);
            lemma_piece_of_tag(page, name);
            let j = (name.len() + 2) as int;
            assert forall|i: int| 0 <= i < j implies s[i] != 0x3e by {
                if 2 <= i {
                    assert(is_letter(name[i - 2]));
                }
            }
            assert(s.subrange(1, j) =~= seq![0x2fu8] + name);
            assert(s.skip(j + 1) =~= r);
            lemma_encode_markup(s, page, j);
            lemma_encode_render(rest, page);
        },
        Node::Text(text) => {
            lemma_escape_shape(text);
            lemma_unescape_escape(text);
            lemma_encode_render(rest, page);
            lemma_encode_chars(a, r, page);
        },
    }
}

/// How a tag token is decoded.
proof fn lemma_decode_tag(s: Seq<u8>, page: u8, open: Seq<(u8, u8)>, id: u8, name: Seq<u8>)
    requires
        s.len() > 0,
        5 <= id < 64,
        s[0] == id || s[0] == id + WITH_CONTENT,
        tag_bytes(page, id) == Some(name),
    ensures
        s[0] == id ==> decode_body(s, page, open) == after(
            empty_markup(name),
            decode_body(s.skip(1), page, open),
        ),
        s[0] == id + WITH_CONTENT ==> decode_body(s, page, open) == after(
            open_markup(name),
            decode_body(s.skip(1), page, open.push((page, id))),
        ),
{
    reveal(decode_body);
    assert(s[0] % 64 == id);
}

/// How a page switch is decoded.
proof fn lemma_decode_switch(s: Seq<u8>, page: u8, open: Seq<(u8, u8)>)
    requires
        s.len() >= 2,
        s[0] == SWITCH_PAGE,
    ensures
        decode_body(s, page, open) == decode_body(s.skip(2), s[1], open),
{
    reveal(decode_body);
}

/// How END is decoded.
proof fn lemma_decode_end(s: Seq<u8>, page: u8, open: Seq<(u8, u8)>)
    requires
        s.len() > 0,
        s[0] == END,
        open.len() > 0,
    ensures
        decode_body(s, page, open) == after(
            close_markup(name_of(open.last())),
            decode_body(s.skip(1), page, open.drop_last()),
        ),
{
    reveal(decode_body);
}

/// How an inline string is decoded.
proof fn lemma_decode_inline(text: Seq<u8>, tail: Seq<u8>, page: u8, open: Seq<(u8, u8)>)
    requires
        !text.contains(0u8),
    ensures
        decode_body(inline_string(text) + tail, page, open) == after(
            escape_text(text),
            decode_body(tail, page, open),
        ),
{
    reveal(decode_body);
    let s = inline_string(text) + tail;
    let n = text.len() as int;
    assert(s[0] == STR_I);
    assert forall|i: int| 0 <= i < n implies s.skip(1)[i] != 0 by {
        assert(s.skip(1)[i] == text[i]);
        assert(text.contains(text[i]));
    }
    assert(s.skip(1)[n] == 0);
    lemma_found_at(s.skip(1), 0, n);
    assert(s.subrange(1, 1 + n) =~= text);
    assert(s.skip(2 + n) =~= tail);
}

/// How the end of the tokens is decoded.
proof fn lemma_decode_nothing(page: u8, open: Seq<(u8, u8)>)
    ensures
        decode_body(Seq::empty(), page, open) == if open.len() == 0 {
            Some(Seq::<u8>::empty())
        } else {
            None
        },
{
    reveal(decode_body);
}

/// The names of the elements on a stack of open elements.
pub open spec fn names_of(open: Seq<(u8, u8)>) -> Seq<Seq<u8>> {
    Seq::new(open.len(), |i: int| name_of(open[i]))
}

/// Decoding the tokens of a tag at the front of a fragment.
proof fn lemma_decode_located(
    at: (u8, u8),
    with_content: bool,
    tail: Seq<u8>,
    page: u8,
    open: Seq<(u8, u8)>,
    name: Seq<u8>,
)
    requires
        5 <= at.1 < 64,
        tag_bytes(at.0, at.1) == Some(name),
    ensures
        with_content ==> decode_body(
            switch_to(page, at.0) + seq![(at.1 + WITH_CONTENT) as u8] + tail,
            page,
            open,
        ) == after(open_markup(name), decode_body(tail, at.0, open.push(at))),
        !with_content ==> decode_body(switch_to(page, at.0) + seq![at.1] + tail, page, open) == after(
            empty_markup(name),
            decode_body(tail, at.0, open),
        ),
{
    let tok = if with_content {
        (at.1 + WITH_CONTENT) as u8
    } else {
        at.1
    };
    let body = seq![tok] + tail;
    let s = switch_to(page, at.0) + seq![tok] + tail;
    assert(body[0] == tok);
    assert(body.skip(1) =~= tail);
    lemma_decode_tag(body, at.0, open, at.1, name);
    if page != at.0 {
        assert(s =~= seq![SWITCH_PAGE, at.0] + body);
        assert(s[0] == SWITCH_PAGE && s[1] == at.0);
        assert(s.skip(2) =~= body);
        lemma_decode_switch(s, page, open);
    } else {
        assert(s =~= body);
    }
}

/// Decoding the tokens of a plain, balanced fragment gives its markup.
pub proof fn lemma_decode_emit(nodes: Seq<Node>, page: u8, open: Seq<(u8, u8)>)
    requires
        plain(nodes),
        balanced(nodes, names_of(open)),
    ensures
        decode_body(emit(nodes, page), page, open) == Some(render(nodes)),
    decreases nodes.len(),
{
    if nodes.len() == 0 {
        lemma_decode_nothing(page, open);
        return ;
    }
    let rest = nodes.skip(1);
    match nodes[0] {
        Node::Open(name) => {
            lemma_known(page, name);
            let at = locate(page, name)->0;
            assert(names_of(open.push(at)) =~= names_of(open).push(name));
            lemma_decode_emit(rest, at.0, open.push(at));
            lemma_decode_located(at, true, emit(rest, at.0), page, open, name);
        },
        Node::Empty(name) => {
            lemma_known(page, name);
            let at = locate(page, name)->0;
            lemma_decode_emit(rest, at.0, open);
            lemma_decode_located(at, false, emit(rest, at.0), page, open, name);
        },
        Node::Close(name) => {
            let tail = emit(rest, page);
            let s = seq![END] + tail;
            assert(emit(nodes, page) == s);
            assert(s[0] == END);
            assert(s.skip(1) =~= tail);
            assert(names_of(open.drop_last()) =~= names_of(open).drop_last());
            assert(name_of(open.last()) == names_of(open).last());
            lemma_decode_emit(rest, page, open.drop_last());
            lemma_decode_end(s, page, open);
        },
        Node::Text(text) => {
            lemma_decode_emit(rest, page, open);
            lemma_decode_inline(text, emit(rest, page), page, open);
        },
    }
}

/// Reading the leading groups of a number, after groups worth `acc`, leaves
/// the reader with `acc` shifted and the number added.
proof fn lemma_read_leading(q: nat, rest: Seq<u8>, acc: nat, used: int)
    requires
        0 <= used,
        used + mb_leading(q).len() <= 4,
        rest.len() > 0,
    ensures
        mb_groups(mb_leading(q) + rest, acc, used) == mb_groups(
            rest,
            acc * shift_of(mb_leading(q).len()) + q,
            used + mb_leading(q).len(),
        ),
        q < shift_of(mb_leading(q).len()),
    decreases q,
{
    if q == 0 {
        assert(mb_leading(q) + rest =~= rest);
        assert(acc * shift_of(0) + q == acc) by (nonlinear_arith)
            requires
                shift_of(0) == 1,
                q == 0,
        ;
    } else {
        let lead = mb_leading(q / 128);
        let g = (128 + q % 128) as u8;
        let tail = seq![g] + rest;
        assert(mb_leading(q) =~= lead.push(g));
        assert(mb_leading(q) + rest =~= lead + tail);
        lemma_read_leading(q / 128, tail, acc, used);
        let mid = acc * shift_of(lead.len()) + q / 128;
        let seen = used + lead.len();
        assert(mb_groups(lead + tail, acc, used) == mb_groups(tail, mid, seen));
        assert(tail[0] == g);
        assert(tail.skip(1) =~= rest);
        assert(g % 128 == q % 128);
        assert(g >= 0x80);
        assert(shift_of(mb_leading(q).len()) == shift_of(lead.len()) * 128);
        assert(mid * 128 + q % 128 == acc * shift_of(mb_leading(q).len()) + q) by (nonlinear_arith)
            requires
                mid == acc * shift_of(lead.len()) + q / 128,
                shift_of(mb_leading(q).len()) == shift_of(lead.len()) * 128,
                q == (q / 128) * 128 + q % 128,
        ;
        assert(mb_groups(tail, mid, seen) == mb_groups(rest, mid * 128 + (g % 128) as nat, seen + 1));
        assert(q < shift_of(mb_leading(q).len())) by (nonlinear_arith)
            requires
                q / 128 < shift_of(lead.len()),
                shift_of(mb_leading(q).len()) == shift_of(lead.len()) * 128,
                q == (q / 128) * 128 + q % 128,
                q % 128 < 128,
        ;
    }
}

/// The weight of the group that stands `n` groups before the last.
pub open spec fn shift_of(n: nat) -> nat
    decreases n,
{
    if n == 0 {
        1
    } else {
        shift_of((n - 1) as nat) * 128
    }
}

/// A number that fits 32 bits has at most four leading groups.
proof fn lemma_leading_len(q: nat)
    requires
        q < 0x200_0000,
    ensures
        mb_leading(q).len() <= 4,
{
    reveal_with_fuel(mb_leading, 6);
    assert(q / 128 / 128 / 128 / 128 == 0);
}

/// Reading what was written gives the number back: a number that fits 32
/// bits, written as a multi-byte unsigned integer, is read as that number,
/// and the reader stops right behind it, whatever follows.
pub proof fn law_mb_uint_round_trip(v: nat, rest: Seq<u8>)
    requires
        v <= u32::MAX,
    ensures
        mb_uint(mb_form(v) + rest) == Some((v, mb_form(v).len() as int)),
        1 <= mb_form(v).len() <= 5,
{
    let lead = mb_leading(v / 128);
    let last = (v % 128) as u8;
    let tail = seq![last] + rest;
    lemma_leading_len(v / 128);
    assert(mb_form(v) + rest =~= lead + tail);
    lemma_read_leading(v / 128, tail, 0, 0);
    assert(tail[0] == last);
    assert(last % 128 == v % 128);
}

/// The header that the encoder writes is `03 01 6A 00`.
pub proof fn lemma_header_bytes()
    ensures
        header() == seq![0x03u8, 0x01, 0x6a, 0x00],
{
    reveal_with_fuel(mb_leading, 2);
    assert(mb_form(1) =~= seq![0x01u8]);
    assert(mb_form(106) =~= seq![0x6au8]);
    assert(mb_form(0) =~= seq![0x00u8]);
    assert(header() =~= seq![0x03u8, 0x01, 0x6a, 0x00]);
}

/// The header that the encoder writes is four bytes long.
pub proof fn lemma_header_len(body: Seq<u8>)
    ensures
        header_len(header() + body) == Some(4int),
{
    lemma_header_bytes();
    let s = header() + body;
    reveal_with_fuel(mb_groups, 2);
    assert(s.skip(1)[0] == 0x01);
    assert(mb_uint(s.skip(1)) == Some((1nat, 1int)));
    assert(s.skip(2)[0] == 0x6a);
    assert(mb_uint(s.skip(2)) == Some((106nat, 1int)));
    assert(s.skip(3)[0] == 0x00);
    assert(mb_uint(s.skip(3)) == Some((0nat, 1int)));
}

/// Decoding undoes encoding on every fragment built from known tokens: for a
/// fragment whose tags the tables define, whose texts are non-empty, hold no
/// NUL byte and do not follow one another, and whose elements are properly
/// nested, encoding its markup succeeds and decoding the document gives the
/// markup back, whatever page the codec starts on.
pub proof fn law_decode_encode(page: u8, nodes: Seq<Node>)
    requires
        plain(nodes),
        balanced(nodes, Seq::empty()),
    ensures
        encode_spec(page, render(nodes)) matches Some(doc) && decode_spec(page, doc) == Some(
            render(nodes),
        ),
{
    lemma_render_no_nul(nodes);
    lemma_encode_render(nodes, page);
    let body = emit(nodes, page);
    let doc = header() + body;
    lemma_header_bytes();
    lemma_header_len(body);
    assert(doc.skip(4) =~= body);
    assert(names_of(Seq::<(u8, u8)>::empty()) =~= Seq::<Seq<u8>>::empty());
    lemma_decode_emit(nodes, page, Seq::empty());
}

/// A payload that already begins with `<` decodes to itself.
pub proof fn law_markup_passes_through(page: u8, payload: Seq<u8>)
    requires
        payload.len() > 0,
        payload[0] == 0x3c,
    ensures
        decode_spec(page, payload) == Some(payload),
{
}

} // verus!
