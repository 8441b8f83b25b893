use exchange_gateway::error::GatewayError;
use exchange_gateway::wbxml::{find_from, push_mb_uint, read_header, read_mb_uint, Piece, Wbxml};

const HEADER: [u8; 4] = [0x03, 0x01, 0x6a, 0x00];

fn doc(body: &[u8]) -> Vec<u8> {
    let mut v = HEADER.to_vec();
    v.extend_from_slice(body);
    v
}

#[test]
fn markup_passes_through_decode() {
    let w = Wbxml::new();
    assert_eq!(w.decode(b"<Sync></Sync>"), Ok("<Sync></Sync>".to_string()));
    assert_eq!(w.decode(b"<anything at all"), Ok("<anything at all".to_string()));
}

#[test]
fn markup_that_is_not_utf8_is_refused() {
    let w = Wbxml::new();
    assert_eq!(w.decode(&[b'<', 0xff, 0xfe]), Err(GatewayError::Format));
}

#[test]
fn empty_payload_is_a_format_error() {
    let w = Wbxml::new();
    assert_eq!(w.decode(b""), Err(GatewayError::Format));
}

#[test]
fn known_fragment_round_trips() {
    let w = Wbxml::new();
    let xml = "<Sync><SyncKey>0</SyncKey><Subject>a &amp; b</Subject><Commands/></Sync>";
    let encoded = w.encode(xml).unwrap();
    assert_eq!(
        encoded,
        doc(&[
            0x45, 0x4b, 0x03, b'0', 0x00, 0x01, 0x00, 0x04, 0x53, 0x03, b'a', b' ', b'&', b' ', b'b',
            0x00, 0x01, 0x00, 0x00, 0x26, 0x01
        ])
    );
    assert_eq!(w.decode(&encoded), Ok(xml.to_string()));
}

#[test]
fn round_trip_of_nested_calendar_fragment() {
    let w = Wbxml::new();
    let xml = "<Sync><Collection><Class>Calendar</Class><Commands><Add><ServerId>x&lt;y&gt;z</ServerId><ApplicationData><Subject>Standup</Subject><Location>Room 1</Location><Body><Type>1</Type><Data>notes</Data></Body><AllDayEvent/></ApplicationData></Add></Commands></Collection></Sync>";
    let encoded = w.encode(xml).unwrap();
    assert_eq!(w.decode(&encoded), Ok(xml.to_string()));
}

#[test]
fn body_tag_prefers_the_active_page() {
    let w = Wbxml::new();
    // On the Calendar page `Body` is token 0x15; no switch to AirSyncBase is made.
    let encoded = w.encode("<Subject/><Body/>").unwrap();
    assert_eq!(encoded, doc(&[0x00, 0x04, 0x13, 0x15]));
    // On the AirSyncBase page `Body` is token 0x0a.
    let encoded = w.encode("<Type/><Body/>").unwrap();
    assert_eq!(encoded, doc(&[0x00, 0x11, 0x06, 0x0a]));
    assert_eq!(w.decode(&encoded), Ok("<Type/><Body/>".to_string()));
}

#[test]
fn codec_can_start_on_another_page() {
    let w = Wbxml { codepage: 4 };
    let encoded = w.encode("<Subject>x</Subject>").unwrap();
    assert_eq!(encoded, doc(&[0x53, 0x03, b'x', 0x00, 0x01]));
    assert_eq!(w.decode(&encoded), Ok("<Subject>x</Subject>".to_string()));
    // The same bytes mean something else from the AirSync page, which has no token 0x13.
    assert_eq!(Wbxml::new().decode(&encoded), Err(GatewayError::Format));
}

#[test]
fn unknown_tags_travel_as_inline_strings() {
    let w = Wbxml::new();
    let encoded = w.encode("<Foo><Sync/></Foo>").unwrap();
    assert_eq!(
        encoded,
        doc(&[0x03, b'<', b'F', b'o', b'o', b'>', 0x00, 0x05, 0x03, b'<', b'/', b'F', b'o', b'o', b'>', 0x00])
    );
    assert_eq!(w.decode(&encoded), Ok("&lt;Foo&gt;<Sync/>&lt;/Foo&gt;".to_string()));
}

#[test]
fn tags_with_attributes_and_unterminated_markup_are_literal() {
    let w = Wbxml::new();
    let encoded = w.encode("<Sync a=\"b\">").unwrap();
    let mut expected = vec![0x03];
    expected.extend_from_slice(b"<Sync a=\"b\">");
    expected.push(0x00);
    assert_eq!(encoded, doc(&expected));
    let encoded = w.encode("<Sync").unwrap();
    assert_eq!(encoded, doc(&[0x03, b'<', b'S', b'y', b'n', b'c', 0x00]));
}

#[test]
fn entities_are_resolved_on_encode_and_written_on_decode() {
    let w = Wbxml::new();
    let encoded = w.encode("<Data>&quot;a&apos; &amp;amp; &lt;&gt; &unknown; &</Data>").unwrap();
    let mut expected = vec![0x00, 0x11, 0x4b, 0x03];
    expected.extend_from_slice(b"\"a' &amp; <> &unknown; &");
    expected.extend_from_slice(&[0x00, 0x01]);
    assert_eq!(encoded, doc(&expected));
    assert_eq!(
        w.decode(&encoded),
        Ok("<Data>\"a' &amp;amp; &lt;&gt; &amp;unknown; &amp;</Data>".to_string())
    );
}

#[test]
fn encode_refuses_a_nul_byte() {
    let w = Wbxml::new();
    assert_eq!(w.encode("<Sync>\u{0}</Sync>"), Err(GatewayError::Format));
}

#[test]
fn encode_of_nothing_is_the_header() {
    let w = Wbxml::new();
    assert_eq!(w.encode(""), Ok(HEADER.to_vec()));
    assert_eq!(w.decode(&HEADER), Ok(String::new()));
}

#[test]
fn truncated_header_is_a_format_error() {
    let w = Wbxml::new();
    assert_eq!(w.decode(&[0x03]), Err(GatewayError::Format));
    assert_eq!(w.decode(&[0x03, 0x01]), Err(GatewayError::Format));
    assert_eq!(w.decode(&[0x03, 0x01, 0x6a]), Err(GatewayError::Format));
}

#[test]
fn malformed_multi_byte_integer_is_a_format_error() {
    let w = Wbxml::new();
    // The public identifier never ends.
    assert_eq!(w.decode(&[0x03, 0x81, 0x81]), Err(GatewayError::Format));
    // Six groups are one too many.
    assert_eq!(
        w.decode(&[0x03, 0x81, 0x81, 0x81, 0x81, 0x81, 0x01, 0x6a, 0x00]),
        Err(GatewayError::Format)
    );
    // Five groups that do not fit 32 bits.
    assert_eq!(
        w.decode(&[0x03, 0x9f, 0xff, 0xff, 0xff, 0x7f, 0x6a, 0x00]),
        Err(GatewayError::Format)
    );
}

#[test]
fn truncated_string_table_is_a_format_error() {
    let w = Wbxml::new();
    assert_eq!(w.decode(&[0x03, 0x01, 0x6a, 0x05, b'a', b'b']), Err(GatewayError::Format));
}

#[test]
fn string_table_is_skipped() {
    let w = Wbxml::new();
    assert_eq!(
        w.decode(&[0x03, 0x01, 0x6a, 0x02, b'a', b'b', 0x45, 0x01]),
        Ok("<Sync></Sync>".to_string())
    );
}

#[test]
fn multi_byte_header_fields_are_read() {
    let w = Wbxml::new();
    // Public identifier 0x81 0x20 = 160, charset 0x6a, empty string table.
    assert_eq!(w.decode(&[0x03, 0x81, 0x20, 0x6a, 0x00, 0x05]), Ok("<Sync/>".to_string()));
}

#[test]
fn malformed_token_streams_are_format_errors() {
    let w = Wbxml::new();
    // END with nothing open.
    assert_eq!(w.decode(&doc(&[0x01])), Err(GatewayError::Format));
    // Element left open.
    assert_eq!(w.decode(&doc(&[0x45])), Err(GatewayError::Format));
    // Page switch without a page.
    assert_eq!(w.decode(&doc(&[0x00])), Err(GatewayError::Format));
    // Inline string without its NUL.
    assert_eq!(w.decode(&doc(&[0x03, b'a'])), Err(GatewayError::Format));
    // Token that the page does not define.
    assert_eq!(w.decode(&doc(&[0x0a])), Err(GatewayError::Format));
    // Tag with attributes.
    assert_eq!(w.decode(&doc(&[0x85])), Err(GatewayError::Format));
    // Global tokens that the codec does not read: ENTITY, LITERAL, OPAQUE.
    assert_eq!(w.decode(&doc(&[0x02, 0x20])), Err(GatewayError::Format));
    assert_eq!(w.decode(&doc(&[0x04, 0x00])), Err(GatewayError::Format));
    assert_eq!(w.decode(&doc(&[0xc3, 0x00])), Err(GatewayError::Format));
    // Unknown page.
    assert_eq!(w.decode(&doc(&[0x00, 0x02, 0x05])), Err(GatewayError::Format));
}

#[test]
fn inline_string_that_is_not_utf8_is_refused() {
    let w = Wbxml::new();
    assert_eq!(w.decode(&doc(&[0x03, 0xff, 0x00])), Err(GatewayError::Format));
}

#[test]
fn switch_page_lasts_until_the_next_switch() {
    let w = Wbxml::new();
    let bytes = doc(&[0x45, 0x00, 0x04, 0x53, 0x01, 0x54, 0x01, 0x00, 0x00, 0x4b, 0x01, 0x01]);
    assert_eq!(
        w.decode(&bytes),
        Ok("<Sync><Subject></Subject><Location></Location><SyncKey></SyncKey></Sync>".to_string())
    );
}

#[test]
fn token_tables_are_bidirectional() {
    let w = Wbxml::new();
    assert_eq!(w.token_to_tag(0, 0x05), Some("Sync"));
    assert_eq!(w.token_to_tag(0, 0x2a), Some("ApplicationData"));
    assert_eq!(w.token_to_tag(4, 0x13), Some("Subject"));
    assert_eq!(w.token_to_tag(4, 0x15), Some("Body"));
    assert_eq!(w.token_to_tag(17, 0x0a), Some("Body"));
    assert_eq!(w.token_to_tag(17, 0x0c), Some("EstimatedDataSize"));
    assert_eq!(w.token_to_tag(0, 0x0a), None);
    assert_eq!(w.token_to_tag(1, 0x05), None);
    assert_eq!(w.tag_to_token(0, "Sync"), Some(0x05));
    assert_eq!(w.tag_to_token(0, "Commands"), Some(0x26));
    assert_eq!(w.tag_to_token(4, "Body"), Some(0x15));
    assert_eq!(w.tag_to_token(17, "Body"), Some(0x0a));
    assert_eq!(w.tag_to_token(0, "Body"), None);
    assert_eq!(w.tag_to_token(4, "sync"), None);
    for page in [0u8, 4, 17] {
        for token in 0u8..=255 {
            if let Some(tag) = w.token_to_tag(page, token) {
                assert_eq!(w.tag_to_token(page, tag), Some(token));
            }
        }
    }
}

#[test]
fn locate_prefers_active_page_then_page_order() {
    let w = Wbxml::new();
    assert_eq!(w.locate_tag(17, b"Body", 0, 4), Some((17, 0x0a)));
    assert_eq!(w.locate_tag(0, b"Body", 0, 4), Some((4, 0x15)));
    assert_eq!(w.locate_tag(9, b"xSyncx", 1, 5), Some((0, 0x05)));
    assert_eq!(w.locate_tag(0, b"Nope", 0, 4), None);
    assert!(matches!(w.classify(0, b"/Sync", 0, 5), Piece::Close));
    assert!(matches!(w.classify(0, b"Sync/", 0, 5), Piece::Empty(0, 0x05)));
    assert!(matches!(w.classify(0, b"Sync", 0, 4), Piece::Open(0, 0x05)));
    assert!(matches!(w.classify(0, b"", 0, 0), Piece::Unknown));
}

#[test]
fn multi_byte_integers_are_read_msb_first() {
    assert_eq!(read_mb_uint(&[0x00], 0), Some((0, 1)));
    assert_eq!(read_mb_uint(&[0x7f], 0), Some((127, 1)));
    assert_eq!(read_mb_uint(&[0x81, 0x00], 0), Some((128, 2)));
    assert_eq!(read_mb_uint(&[0xff, 0x81, 0x20], 1), Some((160, 3)));
    assert_eq!(read_mb_uint(&[0x8f, 0xff, 0xff, 0xff, 0x7f], 0), Some((u32::MAX, 5)));
    assert_eq!(read_mb_uint(&[0x90, 0x80, 0x80, 0x80, 0x00], 0), None);
    assert_eq!(read_mb_uint(&[0x81], 0), None);
    assert_eq!(read_mb_uint(&[], 0), None);
    assert_eq!(read_header(&[0x03, 0x01, 0x6a, 0x00]), Some(4));
    assert_eq!(read_header(&[0x03, 0x01, 0x6a, 0x03, 1, 2, 3, 9]), Some(7));
    assert_eq!(read_header(&[]), None);
    assert_eq!(find_from(b"abcabc", 1, b'a'), Some(3));
    assert_eq!(find_from(b"abcabc", 4, b'a'), None);
}

#[test]
fn multi_byte_integers_are_written_in_the_fewest_groups() {
    let cases: [(u32, &[u8]); 9] = [
        (0, &[0x00]),
        (1, &[0x01]),
        (106, &[0x6a]),
        (127, &[0x7f]),
        (128, &[0x81, 0x00]),
        (160, &[0x81, 0x20]),
        (16_384, &[0x81, 0x80, 0x00]),
        (0x0fff_ffff, &[0xff, 0xff, 0xff, 0x7f]),
        (u32::MAX, &[0x8f, 0xff, 0xff, 0xff, 0x7f]),
    ];
    for (v, bytes) in cases {
        let mut out = vec![0xee];
        push_mb_uint(&mut out, v);
        assert_eq!(&out[1..], bytes);
        out.push(0x55);
        assert_eq!(read_mb_uint(&out, 1), Some((v, 1 + bytes.len())));
    }
}
