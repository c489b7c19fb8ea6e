//! Lossy decoding, held against the standard library's.
use ress_core::glyph::layout_glyphs;
use ress_core::glyph::visible_bytes;
use ress_core::glyph::Glyph;
use ress_core::utf8::decode_at;
use ress_core::width::char_columns;

fn decode(bytes: &[u8]) -> String {
    let mut out = String::new();
    let mut pos = 0;
    while pos < bytes.len() {
        let (c, n) = decode_at(bytes, pos);
        assert!(n >= 1 && pos + n <= bytes.len());
        out.push(c);
        pos += n;
    }
    out
}

#[test]
fn every_sequence_of_two_bytes_decodes_as_the_standard_library_does() {
    for a in 0..=255u8 {
        for b in 0..=255u8 {
            let s = [a, b];
            assert_eq!(decode(&s), String::from_utf8_lossy(&s), "{:?}", s);
        }
    }
}

#[test]
fn sequences_of_chosen_bytes_decode_as_the_standard_library_does() {
    // the edges of every row of the table of well-formed sequences.
    let edges: [u8; 24] = [
        0x00, 0x41, 0x7f, 0x80, 0x8f, 0x90, 0x9f, 0xa0, 0xbf, 0xc0, 0xc1, 0xc2, 0xdf, 0xe0, 0xe1,
        0xec, 0xed, 0xee, 0xef, 0xf0, 0xf1, 0xf3, 0xf4, 0xf5,
    ];
    for a in edges {
        for b in edges {
            for c in edges {
                for d in edges {
                    let s = [a, b, c, d];
                    assert_eq!(decode(&s), String::from_utf8_lossy(&s), "{:?}", s);
                }
            }
        }
    }
}

#[test]
fn long_sequences_decode_as_the_standard_library_does() {
    let mut x = 88172645463325252u64;
    for _ in 0..4000 {
        let mut s = Vec::new();
        for _ in 0..24 {
            x ^= x << 13;
            x ^= x >> 7;
            x ^= x << 17;
            // lean toward leading and continuation bytes.
            s.push(match x % 4 {
                0 => (x >> 8) as u8,
                1 => 0x80 | (x >> 8) as u8 & 0x3f,
                2 => 0xc0 | (x >> 8) as u8 & 0x3f,
                _ => (x >> 8) as u8 & 0x7f,
            });
        }
        assert_eq!(decode(&s), String::from_utf8_lossy(&s), "{:?}", s);
    }
}

#[test]
fn every_character_decodes_to_itself() {
    for v in 0..=0x10ffffu32 {
        if let Some(c) = char::from_u32(v) {
            let mut buf = [0u8; 4];
            let s = c.encode_utf8(&mut buf);
            assert_eq!(decode_at(s.as_bytes(), 0), (c, s.len()));
        }
    }
}

#[test]
fn widths_are_those_of_the_width_tables() {
    assert_eq!(char_columns('a'), 1);
    assert_eq!(char_columns('世'), 2);
    assert_eq!(char_columns('\u{301}'), 0);
    assert_eq!(char_columns('\u{17d8}'), 3);
    assert_eq!(char_columns('\u{1}'), 1);
    assert_eq!(char_columns('\u{85}'), 1);
    for v in 0..=0x10ffffu32 {
        if let Some(c) = char::from_u32(v) {
            assert!(char_columns(c) <= 3);
            assert_eq!(
                char_columns(c),
                unicode_width::UnicodeWidthChar::width(c).unwrap_or(1)
            );
        }
    }
}

#[test]
fn glyphs_are_laid_out_by_their_given_widths() {
    let glyphs = [
        Glyph { ch: 'x', bytes: 2, width: 2 },
        Glyph { ch: '\t', bytes: 1, width: 1 },
        Glyph { ch: 'y', bytes: 1, width: 1 },
    ];
    let (text, spans) = layout_glyphs(&glyphs, 4, 0, 10, &[0..1, 3..4]);
    assert_eq!(text, "x  y");
    assert_eq!(spans, vec![0..2, 4..5]);
    assert_eq!(visible_bytes(&glyphs, 4, 2, 1), 2..3);
    assert_eq!(visible_bytes(&glyphs, 4, 9, 1), 0..0);
}
