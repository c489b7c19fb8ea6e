//! What holds of every laid-out line.
use vstd::prelude::*;

use crate::glyph;
use crate::glyph::Cell;
use crate::glyph::Glyph;
use crate::line;
use crate::utf8;
use crate::width;

verus! {

// ---------------------------------------------------------------------------
// Decoding.

/// The tokens of a line take all of its bytes: the glyphs' byte lengths add up
/// to the length of the line.
pub proof fn law_tokens_take_every_byte(s: Seq<u8>)
    ensures
        glyph::byte_offset(glyph::glyphs_of(s), glyph::glyphs_of(s).len() as int) == s.len(),
    decreases s.len(),
{
    if s.len() > 0 {
        utf8::lemma_token_len_bounds(s);
        let n = utf8::token_len(s) as int;
        let rest = glyph::glyphs_of(s.skip(n));
        law_tokens_take_every_byte(s.skip(n));
        assert(n <= 4);
        assert(glyph::first_glyph(s).bytes == n);
        lemma_byte_offset_cons(glyph::first_glyph(s), rest, rest.len() as int);
    }
}

proof fn lemma_byte_offset_cons(g: Glyph, rest: Seq<Glyph>, i: int)
    requires
        0 <= i <= rest.len(),
    ensures
        glyph::byte_offset(seq![g] + rest, i + 1) == g.bytes + glyph::byte_offset(rest, i),
    decreases i,
{
    if i > 0 {
        lemma_byte_offset_cons(g, rest, i - 1);
        assert((seq![g] + rest)[i] == rest[i - 1]);
    } else {
        assert(glyph::byte_offset(seq![g] + rest, 0) == 0);
        assert((seq![g] + rest)[0] == g);
    }
}

/// Well-formed UTF-8 is decoded into the characters that it encodes.
pub proof fn law_well_formed_text_is_decoded(s: Seq<u8>)
    requires
        vstd::utf8::valid_utf8(s),
    ensures
        glyph::glyphs_of(s).map_values(|g: Glyph| g.ch) == vstd::utf8::decode_utf8(s),
    decreases s.len(),
{
    if s.len() > 0 {
        utf8::lemma_token_len_bounds(s);
        let n = utf8::token_len(s) as int;
        assert(s.skip(n) =~= vstd::utf8::pop_first_scalar(s));
        law_well_formed_text_is_decoded(s.skip(n));
        assert(glyph::glyphs_of(s).map_values(|g: Glyph| g.ch) =~= vstd::utf8::decode_utf8(s));
    } else {
        assert(glyph::glyphs_of(s).map_values(|g: Glyph| g.ch) =~= vstd::utf8::decode_utf8(s));
    }
}

/// The characters of a line's glyphs.
pub open spec fn chars_of(gs: Seq<Glyph>) -> Seq<char> {
    gs.map_values(|g: Glyph| g.ch)
}

/// The lossy decoding of a line, as UTF-8: its well-formed parts as they are,
/// and one replacement character for each maximal ill-formed sequence.
pub open spec fn lossy(s: Seq<u8>) -> Seq<u8> {
    vstd::utf8::encode_utf8(chars_of(glyph::glyphs_of(s)))
}

/// The glyphs agree in everything but the bytes that they stand for.
pub open spec fn look_alike(a: Seq<Glyph>, b: Seq<Glyph>) -> bool {
    &&& a.len() == b.len()
    &&& forall|i: int|
        0 <= i < a.len() ==> (#[trigger] a[i]).ch == b[i].ch && a[i].width == b[i].width
}

/// A carriage return at the end of a line is a glyph of its own, the last one,
/// and no other line ends with such a glyph.
proof fn lemma_last_return(s: Seq<u8>)
    requires
        s.len() > 0,
    ensures
        glyph::glyphs_of(s).len() > 0,
        s.last() == 0x0d <==> glyph::glyphs_of(s).last().ch as u32 == 0x0d,
        s.last() == 0x0d ==> chars_of(glyph::glyphs_of(s)) == chars_of(
            glyph::glyphs_of(s.drop_last()),
        ).push(glyph::glyphs_of(s).last().ch),
    decreases s.len(),
{
    utf8::lemma_token_len_bounds(s);
    utf8::lemma_ascii_token(s);
    let n = utf8::token_len(s) as int;
    let rest = s.skip(n);
    let gs = glyph::glyphs_of(s);
    let first = glyph::first_glyph(s);
    assert(gs == seq![first] + glyph::glyphs_of(rest));
    if n == s.len() {
        assert(rest.len() == 0);
        assert(gs =~= seq![first]);
        if n > 1 {
            utf8::lemma_token_tail(s, n - 1);
            utf8::lemma_token_tail(s, 1);
            assert(s[0] > 0x7f);
        } else {
            assert(s.drop_last().len() == 0);
            assert(chars_of(gs) =~= chars_of(glyph::glyphs_of(s.drop_last())).push(first.ch));
        }
    } else {
        lemma_last_return(rest);
        assert(rest.last() == s.last());
        assert(gs.last() == glyph::glyphs_of(rest).last());
        if s.last() == 0x0d {
            let d = s.drop_last();
            assert(d.push(0x0d) =~= s);
            utf8::lemma_ascii_ends_a_token(d, 0x0d);
            assert(d.skip(n) =~= rest.drop_last());
            assert(glyph::first_glyph(d) == first);
            assert(glyph::glyphs_of(d) == seq![first] + glyph::glyphs_of(rest.drop_last()));
            assert(chars_of(gs) =~= seq![first.ch] + chars_of(glyph::glyphs_of(rest)));
            assert(chars_of(glyph::glyphs_of(d)) =~= seq![first.ch] + chars_of(
                glyph::glyphs_of(rest.drop_last()),
            ));
            assert(chars_of(gs) =~= chars_of(glyph::glyphs_of(d)).push(gs.last().ch));
        }
    }
}

/// Lines of the same characters look alike.
proof fn lemma_same_chars_look_alike(a: Seq<u8>, b: Seq<u8>)
    requires
        chars_of(glyph::glyphs_of(a)) == chars_of(glyph::glyphs_of(b)),
    ensures
        look_alike(glyph::glyphs_of(a), glyph::glyphs_of(b)),
{
    let x = glyph::glyphs_of(a);
    let y = glyph::glyphs_of(b);
    assert(x.len() == chars_of(x).len() && y.len() == chars_of(y).len());
    assert forall|i: int| 0 <= i < x.len() implies (#[trigger] x[i]).ch == y[i].ch && x[i].width
        == y[i].width by {
        assert(chars_of(x)[i] == chars_of(y)[i]);
        lemma_decoded_glyph(a, i);
        lemma_decoded_glyph(b, i);
    }
}

proof fn lemma_look_alike_columns(a: Seq<Glyph>, b: Seq<Glyph>, tab_stop: int, i: int)
    requires
        look_alike(a, b),
        0 <= i <= a.len(),
    ensures
        glyph::column(a, tab_stop, i) == glyph::column(b, tab_stop, i),
        glyph::cells_of(a, tab_stop, i) == glyph::cells_of(b, tab_stop, i),
    decreases i,
{
    if i > 0 {
        lemma_look_alike_columns(a, b, tab_stop, i - 1);
        assert(a[i - 1].ch == b[i - 1].ch);
        assert(glyph::glyph_cells(a[i - 1], glyph::column(a, tab_stop, i - 1), tab_stop)
            =~= glyph::glyph_cells(b[i - 1], glyph::column(b, tab_stop, i - 1), tab_stop));
    }
}

proof fn lemma_look_alike_layout(a: Seq<Glyph>, b: Seq<Glyph>, tab_stop: int, end: int, i: int)
    requires
        look_alike(a, b),
        0 <= i <= a.len(),
    ensures
        glyph::laid_out_from(a, tab_stop, end, i) == glyph::laid_out_from(b, tab_stop, end, i),
    decreases a.len() - i,
{
    if i < a.len() {
        lemma_look_alike_columns(a, b, tab_stop, i);
        assert(a[i].ch == b[i].ch);
        lemma_look_alike_layout(a, b, tab_stop, end, i + 1);
    }
}

/// Glyphs that look alike are shown alike.
pub proof fn law_look_alikes_are_shown_alike(
    a: Seq<Glyph>,
    b: Seq<Glyph>,
    tab_stop: int,
    skip: int,
    end: int,
)
    requires
        look_alike(a, b),
    ensures
        glyph::row_text(a, tab_stop, skip, end) == glyph::row_text(b, tab_stop, skip, end),
{
    lemma_look_alike_layout(a, b, tab_stop, end, 0);
    glyph::lemma_laid_out(a, tab_stop, end, 0);
    lemma_look_alike_columns(a, b, tab_stop, glyph::laid_out(a, tab_stop, end));
}

/// A line is shown as its lossy decoding is, whatever bytes it holds: laying out
/// the bytes themselves is laying out the text in which one replacement
/// character stands for each maximal ill-formed sequence.
pub proof fn law_a_line_is_shown_as_its_lossy_decoding(
    raw: Seq<u8>,
    tab_stop: int,
    skip: int,
    end: int,
)
    ensures
        vstd::utf8::valid_utf8(lossy(raw)),
        vstd::utf8::decode_utf8(lossy(raw)) == chars_of(glyph::glyphs_of(raw)),
        look_alike(
            glyph::glyphs_of(line::body_of(raw)),
            glyph::glyphs_of(line::body_of(lossy(raw))),
        ),
        glyph::row_text(glyph::glyphs_of(line::body_of(raw)), tab_stop, skip, end)
            == glyph::row_text(glyph::glyphs_of(line::body_of(lossy(raw))), tab_stop, skip, end),
{
    let text = lossy(raw);
    let chars = chars_of(glyph::glyphs_of(raw));
    vstd::utf8::encode_utf8_valid_utf8(chars);
    vstd::utf8::encode_utf8_decode_utf8(chars);
    law_well_formed_text_is_decoded(text);
    assert(chars_of(glyph::glyphs_of(text)) == chars);
    assert(chars.len() == glyph::glyphs_of(raw).len());
    assert(chars_of(glyph::glyphs_of(text)).len() == glyph::glyphs_of(text).len());
    if raw.len() > 0 {
        lemma_last_return(raw);
        if text.len() == 0 {
            assert(glyph::glyphs_of(text).len() == 0);
        }
        lemma_last_return(text);
        assert(chars.last() == glyph::glyphs_of(raw).last().ch);
        assert(chars_of(glyph::glyphs_of(text)).last() == glyph::glyphs_of(text).last().ch);
        if raw.last() == 0x0d {
            let x = chars_of(glyph::glyphs_of(line::body_of(raw)));
            let y = chars_of(glyph::glyphs_of(line::body_of(text)));
            assert(x.push(chars.last()).drop_last() =~= x);
            assert(y.push(chars.last()).drop_last() =~= y);
        }
    } else {
        assert(glyph::glyphs_of(raw).len() == 0);
        if text.len() > 0 {
            lemma_last_return(text);
        }
    }
    lemma_same_chars_look_alike(line::body_of(raw), line::body_of(text));
    law_look_alikes_are_shown_alike(
        glyph::glyphs_of(line::body_of(raw)),
        glyph::glyphs_of(line::body_of(text)),
        tab_stop,
        skip,
        end,
    );
}

/// A tab stop of zero counts as one.
pub proof fn law_a_tab_stop_of_zero_counts_as_one(gs: Seq<Glyph>, skip: int, end: int)
    ensures
        glyph::row_text(gs, glyph::at_least_one(0), skip, end) == glyph::row_text(
            gs,
            glyph::at_least_one(1),
            skip,
            end,
        ),
{
}

/// Each decoded glyph has the width of its character and at least one byte.
pub(crate) proof fn lemma_decoded_glyph(s: Seq<u8>, i: int)
    requires
        0 <= i < glyph::glyphs_of(s).len(),
    ensures
        glyph::glyphs_of(s)[i].width == width::columns_of(glyph::glyphs_of(s)[i].ch),
        glyph::glyphs_of(s)[i].bytes >= 1,
    decreases s.len(),
{
    utf8::lemma_token_len_bounds(s);
    let rest = s.skip(utf8::token_len(s) as int);
    if i > 0 {
        lemma_decoded_glyph(rest, i - 1);
        assert(glyph::glyphs_of(s)[i] == glyph::glyphs_of(rest)[i - 1]);
    } else {
        assert(glyph::glyphs_of(s)[0] == glyph::first_glyph(s));
    }
}

// ---------------------------------------------------------------------------
// The visible text.

/// How many columns a text takes.
pub open spec fn text_width(text: Seq<char>) -> int
    decreases text.len(),
{
    if text.len() == 0 {
        0
    } else {
        text_width(text.drop_last()) + width::columns_of(text.last())
    }
}

/// A cell shows a character that is no ASCII control, over as many columns as
/// that character takes.
spec fn honest(c: Cell) -> bool {
    c.width == width::columns_of(c.ch) && !glyph::is_control(c.ch)
}

proof fn lemma_cells_are_honest(s: Seq<u8>, tab_stop: int, n: int)
    requires
        0 <= n <= glyph::glyphs_of(s).len(),
    ensures
        forall|i: int|
            0 <= i < glyph::cells_of(glyph::glyphs_of(s), tab_stop, n).len() ==> honest(
                #[trigger] glyph::cells_of(glyph::glyphs_of(s), tab_stop, n)[i],
            ),
    decreases n,
{
    if n > 0 {
        let gs = glyph::glyphs_of(s);
        lemma_cells_are_honest(s, tab_stop, n - 1);
        lemma_decoded_glyph(s, n - 1);
        let g = gs[n - 1];
        let before = glyph::cells_of(gs, tab_stop, n - 1);
        let more = glyph::glyph_cells(g, glyph::column(gs, tab_stop, n - 1), tab_stop);
        assert forall|i: int| 0 <= i < more.len() implies honest(#[trigger] more[i]) by {
            if g.ch != '\t' && glyph::is_control(g.ch) {
                let v = (g.ch as u32 + 0x40) as u32;
                if g.ch as u32 != 0x7f {
                    vstd::utf8::char_u32_cast(glyph::caret_of(g.ch), v);
                    assert(0x40 <= v < 0x60);
                    assert(glyph::caret_of(g.ch) as u32 == v);
                }
            }
        }
        let all = glyph::cells_of(gs, tab_stop, n);
        assert forall|i: int| 0 <= i < all.len() implies honest(#[trigger] all[i]) by {
            if i < before.len() {
                assert(all[i] == before[i]);
            } else {
                assert(all[i] == more[i - before.len()]);
            }
        }
    }
}

proof fn lemma_text_width_push(text: Seq<char>, c: char)
    ensures
        text_width(text.push(c)) == text_width(text) + width::columns_of(c),
{
    assert(text.push(c).drop_last() =~= text);
}

proof fn lemma_window_width(cs: Seq<Cell>, skip: int, end: int, n: int)
    requires
        0 <= n <= cs.len(),
        skip < end,
        forall|i: int| 0 <= i < cs.len() ==> honest(#[trigger] cs[i]),
    ensures
        text_width(glyph::window_text(cs, skip, end, n)) <= glyph::clamp(
            glyph::cell_start(cs, n),
            skip,
            end,
        ) - skip,
    decreases n,
{
    if n > 0 {
        lemma_window_width(cs, skip, end, n - 1);
        let c = cs[n - 1];
        let start = glyph::cell_start(cs, n - 1);
        let before = glyph::window_text(cs, skip, end, n - 1);
        let shown = glyph::cell_text(c, start, skip, end);
        assert(honest(c));
        if shown.len() == 0 {
            assert(before + shown =~= before);
        } else {
            assert(before + shown =~= before.push(shown[0]));
            lemma_text_width_push(before, shown[0]);
        }
    }
}

/// The visible text never takes more columns than the window has.
pub proof fn law_text_fits_the_window(raw: Seq<u8>, tab_stop: int, skip: int, end: int)
    requires
        skip < end,
    ensures
        text_width(
            glyph::row_text(glyph::glyphs_of(line::body_of(raw)), tab_stop, skip, end),
        ) <= end - skip,
{
    let s = line::body_of(raw);
    let gs = glyph::glyphs_of(s);
    let n = glyph::laid_out(gs, tab_stop, end);
    glyph::lemma_laid_out(gs, tab_stop, end, 0);
    lemma_cells_are_honest(s, tab_stop, n);
    let cs = glyph::cells_of(gs, tab_stop, n);
    lemma_window_width(cs, skip, end, cs.len() as int);
}

proof fn lemma_window_has_no_controls(cs: Seq<Cell>, skip: int, end: int, n: int, k: int)
    requires
        0 <= n <= cs.len(),
        forall|i: int| 0 <= i < cs.len() ==> honest(#[trigger] cs[i]),
        0 <= k < glyph::window_text(cs, skip, end, n).len(),
    ensures
        !glyph::is_control(glyph::window_text(cs, skip, end, n)[k]),
    decreases n,
{
    if n > 0 {
        let before = glyph::window_text(cs, skip, end, n - 1);
        assert(honest(cs[n - 1]));
        if k < before.len() {
            lemma_window_has_no_controls(cs, skip, end, n - 1, k);
        }
    }
}

/// The visible text never holds an ASCII control.
pub proof fn law_text_has_no_controls(raw: Seq<u8>, tab_stop: int, skip: int, end: int, k: int)
    requires
        0 <= k < glyph::row_text(
            glyph::glyphs_of(line::body_of(raw)),
            tab_stop,
            skip,
            end,
        ).len(),
    ensures
        !glyph::is_control(
            glyph::row_text(glyph::glyphs_of(line::body_of(raw)), tab_stop, skip, end)[k],
        ),
{
    let s = line::body_of(raw);
    let gs = glyph::glyphs_of(s);
    let n = glyph::laid_out(gs, tab_stop, end);
    glyph::lemma_laid_out(gs, tab_stop, end, 0);
    lemma_cells_are_honest(s, tab_stop, n);
    let cs = glyph::cells_of(gs, tab_stop, n);
    lemma_window_has_no_controls(cs, skip, end, cs.len() as int, k);
}

/// A line of printable ASCII characters.
pub open spec fn is_plain(s: Seq<u8>) -> bool {
    forall|i: int| 0 <= i < s.len() ==> 0x20 <= #[trigger] s[i] < 0x7f
}

proof fn lemma_plain_glyphs(s: Seq<u8>)
    requires
        is_plain(s),
    ensures
        glyph::glyphs_of(s) == Seq::new(
            s.len(),
            |i: int| Glyph { ch: s[i] as char, bytes: 1, width: 1 },
        ),
    decreases s.len(),
{
    if s.len() > 0 {
        utf8::lemma_ascii_token(s);
        vstd::utf8::char_u32_cast(utf8::token_char(s), s[0] as u32);
        let rest = s.skip(1);
        assert forall|i: int| 0 <= i < rest.len() implies 0x20 <= #[trigger] rest[i] < 0x7f by {
            assert(rest[i] == s[i + 1]);
        }
        lemma_plain_glyphs(rest);
    }
    assert(glyph::glyphs_of(s) =~= Seq::new(
        s.len(),
        |i: int| Glyph { ch: s[i] as char, bytes: 1, width: 1 },
    ));
}

proof fn lemma_plain_layout(s: Seq<u8>, tab_stop: int, i: int)
    requires
        is_plain(s),
        0 <= i <= s.len(),
    ensures
        glyph::column(glyph::glyphs_of(s), tab_stop, i) == i,
        glyph::cells_of(glyph::glyphs_of(s), tab_stop, i) == Seq::new(
            i as nat,
            |k: int| Cell { ch: s[k] as char, width: 1 },
        ),
        glyph::cell_start(glyph::cells_of(glyph::glyphs_of(s), tab_stop, i), i) == i,
    decreases i,
{
    lemma_plain_glyphs(s);
    let gs = glyph::glyphs_of(s);
    if i > 0 {
        lemma_plain_layout(s, tab_stop, i - 1);
        let c = s[i - 1] as char;
        assert(gs[i - 1].ch == c && c as u32 == s[i - 1]);
        assert(glyph::cells_of(gs, tab_stop, i) =~= Seq::new(
            i as nat,
            |k: int| Cell { ch: s[k] as char, width: 1 },
        ));
        lemma_unit_cells(glyph::cells_of(gs, tab_stop, i), i);
    } else {
        assert(glyph::cells_of(gs, tab_stop, i) =~= Seq::new(
            i as nat,
            |k: int| Cell { ch: s[k] as char, width: 1 },
        ));
    }
}

proof fn lemma_unit_cells(cs: Seq<Cell>, i: int)
    requires
        0 <= i <= cs.len(),
        forall|k: int| 0 <= k < cs.len() ==> (#[trigger] cs[k]).width == 1,
    ensures
        glyph::cell_start(cs, i) == i,
    decreases i,
{
    if i > 0 {
        lemma_unit_cells(cs, i - 1);
    }
}

proof fn lemma_unit_window(cs: Seq<Cell>, skip: int, end: int, n: int)
    requires
        0 <= n <= cs.len(),
        n <= end,
        0 <= skip,
        forall|k: int| 0 <= k < cs.len() ==> (#[trigger] cs[k]).width == 1,
    ensures
        glyph::window_text(cs, skip, end, n) == Seq::new(
            (if skip < n {
                n - skip
            } else {
                0
            }) as nat,
            |k: int| cs[skip + k].ch,
        ),
    decreases n,
{
    if n > 0 {
        lemma_unit_window(cs, skip, end, n - 1);
        lemma_unit_cells(cs, n - 1);
    }
    assert(glyph::window_text(cs, skip, end, n) =~= Seq::new(
        (if skip < n {
            n - skip
        } else {
            0
        }) as nat,
        |k: int| cs[skip + k].ch,
    ));
}

/// A line of printable ASCII shows its own characters, one to a column: those
/// from column `skip` up to column `end` or the end of the line.
pub proof fn law_plain_text_is_shown_as_it_is(s: Seq<u8>, tab_stop: int, skip: int, end: int)
    requires
        is_plain(s),
        1 <= tab_stop,
        0 <= skip < end,
    ensures
        ({
            let n = if s.len() < end {
                s.len() as int
            } else {
                end
            };
            glyph::row_text(glyph::glyphs_of(s), tab_stop, skip, end) == Seq::new(
                (if skip < n {
                    n - skip
                } else {
                    0
                }) as nat,
                |k: int| s[skip + k] as char,
            )
        }),
{
    let gs = glyph::glyphs_of(s);
    let n = if s.len() < end {
        s.len() as int
    } else {
        end
    };
    lemma_plain_glyphs(s);
    assert forall|i: int| 0 <= i < n implies !#[trigger] glyph::past_edge(gs, tab_stop, end, i) by {
        lemma_plain_layout(s, tab_stop, i);
    }
    glyph::lemma_laid_out_skips(gs, tab_stop, end, n);
    if n < s.len() {
        lemma_plain_layout(s, tab_stop, n);
        let c = s[n] as char;
        assert(gs[n].ch == c && c as u32 == s[n]);
        assert(glyph::past_edge(gs, tab_stop, end, n));
    }
    assert(glyph::laid_out(gs, tab_stop, end) == n);
    lemma_plain_layout(s, tab_stop, n);
    let cs = glyph::cells_of(gs, tab_stop, n);
    lemma_unit_window(cs, skip, end, n);
    assert(glyph::row_text(gs, tab_stop, skip, end) =~= Seq::new(
        (if skip < n {
            n - skip
        } else {
            0
        }) as nat,
        |k: int| s[skip + k] as char,
    ));
}

// ---------------------------------------------------------------------------
// The visible cells of marks.

/// The marks come in the order in which they start.
pub open spec fn marks_in_order(marks: Seq<(int, int)>) -> bool {
    forall|i: int, j: int|
        0 <= i <= j < marks.len() ==> (#[trigger] marks[i]).0 <= (#[trigger] marks[j]).0
}

/// The visible cells of mark `j`.
pub open spec fn span_of_mark(
    gs: Seq<Glyph>,
    tab_stop: int,
    skip: int,
    end: int,
    marks: Seq<(int, int)>,
    j: int,
) -> Option<(int, int)> {
    glyph::mark_span(gs, tab_stop, skip, end, marks[j].0, marks[j].1)
}

/// Cell `x` lies in the span `s`.
pub open spec fn covers(s: Option<(int, int)>, x: int) -> bool {
    s matches Some(p) && p.0 <= x < p.1
}

proof fn lemma_glyph_at_grows(gs: Seq<Glyph>, n: int, a: int, b: int, i: int)
    requires
        a <= b,
        0 <= i <= n,
    ensures
        glyph::glyph_at_from(gs, n, a, i) <= glyph::glyph_at_from(gs, n, b, i),
    decreases n - i,
{
    glyph::lemma_glyph_at(gs, n, b, i);
    if i < n && glyph::byte_offset(gs, i + 1) <= a {
        lemma_glyph_at_grows(gs, n, a, b, i + 1);
    }
}

/// A mark that is shown at all lies inside the window, and starts no earlier
/// than a shown mark before it.
proof fn lemma_span_of_mark(
    gs: Seq<Glyph>,
    tab_stop: int,
    skip: int,
    end: int,
    marks: Seq<(int, int)>,
    i: int,
    j: int,
)
    requires
        1 <= tab_stop,
        skip <= end,
        marks_in_order(marks),
        0 <= i <= j < marks.len(),
    ensures
        span_of_mark(gs, tab_stop, skip, end, marks, j) matches Some(s) ==> 0 <= s.0 < s.1 <= end
            - skip,
        span_of_mark(gs, tab_stop, skip, end, marks, i) matches Some(r) ==> (span_of_mark(
            gs,
            tab_stop,
            skip,
            end,
            marks,
            j,
        ) matches Some(s) ==> r.0 <= s.0),
{
    let n = glyph::laid_out(gs, tab_stop, end);
    glyph::lemma_laid_out(gs, tab_stop, end, 0);
    let a = marks[i].0;
    let b = marks[j].0;
    lemma_glyph_at_grows(gs, n, a, b, 0);
    glyph::lemma_glyph_at(gs, n, a, 0);
    glyph::lemma_glyph_at(gs, n, b, 0);
    glyph::lemma_column_grows(
        gs,
        tab_stop,
        glyph::glyph_at(gs, n, a),
        glyph::glyph_at(gs, n, b),
    );
}

/// The shown spans are not empty, lie inside the window, come in order and do
/// not touch each other.
pub open spec fn spans_well_placed(spans: Seq<(int, int)>, cols: int) -> bool {
    &&& forall|i: int|
        0 <= i < spans.len() ==> 0 <= (#[trigger] spans[i]).0 < spans[i].1 <= cols
    &&& forall|i: int, j: int|
        0 <= i < j < spans.len() ==> (#[trigger] spans[i]).1 < (#[trigger] spans[j]).0
}

proof fn lemma_spans(
    gs: Seq<Glyph>,
    tab_stop: int,
    skip: int,
    end: int,
    marks: Seq<(int, int)>,
    k: int,
)
    requires
        1 <= tab_stop,
        skip <= end,
        marks_in_order(marks),
        0 <= k <= marks.len(),
    ensures
        ({
            let spans = glyph::row_spans(gs, tab_stop, skip, end, marks, k);
            &&& spans_well_placed(spans, end - skip)
            &&& spans.len() > 0 ==> exists|j: int|
                0 <= j < k && (#[trigger] span_of_mark(
                    gs,
                    tab_stop,
                    skip,
                    end,
                    marks,
                    j,
                ) matches Some(s) && s.0 == spans.last().0)
            &&& forall|x: int|
                #![trigger painted(spans, x)]
                painted(spans, x) <==> exists|j: int|
                    0 <= j < k && covers(
                        #[trigger] span_of_mark(gs, tab_stop, skip, end, marks, j),
                        x,
                    )
        }),
    decreases k,
{
    let spans = glyph::row_spans(gs, tab_stop, skip, end, marks, k);
    if k > 0 {
        lemma_spans(gs, tab_stop, skip, end, marks, k - 1);
        let before = glyph::row_spans(gs, tab_stop, skip, end, marks, k - 1);
        let next = span_of_mark(gs, tab_stop, skip, end, marks, k - 1);
        lemma_span_of_mark(gs, tab_stop, skip, end, marks, k - 1, k - 1);
        if before.len() > 0 {
            let j = choose|j: int|
                0 <= j < k - 1 && (#[trigger] span_of_mark(
                    gs,
                    tab_stop,
                    skip,
                    end,
                    marks,
                    j,
                ) matches Some(s) && s.0 == before.last().0);
            lemma_span_of_mark(gs, tab_stop, skip, end, marks, j, k - 1);
        }
        assert forall|x: int|
            #![trigger painted(spans, x)]
            painted(spans, x) <==> painted(before, x) || covers(next, x) by {
            lemma_merge_paints(before, next, x);
        }
        assert forall|x: int|
            #![trigger painted(spans, x)]
            painted(spans, x) <==> exists|j: int|
                0 <= j < k && covers(
                    #[trigger] span_of_mark(gs, tab_stop, skip, end, marks, j),
                    x,
                ) by {
            assert(painted(before, x) <==> exists|j: int|
                0 <= j < k - 1 && covers(
                    #[trigger] span_of_mark(gs, tab_stop, skip, end, marks, j),
                    x,
                ));
            if covers(next, x) {
                assert(covers(span_of_mark(gs, tab_stop, skip, end, marks, k - 1), x));
            }
        }
    }
}

/// Cell `x` lies in one of the spans.
pub open spec fn painted(spans: Seq<(int, int)>, x: int) -> bool {
    exists|i: int| 0 <= i < spans.len() && (#[trigger] spans[i]).0 <= x < spans[i].1
}

proof fn lemma_merge_paints(spans: Seq<(int, int)>, next: Option<(int, int)>, x: int)
    requires
        next matches Some(s) ==> s.0 < s.1 && (spans.len() > 0 ==> spans.last().0 <= s.0),
        spans.len() > 0 ==> spans.last().0 < spans.last().1,
    ensures
        painted(glyph::merge_span(spans, next), x) <==> painted(spans, x) || covers(next, x),
{
    let merged = glyph::merge_span(spans, next);
    if let Some(s) = next {
        let last = spans.len() - 1;
        if spans.len() > 0 && s.0 <= spans.last().1 {
            if painted(spans, x) {
                let i = choose|i: int|
                    0 <= i < spans.len() && (#[trigger] spans[i]).0 <= x < spans[i].1;
                assert(merged[i].0 <= x < merged[i].1);
            }
            if covers(next, x) {
                assert(merged[last].0 <= x < merged[last].1);
            }
            if painted(merged, x) {
                let i = choose|i: int|
                    0 <= i < merged.len() && (#[trigger] merged[i]).0 <= x < merged[i].1;
                if i < last {
                    assert(spans[i].0 <= x < spans[i].1);
                } else if !covers(next, x) {
                    assert(spans[last].0 <= x < spans[last].1);
                }
            }
        } else {
            if painted(spans, x) {
                let i = choose|i: int|
                    0 <= i < spans.len() && (#[trigger] spans[i]).0 <= x < spans[i].1;
                assert(merged[i] == spans[i]);
            }
            if covers(next, x) {
                assert(merged[last + 1] == s);
            }
            if painted(merged, x) {
                let i = choose|i: int|
                    0 <= i < merged.len() && (#[trigger] merged[i]).0 <= x < merged[i].1;
                if i <= last {
                    assert(spans[i] == merged[i]);
                }
            }
        }
    }
}

/// The spans of marks that come in order are not empty, lie inside the window,
/// come in order and do not touch each other.
pub proof fn law_spans_are_well_placed(
    gs: Seq<Glyph>,
    tab_stop: int,
    skip: int,
    end: int,
    marks: Seq<(int, int)>,
)
    requires
        1 <= tab_stop,
        skip <= end,
        marks_in_order(marks),
    ensures
        spans_well_placed(
            glyph::row_spans(gs, tab_stop, skip, end, marks, marks.len() as int),
            end - skip,
        ),
{
    lemma_spans(gs, tab_stop, skip, end, marks, marks.len() as int);
}

/// Merging loses and adds nothing: of marks that come in order, a cell is
/// painted exactly if it is a visible cell of one of them.
pub proof fn law_spans_paint_the_marks(
    gs: Seq<Glyph>,
    tab_stop: int,
    skip: int,
    end: int,
    marks: Seq<(int, int)>,
    x: int,
)
    requires
        1 <= tab_stop,
        skip <= end,
        marks_in_order(marks),
    ensures
        painted(glyph::row_spans(gs, tab_stop, skip, end, marks, marks.len() as int), x)
            <==> exists|j: int|
            0 <= j < marks.len() && covers(
                #[trigger] span_of_mark(gs, tab_stop, skip, end, marks, j),
                x,
            ),
{
    lemma_spans(gs, tab_stop, skip, end, marks, marks.len() as int);
    let spans = glyph::row_spans(gs, tab_stop, skip, end, marks, marks.len() as int);
    assert(painted(spans, x) <==> exists|j: int|
        0 <= j < marks.len() && covers(
            #[trigger] span_of_mark(gs, tab_stop, skip, end, marks, j),
            x,
        ));
}

// ---------------------------------------------------------------------------
// Visible bytes.

/// Between a glyph that starts at the window's left edge or before it and one
/// that starts inside it lies a visible one.
proof fn lemma_a_glyph_crosses_the_edge(
    gs: Seq<Glyph>,
    tab_stop: int,
    skip: int,
    end: int,
    a: int,
    b: int,
)
    requires
        0 <= a <= b <= gs.len(),
        skip < end,
        glyph::column(gs, tab_stop, a) <= skip,
        glyph::column(gs, tab_stop, b) > skip,
    ensures
        exists|i: int| a <= i < b && #[trigger] glyph::in_window(gs, tab_stop, skip, end, i),
    decreases b - a,
{
    if glyph::column(gs, tab_stop, a + 1) > skip {
        assert(glyph::in_window(gs, tab_stop, skip, end, a));
    } else {
        lemma_a_glyph_crosses_the_edge(gs, tab_stop, skip, end, a + 1, b);
    }
}

/// Where a decoded line shows anything, it shows at least one byte.
pub proof fn law_a_visible_range_is_not_empty(
    s: Seq<u8>,
    tab_stop: int,
    skip: int,
    end: int,
    shown: (int, int),
)
    requires
        glyph::shown_bytes(glyph::glyphs_of(s), tab_stop, skip, end, shown.0, shown.1),
    ensures
        shown.0 < shown.1 || shown == (0int, 0int),
{
    let gs = glyph::glyphs_of(s);
    if exists|i: int| 0 <= i < gs.len() && #[trigger] glyph::in_window(
        gs,
        tab_stop,
        skip,
        end,
        i,
    ) {
        let (first, last) = choose|first: int, last: int|
            {
                &&& 0 <= first <= last < gs.len()
                &&& #[trigger] glyph::in_window(gs, tab_stop, skip, end, first)
                &&& #[trigger] glyph::in_window(gs, tab_stop, skip, end, last)
                &&& forall|i: int|
                    0 <= i < gs.len() && #[trigger] glyph::in_window(
                        gs,
                        tab_stop,
                        skip,
                        end,
                        i,
                    ) ==> first <= i <= last
                &&& shown.0 == glyph::byte_offset(gs, first)
                &&& shown.1 == glyph::byte_offset(gs, last + 1)
            };
        glyph::lemma_byte_offset_grows(gs, first, last);
        lemma_decoded_glyph(s, last);
    }
}

/// A mark that is not empty and takes no visible byte paints nothing, so a
/// search for marks may leave out what lies outside of the visible bytes.
pub proof fn law_marks_outside_the_visible_bytes_paint_nothing(
    gs: Seq<Glyph>,
    tab_stop: int,
    skip: int,
    end: int,
    shown: (int, int),
    from: int,
    to: int,
)
    requires
        1 <= tab_stop,
        0 <= skip < end,
        glyph::shown_bytes(gs, tab_stop, skip, end, shown.0, shown.1),
        0 <= from < to,
        to <= shown.0 || from >= shown.1,
    ensures
        glyph::mark_span(gs, tab_stop, skip, end, from, to) is None,
{
    let n = glyph::laid_out(gs, tab_stop, end);
    glyph::lemma_laid_out(gs, tab_stop, end, 0);
    glyph::lemma_glyph_at(gs, n, from, 0);
    glyph::lemma_glyph_at(gs, n, to - 1, 0);
    let f = glyph::glyph_at(gs, n, from);
    let l = glyph::glyph_at(gs, n, to - 1);
    if f < n {
        lemma_glyph_at_grows(gs, n, from, to - 1, 0);
        if exists|i: int| 0 <= i < gs.len() && #[trigger] glyph::in_window(
            gs,
            tab_stop,
            skip,
            end,
            i,
        ) {
            let (first, last) = choose|first: int, last: int|
                {
                    &&& 0 <= first <= last < gs.len()
                    &&& #[trigger] glyph::in_window(gs, tab_stop, skip, end, first)
                    &&& #[trigger] glyph::in_window(gs, tab_stop, skip, end, last)
                    &&& forall|i: int|
                        0 <= i < gs.len() && #[trigger] glyph::in_window(
                            gs,
                            tab_stop,
                            skip,
                            end,
                            i,
                        ) ==> first <= i <= last
                    &&& shown.0 == glyph::byte_offset(gs, first)
                    &&& shown.1 == glyph::byte_offset(gs, last + 1)
                };
            if to <= shown.0 {
                if l >= first {
                    glyph::lemma_byte_offset_grows(gs, first, l);
                    assert(glyph::byte_offset(gs, (l - 1) + 1) <= to - 1);
                    assert(false);
                }
                assert(!glyph::in_window(gs, tab_stop, skip, end, l));
                glyph::lemma_column_grows(gs, tab_stop, l, first);
            } else {
                if f <= last {
                    glyph::lemma_byte_offset_grows(gs, f + 1, last + 1);
                    assert(false);
                }
                assert(!glyph::in_window(gs, tab_stop, skip, end, f));
                glyph::lemma_column_grows(gs, tab_stop, last + 1, f);
                glyph::lemma_column_grows(gs, tab_stop, f, f + 1);
            }
        } else {
            assert(!glyph::in_window(gs, tab_stop, skip, end, f));
            let stop = if l < n {
                l + 1
            } else {
                n
            };
            if glyph::column(gs, tab_stop, stop) > skip && glyph::column(gs, tab_stop, f + 1)
                <= skip {
                lemma_a_glyph_crosses_the_edge(gs, tab_stop, skip, end, f + 1, stop);
            }
        }
    }
}

/// An empty mark that is painted lies past the visible bytes, or at the end of
/// the line, only where the visible bytes reach to the end of the line.
pub proof fn law_a_painted_empty_mark_is_not_past_the_visible_bytes(
    gs: Seq<Glyph>,
    tab_stop: int,
    skip: int,
    end: int,
    shown: (int, int),
    at: int,
)
    requires
        1 <= tab_stop,
        0 <= skip < end,
        glyph::shown_bytes(gs, tab_stop, skip, end, shown.0, shown.1),
        shown.0 < shown.1,
        0 <= at,
        glyph::mark_span(gs, tab_stop, skip, end, at, at) is Some,
    ensures
        at > shown.1 || at >= glyph::byte_offset(gs, gs.len() as int) ==> shown.1
            == glyph::byte_offset(gs, gs.len() as int),
{
    let n = glyph::laid_out(gs, tab_stop, end);
    glyph::lemma_laid_out(gs, tab_stop, end, 0);
    glyph::lemma_glyph_at(gs, n, at, 0);
    let f = glyph::glyph_at(gs, n, at);
    let (first, last) = choose|first: int, last: int|
        {
            &&& 0 <= first <= last < gs.len()
            &&& #[trigger] glyph::in_window(gs, tab_stop, skip, end, first)
            &&& #[trigger] glyph::in_window(gs, tab_stop, skip, end, last)
            &&& forall|i: int|
                0 <= i < gs.len() && #[trigger] glyph::in_window(
                    gs,
                    tab_stop,
                    skip,
                    end,
                    i,
                ) ==> first <= i <= last
            &&& shown.0 == glyph::byte_offset(gs, first)
            &&& shown.1 == glyph::byte_offset(gs, last + 1)
        };
    if at > shown.1 || at >= glyph::byte_offset(gs, gs.len() as int) {
        glyph::lemma_byte_offset_grows(gs, last + 1, gs.len() as int);
        if f < n {
            glyph::lemma_byte_offset_grows(gs, f + 1, gs.len() as int);
            if f <= last {
                glyph::lemma_byte_offset_grows(gs, f + 1, last + 1);
            }
        }
        if last + 1 < gs.len() {
            let g = if f < n {
                f
            } else {
                last + 1
            };
            assert(!glyph::in_window(gs, tab_stop, skip, end, g));
            glyph::lemma_column_grows(gs, tab_stop, last + 1, g + 1);
            glyph::lemma_column_grows(gs, tab_stop, last + 1, g);
            if f == n && last + 1 <= n {
                glyph::lemma_column_grows(gs, tab_stop, last + 1, n);
            }
        }
    }
}

/// Glyphs that take at least a column each come at least as many columns later
/// as there are glyphs before them.
proof fn lemma_columns_spread(gs: Seq<Glyph>, tab_stop: int, i: int)
    requires
        1 <= tab_stop,
        0 <= i <= gs.len(),
        forall|k: int| 0 <= k < gs.len() ==> (#[trigger] gs[k]).width >= 1,
    ensures
        glyph::column(gs, tab_stop, i) >= i,
    decreases i,
{
    if i > 0 {
        lemma_columns_spread(gs, tab_stop, i - 1);
        assert(gs[i - 1].width >= 1);
        glyph::lemma_advance_bounds(gs[i - 1], glyph::column(gs, tab_stop, i - 1), tab_stop);
    }
}

/// However long a line is, no more of it is laid out than the window reaches
/// over: where every character takes a column of its own, at most as many glyphs
/// as there are columns up to the window's right edge.
pub proof fn law_a_window_lays_out_few_glyphs(gs: Seq<Glyph>, tab_stop: int, end: int)
    requires
        1 <= tab_stop,
        0 <= end,
        forall|k: int| 0 <= k < gs.len() ==> (#[trigger] gs[k]).width >= 1,
    ensures
        glyph::laid_out(gs, tab_stop, end) <= end,
{
    glyph::lemma_laid_out(gs, tab_stop, end, 0);
    if glyph::laid_out(gs, tab_stop, end) > end {
        lemma_columns_spread(gs, tab_stop, end);
        assert(gs[end].width >= 1);
        glyph::lemma_advance_bounds(gs[end], glyph::column(gs, tab_stop, end), tab_stop);
        assert(glyph::past_edge(gs, tab_stop, end, end));
    }
}

// ---------------------------------------------------------------------------
// What each glyph of a line takes and shows.

/// The glyphs of a line are its tokens: glyph `i` is the character that the bytes
/// from its own offset on begin with, with as many bytes as that takes and as
/// many columns.
pub proof fn law_glyphs_are_the_tokens(s: Seq<u8>, i: int)
    requires
        0 <= i < glyph::glyphs_of(s).len(),
    ensures
        ({
            let gs = glyph::glyphs_of(s);
            let at = glyph::byte_offset(gs, i);
            &&& 0 <= at < s.len()
            &&& gs[i].ch == utf8::token_char(s.skip(at))
            &&& gs[i].bytes == utf8::token_len(s.skip(at))
            &&& gs[i].width == width::columns_of(gs[i].ch)
            &&& glyph::byte_offset(gs, i + 1) == at + gs[i].bytes
            &&& glyph::byte_offset(gs, 0) == 0
        }),
    decreases s.len(),
{
    utf8::lemma_token_len_bounds(s);
    let n = utf8::token_len(s) as int;
    let rest = s.skip(n);
    let gs = glyph::glyphs_of(s);
    let first = glyph::first_glyph(s);
    assert(gs == seq![first] + glyph::glyphs_of(rest));
    assert(n <= 4);
    lemma_decoded_glyph(s, i);
    if i > 0 {
        law_glyphs_are_the_tokens(rest, i - 1);
        lemma_byte_offset_cons(first, glyph::glyphs_of(rest), i - 1);
        assert(gs[i] == glyph::glyphs_of(rest)[i - 1]);
        let at = glyph::byte_offset(gs, i);
        assert(rest.skip(at - n) =~= s.skip(at));
    } else {
        assert(s.skip(0) =~= s);
        assert(gs[0] == first);
        assert(glyph::byte_offset(gs, 0) == 0);
    }
}

/// Each glyph takes the columns right after those of the glyph before it: a tab
/// all up to the next tab stop, a control two, any other its own width.
pub proof fn law_each_glyph_takes_its_columns(gs: Seq<Glyph>, tab_stop: int, i: int)
    requires
        1 <= tab_stop,
        0 <= i < gs.len(),
    ensures
        glyph::column(gs, tab_stop, 0) == 0,
        ({
            let from = glyph::column(gs, tab_stop, i);
            let to = glyph::column(gs, tab_stop, i + 1);
            if gs[i].ch == '\t' {
                from < to <= from + tab_stop && to % tab_stop == 0
            } else if (gs[i].ch as u32) < 0x20 || gs[i].ch as u32 == 0x7f {
                to == from + 2
            } else {
                to == from + gs[i].width
            }
        }),
{
    let from = glyph::column(gs, tab_stop, i);
    glyph::lemma_column_grows(gs, tab_stop, 0, i);
    glyph::lemma_advance_bounds(gs[i], from, tab_stop);
    assert(glyph::column(gs, tab_stop, i + 1) == from + glyph::advance(gs[i], from, tab_stop));
    vstd::arithmetic::div_mod::lemma_mod_multiples_basic(from / tab_stop + 1, tab_stop);
}

/// What the first cells show does not depend on the cells after them.
proof fn lemma_window_prefix(cs: Seq<Cell>, more: Seq<Cell>, skip: int, end: int, n: int)
    requires
        0 <= n <= cs.len(),
    ensures
        glyph::window_text(cs + more, skip, end, n) == glyph::window_text(cs, skip, end, n),
    decreases n,
{
    if n > 0 {
        lemma_window_prefix(cs, more, skip, end, n - 1);
        glyph::lemma_cell_start_prefix(cs, more, n - 1);
        assert((cs + more)[n - 1] == cs[n - 1]);
    }
}

/// How many columns of `[from, to)` lie in the window `[skip, end)`.
pub open spec fn overlap(from: int, to: int, skip: int, end: int) -> nat {
    let lo = if from < skip {
        skip
    } else {
        from
    };
    let hi = if to < end {
        to
    } else {
        end
    };
    if lo < hi {
        (hi - lo) as nat
    } else {
        0
    }
}

proof fn lemma_window_blanks(cs: Seq<Cell>, blanks: Seq<Cell>, skip: int, end: int, k: int)
    requires
        0 <= k <= blanks.len(),
        0 <= skip <= end,
        forall|i: int| 0 <= i < blanks.len() ==> #[trigger] blanks[i] == (Cell { ch: ' ', width: 1 }),
    ensures
        ({
            let col = glyph::cell_start(cs, cs.len() as int);
            glyph::window_text(cs + blanks, skip, end, cs.len() + k) == glyph::window_text(
                cs,
                skip,
                end,
                cs.len() as int,
            ) + Seq::new(overlap(col, col + k, skip, end), |j: int| ' ')
        }),
    decreases k,
{
    let col = glyph::cell_start(cs, cs.len() as int);
    let before = glyph::window_text(cs, skip, end, cs.len() as int);
    if k > 0 {
        lemma_window_blanks(cs, blanks, skip, end, k - 1);
        glyph::lemma_blanks_width(cs, blanks, k - 1);
        assert((cs + blanks)[cs.len() + k - 1] == blanks[k - 1]);
        let at = col + k - 1;
        let shown = glyph::cell_text(blanks[k - 1], at, skip, end);
        assert(shown =~= Seq::new(overlap(at, at + 1, skip, end), |j: int| ' '));
        assert(Seq::new(overlap(col, col + k - 1, skip, end), |j: int| ' ') + shown =~= Seq::new(
            overlap(col, col + k, skip, end),
            |j: int| ' ',
        ));
        assert(before + Seq::new(overlap(col, col + k - 1, skip, end), |j: int| ' ') + shown
            =~= before + Seq::new(overlap(col, col + k, skip, end), |j: int| ' '));
    } else {
        lemma_window_prefix(cs, blanks, skip, end, cs.len() as int);
        assert(before + Seq::new(overlap(col, col, skip, end), |j: int| ' ') =~= before);
    }
}

/// A window shows each glyph of a line where its columns are: one more glyph at
/// the end of the line adds to the text what lies of it in the window
/// `[skip, end)`, and changes nothing before it. A tab adds a blank for each of
/// its columns there, a control the part of its caret notation. Any other
/// character adds itself, or one blank where an edge cuts it; one without columns
/// is added where a column of the window lies right before it. An empty line
/// shows nothing.
pub proof fn law_one_more_glyph_adds_what_it_shows(
    gs: Seq<Glyph>,
    g: Glyph,
    tab_stop: int,
    skip: int,
    end: int,
)
    requires
        1 <= tab_stop,
        0 <= skip < end,
    ensures
        glyph::row_text(Seq::<Glyph>::empty(), tab_stop, skip, end) == Seq::<char>::empty(),
        ({
            let from = glyph::column(gs, tab_stop, gs.len() as int);
            let to = glyph::column(gs.push(g), tab_stop, gs.len() + 1int);
            let text = glyph::row_text(gs, tab_stop, skip, end);
            let all = glyph::row_text(gs.push(g), tab_stop, skip, end);
            if g.ch == '\t' {
                all == text + Seq::new(overlap(from, to, skip, end), |j: int| ' ')
            } else if (g.ch as u32) < 0x20 || g.ch as u32 == 0x7f {
                let second = (if g.ch as u32 == 0x7f {
                    0x3f
                } else {
                    (g.ch as u32 + 0x40) as u32
                }) as char;
                all == text + (if skip <= from < end {
                    seq!['^']
                } else {
                    Seq::<char>::empty()
                }) + (if skip <= from + 1 < end {
                    seq![second]
                } else {
                    Seq::<char>::empty()
                })
            } else if g.width == 0 {
                all == text + if skip < from <= end {
                    seq![g.ch]
                } else {
                    Seq::<char>::empty()
                }
            } else {
                all == text + if from >= end || to <= skip {
                    Seq::<char>::empty()
                } else if from < skip || to > end {
                    seq![' ']
                } else {
                    seq![g.ch]
                }
            }
        }),
{
    let n = gs.len() as int;
    let all = gs.push(g);
    let n0 = glyph::laid_out(gs, tab_stop, end);
    glyph::lemma_laid_out(gs, tab_stop, end, 0);
    assert(all.take(n) =~= gs);
    assert forall|k: int| 0 <= k < n0 implies !#[trigger] glyph::past_edge(
        all,
        tab_stop,
        end,
        k,
    ) by {
        glyph::lemma_cut_keeps_layout(all, tab_stop, n, k);
        assert(!glyph::past_edge(gs, tab_stop, end, k));
        assert(all[k] == gs[k]);
    }
    glyph::lemma_laid_out_skips(all, tab_stop, end, n0);
    glyph::lemma_cut_keeps_layout(all, tab_stop, n, n0);
    glyph::lemma_cut_keeps_layout(all, tab_stop, n, n);
    glyph::lemma_column_grows(gs, tab_stop, 0, n);
    let from = glyph::column(gs, tab_stop, n);
    let text = glyph::row_text(gs, tab_stop, skip, end);
    law_each_glyph_takes_its_columns(all, tab_stop, n);
    glyph::lemma_advance_bounds(g, from, tab_stop);
    assert(text + Seq::<char>::empty() =~= text);
    assert(Seq::new(0, |j: int| ' ') =~= Seq::<char>::empty());
    let empty = Seq::<Glyph>::empty();
    assert(glyph::row_text(empty, tab_stop, skip, end) =~= Seq::<char>::empty());
    if n0 < n {
        // the line already reaches past the edge.
        assert(all[n0] == gs[n0]);
        assert(glyph::past_edge(all, tab_stop, end, n0));
        glyph::lemma_column_grows(gs, tab_stop, n0 + 1, n);
        assert(glyph::laid_out(all, tab_stop, end) == n0);
    } else if glyph::past_edge(all, tab_stop, end, n) {
        assert(glyph::laid_out(all, tab_stop, end) == n);
    } else {
        assert(glyph::laid_out_from(all, tab_stop, end, n + 1) == n + 1);
        let cs = glyph::cells_of(gs, tab_stop, n);
        let more = glyph::glyph_cells(g, from, tab_stop);
        glyph::lemma_cells_end_at_column(gs, tab_stop, n);
        assert(glyph::cells_of(all, tab_stop, n + 1) == cs + more);
        let m = cs.len() as int;
        lemma_window_prefix(cs, more, skip, end, m);
        glyph::lemma_cell_start_prefix(cs, more, m);
        if g.ch == '\t' {
            lemma_window_blanks(cs, more, skip, end, more.len() as int);
        } else if glyph::is_control(g.ch) {
            assert((cs + more)[m] == more[0]);
            assert((cs + more)[m + 1] == more[1]);
            assert(glyph::cell_start(cs + more, m + 1) == from + 1);
            let one = glyph::window_text(cs + more, skip, end, m + 1);
            assert(one =~= text + (if skip <= from < end {
                seq!['^']
            } else {
                Seq::<char>::empty()
            }));
            assert(glyph::window_text(cs + more, skip, end, m + 2) == one + glyph::cell_text(
                more[1],
                from + 1,
                skip,
                end,
            ));
        } else {
            assert((cs + more)[m] == more[0]);
            assert(glyph::window_text(cs + more, skip, end, m + 1) == text + glyph::cell_text(
                more[0],
                from,
                skip,
                end,
            ));
        }
    }
}

/// Glyph `i` takes column `c`.
pub open spec fn takes_column(gs: Seq<Glyph>, tab_stop: int, i: int, c: int) -> bool {
    glyph::column(gs, tab_stop, i) <= c < glyph::column(gs, tab_stop, i + 1)
}

/// Every column between two glyphs is taken by one of those between them.
proof fn lemma_some_glyph_takes_a_column(gs: Seq<Glyph>, tab_stop: int, a: int, b: int, c: int)
    requires
        a <= b,
        glyph::column(gs, tab_stop, a) <= c < glyph::column(gs, tab_stop, b),
    ensures
        exists|i: int| a <= i < b && #[trigger] takes_column(gs, tab_stop, i, c),
    decreases b - a,
{
    if c < glyph::column(gs, tab_stop, a + 1) {
        assert(takes_column(gs, tab_stop, a, c));
    } else {
        lemma_some_glyph_takes_a_column(gs, tab_stop, a + 1, b, c);
    }
}

/// Glyph `i` of a line that lies at `at` shares a byte with `[from, to)`.
pub open spec fn shares_a_byte(gs: Seq<Glyph>, at: int, i: int, from: int, to: int) -> bool {
    from < at + glyph::byte_offset(gs, i + 1) && at + glyph::byte_offset(gs, i) < to
}

/// A mark paints the glyphs that it touches: a cell of the window is one of a
/// mark that is not empty exactly if a glyph that shares a byte with the mark
/// takes the column of the cell.
pub proof fn law_a_mark_paints_the_glyphs_it_touches(
    gs: Seq<Glyph>,
    tab_stop: int,
    skip: int,
    end: int,
    from: int,
    to: int,
    x: int,
)
    requires
        1 <= tab_stop,
        0 <= skip <= end,
        0 <= from < to,
    ensures
        covers(glyph::mark_span(gs, tab_stop, skip, end, from, to), x) <==> 0 <= x < end - skip
            && exists|i: int|
            0 <= i < gs.len() && #[trigger] takes_column(gs, tab_stop, i, skip + x)
                && shares_a_byte(gs, 0, i, from, to),
{
    let n = glyph::laid_out(gs, tab_stop, end);
    glyph::lemma_laid_out(gs, tab_stop, end, 0);
    glyph::lemma_glyph_at(gs, n, from, 0);
    glyph::lemma_glyph_at(gs, n, to - 1, 0);
    let f = glyph::glyph_at(gs, n, from);
    let l = glyph::glyph_at(gs, n, to - 1);
    let stop = if l < n {
        l + 1
    } else {
        n
    };
    let c = skip + x;
    if covers(glyph::mark_span(gs, tab_stop, skip, end, from, to), x) {
        assert(f < n);
        if f >= stop {
            glyph::lemma_column_grows(gs, tab_stop, stop, f);
        }
        lemma_some_glyph_takes_a_column(gs, tab_stop, f, stop, c);
        let i = choose|i: int| f <= i < stop && #[trigger] takes_column(gs, tab_stop, i, c);
        glyph::lemma_byte_offset_grows(gs, f + 1, i + 1);
        if i > 0 {
            assert(glyph::byte_offset(gs, (i - 1) + 1) <= to - 1);
        }
        assert(shares_a_byte(gs, 0, i, from, to));
    }
    if 0 <= x < end - skip && exists|i: int|
        0 <= i < gs.len() && #[trigger] takes_column(gs, tab_stop, i, c) && shares_a_byte(
            gs,
            0,
            i,
            from,
            to,
        ) {
        let i = choose|i: int|
            0 <= i < gs.len() && #[trigger] takes_column(gs, tab_stop, i, c) && shares_a_byte(
                gs,
                0,
                i,
                from,
                to,
            );
        if i >= n {
            glyph::lemma_column_grows(gs, tab_stop, n, i);
        }
        if i < f {
            assert(glyph::byte_offset(gs, i + 1) <= from);
        }
        if i > l {
            glyph::lemma_byte_offset_grows(gs, l + 1, i);
        }
        glyph::lemma_column_grows(gs, tab_stop, f, i);
        glyph::lemma_column_grows(gs, tab_stop, i + 1, stop);
    }
}

/// An empty mark paints one cell: the first one of the glyph that holds its byte,
/// or the one after the whole line where no glyph does; none where that cell is
/// not in the window.
pub proof fn law_an_empty_mark_paints_one_cell(
    gs: Seq<Glyph>,
    tab_stop: int,
    skip: int,
    end: int,
    at: int,
    i: int,
)
    requires
        1 <= tab_stop,
        0 <= skip <= end,
        0 <= i <= gs.len(),
        glyph::byte_offset(gs, i) <= at,
        i < gs.len() ==> at < glyph::byte_offset(gs, i + 1),
    ensures
        ({
            let c = glyph::column(gs, tab_stop, i);
            glyph::mark_span(gs, tab_stop, skip, end, at, at) == if skip <= c < end {
                Some((c - skip, c - skip + 1))
            } else {
                None
            }
        }),
{
    let n = glyph::laid_out(gs, tab_stop, end);
    glyph::lemma_laid_out(gs, tab_stop, end, 0);
    glyph::lemma_glyph_at(gs, n, at, 0);
    let f = glyph::glyph_at(gs, n, at);
    if f < n && f < i {
        glyph::lemma_byte_offset_grows(gs, f + 1, i);
    }
    if i < f {
        assert(glyph::byte_offset(gs, i + 1) <= at);
    }
    if n < gs.len() && i >= n {
        glyph::lemma_column_grows(gs, tab_stop, n, i);
    }
}

/// Glyph `i` reaches into the window `[skip, end)`: it starts before the right
/// edge and ends after the left one.
pub open spec fn reaches_in(gs: Seq<Glyph>, tab_stop: int, skip: int, end: int, i: int) -> bool {
    glyph::column(gs, tab_stop, i) < end && skip < glyph::column(gs, tab_stop, i + 1)
}

/// The visible bytes of a line are those of the glyphs that reach into the
/// window: all of them, and no more than from the first such glyph to the last.
pub proof fn law_visible_bytes_are_those_of_visible_glyphs(
    gs: Seq<Glyph>,
    tab_stop: int,
    skip: int,
    end: int,
    from: int,
    to: int,
)
    requires
        glyph::shown_bytes(gs, tab_stop, skip, end, from, to),
    ensures
        forall|i: int|
            0 <= i < gs.len() && #[trigger] reaches_in(gs, tab_stop, skip, end, i) ==> from
                <= glyph::byte_offset(gs, i) && glyph::byte_offset(gs, i + 1) <= to,
        from == 0 && to == 0 || (exists|i: int, j: int|
            0 <= i <= j < gs.len() && #[trigger] reaches_in(gs, tab_stop, skip, end, i)
                && #[trigger] reaches_in(gs, tab_stop, skip, end, j) && from == glyph::byte_offset(
                gs,
                i,
            ) && to == glyph::byte_offset(gs, j + 1)),
{
    assert forall|i: int| #[trigger] reaches_in(gs, tab_stop, skip, end, i) == glyph::in_window(
        gs,
        tab_stop,
        skip,
        end,
        i,
    ) by {}
    if exists|i: int| 0 <= i < gs.len() && #[trigger] glyph::in_window(
        gs,
        tab_stop,
        skip,
        end,
        i,
    ) {
        let (first, last) = choose|first: int, last: int|
            {
                &&& 0 <= first <= last < gs.len()
                &&& #[trigger] glyph::in_window(gs, tab_stop, skip, end, first)
                &&& #[trigger] glyph::in_window(gs, tab_stop, skip, end, last)
                &&& forall|i: int|
                    0 <= i < gs.len() && #[trigger] glyph::in_window(
                        gs,
                        tab_stop,
                        skip,
                        end,
                        i,
                    ) ==> first <= i <= last
                &&& from == glyph::byte_offset(gs, first)
                &&& to == glyph::byte_offset(gs, last + 1)
            };
        assert(reaches_in(gs, tab_stop, skip, end, first));
        assert(reaches_in(gs, tab_stop, skip, end, last));
        assert forall|i: int|
            0 <= i < gs.len() && #[trigger] reaches_in(gs, tab_stop, skip, end, i) implies from
            <= glyph::byte_offset(gs, i) && glyph::byte_offset(gs, i + 1) <= to by {
            assert(glyph::in_window(gs, tab_stop, skip, end, i));
            glyph::lemma_byte_offset_grows(gs, first, i);
            glyph::lemma_byte_offset_grows(gs, i + 1, last + 1);
        }
    } else {
        assert forall|i: int|
            0 <= i < gs.len() && #[trigger] reaches_in(gs, tab_stop, skip, end, i) implies false by {
            assert(glyph::in_window(gs, tab_stop, skip, end, i));
        }
    }
}

}
