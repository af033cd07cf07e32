use vstd::prelude::*;

use crate::barcode::{
    lemma_ean13_modules_len, lemma_repeat_rows_len, spec_bar_row, spec_check_digit,
    spec_ean13_bitmap, spec_ean13_modules, spec_repeat_rows, weighted_sum,
};
use crate::chars::{decimal, digit_char, digits_value, all_decimal, spec_parse_u16};
use crate::models::device::{
    network_path, spec_target_from_wire, spec_target_wire, spec_to_target, target_is_addressable,
};
use crate::models::{PaperWidth, PrinterBackend, PrinterInfo, PrinterTarget};
use crate::printer::{last_colon, spec_has_default_emulator, spec_network_endpoints, spec_parse_host_port};
use crate::raster::{
    pixel_is_black, spec_gs_v0_command, spec_gs_v0_header, spec_pack_bits, spec_padded_size,
    spec_raster_bytes, spec_row_byte, BitmapView,
};
use crate::models::{block_error, first_block_error, Block, CharacterSet, Column, PrintDocument};
use crate::printer::{is_test_document, GraphicsBackend};
use crate::render::{
    apply_style_ops, block_ops, emulator_barcode_ops, flag_or_false, font_ops, line_ops,
    lines_ops, plan_blocks, repeat_chars, reset_ops, spec_render_plan, Op,
    RasterView,
};
use crate::text::{
    default_cells, explicit_cells, lemma_sum_nat_update_last, spec_column_row,
    spec_column_segments, spec_column_widths, spec_physical_widths, sum_nat, unspecified_count,
};
use crate::chars::is_unicode_whitespace;
use crate::text::{
    lines_scan, spaces, spec_chunks, spec_encode_pc858, spec_fit_text, spec_lines,
    spec_wrap_line, spec_wrap_text, spec_words, strip_cr, words_scan, wrap_lines, wrap_step,
    wrap_words_scan,
};
use vstd::seq_lib::lemma_flatten_concat;
use crate::barcode::{spec_left_even_code, spec_left_odd_code, spec_parity_code, spec_right_code};
use crate::models::{Align, FontSize, TextStyle};
use crate::text::spec_pc858;

verus! {

/// A target written to its record and read back is the same target, exactly when the record
/// can carry it (a non-empty path, or a non-empty host and a non-zero port); otherwise it is
/// refused.
pub proof fn law_target_wire_round_trip(t: PrinterTarget)
    ensures
        target_is_addressable(t) ==> spec_target_from_wire(spec_target_wire(t)) == Ok::<
            PrinterTarget,
            Seq<char>,
        >(t),
        !target_is_addressable(t) ==> spec_target_from_wire(spec_target_wire(t)) is Err,
{
}

/// A paper width written in millimetres reads back as the same paper.
pub proof fn law_paper_width_round_trip(p: PaperWidth)
    ensures
        (p.spec_millimetres() == 58 ==> p == PaperWidth::Mm58),
        (p.spec_millimetres() == 80 ==> p == PaperWidth::Mm80),
        p.spec_millimetres() == 58 || p.spec_millimetres() == 80,
{
}

/// The entry of a network printer leads back to its host and port, when the host is not empty
/// and the port not 0.
pub proof fn law_network_entry_targets_its_endpoint(info: PrinterInfo, host: String, port: u16)
    requires
        info.host == Some(host),
        info.port == Some(port),
        info.backend == PrinterBackend::Network,
        host@.len() != 0,
        port != 0,
    ensures
        spec_to_target(info) == Ok::<PrinterTarget, crate::models::ErrorView>(
            PrinterTarget::Network { host, port },
        ),
{
}

proof fn lemma_weighted_sum_push(d: Seq<u8>, x: u8)
    ensures
        weighted_sum(d.push(x)) == weighted_sum(d) + x as nat * if d.len() % 2 == 0 {
            1nat
        } else {
            3nat
        },
{
    assert(d.push(x).drop_last() =~= d);
}

/// Twelve digits followed by their check digit have a weighted sum that is a multiple of ten.
pub proof fn law_check_digit_completes_the_sum(d: Seq<u8>)
    requires
        d.len() == 12,
    ensures
        spec_check_digit(d) < 10,
        (weighted_sum(d.push(spec_check_digit(d)))) % 10 == 0,
{
    lemma_weighted_sum_push(d, spec_check_digit(d));
}

/// Text in ASCII is sent as its own bytes; any text gets one byte per character.
pub proof fn law_pc858_keeps_ascii(text: Seq<char>)
    ensures
        spec_encode_pc858(text).len() == text.len(),
        (forall|i: int| 0 <= i < text.len() ==> (#[trigger] text[i] as u32) < 0x80) ==> (forall|
            i: int,
        |
            0 <= i < text.len() ==> #[trigger] spec_encode_pc858(text)[i] == text[i] as u32 as u8),
{
}

proof fn lemma_raster_bytes_len(g: BitmapView, rows: nat, bytes_per_row: nat)
    ensures
        spec_raster_bytes(g, rows, bytes_per_row).len() == rows * bytes_per_row,
    decreases rows,
{
    if rows > 0 {
        let m = (rows - 1) as nat;
        lemma_raster_bytes_len(g, m, bytes_per_row);
        assert(m * bytes_per_row + bytes_per_row == rows * bytes_per_row) by (nonlinear_arith)
            requires
                m + 1 == rows,
        ;
    } else {
        assert(rows * bytes_per_row == 0) by (nonlinear_arith)
            requires
                rows == 0,
        ;
    }
}

/// A `GS v 0` command is its 8-byte header, then one byte per 8 pixels of each padded row.
pub proof fn law_gs_v0_length(g: BitmapView)
    ensures
        ({
            let (w, h) = spec_padded_size(g.0 as nat, g.1 as nat);
            let bytes_per_row = ((w / 8) as int) as u16;
            spec_gs_v0_command(g).len() == 8 + h * bytes_per_row
        }),
{
    let (w, h) = spec_padded_size(g.0 as nat, g.1 as nat);
    let bytes_per_row = ((w / 8) as int) as u16;
    lemma_raster_bytes_len(g, h, bytes_per_row as nat);
}

proof fn lemma_repeat_rows_index(row: Seq<u8>, n: nat, y: int, x: int)
    requires
        0 <= y < n,
        0 <= x < row.len(),
    ensures
        y * row.len() + x < spec_repeat_rows(row, n).len(),
        spec_repeat_rows(row, n)[y * row.len() + x] == row[x],
    decreases n,
{
    let m = (n - 1) as nat;
    lemma_repeat_rows_len(row, n);
    lemma_repeat_rows_len(row, m);
    let len = row.len() as int;
    assert(spec_repeat_rows(row, n) == spec_repeat_rows(row, m) + row);
    assert(y * len + x < n * len) by (nonlinear_arith)
        requires
            0 <= y < n,
            0 <= x < len,
    ;
    if y < m {
        lemma_repeat_rows_index(row, m, y, x);
        assert(y * len + x < m * len) by (nonlinear_arith)
            requires
                0 <= y < m,
                0 <= x < len,
        ;
    } else {
        assert(y * len == m * len);
    }
}

/// In a bitmap whose rows all repeat one row, a pixel is black in one row exactly when it is
/// black in any other.
proof fn lemma_repeated_rows_black(row: Seq<u8>, n: nat, y1: int, y2: int, x: int)
    requires
        0 <= y1 < n,
        0 <= y2 < n,
        row.len() <= u32::MAX,
        n <= u32::MAX,
    ensures
        ({
            let g: BitmapView = (row.len() as u32, n as u32, spec_repeat_rows(row, n));
            pixel_is_black(g, x, y1) == pixel_is_black(g, x, y2)
        }),
{
    if 0 <= x < row.len() {
        lemma_repeat_rows_index(row, n, y1, x);
        lemma_repeat_rows_index(row, n, y2, x);
    }
}

proof fn lemma_repeated_rows_pack(row: Seq<u8>, n: nat, y1: int, y2: int, column: int, k: nat)
    requires
        0 <= y1 < n,
        0 <= y2 < n,
        row.len() <= u32::MAX,
        n <= u32::MAX,
    ensures
        ({
            let g: BitmapView = (row.len() as u32, n as u32, spec_repeat_rows(row, n));
            spec_pack_bits(g, y1, column, k) == spec_pack_bits(g, y2, column, k)
        }),
    decreases k,
{
    if k > 0 {
        lemma_repeated_rows_pack(row, n, y1, y2, column, (k - 1) as nat);
        lemma_repeated_rows_black(row, n, y1, y2, column * 8 + (k - 1));
    }
}

proof fn lemma_raster_row(g: BitmapView, rows: nat, bytes_per_row: nat, k: int)
    requires
        0 <= k < rows,
    ensures
        k * bytes_per_row + bytes_per_row <= spec_raster_bytes(g, rows, bytes_per_row).len(),
        spec_raster_bytes(g, rows, bytes_per_row).subrange(
            k * bytes_per_row,
            k * bytes_per_row + bytes_per_row,
        ) == Seq::new(bytes_per_row, |c: int| spec_row_byte(g, k, c)),
    decreases rows,
{
    let m = (rows - 1) as nat;
    let b = bytes_per_row as int;
    lemma_raster_bytes_len(g, m, bytes_per_row);
    lemma_raster_bytes_len(g, rows, bytes_per_row);
    let prev = spec_raster_bytes(g, m, bytes_per_row);
    let last = Seq::new(bytes_per_row, |c: int| spec_row_byte(g, rows - 1, c));
    assert(spec_raster_bytes(g, rows, bytes_per_row) == prev + last);
    assert(k * b + b <= rows * b) by (nonlinear_arith)
        requires
            0 <= k < rows,
            b >= 0,
    ;
    if k < m {
        lemma_raster_row(g, m, bytes_per_row, k);
        assert((prev + last).subrange(k * b, k * b + b) =~= prev.subrange(k * b, k * b + b));
    } else {
        assert(k * b == m * b);
        assert((prev + last).subrange(k * b, k * b + b) =~= last);
    }
}

/// The `GS v 0` raster of an EAN-13 symbol is 1864 bytes long: its header (29 bytes per row, 64
/// rows), then 64 rows that are all the same, so that every bar spans the full height.
pub proof fn law_ean13_raster_rows_are_equal(d: Seq<u8>)
    ensures
        ({
            let c = spec_gs_v0_command(spec_ean13_bitmap(d));
            &&& c.len() == 1864
            &&& c.take(8) == seq![0x1Du8, 0x76u8, 0x30u8, 0u8, 29u8, 0u8, 64u8, 0u8]
            &&& forall|k: int|
                0 <= k < 64 ==> #[trigger] c.subrange(8 + 29 * k, 8 + 29 * k + 29) == c.subrange(
                    8,
                    37,
                )
        }),
{
    lemma_ean13_modules_len(d);
    let modules = spec_ean13_modules(d);
    let row = spec_bar_row(modules, 2);
    assert(row.len() == 226);
    let g = spec_ean13_bitmap(d);
    assert(g == (226u32, 64u32, spec_repeat_rows(row, 64)));
    let (w, h) = spec_padded_size(g.0 as nat, g.1 as nat);
    assert(w == 232 && h == 64);
    let header = spec_gs_v0_header(29u16, 64u16);
    assert((29u16 >> 8u16) == 0u16) by (bit_vector);
    assert((64u16 >> 8u16) == 0u16) by (bit_vector);
    assert(header =~= seq![0x1Du8, 0x76u8, 0x30u8, 0u8, 29u8, 0u8, 64u8, 0u8]);
    let raster = spec_raster_bytes(g, 64, 29);
    lemma_raster_bytes_len(g, 64, 29);
    let c = spec_gs_v0_command(g);
    assert(c == header + raster);
    assert(c.take(8) =~= header);
    lemma_raster_row(g, 64, 29, 0);
    assert forall|k: int| 0 <= k < 64 implies #[trigger] c.subrange(8 + 29 * k, 8 + 29 * k + 29)
        == c.subrange(8, 37) by {
        lemma_raster_row(g, 64, 29, k);
        assert(c.subrange(8 + 29 * k, 8 + 29 * k + 29) =~= raster.subrange(29 * k, 29 * k + 29));
        assert(c.subrange(8, 37) =~= raster.subrange(0, 29));
        assert forall|col: int| 0 <= col < 29 implies spec_row_byte(g, k, col) == spec_row_byte(
            g,
            0,
            col,
        ) by {
            lemma_repeated_rows_pack(row, 64, k, 0, col, 8);
        }
        assert(Seq::new(29nat, |col: int| spec_row_byte(g, k, col)) =~= Seq::new(
            29nat,
            |col: int| spec_row_byte(g, 0, col),
        ));
    }
}

/// A divider of one character is exactly as long as the line.
pub proof fn law_divider_spans_the_line(c: Seq<char>, n: nat)
    requires
        c.len() == 1,
    ensures
        repeat_chars(c, n).len() == n,
        forall|i: int| 0 <= i < n ==> #[trigger] repeat_chars(c, n)[i] == c[0],
    decreases n,
{
    if n > 0 {
        law_divider_spans_the_line(c, (n - 1) as nat);
        let prev = repeat_chars(c, (n - 1) as nat);
        assert forall|i: int| 0 <= i < n implies #[trigger] repeat_chars(c, n)[i] == c[0] by {
            if i < n - 1 {
                assert(repeat_chars(c, n)[i] == prev[i]);
            }
        }
    }
}

/// A cell always holds exactly as many characters as its width.
pub proof fn law_fit_text_fills_the_cell(value: Seq<char>, width: nat, align: crate::models::Align)
    ensures
        spec_fit_text(value, width, align).len() == width,
{
}

/// The endpoints listed are the configured ones, in order, followed at most by the local
/// emulator; it is there whenever it is to be included, and never twice because of it.
pub proof fn law_default_emulator_listed_once(
    configured: Seq<(Seq<char>, u16)>,
    include_default: bool,
)
    ensures
        spec_network_endpoints(configured, include_default).take(configured.len() as int)
            == configured,
        include_default ==> spec_has_default_emulator(
            spec_network_endpoints(configured, include_default),
        ),
        spec_has_default_emulator(configured) ==> spec_network_endpoints(
            configured,
            include_default,
        ) == configured,
{
    let r = spec_network_endpoints(configured, include_default);
    assert(r.take(configured.len() as int) =~= configured);
    if include_default && !spec_has_default_emulator(configured) {
        assert(r[configured.len() as int] == ("127.0.0.1"@, 9100u16));
    }
}


// ---------------------------------------------------------------------------------------------
// Wrapping.

/// The characters of `s` that are not white space, in order.
pub open spec fn ink(s: Seq<char>) -> Seq<char>
    decreases s.len(),
{
    if s.len() == 0 {
        seq![]
    } else {
        ink(s.drop_last()) + if is_unicode_whitespace(s.last()) {
            seq![]
        } else {
            seq![s.last()]
        }
    }
}

proof fn lemma_ink_concat(a: Seq<char>, b: Seq<char>)
    ensures
        ink(a + b) == ink(a) + ink(b),
    decreases b.len(),
{
    if b.len() == 0 {
        assert(a + b =~= a);
        assert(ink(a) + ink(b) =~= ink(a));
    } else {
        lemma_ink_concat(a, b.drop_last());
        assert((a + b).drop_last() =~= a + b.drop_last());
        assert((a + b).last() == b.last());
        let tail = if is_unicode_whitespace(b.last()) {
            Seq::<char>::empty()
        } else {
            seq![b.last()]
        };
        assert(ink(a + b) == ink(a + b.drop_last()) + tail);
        assert(ink(b) == ink(b.drop_last()) + tail);
        assert(ink(a) + ink(b.drop_last()) + tail =~= ink(a) + (ink(b.drop_last()) + tail));
    }
}

proof fn lemma_ink_idempotent(s: Seq<char>)
    ensures
        ink(ink(s)) == ink(s),
    decreases s.len(),
{
    if s.len() > 0 {
        lemma_ink_idempotent(s.drop_last());
        let tail = if is_unicode_whitespace(s.last()) {
            Seq::<char>::empty()
        } else {
            seq![s.last()]
        };
        lemma_ink_concat(ink(s.drop_last()), tail);
        if !is_unicode_whitespace(s.last()) {
            assert(tail.drop_last() =~= Seq::<char>::empty());
            assert(ink(tail) == ink(tail.drop_last()) + tail);
            assert(ink(Seq::<char>::empty()) =~= Seq::<char>::empty());
            assert(ink(tail) =~= tail);
        } else {
            assert(ink(tail) =~= tail);
        }
    }
}

proof fn lemma_ink_single(c: char)
    ensures
        ink(seq![c]) == if is_unicode_whitespace(c) {
            Seq::<char>::empty()
        } else {
            seq![c]
        },
{
    let e = seq![c].drop_last();
    assert(e =~= Seq::<char>::empty());
    assert(ink(e) == ink(Seq::<char>::empty()));
    assert(ink(Seq::<char>::empty()) =~= Seq::<char>::empty());
    assert(ink(seq![c]) == ink(e) + if is_unicode_whitespace(c) {
        Seq::<char>::empty()
    } else {
        seq![c]
    });
    assert(Seq::<char>::empty() + seq![c] =~= seq![c]);
    assert(Seq::<char>::empty() + Seq::<char>::empty() =~= Seq::<char>::empty());
}

proof fn lemma_ink_of_blank(c: char)
    requires
        is_unicode_whitespace(c),
    ensures
        ink(seq![c]) == Seq::<char>::empty(),
{
    lemma_ink_single(c);
}

proof fn lemma_words_scan_ink(s: Seq<char>)
    ensures
        words_scan(s).0.flatten() + words_scan(s).1 == ink(s),
    decreases s.len(),
{
    if s.len() == 0 {
        assert(Seq::<Seq<char>>::empty().flatten() + Seq::<char>::empty() =~= Seq::<char>::empty());
    } else {
        lemma_words_scan_ink(s.drop_last());
        let (done, cur) = words_scan(s.drop_last());
        let c = s.last();
        if is_unicode_whitespace(c) {
            if cur.len() > 0 {
                done.lemma_flatten_push(cur);
                assert(done.push(cur).flatten() + Seq::<char>::empty() =~= done.flatten() + cur);
            }
            assert(ink(s) =~= ink(s.drop_last()));
        } else {
            assert(done.flatten() + cur.push(c) =~= (done.flatten() + cur).push(c));
            assert(ink(s) =~= ink(s.drop_last()).push(c));
        }
    }
}

/// The words of a text are its characters that are not white space, in order.
pub proof fn law_words_are_the_ink(s: Seq<char>)
    ensures
        spec_words(s).flatten() == ink(s),
{
    lemma_words_scan_ink(s);
    let (done, cur) = words_scan(s);
    if cur.len() > 0 {
        done.lemma_flatten_push(cur);
    } else {
        assert(done.flatten() + cur =~= done.flatten());
    }
}

proof fn lemma_chunks_flatten(w: Seq<char>, n: nat)
    ensures
        spec_chunks(w, n).flatten() == w,
    decreases w.len(),
{
    if n == 0 || w.len() <= n {
        seq![w].lemma_flatten_singleton();
    } else {
        lemma_chunks_flatten(w.skip(n as int), n);
        lemma_flatten_concat(seq![w.take(n as int)], spec_chunks(w.skip(n as int), n));
        seq![w.take(n as int)].lemma_flatten_singleton();
        assert(w.take(n as int) + w.skip(n as int) =~= w);
    }
}

proof fn lemma_chunks_fit(w: Seq<char>, n: nat)
    requires
        n > 0,
        w.len() > n,
    ensures
        forall|i: int| 0 <= i < spec_chunks(w, n).len() ==> #[trigger] spec_chunks(w, n)[i].len() <= n,
    decreases w.len(),
{
    let rest = w.skip(n as int);
    if rest.len() > n {
        lemma_chunks_fit(rest, n);
    }
    let c = spec_chunks(w, n);
    assert forall|i: int| 0 <= i < c.len() implies #[trigger] c[i].len() <= n by {
        if i > 0 {
            assert(c[i] == spec_chunks(rest, n)[i - 1]);
        }
    }
}

/// All rows are at most `width` long.
pub open spec fn rows_fit(rows: Seq<Seq<char>>, width: nat) -> bool {
    forall|i: int| 0 <= i < rows.len() ==> #[trigger] rows[i].len() <= width
}

proof fn lemma_wrap_scan(width: nat, words: Seq<Seq<char>>)
    requires
        width > 0,
    ensures
        rows_fit(wrap_words_scan(width, words).0, width),
        wrap_words_scan(width, words).1.len() <= width,
        ink(wrap_words_scan(width, words).0.flatten()) + ink(wrap_words_scan(width, words).1)
            == ink(words.flatten()),
    decreases words.len(),
{
    if words.len() == 0 {
        assert(ink(Seq::<Seq<char>>::empty().flatten()) + ink(Seq::<char>::empty())
            =~= ink(Seq::<Seq<char>>::empty().flatten()));
    } else {
        let prev = words.drop_last();
        let word = words.last();
        lemma_wrap_scan(width, prev);
        let (done, line) = wrap_words_scan(width, prev);
        assert(words =~= prev.push(word));
        prev.lemma_flatten_push(word);
        lemma_ink_concat(prev.flatten(), word);
        let total = ink(prev.flatten()) + ink(word);
        if word.len() > width {
            let flushed = if line.len() > 0 {
                done.push(line)
            } else {
                done
            };
            assert(rows_fit(flushed, width));
            assert(ink(flushed.flatten()) == ink(done.flatten()) + ink(line)) by {
                if line.len() > 0 {
                    done.lemma_flatten_push(line);
                    lemma_ink_concat(done.flatten(), line);
                } else {
                    assert(ink(line) =~= Seq::<char>::empty());
                    assert(ink(done.flatten()) + ink(line) =~= ink(done.flatten()));
                }
            }
            lemma_chunks_fit(word, width);
            lemma_chunks_flatten(word, width);
            lemma_flatten_concat(flushed, spec_chunks(word, width));
            lemma_ink_concat(flushed.flatten(), spec_chunks(word, width).flatten());
            let out = flushed + spec_chunks(word, width);
            assert(rows_fit(out, width)) by {
                assert forall|i: int| 0 <= i < out.len() implies #[trigger] out[i].len() <= width by {
                    if i >= flushed.len() {
                        assert(out[i] == spec_chunks(word, width)[i - flushed.len()]);
                    }
                }
            }
            assert(ink(out.flatten()) + ink(Seq::<char>::empty()) =~= total);
        } else if line.len() == 0 {
            assert(ink(line) =~= Seq::<char>::empty());
            assert(ink(done.flatten()) + ink(word) =~= total);
        } else if line.len() + 1 + word.len() <= width {
            let joined = line + seq![' '] + word;
            lemma_ink_concat(line + seq![' '], word);
            lemma_ink_concat(line, seq![' ']);
            lemma_ink_of_blank(' ');
            assert(ink(line + seq![' ']) =~= ink(line));
            assert(ink(done.flatten()) + ink(joined) =~= total);
        } else {
            done.lemma_flatten_push(line);
            lemma_ink_concat(done.flatten(), line);
            let out = done.push(line);
            assert(rows_fit(out, width));
            assert(ink(out.flatten()) + ink(word) =~= total);
        }
    }
}

proof fn lemma_wrap_line(line: Seq<char>, width: nat)
    requires
        width > 0,
    ensures
        rows_fit(spec_wrap_line(line, width), width),
        ink(spec_wrap_line(line, width).flatten()) == ink(line),
{
    let words = spec_words(line);
    lemma_wrap_scan(width, words);
    law_words_are_the_ink(line);
    lemma_ink_idempotent(line);
    let (done, cur) = wrap_words_scan(width, words);
    if cur.len() > 0 {
        done.lemma_flatten_push(cur);
        lemma_ink_concat(done.flatten(), cur);
    } else if line.len() == 0 {
        done.lemma_flatten_push(Seq::<char>::empty());
        assert(done.flatten() + Seq::<char>::empty() =~= done.flatten());
        assert(ink(cur) =~= Seq::<char>::empty());
        assert(ink(done.flatten()) + ink(cur) =~= ink(done.flatten()));
    } else {
        assert(ink(cur) =~= Seq::<char>::empty());
        assert(ink(done.flatten()) + ink(cur) =~= ink(done.flatten()));
    }
}

proof fn lemma_wrap_lines(lines: Seq<Seq<char>>, width: nat)
    requires
        width > 0,
    ensures
        rows_fit(wrap_lines(lines, width), width),
        ink(wrap_lines(lines, width).flatten()) == ink(lines.flatten()),
    decreases lines.len(),
{
    if lines.len() == 0 {
    } else {
        let prev = lines.drop_last();
        let last = lines.last();
        lemma_wrap_lines(prev, width);
        lemma_wrap_line(last, width);
        let a = wrap_lines(prev, width);
        let b = spec_wrap_line(last, width);
        lemma_flatten_concat(a, b);
        lemma_ink_concat(a.flatten(), b.flatten());
        assert(lines =~= prev.push(last));
        prev.lemma_flatten_push(last);
        lemma_ink_concat(prev.flatten(), last);
        let out = a + b;
        assert forall|i: int| 0 <= i < out.len() implies #[trigger] out[i].len() <= width by {
            if i >= a.len() {
                assert(out[i] == b[i - a.len()]);
            }
        }
    }
}

proof fn lemma_lines_scan_ink(s: Seq<char>)
    ensures
        ink(lines_scan(s).0.flatten()) + ink(lines_scan(s).1) == ink(s),
    decreases s.len(),
{
    if s.len() == 0 {
        assert(ink(Seq::<Seq<char>>::empty().flatten()) + ink(Seq::<char>::empty())
            =~= Seq::<char>::empty());
    } else {
        lemma_lines_scan_ink(s.drop_last());
        let (done, cur) = lines_scan(s.drop_last());
        let c = s.last();
        if c == '\n' {
            let stripped = strip_cr(cur);
            assert(ink(stripped) == ink(cur)) by {
                if cur.len() > 0 && cur.last() == '\r' {
                    assert(cur =~= stripped + seq!['\r']);
                    lemma_ink_concat(stripped, seq!['\r']);
                    lemma_ink_of_blank('\r');
                    assert(ink(stripped) + Seq::<char>::empty() =~= ink(stripped));
                }
            }
            done.lemma_flatten_push(stripped);
            lemma_ink_concat(done.flatten(), stripped);
            assert(ink(Seq::<char>::empty()) =~= Seq::<char>::empty());
            assert(ink(s) =~= ink(s.drop_last()));
            assert(ink(done.push(stripped).flatten()) + ink(Seq::<char>::empty()) =~= ink(s));
        } else {
            lemma_ink_concat(cur, seq![c]);
            assert(cur.push(c) =~= cur + seq![c]);
            lemma_ink_single(c);
            let tail = if is_unicode_whitespace(c) {
                Seq::<char>::empty()
            } else {
                seq![c]
            };
            assert(ink(seq![c]) =~= tail);
            assert(ink(s) == ink(s.drop_last()) + tail);
            assert(ink(done.flatten()) + ink(cur.push(c)) =~= ink(s));
        }
    }
}

proof fn lemma_lines_ink(s: Seq<char>)
    ensures
        ink(spec_lines(s).flatten()) == ink(s),
{
    lemma_lines_scan_ink(s);
    let (done, cur) = lines_scan(s);
    if cur.len() > 0 {
        done.lemma_flatten_push(cur);
        lemma_ink_concat(done.flatten(), cur);
    } else {
        assert(ink(cur) =~= Seq::<char>::empty());
        assert(ink(done.flatten()) + ink(cur) =~= ink(done.flatten()));
    }
}

/// Words joined by single spaces.
pub open spec fn join_words(group: Seq<Seq<char>>) -> Seq<char>
    decreases group.len(),
{
    if group.len() == 0 {
        seq![]
    } else if group.len() == 1 {
        group[0]
    } else {
        join_words(group.drop_last()) + seq![' '] + group.last()
    }
}

/// Words packed greedily into lines of at most `width` characters: each word joins the current
/// line when it fits there after one space, and starts a new line otherwise.
pub open spec fn greedy_groups(width: nat, words: Seq<Seq<char>>) -> Seq<Seq<Seq<char>>>
    decreases words.len(),
{
    if words.len() == 0 {
        seq![]
    } else {
        let g = greedy_groups(width, words.drop_last());
        let w = words.last();
        if g.len() > 0 && join_words(g.last()).len() + 1 + w.len() <= width {
            g.update(g.len() - 1, g.last().push(w))
        } else {
            g.push(seq![w])
        }
    }
}

/// The groups are consecutive runs of the words, none empty, each fitting the width once
/// joined, and each line is full: the first word of the next line would not fit after it.
pub open spec fn is_greedy_packing(width: nat, words: Seq<Seq<char>>, g: Seq<Seq<Seq<char>>>) -> bool {
    &&& g.flatten() == words
    &&& forall|i: int| 0 <= i < g.len() ==> #[trigger] g[i].len() > 0
    &&& forall|i: int| 0 <= i < g.len() ==> #[trigger] join_words(g[i]).len() <= width
    &&& forall|i: int|
        0 <= i < g.len() - 1 ==> #[trigger] join_words(g[i]).len() + 1 + g[i + 1][0].len() > width
}

proof fn lemma_words_nonempty(s: Seq<char>)
    ensures
        forall|i: int| 0 <= i < spec_words(s).len() ==> #[trigger] spec_words(s)[i].len() > 0,
{
    lemma_words_scan_nonempty(s);
}

proof fn lemma_words_scan_nonempty(s: Seq<char>)
    ensures
        forall|i: int| 0 <= i < words_scan(s).0.len() ==> #[trigger] words_scan(s).0[i].len() > 0,
    decreases s.len(),
{
    if s.len() > 0 {
        lemma_words_scan_nonempty(s.drop_last());
        let (done, cur) = words_scan(s.drop_last());
        let c = s.last();
        if is_unicode_whitespace(c) && cur.len() > 0 {
            assert(words_scan(s).0 == done.push(cur));
            assert forall|i: int| 0 <= i < done.push(cur).len() implies #[trigger] done.push(cur)[i].len() > 0 by {
                if i < done.len() {
                    assert(done.push(cur)[i] == done[i]);
                }
            }
        } else {
            assert(words_scan(s).0 == done);
        }
    }
}

proof fn lemma_greedy_scan(width: nat, words: Seq<Seq<char>>)
    requires
        words.len() > 0,
        forall|i: int| 0 <= i < words.len() ==> #[trigger] words[i].len() > 0,
        forall|i: int| 0 <= i < words.len() ==> #[trigger] words[i].len() <= width,
    ensures
        ({
            let (done, cur) = wrap_words_scan(width, words);
            let g = greedy_groups(width, words);
            &&& g.len() > 0
            &&& done == g.drop_last().map_values(|x: Seq<Seq<char>>| join_words(x))
            &&& cur == join_words(g.last())
            &&& cur.len() > 0
            &&& is_greedy_packing(width, words, g)
        }),
    decreases words.len(),
{
    let w = words.last();
    let rest = words.drop_last();
    assert(w == words[words.len() - 1]);
    if rest.len() == 0 {
        assert(greedy_groups(width, rest) =~= Seq::<Seq<Seq<char>>>::empty());
        assert(wrap_words_scan(width, rest) == (Seq::<Seq<char>>::empty(), Seq::<char>::empty()));
        let g = greedy_groups(width, words);
        assert(g =~= seq![seq![w]]);
        assert(g.flatten() =~= words) by {
            seq![seq![w]].lemma_flatten_singleton();
            assert(words =~= seq![w]);
        }
        assert(g.drop_last().map_values(|x: Seq<Seq<char>>| join_words(x)) =~= Seq::<Seq<char>>::empty());
    } else {
        assert forall|i: int| 0 <= i < rest.len() implies #[trigger] rest[i].len() > 0 && rest[i].len() <= width by {
            assert(rest[i] == words[i]);
        }
        lemma_greedy_scan(width, rest);
        let (done, cur) = wrap_words_scan(width, rest);
        let g = greedy_groups(width, rest);
        let last = g.last();
        assert(last.len() > 0);
        g.drop_last().lemma_flatten_push(last);
        assert(g.drop_last().push(last) =~= g);
        assert(rest.push(w) =~= words);
        if cur.len() + 1 + w.len() <= width {
            let g2 = g.update(g.len() - 1, last.push(w));
            assert(greedy_groups(width, words) == g2);
            assert(last.push(w).drop_last() =~= last);
            assert(join_words(last.push(w)) == join_words(last) + seq![' '] + w);
            assert(g2.drop_last() =~= g.drop_last());
            assert(g2.last() == last.push(w));
            g2.drop_last().lemma_flatten_push(last.push(w));
            assert(g2.drop_last().push(last.push(w)) =~= g2);
            assert(g.drop_last().flatten() + last.push(w) =~= (g.drop_last().flatten() + last).push(w));
            assert forall|i: int| 0 <= i < g2.len() implies #[trigger] g2[i].len() > 0 && join_words(g2[i]).len() <= width by {
                if i < g.len() - 1 {
                    assert(g2[i] == g[i]);
                }
            }
            assert forall|i: int| 0 <= i < g2.len() - 1 implies #[trigger] join_words(g2[i]).len() + 1 + g2[i + 1][0].len() > width by {
                assert(g2[i] == g[i]);
                if i + 1 == g.len() - 1 {
                    assert(g2[i + 1][0] == last[0]);
                } else {
                    assert(g2[i + 1] == g[i + 1]);
                }
            }
        } else {
            let g2 = g.push(seq![w]);
            assert(greedy_groups(width, words) == g2);
            assert(g2.drop_last() =~= g);
            g.lemma_flatten_push(seq![w]);
            assert(g.flatten() + seq![w] =~= rest.push(w));
            assert(g2.drop_last().map_values(|x: Seq<Seq<char>>| join_words(x)) =~= g.drop_last().map_values(
                |x: Seq<Seq<char>>| join_words(x),
            ).push(cur));
            assert forall|i: int| 0 <= i < g2.len() implies #[trigger] g2[i].len() > 0 && join_words(g2[i]).len() <= width by {
                if i < g.len() {
                    assert(g2[i] == g[i]);
                }
            }
            assert forall|i: int| 0 <= i < g2.len() - 1 implies #[trigger] join_words(g2[i]).len() + 1 + g2[i + 1][0].len() > width by {
                assert(g2[i] == g[i]);
                if i + 1 < g.len() {
                    assert(g2[i + 1] == g[i + 1]);
                } else {
                    assert(g2[i + 1] == seq![w]);
                }
            }
        }
    }
}

/// A source line whose words all fit the width is wrapped greedily: its printed lines are the
/// words, in order and whole, packed into runs joined by single spaces, each line at most the
/// width, and each line full, so that the next line's first word would not fit after it.
pub proof fn law_wrap_is_greedy(line: Seq<char>, width: nat)
    requires
        spec_words(line).len() > 0,
        forall|i: int| 0 <= i < spec_words(line).len() ==> #[trigger] spec_words(line)[i].len() <= width,
    ensures
        is_greedy_packing(width, spec_words(line), greedy_groups(width, spec_words(line))),
        spec_wrap_line(line, width) == greedy_groups(width, spec_words(line)).map_values(
            |x: Seq<Seq<char>>| join_words(x),
        ),
{
    let words = spec_words(line);
    lemma_words_nonempty(line);
    lemma_greedy_scan(width, words);
    let g = greedy_groups(width, words);
    assert(g.drop_last().push(g.last()) =~= g);
    assert(g.map_values(|x: Seq<Seq<char>>| join_words(x)) =~= g.drop_last().map_values(
        |x: Seq<Seq<char>>| join_words(x),
    ).push(join_words(g.last())));
}

/// Wrapping loses no word and adds none: the characters that are not white space are those of
/// the text, in the same order.
pub proof fn law_wrap_keeps_every_word(value: Seq<char>, width: nat)
    ensures
        ink(spec_wrap_text(value, width).flatten()) == ink(value),
{
    if width == 0 {
        seq![value].lemma_flatten_singleton();
    } else {
        lemma_wrap_lines(spec_lines(value), width);
        lemma_lines_ink(value);
        let r = wrap_lines(spec_lines(value), width);
        if r.len() == 0 {
            let e = seq![Seq::<char>::empty()];
            e.lemma_flatten_singleton();
            assert(r.flatten() =~= Seq::<char>::empty());
        }
    }
}

/// Wrapped lines never exceed the width (for a width above 0), and there is always at least
/// one line.
pub proof fn law_wrap_lines_fit(value: Seq<char>, width: nat)
    requires
        width > 0,
    ensures
        rows_fit(spec_wrap_text(value, width), width),
        spec_wrap_text(value, width).len() >= 1,
{
    lemma_wrap_lines(spec_lines(value), width);
}


// ---------------------------------------------------------------------------------------------
// Network endpoints.

proof fn lemma_decimal(n: nat)
    ensures
        decimal(n).len() > 0,
        all_decimal(decimal(n)),
        digits_value(decimal(n)) == n,
    decreases n,
{
    let c = digit_char(n % 10);
    assert(c as u32 == n % 10 + 48);
    if n < 10 {
        let d = decimal(n);
        assert(d.drop_last() =~= Seq::<char>::empty());
        assert(digits_value(d) == digits_value(d.drop_last()) * 10 + ((d.last() as u32) - 48));
    } else {
        lemma_decimal(n / 10);
        let d = decimal(n);
        assert(d.drop_last() =~= decimal(n / 10));
        assert(d.last() == c);
        assert forall|i: int| 0 <= i < d.len() implies '0' <= #[trigger] d[i] <= '9' by {
            if i < d.len() - 1 {
                assert(d[i] == decimal(n / 10)[i]);
            }
        }
    }
}

proof fn lemma_last_colon_of_join(a: Seq<char>, b: Seq<char>)
    requires
        forall|i: int| 0 <= i < b.len() ==> #[trigger] b[i] != ':',
    ensures
        last_colon(a + seq![':'] + b) == Some(a.len() as int),
    decreases b.len(),
{
    let s = a + seq![':'] + b;
    if b.len() == 0 {
        assert(s.last() == ':');
        assert(s.len() - 1 == a.len());
    } else {
        lemma_last_colon_of_join(a, b.drop_last());
        assert(s.drop_last() =~= a + seq![':'] + b.drop_last());
        assert(s.last() == b.last());
    }
}

/// The path of a network printer, `host:port`, reads back as its host and port, for any
/// non-empty host (colons included) and any port but 0.
pub proof fn law_host_port_round_trip(host: Seq<char>, port: u16)
    requires
        host.len() != 0,
        port != 0,
    ensures
        spec_parse_host_port(network_path(host, port)) == Some((host, port)),
{
    reveal_strlit(":");
    let d = decimal(port as nat);
    lemma_decimal(port as nat);
    assert(forall|i: int| 0 <= i < d.len() ==> #[trigger] d[i] != ':') by {
        assert forall|i: int| 0 <= i < d.len() implies #[trigger] d[i] != ':' by {
            assert('0' <= d[i] <= '9');
        }
    }
    let s = network_path(host, port);
    assert(s =~= host + seq![':'] + d);
    lemma_last_colon_of_join(host, d);
    assert(s.take(host.len() as int) =~= host);
    assert(s.skip(host.len() as int + 1) =~= d);
    assert(d[0] != '+' && d[0] != '-') by {
        assert('0' <= d[0] <= '9');
    }
    assert(spec_parse_u16(d) == Some(port));
}


// ---------------------------------------------------------------------------------------------
// Cutting.

/// The instructions hold a full cut.
pub open spec fn has_cut(ops: Seq<Op>) -> bool {
    exists|k: int| 0 <= k < ops.len() && #[trigger] ops[k] is Cut
}

/// A cut block that asks for a full cut.
pub open spec fn is_full_cut_block(b: Block) -> bool {
    b matches Block::Cut { partial } && !flag_or_false(partial)
}

proof fn lemma_has_cut_concat(a: Seq<Op>, b: Seq<Op>)
    ensures
        has_cut(a + b) <==> has_cut(a) || has_cut(b),
{
    if has_cut(a + b) {
        let k = choose|k: int| 0 <= k < (a + b).len() && #[trigger] (a + b)[k] is Cut;
        if k < a.len() {
            assert(a[k] is Cut);
        } else {
            assert(b[k - a.len()] is Cut);
        }
    }
    if has_cut(a) {
        let k = choose|k: int| 0 <= k < a.len() && #[trigger] a[k] is Cut;
        assert((a + b)[k] is Cut);
    }
    if has_cut(b) {
        let k = choose|k: int| 0 <= k < b.len() && #[trigger] b[k] is Cut;
        assert((a + b)[k + a.len()] is Cut);
    }
}

proof fn lemma_lines_ops_no_cut(lines: Seq<Seq<char>>)
    ensures
        !has_cut(lines_ops(lines)),
    decreases lines.len(),
{
    if lines.len() > 0 {
        lemma_lines_ops_no_cut(lines.drop_last());
        lemma_has_cut_concat(lines_ops(lines.drop_last()), line_ops(lines.last()));
        let l = line_ops(lines.last());
        assert(!has_cut(l)) by {
            assert(forall|k: int| 0 <= k < l.len() ==> !(#[trigger] l[k] is Cut));
        }
    }
}

proof fn lemma_no_cut_small(o: Seq<Op>)
    requires
        forall|k: int| 0 <= k < o.len() ==> !(#[trigger] o[k] is Cut),
    ensures
        !has_cut(o),
{
}

proof fn lemma_block_cut(
    b: Block,
    paper: crate::models::PaperWidth,
    graphics: GraphicsBackend,
    raster: RasterView,
)
    requires
        block_ops(b, paper, graphics, raster) is Ok,
    ensures
        has_cut(block_ops(b, paper, graphics, raster)->Ok_0) <==> is_full_cut_block(b),
{
    let o = block_ops(b, paper, graphics, raster)->Ok_0;
    let r = reset_ops();
    lemma_no_cut_small(r);
    match b {
        Block::Text { value, style } => {
            let a = apply_style_ops(style);
            lemma_no_cut_small(font_ops(style));
            lemma_has_cut_concat(r, match style {
                None => seq![],
                Some(s) => font_ops(style) + seq![
                    Op::Justify(crate::render::align_or(s.align, crate::models::Align::Left)),
                ],
            });
            match style {
                None => {
                    lemma_no_cut_small(Seq::<Op>::empty());
                },
                Some(s) => {
                    let j = seq![
                        Op::Justify(crate::render::align_or(s.align, crate::models::Align::Left)),
                    ];
                    lemma_no_cut_small(j);
                    lemma_has_cut_concat(font_ops(style), j);
                },
            }
            let w = crate::text::spec_wrap_text(
                value@,
                paper.spec_characters_per_line() / crate::text::spec_horizontal_scale(style),
            );
            lemma_lines_ops_no_cut(w);
            lemma_has_cut_concat(a, lines_ops(w));
        },
        Block::Feed { lines } => {
            lemma_no_cut_small(o);
        },
        Block::Divider { character } => {
            let l = line_ops(repeat_chars(
                match character {
                    Some(c) => c@,
                    None => "-"@,
                },
                paper.spec_characters_per_line(),
            ));
            lemma_no_cut_small(l);
            lemma_has_cut_concat(r, l);
        },
        Block::Columns { columns, .. } => {
            let f = font_ops(
                if columns@.len() > 0 {
                    columns@[0].style
                } else {
                    None
                },
            );
            let l = line_ops(spec_column_row(columns@, paper));
            lemma_no_cut_small(f);
            lemma_no_cut_small(l);
            lemma_has_cut_concat(r, f);
            lemma_has_cut_concat(r + f, l);
        },
        Block::Image { .. } => {
            lemma_no_cut_small(o);
        },
        Block::Barcode { value, symbology, align, print_value } => {
            let print = match print_value {
                Some(p) => p,
                None => true,
            };
            let head = seq![Op::Justify(crate::render::align_or(align, crate::models::Align::Center))];
            lemma_no_cut_small(head);
            match graphics {
                GraphicsBackend::Escpos => {
                    lemma_no_cut_small(o);
                },
                GraphicsBackend::Emulator => {
                    let e = emulator_barcode_ops(value@, symbology, print)->Ok_0;
                    match symbology {
                        crate::models::BarcodeSymbology::Ean13 => {
                            let d = crate::barcode::spec_normalize_ean13(value@)->Ok_0;
                            let pre = seq![
                                Op::Custom(
                                    crate::raster::spec_gs_v0_command(
                                        crate::barcode::spec_ean13_bitmap(d),
                                    ),
                                ),
                                Op::Custom(seq![0x0Au8]),
                            ];
                            let post = if print {
                                line_ops(crate::barcode::digit_text(d))
                            } else {
                                seq![]
                            };
                            lemma_no_cut_small(pre);
                            lemma_no_cut_small(post);
                            lemma_has_cut_concat(pre, post);
                        },
                        _ => {
                            lemma_no_cut_small(e);
                        },
                    }
                    lemma_has_cut_concat(head, e);
                },
            }
        },
        Block::Qr { .. } => {
            lemma_no_cut_small(o);
        },
        Block::Cut { partial } => {
            if !flag_or_false(partial) {
                assert(o[0] is Cut);
            } else {
                lemma_no_cut_small(o);
            }
        },
    }
}

/// Some block among the first `n` asks for a full cut.
pub open spec fn asks_for_cut(blocks: Seq<Block>) -> bool {
    exists|i: int| 0 <= i < blocks.len() && #[trigger] is_full_cut_block(blocks[i])
}

proof fn lemma_plan_cut(
    blocks: Seq<Block>,
    paper: crate::models::PaperWidth,
    graphics: GraphicsBackend,
    rasters: Seq<RasterView>,
)
    ensures
        has_cut(plan_blocks(blocks, paper, graphics, rasters).0) ==> asks_for_cut(blocks),
        plan_blocks(blocks, paper, graphics, rasters).1 is None ==> (has_cut(
            plan_blocks(blocks, paper, graphics, rasters).0,
        ) <==> asks_for_cut(blocks)),
    decreases blocks.len(),
{
    if blocks.len() == 0 {
    } else {
        let prev = blocks.drop_last();
        let last = blocks.last();
        lemma_plan_cut(prev, paper, graphics, rasters.drop_last());
        let (ops, failure) = plan_blocks(prev, paper, graphics, rasters.drop_last());
        assert(asks_for_cut(prev) ==> asks_for_cut(blocks)) by {
            if asks_for_cut(prev) {
                let i = choose|i: int| 0 <= i < prev.len() && #[trigger] is_full_cut_block(prev[i]);
                assert(is_full_cut_block(blocks[i]));
            }
        }
        assert(asks_for_cut(blocks) ==> asks_for_cut(prev) || is_full_cut_block(last)) by {
            if asks_for_cut(blocks) {
                let i = choose|i: int|
                    0 <= i < blocks.len() && #[trigger] is_full_cut_block(blocks[i]);
                if i < blocks.len() - 1 {
                    assert(is_full_cut_block(prev[i]));
                }
            }
        }
        assert(is_full_cut_block(last) ==> asks_for_cut(blocks)) by {
            if is_full_cut_block(last) {
                assert(is_full_cut_block(blocks[blocks.len() - 1]));
            }
        }
        if failure is None {
            match block_ops(last, paper, graphics, rasters.last()) {
                Ok(o) => {
                    lemma_block_cut(last, paper, graphics, rasters.last());
                    lemma_has_cut_concat(ops, o);
                },
                Err(e) => {},
            }
        }
    }
}

/// A full cut is sent only for a cut block that asks for one, never on its own; and when the
/// document renders without error, each such block gives one.
pub proof fn law_cut_only_when_asked(
    document: PrintDocument,
    graphics: GraphicsBackend,
    rasters: Seq<RasterView>,
)
    ensures
        has_cut(spec_render_plan(document, graphics, rasters).0) ==> asks_for_cut(
            document.blocks@,
        ),
        spec_render_plan(document, graphics, rasters).1 is None && asks_for_cut(document.blocks@)
            ==> has_cut(spec_render_plan(document, graphics, rasters).0),
{
    let blocks = document.blocks@;
    if first_block_error(blocks) is None {
        lemma_plan_cut(blocks, document.spec_paper_width(), graphics, rasters);
        let head = seq![Op::Init, Op::PageCode(document.spec_character_set())];
        lemma_no_cut_small(head);
        lemma_has_cut_concat(
            head,
            plan_blocks(blocks, document.spec_paper_width(), graphics, rasters).0,
        );
    }
}

// ---------------------------------------------------------------------------------------------
// Receipt rows.

proof fn lemma_flatten_len_segments(rows: Seq<Seq<char>>, widths: Seq<nat>)
    requires
        rows.len() == widths.len(),
        forall|i: int| 0 <= i < rows.len() ==> #[trigger] rows[i].len() == widths[i],
    ensures
        rows.flatten().len() == sum_nat(widths),
    decreases rows.len(),
{
    if rows.len() > 0 {
        lemma_flatten_len_segments(rows.drop_last(), widths.drop_last());
        rows.drop_last().lemma_flatten_push(rows.last());
        assert(rows.drop_last().push(rows.last()) =~= rows);
    }
}

/// The widths of the columns when each column without a width takes `d` characters.
spec fn widths_with_default(columns: Seq<Column>, paper: PaperWidth, d: nat) -> Seq<nat> {
    Seq::new(
        columns.len(),
        |i: int|
            match columns[i].width {
                Some(w) => w.spec_cells(paper) as nat,
                None => d,
            },
    )
}

proof fn lemma_sum_widths_with_default(columns: Seq<Column>, paper: PaperWidth, d: nat)
    ensures
        sum_nat(widths_with_default(columns, paper, d)) == explicit_cells(columns, paper)
            + unspecified_count(columns) * d,
    decreases columns.len(),
{
    if columns.len() > 0 {
        let rest = columns.drop_last();
        lemma_sum_widths_with_default(rest, paper, d);
        assert(widths_with_default(columns, paper, d).drop_last() =~= widths_with_default(
            rest,
            paper,
            d,
        ));
        let s = widths_with_default(columns, paper, d);
        let c = unspecified_count(rest);
        assert(sum_nat(s) == sum_nat(s.drop_last()) + s.last());
        match columns.last().width {
            Some(w) => {
                assert(s.last() == w.spec_cells(paper) as nat);
                assert(unspecified_count(columns) == c);
            },
            None => {
                assert(s.last() == d);
                assert(unspecified_count(columns) == c + 1);
                assert((c + 1) * d == c * d + d) by (nonlinear_arith);
            },
        }
    } else {
        assert(unspecified_count(columns) * d == 0) by (nonlinear_arith)
            requires
                unspecified_count(columns) == 0,
        ;
    }
}

/// A row of columns always fills at least the whole line: its length is the sum of the column
/// widths, the last column taking up what the others leave. When the columns that set a width
/// take no more than the line, the row is exactly as long as the line.
pub proof fn law_column_row_fills_the_line(columns: Seq<Column>, paper: crate::models::PaperWidth)
    requires
        columns.len() > 0,
    ensures
        spec_column_row(columns, paper).len() == if sum_nat(spec_physical_widths(columns, paper))
            >= paper.spec_characters_per_line() {
            sum_nat(spec_physical_widths(columns, paper))
        } else {
            paper.spec_characters_per_line()
        },
        explicit_cells(columns, paper) <= paper.spec_characters_per_line() ==> spec_column_row(
            columns,
            paper,
        ).len() == paper.spec_characters_per_line(),
{
    let line = paper.spec_characters_per_line();
    let explicit = explicit_cells(columns, paper);
    let count = unspecified_count(columns);
    let d = default_cells(columns, paper);
    assert(spec_physical_widths(columns, paper) =~= widths_with_default(columns, paper, d));
    lemma_sum_widths_with_default(columns, paper, d);
    if explicit <= line && count > 0 {
        let room = (line - explicit) as nat;
        assert(count * (room / count) <= room) by (nonlinear_arith)
            requires
                count > 0,
        ;
    }
    let widths = spec_column_widths(columns, paper);
    let segments = spec_column_segments(columns, paper);
    assert forall|i: int| 0 <= i < segments.len() implies #[trigger] segments[i].len()
        == widths[i] by {
        law_fit_text_fills_the_cell(
            columns[i].text@,
            widths[i],
            crate::text::column_align(columns[i], i),
        );
    }
    lemma_flatten_len_segments(segments, widths);
    let w = spec_physical_widths(columns, paper);
    let line = paper.spec_characters_per_line();
    if sum_nat(w) < line {
        lemma_sum_nat_update_last(w, (line - sum_nat(w)) as nat);
    }
}


// ---------------------------------------------------------------------------------------------
// The test page.

proof fn lemma_plan_without_failure(
    blocks: Seq<Block>,
    paper: PaperWidth,
    graphics: GraphicsBackend,
    rasters: Seq<RasterView>,
)
    requires
        forall|i: int, r: RasterView|
            0 <= i < blocks.len() ==> #[trigger] block_ops(blocks[i], paper, graphics, r) is Ok,
    ensures
        plan_blocks(blocks, paper, graphics, rasters).1 is None,
    decreases blocks.len(),
{
    if blocks.len() > 0 {
        let rest = blocks.drop_last();
        assert forall|i: int, r: RasterView| 0 <= i < rest.len() implies #[trigger] block_ops(
            rest[i],
            paper,
            graphics,
            r,
        ) is Ok by {
            assert(rest[i] == blocks[i]);
            assert(block_ops(blocks[i], paper, graphics, r) is Ok);
        }
        lemma_plan_without_failure(rest, paper, graphics, rasters.drop_last());
        assert(block_ops(blocks[blocks.len() - 1], paper, graphics, rasters.last()) is Ok);
    }
}

/// The built-in test receipt breaks no rule of its blocks and prints without error, whatever
/// the printer: its plan is the printer's initialisation, the PC858 code page, then every one of
/// its blocks.
pub proof fn law_test_page_prints_without_error(
    d: PrintDocument,
    graphics: GraphicsBackend,
    rasters: Seq<RasterView>,
)
    requires
        is_test_document(d),
    ensures
        first_block_error(d.blocks@) is None,
        spec_render_plan(d, graphics, rasters).1 is None,
        spec_render_plan(d, graphics, rasters).0.take(2) == seq![
            Op::Init,
            Op::PageCode(CharacterSet::Pc858),
        ],
{
    reveal_strlit("=");
    reveal_strlit("123456789012");
    let b = d.blocks@;
    assert(block_error(b[0]) is None);
    assert(block_error(b[1]) is None);
    assert(block_error(b[2]) is None) by {
        if let Block::Columns { columns, .. } = b[2] {
            assert forall|i: int| 0 <= i < columns@.len() implies !#[trigger] crate::models::column_width_invalid(columns@[i]) by {
                if i == 1 {
                    assert(columns@[1].width == Some(crate::models::ColumnWidth { valid: true, cells_58mm: 10, cells_80mm: 14 }));
                }
            }
        }
    }
    assert(block_error(b[3]) is None) by {
        if let Block::Barcode { value, .. } = b[3] {
            assert(value@ == "123456789012"@);
            assert(forall|i: int| 0 <= i < value@.len() ==> crate::models::is_digit_char(#[trigger] value@[i]));
        }
    }
    assert(block_error(b[4]) is None);
    assert(block_error(b[5]) is None);
    assert(b.skip(6) =~= Seq::<Block>::empty());
    assert forall|j: int| 0 <= j < 6 implies #[trigger] b.skip(j).drop_first() == b.skip(j + 1)
        && b.skip(j)[0] == b[j] by {
        assert(b.skip(j).drop_first() =~= b.skip(j + 1));
    }
    assert(first_block_error(b.skip(6)) is None);
    assert(b.skip(5).drop_first() == b.skip(6) && b.skip(5)[0] == b[5]);
    assert(first_block_error(b.skip(5)) is None);
    assert(b.skip(4).drop_first() == b.skip(5) && b.skip(4)[0] == b[4]);
    assert(first_block_error(b.skip(4)) is None);
    assert(b.skip(3).drop_first() == b.skip(4) && b.skip(3)[0] == b[3]);
    assert(first_block_error(b.skip(3)) is None);
    assert(b.skip(2).drop_first() == b.skip(3) && b.skip(2)[0] == b[2]);
    assert(first_block_error(b.skip(2)) is None);
    assert(b.skip(1).drop_first() == b.skip(2) && b.skip(1)[0] == b[1]);
    assert(first_block_error(b.skip(1)) is None);
    assert(b.skip(0).drop_first() == b.skip(1) && b.skip(0)[0] == b[0]);
    assert(first_block_error(b.skip(0)) is None);
    assert(b.skip(0) =~= b);
    let paper = d.spec_paper_width();
    assert forall|i: int, r: RasterView| 0 <= i < b.len() implies #[trigger] block_ops(
        b[i],
        paper,
        graphics,
        r,
    ) is Ok by {
        if i == 3 {
            if let Block::Barcode { value, .. } = b[3] {
                assert(value@ == "123456789012"@);
                assert(forall|j: int| 0 <= j < value@.len() ==> crate::models::is_digit_char(#[trigger] value@[j]));
                assert(crate::barcode::all_digits(value@));
            }
        }
    }
    lemma_plan_without_failure(b, paper, graphics, rasters);
}


// ---------------------------------------------------------------------------------------------
// Styles.

/// A text block with a style first resets the printer (plain, normal size, left), then sets
/// bold exactly when the style asks for bold, underline exactly when it asks for underline, the
/// magnification that its size asks for (double width for wide and double, double height for
/// tall and double), and its alignment (left when none is set).
pub proof fn law_text_style_sets_the_font(
    value: String,
    s: TextStyle,
    paper: PaperWidth,
    graphics: GraphicsBackend,
    raster: RasterView,
)
    ensures
        block_ops(Block::Text { value, style: Some(s) }, paper, graphics, raster) matches Ok(o) && ({
            &&& o.len() >= 8
            &&& o[0] == Op::Bold(false)
            &&& o[1] == Op::Underline(false)
            &&& o[2] == Op::Size(1, 1)
            &&& o[3] == Op::Justify(Align::Left)
            &&& o[4] == Op::Bold(s.bold == Some(true))
            &&& o[5] == Op::Underline(s.underline == Some(true))
            &&& o[6] == Op::Size(
                if s.size == Some(FontSize::Wide) || s.size == Some(FontSize::Double) {
                    2u8
                } else {
                    1u8
                },
                if s.size == Some(FontSize::Tall) || s.size == Some(FontSize::Double) {
                    2u8
                } else {
                    1u8
                },
            )
            &&& o[7] == Op::Justify(
                match s.align {
                    Some(a) => a,
                    None => Align::Left,
                },
            )
        }),
{
}

/// A row of columns is printed in the font of its first column: after the reset, bold exactly
/// when that style asks for bold and underline exactly when it asks for underline.
pub proof fn law_columns_take_the_first_font(
    columns: Vec<Column>,
    widths_exceed_line: bool,
    s: TextStyle,
    paper: PaperWidth,
    graphics: GraphicsBackend,
    raster: RasterView,
)
    requires
        columns@.len() > 0,
        columns@[0].style == Some(s),
    ensures
        block_ops(Block::Columns { columns, widths_exceed_line }, paper, graphics, raster) matches Ok(
            o,
        ) && o.len() >= 6 && o[4] == Op::Bold(s.bold == Some(true)) && o[5] == Op::Underline(
            s.underline == Some(true),
        ),
{
}

// ---------------------------------------------------------------------------------------------
// Column alignment.

/// In a row of columns, a column that sets no alignment is left-aligned if it is the first and
/// right-aligned otherwise: when its text fits its cell, the first column's text starts the cell
/// and spaces follow it; any other column's text ends the cell after leading spaces.
pub proof fn law_columns_default_alignment(columns: Seq<Column>, paper: PaperWidth, i: int)
    requires
        0 <= i < columns.len(),
        columns[i].align is None,
        columns[i].text@.len() <= spec_column_widths(columns, paper)[i],
    ensures
        ({
            let cell = spec_column_segments(columns, paper)[i];
            let width = spec_column_widths(columns, paper)[i] as int;
            let text = columns[i].text@;
            let pad = width - text.len();
            &&& cell.len() == width
            &&& i == 0 ==> cell.subrange(0, text.len() as int) == text && forall|j: int|
                text.len() <= j < width ==> #[trigger] cell[j] == ' '
            &&& i > 0 ==> cell.subrange(pad, width) == text && forall|j: int|
                0 <= j < pad ==> #[trigger] cell[j] == ' '
        }),
{
    let cell = spec_column_segments(columns, paper)[i];
    let width = spec_column_widths(columns, paper)[i] as int;
    let text = columns[i].text@;
    let pad = width - text.len();
    if i == 0 {
        assert(cell == text + spaces(pad as nat));
        assert(cell.subrange(0, text.len() as int) =~= text);
    } else {
        assert(cell == spaces(pad as nat) + text);
        assert(cell.subrange(pad, width) =~= text);
    }
}

// ---------------------------------------------------------------------------------------------
// EAN-13 code sets.

/// The seven modules of a pattern in reverse order.
pub open spec fn reverse7(x: u8) -> u8 {
    ((x & 1u8) << 6u8) | ((x & 2u8) << 4u8) | ((x & 4u8) << 2u8) | (x & 8u8) | ((x & 16u8) >> 2u8)
        | ((x & 32u8) >> 4u8) | ((x & 64u8) >> 6u8)
}

/// The three EAN-13 code sets hang together as the symbology defines them: for every digit, the
/// right-half pattern (set C) is the left odd-parity pattern (set A) with bars and spaces
/// swapped, and the left even-parity pattern (set B) is the set C pattern read backwards; every
/// left pattern starts with a space and ends with a bar, every right pattern the other way.
pub proof fn law_ean13_code_sets(d: u8)
    by (bit_vector)
    requires
        d < 10,
    ensures
        spec_right_code(d) == 0x7Fu8 ^ spec_left_odd_code(d),
        spec_left_even_code(d) == reverse7(spec_right_code(d)),
        spec_left_odd_code(d) & 0x41u8 == 0x01u8,
        spec_left_even_code(d) & 0x41u8 == 0x01u8,
        spec_right_code(d) & 0x41u8 == 0x40u8,
{
}

// ---------------------------------------------------------------------------------------------
// Raster bit order.

proof fn lemma_or_bit(x: u8, j: u8, k: u8)
    by (bit_vector)
    requires
        j < 8,
        k < 8,
    ensures
        (((x | (0x80u8 >> k)) >> ((7 - j) as u8)) & 1u8 == 1u8) == (((x >> ((7 - j) as u8)) & 1u8 == 1u8) || j
            == k),
        ((0u8 >> ((7 - j) as u8)) & 1u8) == 0u8,
{
}

proof fn lemma_pack_bits_order(g: BitmapView, y: int, column: int, k: nat)
    requires
        k <= 8,
    ensures
        forall|j: u8|
            j < 8 ==> ((#[trigger] (spec_pack_bits(g, y, column, k) >> ((7 - j) as u8)) & 1u8 == 1u8)
                == (j < k && pixel_is_black(g, column * 8 + j, y))),
    decreases k,
{
    if k == 0 {
        assert forall|j: u8| j < 8 implies ((#[trigger] (spec_pack_bits(g, y, column, k) >> ((7 - j) as u8))
            & 1u8 == 1u8) == (j < k && pixel_is_black(g, column * 8 + j, y))) by {
            lemma_or_bit(0u8, j, 0u8);
        }
    } else {
        let m = (k - 1) as nat;
        lemma_pack_bits_order(g, y, column, m);
        let prev = spec_pack_bits(g, y, column, m);
        assert forall|j: u8| j < 8 implies ((#[trigger] (spec_pack_bits(g, y, column, k) >> ((7 - j) as u8))
            & 1u8 == 1u8) == (j < k && pixel_is_black(g, column * 8 + j, y))) by {
            lemma_or_bit(prev, j, m as u8);
            assert(((prev >> ((7 - j) as u8)) & 1u8 == 1u8) == (j < m && pixel_is_black(g, column * 8 + j, y)));
        }
    }
}

/// In a raster, the leftmost pixel of each group of eight is the most significant bit: bit
/// `7 - j` of byte `column` of row `y` is set exactly when pixel `(8 * column + j, y)` is black.
pub proof fn law_raster_bit_order(g: BitmapView, y: int, column: int, j: u8)
    requires
        j < 8,
    ensures
        ((spec_row_byte(g, y, column) >> ((7 - j) as u8)) & 1u8 == 1u8) == pixel_is_black(
            g,
            column * 8 + j,
            y,
        ),
{
    lemma_pack_bits_order(g, y, column, 8);
}

// ---------------------------------------------------------------------------------------------
// Code page 858.

/// The characters that code page 858 prints at the bytes above ASCII that the encoder uses: the
/// currency signs and the Spanish, German and French letters and marks.
pub open spec fn cp858_upper(b: u8) -> Option<char> {
    if b == 0x81 { Some('ü') }
    else if b == 0x82 { Some('é') }
    else if b == 0x84 { Some('ä') }
    else if b == 0x85 { Some('à') }
    else if b == 0x87 { Some('ç') }
    else if b == 0x8A { Some('è') }
    else if b == 0x94 { Some('ö') }
    else if b == 0x9C { Some('£') }
    else if b == 0xA0 { Some('á') }
    else if b == 0xA1 { Some('í') }
    else if b == 0xA2 { Some('ó') }
    else if b == 0xA3 { Some('ú') }
    else if b == 0xA4 { Some('ñ') }
    else if b == 0xA5 { Some('Ñ') }
    else if b == 0xA8 { Some('¿') }
    else if b == 0xAD { Some('¡') }
    else if b == 0xBD { Some('¢') }
    else if b == 0xBE { Some('¥') }
    else if b == 0xD5 { Some('€') }
    else { None }
}

/// The encoder agrees with code page 858 both ways: a character sent above ASCII is the one that
/// the code page prints at that byte, and each character that the code page prints at one of
/// these bytes is sent as that byte, never as `?`.
pub proof fn law_pc858_matches_the_code_page(c: char, b: u8)
    ensures
        spec_pc858(c) >= 0x80 ==> cp858_upper(spec_pc858(c)) == Some(c),
        cp858_upper(b) matches Some(x) ==> spec_pc858(x) == b,
{
}


/// The parity patterns of the first digit: the first of the six left digits always uses the odd
/// set, a leading 0 uses it for all six, and any other leading digit puts exactly three of them
/// in the even set.
pub proof fn law_ean13_parity_patterns(d: u8)
    by (bit_vector)
    requires
        d < 10,
    ensures
        spec_parity_code(d) < 64,
        spec_parity_code(d) & 0x20u8 == 0u8,
        d == 0 ==> spec_parity_code(d) == 0u8,
        d != 0 ==> (spec_parity_code(d) & 1u8) + ((spec_parity_code(d) >> 1u8) & 1u8) + ((
        spec_parity_code(d) >> 2u8) & 1u8) + ((spec_parity_code(d) >> 3u8) & 1u8) + ((
        spec_parity_code(d) >> 4u8) & 1u8) == 3,
{
}

// ---------------------------------------------------------------------------------------------
// Alignment within a cell.

/// A text that fits its cell is placed as its alignment says: at the start followed by spaces
/// (left), after spaces at the end (right), or with the spaces split, the smaller half on the
/// left (centre).
pub proof fn law_fit_text_alignment(value: Seq<char>, width: nat, align: Align)
    requires
        value.len() <= width,
    ensures
        ({
            let cell = spec_fit_text(value, width, align);
            let pad = width - value.len();
            let left: int = match align {
                Align::Left => 0,
                Align::Right => pad,
                Align::Center => pad / 2,
            };
            &&& cell.len() == width
            &&& cell.subrange(left, left + value.len()) == value
            &&& forall|j: int|
                0 <= j < width && !(left <= j < left + value.len()) ==> #[trigger] cell[j] == ' '
        }),
{
    let cell = spec_fit_text(value, width, align);
    let pad = (width - value.len()) as nat;
    match align {
        Align::Left => {
            assert(cell.subrange(0, value.len() as int) =~= value);
        },
        Align::Right => {
            assert(cell.subrange(pad as int, (pad + value.len()) as int) =~= value);
        },
        Align::Center => {
            let l = pad / 2;
            assert(cell == spaces(l) + value + spaces((pad - l) as nat));
            assert(cell.subrange(l as int, (l + value.len()) as int) =~= value);
        },
    }
}

} // verus!
