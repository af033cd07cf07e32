use vstd::prelude::*;

use crate::chars::{is_unicode_whitespace, is_whitespace, push_char, str_chars};
use crate::models::{Align, Column, FontSize, PaperWidth, TextStyle};

verus! {

/// The views of a sequence of character vectors.
pub open spec fn char_rows(v: Seq<Vec<char>>) -> Seq<Seq<char>> {
    v.map_values(|x: Vec<char>| x@)
}

/// The views of a sequence of strings.
pub open spec fn string_rows(v: Seq<String>) -> Seq<Seq<char>> {
    v.map_values(|x: String| x@)
}

/// The PC858 byte of a currency sign that the code page has: euro, pound, yen and cent.
pub open spec fn spec_pc858_currency(c: char) -> Option<u8> {
    let v = c as u32;
    if v == 0x20AC {
        Some(0xD5u8)
    } else if v == 0xA3 {
        Some(0x9Cu8)
    } else if v == 0xA5 {
        Some(0xBEu8)
    } else if v == 0xA2 {
        Some(0xBDu8)
    } else {
        None
    }
}

/// The PC858 byte of the Spanish, German and French letters and marks that the table lists,
/// `?` for any other character.
pub open spec fn spec_pc858_latin(c: char) -> u8 {
    let v = c as u32;
    if v == 0xE1 {
        0xA0
    } else if v == 0xE9 {
        0x82
    } else if v == 0xED {
        0xA1
    } else if v == 0xF3 {
        0xA2
    } else if v == 0xFA {
        0xA3
    } else if v == 0xF1 {
        0xA4
    } else if v == 0xD1 {
        0xA5
    } else if v == 0xA1 {
        0xAD
    } else if v == 0xBF {
        0xA8
    } else if v == 0xFC {
        0x81
    } else if v == 0xF6 {
        0x94
    } else if v == 0xE4 {
        0x84
    } else if v == 0xE0 {
        0x85
    } else if v == 0xE8 {
        0x8A
    } else if v == 0xE7 {
        0x87
    } else {
        0x3F
    }
}

/// The PC858 byte of a character taken as one outside ASCII: its currency byte, else its
/// letter byte.
pub open spec fn spec_pc858_high(c: char) -> u8 {
    match spec_pc858_currency(c) {
        Some(b) => b,
        None => spec_pc858_latin(c),
    }
}

/// The PC858 byte that stands for `c`: ASCII as itself, the currency signs and the Spanish,
/// German and French letters that the table lists, `?` for anything else.
pub open spec fn spec_pc858(c: char) -> u8 {
    if (c as u32) < 0x80 {
        (c as u32) as u8
    } else {
        spec_pc858_high(c)
    }
}

/// The PC858 bytes of a text, one byte per character.
pub open spec fn spec_encode_pc858(s: Seq<char>) -> Seq<u8> {
    s.map_values(|c: char| spec_pc858(c))
}

/// The PC858 byte of a currency sign that the code page has, if `c` is one.
pub fn encode_pc858_currency(c: char) -> (r: Option<u8>)
    ensures
        r == spec_pc858_currency(c),
{
    let v = c as u32;
    if v == 0x20AC {
        Some(0xD5)
    } else if v == 0xA3 {
        Some(0x9C)
    } else if v == 0xA5 {
        Some(0xBE)
    } else if v == 0xA2 {
        Some(0xBD)
    } else {
        None
    }
}

/// The PC858 byte of an accented letter or mark of the table, `?` for any other character.
pub fn encode_pc858_latin(c: char) -> (r: u8)
    ensures
        r == spec_pc858_latin(c),
{
    let v = c as u32;
    if v == 0xE1 {
        0xA0
    } else if v == 0xE9 {
        0x82
    } else if v == 0xED {
        0xA1
    } else if v == 0xF3 {
        0xA2
    } else if v == 0xFA {
        0xA3
    } else if v == 0xF1 {
        0xA4
    } else if v == 0xD1 {
        0xA5
    } else if v == 0xA1 {
        0xAD
    } else if v == 0xBF {
        0xA8
    } else if v == 0xFC {
        0x81
    } else if v == 0xF6 {
        0x94
    } else if v == 0xE4 {
        0x84
    } else if v == 0xE0 {
        0x85
    } else if v == 0xE8 {
        0x8A
    } else if v == 0xE7 {
        0x87
    } else {
        0x3F
    }
}

/// The PC858 byte of a character outside ASCII: a currency sign, else a letter of the table,
/// else `?`.
pub fn encode_pc858_high(c: char) -> (r: u8)
    ensures
        r == spec_pc858_high(c),
{
    match encode_pc858_currency(c) {
        Some(b) => b,
        None => encode_pc858_latin(c),
    }
}

pub fn encode_pc858_char(c: char) -> (r: u8)
    ensures
        r == spec_pc858(c),
{
    let v = c as u32;
    if v < 0x80 {
        v as u8
    } else {
        encode_pc858_high(c)
    }
}

/// The PC858 bytes of `text`.
pub fn encode_pc858(text: &str) -> (r: Vec<u8>)
    ensures
        r@ == spec_encode_pc858(text@),
{
    let chars = str_chars(text);
    encode_pc858_chars(&chars)
}

pub fn encode_pc858_chars(chars: &Vec<char>) -> (r: Vec<u8>)
    ensures
        r@ == spec_encode_pc858(chars@),
{
    let mut out: Vec<u8> = Vec::new();
    let mut i: usize = 0;
    while i < chars.len()
        invariant
            i <= chars@.len(),
            out@ == spec_encode_pc858(chars@.take(i as int)),
        decreases chars@.len() - i,
    {
        out.push(encode_pc858_char(chars[i]));
        i = i + 1;
        assert(spec_encode_pc858(chars@.take(i as int)) =~= spec_encode_pc858(
            chars@.take(i - 1),
        ).push(spec_pc858(chars@[i - 1])));
    }
    assert(chars@.take(i as int) =~= chars@);
    out
}

// ---------------------------------------------------------------------------------------------
// Lines and words.

/// Lines of a text as `str::lines` cuts them, scanned so far: the finished lines and the
/// line in progress.  A line ends at `\n`, which is dropped together with a `\r` before it.
pub open spec fn lines_scan(s: Seq<char>) -> (Seq<Seq<char>>, Seq<char>)
    decreases s.len(),
{
    if s.len() == 0 {
        (seq![], seq![])
    } else {
        let (done, cur) = lines_scan(s.drop_last());
        if s.last() == '\n' {
            (done.push(strip_cr(cur)), seq![])
        } else {
            (done, cur.push(s.last()))
        }
    }
}

/// `line` without one trailing `\r`.
pub open spec fn strip_cr(line: Seq<char>) -> Seq<char> {
    if line.len() > 0 && line.last() == '\r' {
        line.drop_last()
    } else {
        line
    }
}

/// The lines of `s`: a final line without `\n` counts if it is not empty.
pub open spec fn spec_lines(s: Seq<char>) -> Seq<Seq<char>> {
    let (done, cur) = lines_scan(s);
    if cur.len() > 0 {
        done.push(cur)
    } else {
        done
    }
}

/// Words of a text scanned so far: the finished words and the word in progress.
pub open spec fn words_scan(s: Seq<char>) -> (Seq<Seq<char>>, Seq<char>)
    decreases s.len(),
{
    if s.len() == 0 {
        (seq![], seq![])
    } else {
        let (done, cur) = words_scan(s.drop_last());
        if is_unicode_whitespace(s.last()) {
            if cur.len() > 0 {
                (done.push(cur), seq![])
            } else {
                (done, cur)
            }
        } else {
            (done, cur.push(s.last()))
        }
    }
}

/// The maximal runs of characters that are not white space, in order
/// (`str::split_whitespace`).
pub open spec fn spec_words(s: Seq<char>) -> Seq<Seq<char>> {
    let (done, cur) = words_scan(s);
    if cur.len() > 0 {
        done.push(cur)
    } else {
        done
    }
}

/// The lines of `chars`, as `str::lines` cuts them.
pub fn split_lines(chars: &Vec<char>) -> (r: Vec<Vec<char>>)
    ensures
        char_rows(r@) == spec_lines(chars@),
{
    let mut done: Vec<Vec<char>> = Vec::new();
    let mut cur: Vec<char> = Vec::new();
    let mut i: usize = 0;
    while i < chars.len()
        invariant
            i <= chars@.len(),
            (char_rows(done@), cur@) == lines_scan(chars@.take(i as int)),
        decreases chars@.len() - i,
    {
        let c = chars[i];
        proof {
            assert(chars@.take(i + 1).drop_last() =~= chars@.take(i as int));
        }
        if c == '\n' {
            let n = cur.len();
            if n > 0 && cur[n - 1] == '\r' {
                cur.pop();
            }
            let ghost before = char_rows(done@);
            done.push(cur);
            assert(char_rows(done@) =~= before.push(done@.last()@));
            cur = Vec::new();
        } else {
            cur.push(c);
        }
        i = i + 1;
    }
    assert(chars@.take(i as int) =~= chars@);
    if cur.len() > 0 {
        let ghost before = char_rows(done@);
        done.push(cur);
        assert(char_rows(done@) =~= before.push(done@.last()@));
    }
    done
}

/// The words of `chars`, as `str::split_whitespace` cuts them.
pub fn split_words(chars: &Vec<char>) -> (r: Vec<Vec<char>>)
    ensures
        char_rows(r@) == spec_words(chars@),
{
    let mut done: Vec<Vec<char>> = Vec::new();
    let mut cur: Vec<char> = Vec::new();
    let mut i: usize = 0;
    while i < chars.len()
        invariant
            i <= chars@.len(),
            (char_rows(done@), cur@) == words_scan(chars@.take(i as int)),
        decreases chars@.len() - i,
    {
        let c = chars[i];
        proof {
            assert(chars@.take(i + 1).drop_last() =~= chars@.take(i as int));
        }
        if is_whitespace(c) {
            if cur.len() > 0 {
                let ghost before = char_rows(done@);
                done.push(cur);
                assert(char_rows(done@) =~= before.push(done@.last()@));
                cur = Vec::new();
            }
        } else {
            cur.push(c);
        }
        i = i + 1;
    }
    assert(chars@.take(i as int) =~= chars@);
    if cur.len() > 0 {
        let ghost before = char_rows(done@);
        done.push(cur);
        assert(char_rows(done@) =~= before.push(done@.last()@));
    }
    done
}


// ---------------------------------------------------------------------------------------------
// Wrapping.

/// `w` cut into pieces of `n` characters, the last one possibly shorter (`slice::chunks`).
pub open spec fn spec_chunks(w: Seq<char>, n: nat) -> Seq<Seq<char>>
    decreases w.len(),
{
    if n == 0 || w.len() <= n {
        seq![w]
    } else {
        seq![w.take(n as int)] + spec_chunks(w.skip(n as int), n)
    }
}

/// One word added to a line being wrapped: the lines finished so far and the line in progress.
/// A word longer than the width is cut into chunks on lines of their own; a word that fits
/// after the current line joins it with one space; otherwise it starts a new line.
pub open spec fn wrap_step(width: nat, state: (Seq<Seq<char>>, Seq<char>), word: Seq<char>) -> (
    Seq<Seq<char>>,
    Seq<char>,
) {
    let (done, line) = state;
    if word.len() > width {
        let flushed = if line.len() > 0 {
            done.push(line)
        } else {
            done
        };
        (flushed + spec_chunks(word, width), seq![])
    } else if line.len() == 0 {
        (done, word)
    } else if line.len() + 1 + word.len() <= width {
        (done, line + seq![' '] + word)
    } else {
        (done.push(line), word)
    }
}

/// The words added one by one, from an empty state.
pub open spec fn wrap_words_scan(width: nat, words: Seq<Seq<char>>) -> (Seq<Seq<char>>, Seq<char>)
    decreases words.len(),
{
    if words.len() == 0 {
        (seq![], seq![])
    } else {
        wrap_step(width, wrap_words_scan(width, words.drop_last()), words.last())
    }
}

/// The printed lines that one source line becomes; an empty source line stays one empty line,
/// a line of white space only disappears.
pub open spec fn spec_wrap_line(line: Seq<char>, width: nat) -> Seq<Seq<char>> {
    let (done, cur) = wrap_words_scan(width, spec_words(line));
    if cur.len() > 0 {
        done.push(cur)
    } else if line.len() == 0 {
        done.push(seq![])
    } else {
        done
    }
}

/// The printed lines of several source lines, in order.
pub open spec fn wrap_lines(lines: Seq<Seq<char>>, width: nat) -> Seq<Seq<char>>
    decreases lines.len(),
{
    if lines.len() == 0 {
        seq![]
    } else {
        wrap_lines(lines.drop_last(), width) + spec_wrap_line(lines.last(), width)
    }
}

/// The lines that `value` is printed on, at most `width` characters each (width 0 keeps the
/// text as one line); never empty.
pub open spec fn spec_wrap_text(value: Seq<char>, width: nat) -> Seq<Seq<char>> {
    if width == 0 {
        seq![value]
    } else {
        let r = wrap_lines(spec_lines(value), width);
        if r.len() == 0 {
            seq![seq![]]
        } else {
            r
        }
    }
}

/// The characters of `v` from `from` to `to`.
pub fn slice_chars(v: &Vec<char>, from: usize, to: usize) -> (r: Vec<char>)
    requires
        from <= to <= v@.len(),
    ensures
        r@ == v@.subrange(from as int, to as int),
{
    let mut out: Vec<char> = Vec::new();
    let mut i = from;
    while i < to
        invariant
            from <= i <= to <= v@.len(),
            out@ == v@.subrange(from as int, i as int),
        decreases to - i,
    {
        out.push(v[i]);
        i = i + 1;
        assert(out@ =~= v@.subrange(from as int, i as int));
    }
    out
}

/// Appends the characters of `src` to `dst`.
pub fn append_chars(dst: &mut Vec<char>, src: &Vec<char>)
    ensures
        final(dst)@ == old(dst)@ + src@,
{
    let mut i: usize = 0;
    while i < src.len()
        invariant
            i <= src@.len(),
            dst@ == old(dst)@ + src@.take(i as int),
        decreases src@.len() - i,
    {
        dst.push(src[i]);
        i = i + 1;
        assert(dst@ =~= old(dst)@ + src@.take(i as int));
    }
    assert(src@.take(i as int) =~= src@);
}

/// Appends the rows of `src` to `dst`.
pub fn append_rows(dst: &mut Vec<Vec<char>>, src: Vec<Vec<char>>)
    ensures
        char_rows(final(dst)@) == char_rows(old(dst)@) + char_rows(src@),
{
    let mut src = src;
    let ghost s = src@;
    dst.append(&mut src);
    assert(char_rows(dst@) =~= char_rows(old(dst)@) + char_rows(s));
}

fn push_row(dst: &mut Vec<Vec<char>>, row: Vec<char>)
    ensures
        char_rows(final(dst)@) == char_rows(old(dst)@).push(row@),
{
    dst.push(row);
    assert(char_rows(dst@) =~= char_rows(old(dst)@).push(row@));
}

/// `word` cut into chunks of `n` characters.
pub fn chunk_word(word: &Vec<char>, n: usize) -> (r: Vec<Vec<char>>)
    requires
        n > 0,
    ensures
        char_rows(r@) == spec_chunks(word@, n as nat),
{
    let mut out: Vec<Vec<char>> = Vec::new();
    let mut start: usize = 0;
    proof {
        assert(word@.skip(0) =~= word@);
    }
    while word.len() - start > n
        invariant
            n > 0,
            start <= word@.len(),
            spec_chunks(word@, n as nat) == char_rows(out@) + spec_chunks(
                word@.skip(start as int),
                n as nat,
            ),
        decreases word@.len() - start,
    {
        let piece = slice_chars(word, start, start + n);
        let ghost rest = word@.skip(start as int);
        proof {
            assert(rest.take(n as int) =~= piece@);
            assert(rest.skip(n as int) =~= word@.skip(start + n));
        }
        let ghost before = char_rows(out@);
        push_row(&mut out, piece);
        proof {
            assert(before + spec_chunks(rest, n as nat) =~= before.push(piece@) + spec_chunks(
                word@.skip(start + n),
                n as nat,
            ));
        }
        start = start + n;
    }
    let last = slice_chars(word, start, word.len());
    proof {
        assert(word@.skip(start as int) =~= last@);
    }
    let ghost before = char_rows(out@);
    push_row(&mut out, last);
    proof {
        assert(before + seq![last@] =~= before.push(last@));
    }
    out
}

/// The printed lines that one source line becomes.
pub fn wrap_line(line: &Vec<char>, width: usize) -> (r: Vec<Vec<char>>)
    requires
        width > 0,
    ensures
        char_rows(r@) == spec_wrap_line(line@, width as nat),
{
    let words = split_words(line);
    let mut done: Vec<Vec<char>> = Vec::new();
    let mut cur: Vec<char> = Vec::new();
    let mut i: usize = 0;
    while i < words.len()
        invariant
            width > 0,
            i <= words@.len(),
            char_rows(words@) == spec_words(line@),
            cur@.len() <= width,
            (char_rows(done@), cur@) == wrap_words_scan(
                width as nat,
                char_rows(words@).take(i as int),
            ),
        decreases words@.len() - i,
    {
        let word = &words[i];
        proof {
            assert(char_rows(words@).take(i + 1).drop_last() =~= char_rows(words@).take(
                i as int,
            ));
            assert(char_rows(words@).take(i + 1).last() == word@);
        }
        if word.len() > width {
            if cur.len() > 0 {
                push_row(&mut done, cur);
            }
            cur = Vec::new();
            let pieces = chunk_word(word, width);
            append_rows(&mut done, pieces);
        } else if cur.len() == 0 {
            cur = slice_chars(word, 0, word.len());
            assert(cur@ =~= word@);
        } else if word.len() < width - cur.len() {
            let ghost old_cur = cur@;
            cur.push(' ');
            append_chars(&mut cur, word);
            assert(cur@ =~= old_cur + seq![' '] + word@);
        } else {
            push_row(&mut done, cur);
            cur = slice_chars(word, 0, word.len());
            assert(cur@ =~= word@);
        }
        i = i + 1;
    }
    assert(char_rows(words@).take(i as int) =~= char_rows(words@));
    if cur.len() > 0 {
        push_row(&mut done, cur);
    } else if line.len() == 0 {
        push_row(&mut done, Vec::new());
    }
    done
}

/// The string made of the characters of `v`.
pub fn chars_to_string(v: &Vec<char>) -> (r: String)
    ensures
        r@ == v@,
{
    let mut s = String::new();
    let mut i: usize = 0;
    while i < v.len()
        invariant
            i <= v@.len(),
            s@ == v@.take(i as int),
        decreases v@.len() - i,
    {
        push_char(&mut s, v[i]);
        i = i + 1;
        assert(s@ =~= v@.take(i as int));
    }
    assert(v@.take(i as int) =~= v@);
    s
}

/// The strings made of the rows of `rows`.
pub fn rows_to_strings(rows: &Vec<Vec<char>>) -> (r: Vec<String>)
    ensures
        string_rows(r@) == char_rows(rows@),
{
    let mut out: Vec<String> = Vec::new();
    let mut i: usize = 0;
    while i < rows.len()
        invariant
            i <= rows@.len(),
            string_rows(out@) == char_rows(rows@).take(i as int),
        decreases rows@.len() - i,
    {
        let s = chars_to_string(&rows[i]);
        let ghost before = string_rows(out@);
        out.push(s);
        assert(string_rows(out@) =~= before.push(s@));
        i = i + 1;
        assert(char_rows(rows@).take(i as int) =~= char_rows(rows@).take(i - 1).push(
            rows@[i - 1]@,
        ));
    }
    assert(char_rows(rows@).take(i as int) =~= char_rows(rows@));
    out
}

/// Wraps `value` to lines of at most `width` characters: words are kept whole and joined by
/// single spaces, a word longer than the line is cut, the line breaks of the text are kept.
pub fn wrap_text(value: &str, width: usize) -> (r: Vec<String>)
    ensures
        string_rows(r@) == spec_wrap_text(value@, width as nat),
{
    if width == 0 {
        let mut r: Vec<String> = Vec::new();
        r.push(String::from_str(value));
        assert(string_rows(r@) =~= seq![value@]);
        return r;
    }
    let chars = str_chars(value);
    let lines = split_lines(&chars);
    let mut result: Vec<Vec<char>> = Vec::new();
    let mut i: usize = 0;
    while i < lines.len()
        invariant
            width > 0,
            i <= lines@.len(),
            char_rows(lines@) == spec_lines(value@),
            char_rows(result@) == wrap_lines(char_rows(lines@).take(i as int), width as nat),
        decreases lines@.len() - i,
    {
        let piece = wrap_line(&lines[i], width);
        proof {
            assert(char_rows(lines@).take(i + 1).drop_last() =~= char_rows(lines@).take(
                i as int,
            ));
            assert(char_rows(lines@).take(i + 1).last() == lines@[i as int]@);
        }
        append_rows(&mut result, piece);
        i = i + 1;
    }
    assert(char_rows(lines@).take(i as int) =~= char_rows(lines@));
    if result.len() == 0 {
        push_row(&mut result, Vec::new());
        assert(char_rows(result@) =~= seq![seq![]]);
    }
    rows_to_strings(&result)
}


// ---------------------------------------------------------------------------------------------
// Styles.

/// Character magnification (width, height) of a font size; normal when none is set.
pub open spec fn spec_font_dots(size: Option<FontSize>) -> (u8, u8) {
    match size {
        None | Some(FontSize::Normal) => (1, 1),
        Some(FontSize::Wide) => (2, 1),
        Some(FontSize::Tall) => (1, 2),
        Some(FontSize::Double) => (2, 2),
    }
}

pub fn font_dots(size: Option<FontSize>) -> (r: (u8, u8))
    ensures
        r == spec_font_dots(size),
{
    match size {
        None => (1, 1),
        Some(FontSize::Normal) => (1, 1),
        Some(FontSize::Wide) => (2, 1),
        Some(FontSize::Tall) => (1, 2),
        Some(FontSize::Double) => (2, 2),
    }
}

/// How many normal characters one character of the style takes across the line.
pub open spec fn spec_horizontal_scale(style: Option<TextStyle>) -> nat {
    match style {
        Some(s) => match s.size {
            Some(FontSize::Wide) | Some(FontSize::Double) => 2,
            _ => 1,
        },
        None => 1,
    }
}

pub fn horizontal_scale(style: Option<TextStyle>) -> (r: usize)
    ensures
        r == spec_horizontal_scale(style),
{
    match style {
        Some(s) => match s.size {
            Some(FontSize::Wide) => 2,
            Some(FontSize::Double) => 2,
            _ => 1,
        },
        None => 1,
    }
}

// ---------------------------------------------------------------------------------------------
// Fitting text into cells.

/// `n` spaces.
pub open spec fn spaces(n: nat) -> Seq<char> {
    Seq::new(n, |i: int| ' ')
}

/// `value` cut to `width` characters and padded with spaces to exactly `width`, on the side
/// that the alignment asks for (a centred text gets the extra space on its right).
pub open spec fn spec_fit_text(value: Seq<char>, width: nat, align: Align) -> Seq<char> {
    let kept = if value.len() <= width {
        value
    } else {
        value.take(width as int)
    };
    let padding = (width - kept.len()) as nat;
    match align {
        Align::Left => kept + spaces(padding),
        Align::Center => spaces(padding / 2) + kept + spaces((padding - padding / 2) as nat),
        Align::Right => spaces(padding) + kept,
    }
}

fn push_spaces(s: &mut Vec<char>, n: usize)
    ensures
        final(s)@ == old(s)@ + spaces(n as nat),
{
    let mut i: usize = 0;
    while i < n
        invariant
            i <= n,
            s@ == old(s)@ + spaces(i as nat),
        decreases n - i,
    {
        s.push(' ');
        i = i + 1;
        assert(s@ =~= old(s)@ + spaces(i as nat));
    }
}

/// `value` fitted into a cell of `width` characters.
pub fn fit_text(value: &str, width: usize, align: Align) -> (r: String)
    ensures
        r@ == spec_fit_text(value@, width as nat, align),
{
    let chars = str_chars(value);
    let r = fit_chars(&chars, width, align);
    chars_to_string(&r)
}

pub fn fit_chars(chars: &Vec<char>, width: usize, align: Align) -> (r: Vec<char>)
    ensures
        r@ == spec_fit_text(chars@, width as nat, align),
{
    let kept = if chars.len() <= width {
        slice_chars(chars, 0, chars.len())
    } else {
        slice_chars(chars, 0, width)
    };
    proof {
        assert(chars@.subrange(0, chars@.len() as int) =~= chars@);
    }
    let padding = width - kept.len();
    let mut out: Vec<char> = Vec::new();
    match align {
        Align::Left => {
            append_chars(&mut out, &kept);
            push_spaces(&mut out, padding);
        },
        Align::Center => {
            let left = padding / 2;
            push_spaces(&mut out, left);
            append_chars(&mut out, &kept);
            push_spaces(&mut out, padding - left);
        },
        Align::Right => {
            push_spaces(&mut out, padding);
            append_chars(&mut out, &kept);
        },
    }
    assert(out@ =~= spec_fit_text(chars@, width as nat, align));
    out
}

// ---------------------------------------------------------------------------------------------
// Receipt rows.

/// Sum of the cells of the columns that set a width.
pub open spec fn explicit_cells(columns: Seq<Column>, paper: PaperWidth) -> nat
    decreases columns.len(),
{
    if columns.len() == 0 {
        0
    } else {
        explicit_cells(columns.drop_last(), paper) + match columns.last().width {
            Some(w) => w.spec_cells(paper) as nat,
            None => 0nat,
        }
    }
}

/// Number of columns that set no width.
pub open spec fn unspecified_count(columns: Seq<Column>) -> nat
    decreases columns.len(),
{
    if columns.len() == 0 {
        0
    } else {
        unspecified_count(columns.drop_last()) + if columns.last().width is None {
            1nat
        } else {
            0nat
        }
    }
}

/// The width of a column without one: what the others leave of the line, shared evenly
/// (rounded down).
pub open spec fn default_cells(columns: Seq<Column>, paper: PaperWidth) -> nat {
    let count = unspecified_count(columns);
    let line = paper.spec_characters_per_line();
    let explicit = explicit_cells(columns, paper);
    if count == 0 || explicit >= line {
        0
    } else {
        ((line - explicit) as nat / count) as nat
    }
}

/// The characters each column takes before the last one absorbs what is left.
pub open spec fn spec_physical_widths(columns: Seq<Column>, paper: PaperWidth) -> Seq<nat> {
    Seq::new(
        columns.len(),
        |i: int|
            match columns[i].width {
                Some(w) => w.spec_cells(paper) as nat,
                None => default_cells(columns, paper),
            },
    )
}

pub open spec fn sum_nat(s: Seq<nat>) -> nat
    decreases s.len(),
{
    if s.len() == 0 {
        0
    } else {
        sum_nat(s.drop_last()) + s.last()
    }
}

/// The widths of the columns: the last column also takes what the others leave of the line.
pub open spec fn spec_column_widths(columns: Seq<Column>, paper: PaperWidth) -> Seq<nat> {
    let w = spec_physical_widths(columns, paper);
    let used = sum_nat(w);
    let line = paper.spec_characters_per_line();
    if w.len() == 0 || used >= line {
        w
    } else {
        w.update(w.len() - 1, w.last() + (line - used) as nat)
    }
}

/// The alignment of a column: its own, else left for the first column and right for the others.
pub open spec fn column_align(c: Column, index: int) -> Align {
    match c.align {
        Some(a) => a,
        None => if index == 0 {
            Align::Left
        } else {
            Align::Right
        },
    }
}

/// The text of each column fitted into its width.
pub open spec fn spec_column_segments(columns: Seq<Column>, paper: PaperWidth) -> Seq<Seq<char>> {
    let widths = spec_column_widths(columns, paper);
    Seq::new(
        columns.len(),
        |i: int| spec_fit_text(columns[i].text@, widths[i], column_align(columns[i], i)),
    )
}

/// The printed row of a columns block: its segments side by side.
pub open spec fn spec_column_row(columns: Seq<Column>, paper: PaperWidth) -> Seq<char> {
    spec_column_segments(columns, paper).flatten()
}

fn sat_add(a: usize, b: usize) -> (r: usize)
    ensures
        r == if a + b > usize::MAX {
            usize::MAX as int
        } else {
            a + b
        },
{
    if a > usize::MAX - b {
        usize::MAX
    } else {
        a + b
    }
}

/// The characters each column takes, before the last one absorbs what is left of the line.
pub fn physical_column_widths(columns: &Vec<Column>, paper: PaperWidth) -> (r: Vec<usize>)
    ensures
        r@.len() == columns@.len(),
        forall|i: int|
            0 <= i < r@.len() ==> r@[i] as nat == #[trigger] spec_physical_widths(
                columns@,
                paper,
            )[i],
{
    let line = paper.characters_per_line();
    let mut explicit: usize = 0;
    let mut count: usize = 0;
    let mut i: usize = 0;
    while i < columns.len()
        invariant
            i <= columns@.len(),
            explicit == if explicit_cells(columns@.take(i as int), paper) > usize::MAX {
                usize::MAX as nat
            } else {
                explicit_cells(columns@.take(i as int), paper)
            },
            count == unspecified_count(columns@.take(i as int)),
            count <= i,
        decreases columns@.len() - i,
    {
        proof {
            assert(columns@.take(i + 1).drop_last() =~= columns@.take(i as int));
        }
        match columns[i].width {
            Some(w) => {
                explicit = sat_add(explicit, w.cells(paper));
            },
            None => {
                count = count + 1;
            },
        }
        i = i + 1;
    }
    assert(columns@.take(i as int) =~= columns@);
    let default_width: usize = if count == 0 || explicit >= line {
        0
    } else {
        (line - explicit) / count
    };
    assert(default_width == default_cells(columns@, paper));
    let mut out: Vec<usize> = Vec::new();
    let mut j: usize = 0;
    while j < columns.len()
        invariant
            j <= columns@.len(),
            out@.len() == j,
            default_width == default_cells(columns@, paper),
            forall|k: int|
                0 <= k < j ==> out@[k] as nat == #[trigger] spec_physical_widths(columns@, paper)[k],
        decreases columns@.len() - j,
    {
        let w = match columns[j].width {
            Some(w) => w.cells(paper),
            None => default_width,
        };
        out.push(w);
        j = j + 1;
    }
    out
}

pub proof fn lemma_sum_nat_update_last(s: Seq<nat>, extra: nat)
    requires
        s.len() > 0,
    ensures
        sum_nat(s.update(s.len() - 1, s.last() + extra)) == sum_nat(s) + extra,
{
    assert(s.update(s.len() - 1, s.last() + extra).drop_last() =~= s.drop_last());
}

proof fn lemma_sum_nat_bound(s: Seq<nat>, i: int)
    requires
        0 <= i < s.len(),
    ensures
        s[i] <= sum_nat(s),
    decreases s.len(),
{
    if i < s.len() - 1 {
        lemma_sum_nat_bound(s.drop_last(), i);
    }
}

/// The widths of the columns on the given paper.
pub fn padded_column_widths(columns: &Vec<Column>, paper: PaperWidth) -> (r: Vec<usize>)
    ensures
        r@.len() == columns@.len(),
        forall|i: int|
            0 <= i < r@.len() ==> r@[i] as nat == #[trigger] spec_column_widths(columns@, paper)[i],
{
    let mut widths = physical_column_widths(columns, paper);
    let ghost phys = spec_physical_widths(columns@, paper);
    let line = paper.characters_per_line();
    let mut used: usize = 0;
    let mut i: usize = 0;
    while i < widths.len()
        invariant
            i <= widths@.len(),
            widths@.len() == phys.len(),
            forall|k: int| 0 <= k < widths@.len() ==> widths@[k] as nat == #[trigger] phys[k],
            used == if sum_nat(phys.take(i as int)) > usize::MAX {
                usize::MAX as nat
            } else {
                sum_nat(phys.take(i as int))
            },
        decreases widths@.len() - i,
    {
        proof {
            assert(phys.take(i + 1).drop_last() =~= phys.take(i as int));
        }
        used = sat_add(used, widths[i]);
        i = i + 1;
    }
    assert(phys.take(i as int) =~= phys);
    let n = widths.len();
    if n > 0 && used < line {
        proof {
            lemma_sum_nat_bound(phys, n - 1);
        }
        let last = widths[n - 1] + (line - used);
        widths.set(n - 1, last);
    }
    widths
}

/// The text of each column fitted into its width.
pub fn column_segments(columns: &Vec<Column>, paper: PaperWidth) -> (r: Vec<Vec<char>>)
    ensures
        char_rows(r@) == spec_column_segments(columns@, paper),
{
    let widths = padded_column_widths(columns, paper);
    let mut out: Vec<Vec<char>> = Vec::new();
    let mut i: usize = 0;
    while i < columns.len()
        invariant
            i <= columns@.len(),
            widths@.len() == columns@.len(),
            forall|k: int|
                0 <= k < widths@.len() ==> widths@[k] as nat == #[trigger] spec_column_widths(
                    columns@,
                    paper,
                )[k],
            char_rows(out@) == spec_column_segments(columns@, paper).take(i as int),
        decreases columns@.len() - i,
    {
        let column = &columns[i];
        let align = match column.align {
            Some(a) => a,
            None => if i == 0 {
                Align::Left
            } else {
                Align::Right
            },
        };
        let text = str_chars(column.text.as_str());
        let cell = fit_chars(&text, widths[i], align);
        let ghost before = char_rows(out@);
        push_row(&mut out, cell);
        i = i + 1;
        assert(spec_column_segments(columns@, paper).take(i as int) =~= before.push(cell@));
    }
    assert(spec_column_segments(columns@, paper).take(i as int) =~= spec_column_segments(
        columns@,
        paper,
    ));
    out
}

/// The printed rows of a columns block: one row holding every column side by side.
pub fn column_rows(columns: &Vec<Column>, paper: PaperWidth) -> (r: Vec<String>)
    ensures
        string_rows(r@) == seq![spec_column_row(columns@, paper)],
{
    let segments = column_segments(columns, paper);
    let mut row: Vec<char> = Vec::new();
    let mut i: usize = 0;
    while i < segments.len()
        invariant
            i <= segments@.len(),
            row@ == char_rows(segments@).take(i as int).flatten(),
        decreases segments@.len() - i,
    {
        proof {
            char_rows(segments@).take(i as int).lemma_flatten_push(segments@[i as int]@);
            assert(char_rows(segments@).take(i + 1) =~= char_rows(segments@).take(i as int).push(
                segments@[i as int]@,
            ));
        }
        append_chars(&mut row, &segments[i]);
        i = i + 1;
    }
    assert(char_rows(segments@).take(i as int) =~= char_rows(segments@));
    let mut out: Vec<String> = Vec::new();
    out.push(chars_to_string(&row));
    assert(string_rows(out@) =~= seq![row@]);
    out
}

} // verus!
