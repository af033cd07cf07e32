use vstd::prelude::*;

use crate::chars::{digit_of, push_char, str_chars};
use crate::models::{is_digit_char, ErrorCode, EscposError};
use crate::raster::{bitmap_wf, gs_v0_from_gray, spec_gs_v0_command, BitmapView, GrayBitmap};
use crate::text::append_chars;
use vstd::utf8::encode_utf8;

verus! {

// ---------------------------------------------------------------------------------------------
// EAN-13 digits.

/// The values of the decimal digits of `s`.
pub open spec fn digit_values(s: Seq<char>) -> Seq<u8> {
    s.map_values(|c: char| ((c as u32) - 48) as u8)
}

pub open spec fn all_digits(s: Seq<char>) -> bool {
    forall|i: int| 0 <= i < s.len() ==> is_digit_char(#[trigger] s[i])
}

/// Sum of the digits with weights 1, 3, 1, 3, ... from the first one.
pub open spec fn weighted_sum(d: Seq<u8>) -> nat
    decreases d.len(),
{
    if d.len() == 0 {
        0
    } else {
        weighted_sum(d.drop_last()) + d.last() as nat * if (d.len() - 1) % 2 == 0 {
            1nat
        } else {
            3nat
        }
    }
}

/// The EAN-13 check digit of the first twelve digits: what brings the weighted sum to a
/// multiple of ten.
pub open spec fn spec_check_digit(d: Seq<u8>) -> u8 {
    ((10 - weighted_sum(d) % 10) % 10) as u8
}

/// The thirteen digits of an EAN-13 value: twelve digits get their check digit, thirteen are
/// taken as they are; anything else is refused with its message.
pub open spec fn spec_normalize_ean13(s: Seq<char>) -> Result<Seq<u8>, Seq<char>> {
    if !all_digits(s) {
        Err("EAN-13 barcode must contain only digits"@)
    } else if s.len() == 12 {
        Ok(digit_values(s).push(spec_check_digit(digit_values(s))))
    } else if s.len() == 13 {
        Ok(digit_values(s))
    } else {
        Err("EAN-13 barcode must contain 12 or 13 digits"@)
    }
}

/// The digits of `value`, refused unless every character is an ASCII digit.
pub fn parse_digits(value: &str) -> (r: Result<Vec<u8>, EscposError>)
    ensures
        r is Ok <==> all_digits(value@),
        r matches Ok(d) ==> d@ == digit_values(value@),
        r matches Err(e) ==> e.code == ErrorCode::InvalidDocument && e.message@
            == "EAN-13 barcode must contain only digits"@,
{
    let chars = str_chars(value);
    let mut out: Vec<u8> = Vec::new();
    let mut i: usize = 0;
    while i < chars.len()
        invariant
            i <= chars@.len(),
            chars@ == value@,
            all_digits(chars@.take(i as int)),
            out@ == digit_values(chars@.take(i as int)),
        decreases chars@.len() - i,
    {
        let c = chars[i];
        if c < '0' || c > '9' {
            assert(!is_digit_char(value@[i as int]));
            return Err(EscposError::invalid_document("EAN-13 barcode must contain only digits"));
        }
        out.push((c as u32 - 48) as u8);
        i = i + 1;
        assert(chars@.take(i as int) =~= chars@.take(i - 1).push(c));
        assert(out@ =~= digit_values(chars@.take(i as int)));
    }
    assert(chars@.take(i as int) =~= chars@);
    Ok(out)
}

proof fn lemma_digits_below_ten(s: Seq<char>)
    requires
        all_digits(s),
    ensures
        forall|i: int| 0 <= i < s.len() ==> #[trigger] digit_values(s)[i] < 10,
{
    assert forall|i: int| 0 <= i < s.len() implies #[trigger] digit_values(s)[i] < 10 by {
        assert(is_digit_char(s[i]));
    }
}

/// The check digit of the first twelve digits.
pub fn check_digit(digits: &Vec<u8>) -> (r: u8)
    requires
        digits@.len() == 12,
        forall|i: int| 0 <= i < digits@.len() ==> digits@[i] < 10,
    ensures
        r == spec_check_digit(digits@),
        r < 10,
{
    let mut sum: u32 = 0;
    let mut i: usize = 0;
    while i < digits.len()
        invariant
            i <= digits@.len() == 12,
            forall|k: int| 0 <= k < digits@.len() ==> digits@[k] < 10,
            sum == weighted_sum(digits@.take(i as int)),
            sum <= 27 * i,
        decreases digits@.len() - i,
    {
        proof {
            assert(digits@.take(i + 1).drop_last() =~= digits@.take(i as int));
        }
        let d = digits[i] as u32;
        if i % 2 == 0 {
            sum = sum + d;
        } else {
            sum = sum + d * 3;
        }
        i = i + 1;
    }
    assert(digits@.take(i as int) =~= digits@);
    ((10 - sum % 10) % 10) as u8
}

/// The thirteen digits of an EAN-13 value.
pub fn normalize_ean13(value: &str) -> (r: Result<Vec<u8>, EscposError>)
    ensures
        r matches Ok(d) ==> spec_normalize_ean13(value@) == Ok::<Seq<u8>, Seq<char>>(d@),
        r matches Ok(d) ==> d@.len() == 13 && forall|k: int| 0 <= k < 13 ==> d@[k] < 10,
        r matches Err(e) ==> e.code == ErrorCode::InvalidDocument && spec_normalize_ean13(
            value@,
        ) == Err::<Seq<u8>, Seq<char>>(e.message@),
{
    let digits = parse_digits(value)?;
    proof {
        lemma_digits_below_ten(value@);
    }
    if digits.len() == 12 {
        Ok(with_check_digit(&digits))
    } else if digits.len() == 13 {
        Ok(to_thirteen(&digits))
    } else {
        Err(EscposError::invalid_document("EAN-13 barcode must contain 12 or 13 digits"))
    }
}

/// Twelve digits followed by their check digit.
pub fn with_check_digit(digits: &Vec<u8>) -> (r: Vec<u8>)
    requires
        digits@.len() == 12,
        forall|i: int| 0 <= i < digits@.len() ==> digits@[i] < 10,
    ensures
        r@ == digits@.push(spec_check_digit(digits@)),
{
    let mut out = to_thirteen(digits);
    out.push(check_digit(digits));
    out
}

/// A copy of the digits.
pub fn to_thirteen(digits: &Vec<u8>) -> (r: Vec<u8>)
    ensures
        r@ == digits@,
{
    let mut out: Vec<u8> = Vec::new();
    let mut i: usize = 0;
    while i < digits.len()
        invariant
            i <= digits@.len(),
            out@ == digits@.take(i as int),
        decreases digits@.len() - i,
    {
        out.push(digits[i]);
        i = i + 1;
        assert(out@ =~= digits@.take(i as int));
    }
    assert(digits@.take(i as int) =~= digits@);
    out
}

// ---------------------------------------------------------------------------------------------
// EAN-13 modules.

/// Odd-parity (set A) patterns of the left half, seven modules as the low bits.
pub open spec fn spec_left_odd_code(d: u8) -> u8 {
    if d == 0 { 13 } else if d == 1 { 25 } else if d == 2 { 19 } else if d == 3 { 61 }
    else if d == 4 { 35 } else if d == 5 { 49 } else if d == 6 { 47 } else if d == 7 { 59 }
    else if d == 8 { 55 } else { 11 }
}

/// Even-parity (set B) patterns of the left half.
pub open spec fn spec_left_even_code(d: u8) -> u8 {
    if d == 0 { 39 } else if d == 1 { 51 } else if d == 2 { 27 } else if d == 3 { 33 }
    else if d == 4 { 29 } else if d == 5 { 57 } else if d == 6 { 5 } else if d == 7 { 17 }
    else if d == 8 { 9 } else { 23 }
}

/// Patterns of the right half (set C).
pub open spec fn spec_right_code(d: u8) -> u8 {
    if d == 0 { 114 } else if d == 1 { 102 } else if d == 2 { 108 } else if d == 3 { 66 }
    else if d == 4 { 92 } else if d == 5 { 78 } else if d == 6 { 80 } else if d == 7 { 68 }
    else if d == 8 { 72 } else { 116 }
}

/// Parity of the six left digits chosen by the first digit: bit 5 - i set when digit i + 1
/// uses the even set.
pub open spec fn spec_parity_code(d: u8) -> u8 {
    if d == 0 { 0 } else if d == 1 { 11 } else if d == 2 { 13 } else if d == 3 { 14 }
    else if d == 4 { 19 } else if d == 5 { 25 } else if d == 6 { 28 } else if d == 7 { 21 }
    else if d == 8 { 22 } else { 26 }
}

fn left_odd_code(d: u8) -> (r: u8)
    ensures
        r == spec_left_odd_code(d),
{
    if d == 0 { 13 } else if d == 1 { 25 } else if d == 2 { 19 } else if d == 3 { 61 }
    else if d == 4 { 35 } else if d == 5 { 49 } else if d == 6 { 47 } else if d == 7 { 59 }
    else if d == 8 { 55 } else { 11 }
}

fn left_even_code(d: u8) -> (r: u8)
    ensures
        r == spec_left_even_code(d),
{
    if d == 0 { 39 } else if d == 1 { 51 } else if d == 2 { 27 } else if d == 3 { 33 }
    else if d == 4 { 29 } else if d == 5 { 57 } else if d == 6 { 5 } else if d == 7 { 17 }
    else if d == 8 { 9 } else { 23 }
}

fn right_code(d: u8) -> (r: u8)
    ensures
        r == spec_right_code(d),
{
    if d == 0 { 114 } else if d == 1 { 102 } else if d == 2 { 108 } else if d == 3 { 66 }
    else if d == 4 { 92 } else if d == 5 { 78 } else if d == 6 { 80 } else if d == 7 { 68 }
    else if d == 8 { 72 } else { 116 }
}

fn parity_code(d: u8) -> (r: u8)
    ensures
        r == spec_parity_code(d),
{
    if d == 0 { 0 } else if d == 1 { 11 } else if d == 2 { 13 } else if d == 3 { 14 }
    else if d == 4 { 19 } else if d == 5 { 25 } else if d == 6 { 28 } else if d == 7 { 21 }
    else if d == 8 { 22 } else { 26 }
}

/// The seven modules of a pattern, `1` for a bar, from the most significant of its seven bits.
pub open spec fn spec_pattern(code: u8) -> Seq<char> {
    Seq::new(7, |j: int| if (code >> ((6 - j) as u8)) & 1u8 == 1u8 { '1' } else { '0' })
}

/// The pattern of left digit `i` (digit `i + 1` of the thirteen), in the parity set by the
/// first digit.
pub open spec fn spec_left_code(d: Seq<u8>, i: int) -> u8 {
    if (spec_parity_code(d[0]) >> ((5 - i) as u8)) & 1u8 == 1u8 {
        spec_left_even_code(d[i + 1])
    } else {
        spec_left_odd_code(d[i + 1])
    }
}

/// Modules of the first `k` digits of the left half.
pub open spec fn spec_left_half(d: Seq<u8>, k: nat) -> Seq<char>
    decreases k,
{
    if k == 0 {
        seq![]
    } else {
        spec_left_half(d, (k - 1) as nat) + spec_pattern(spec_left_code(d, k - 1))
    }
}

/// Modules of the first `k` digits of the right half (digits 7 to 12).
pub open spec fn spec_right_half(d: Seq<u8>, k: nat) -> Seq<char>
    decreases k,
{
    if k == 0 {
        seq![]
    } else {
        spec_right_half(d, (k - 1) as nat) + spec_pattern(spec_right_code(d[7 + k - 1]))
    }
}

/// Quiet zone of nine modules and the start guard.
pub open spec fn spec_start_guard() -> Seq<char> {
    Seq::new(9, |i: int| '0') + seq!['1', '0', '1']
}

/// The centre guard.
pub open spec fn spec_centre_guard() -> Seq<char> {
    seq!['0', '1', '0', '1', '0']
}

/// The end guard and a quiet zone of nine modules.
pub open spec fn spec_end_guard() -> Seq<char> {
    seq!['1', '0', '1'] + Seq::new(9, |i: int| '0')
}

/// The modules of an EAN-13 symbol, quiet zones included.
pub open spec fn spec_ean13_modules(d: Seq<u8>) -> Seq<char> {
    spec_start_guard() + spec_left_half(d, 6) + spec_centre_guard() + spec_right_half(d, 6)
        + spec_end_guard()
}

fn push_pattern(modules: &mut Vec<char>, code: u8)
    ensures
        final(modules)@ == old(modules)@ + spec_pattern(code),
{
    let mut j: u8 = 0;
    while j < 7
        invariant
            j <= 7,
            modules@ == old(modules)@ + spec_pattern(code).take(j as int),
        decreases 7 - j,
    {
        let bit = (code >> (6 - j)) & 1u8;
        modules.push(if bit == 1 { '1' } else { '0' });
        j = j + 1;
        assert(modules@ =~= old(modules)@ + spec_pattern(code).take(j as int));
    }
    assert(spec_pattern(code).take(7) =~= spec_pattern(code));
}

fn push_zeros(modules: &mut Vec<char>, n: usize)
    ensures
        final(modules)@ == old(modules)@ + Seq::new(n as nat, |i: int| '0'),
{
    let mut i: usize = 0;
    while i < n
        invariant
            i <= n,
            modules@ == old(modules)@ + Seq::new(i as nat, |k: int| '0'),
        decreases n - i,
    {
        modules.push('0');
        i = i + 1;
        assert(modules@ =~= old(modules)@ + Seq::new(i as nat, |k: int| '0'));
    }
}

/// Appends the left half, in the parities chosen by the first digit.
pub fn append_left(modules: &mut Vec<char>, digits: &Vec<u8>)
    requires
        digits@.len() == 13,
    ensures
        final(modules)@ == old(modules)@ + spec_left_half(digits@, 6),
{
    let parity = parity_code(digits[0]);
    let mut i: usize = 0;
    while i < 6
        invariant
            i <= 6,
            digits@.len() == 13,
            parity == spec_parity_code(digits@[0]),
            modules@ == old(modules)@ + spec_left_half(digits@, i as nat),
        decreases 6 - i,
    {
        let flag = (parity >> ((5 - i) as u8)) & 1u8;
        let digit = digits[i + 1];
        let code = if flag == 1 {
            left_even_code(digit)
        } else {
            left_odd_code(digit)
        };
        assert(code == spec_left_code(digits@, i as int));
        push_pattern(modules, code);
        i = i + 1;
        assert(modules@ =~= old(modules)@ + spec_left_half(digits@, i as nat));
    }
}

/// Appends the right half.
pub fn append_right(modules: &mut Vec<char>, digits: &Vec<u8>)
    requires
        digits@.len() == 13,
    ensures
        final(modules)@ == old(modules)@ + spec_right_half(digits@, 6),
{
    let mut i: usize = 0;
    while i < 6
        invariant
            i <= 6,
            digits@.len() == 13,
            modules@ == old(modules)@ + spec_right_half(digits@, i as nat),
        decreases 6 - i,
    {
        push_pattern(modules, right_code(digits[7 + i]));
        i = i + 1;
        assert(modules@ =~= old(modules)@ + spec_right_half(digits@, i as nat));
    }
}

/// The modules of the EAN-13 symbol of thirteen digits.
pub fn ean13_modules(digits: &Vec<u8>) -> (r: Vec<char>)
    requires
        digits@.len() == 13,
    ensures
        r@ == spec_ean13_modules(digits@),
{
    let mut modules: Vec<char> = Vec::new();
    push_zeros(&mut modules, 9);
    modules.push('1');
    modules.push('0');
    modules.push('1');
    assert(modules@ =~= spec_start_guard());
    append_left(&mut modules, digits);
    modules.push('0');
    modules.push('1');
    modules.push('0');
    modules.push('1');
    modules.push('0');
    let ghost mid = modules@;
    assert(mid =~= spec_start_guard() + spec_left_half(digits@, 6) + spec_centre_guard());
    append_right(&mut modules, digits);
    modules.push('1');
    modules.push('0');
    modules.push('1');
    push_zeros(&mut modules, 9);
    assert(modules@ =~= spec_ean13_modules(digits@));
    modules
}

proof fn lemma_half_lengths(d: Seq<u8>, k: nat)
    ensures
        spec_left_half(d, k).len() == 7 * k,
        spec_right_half(d, k).len() == 7 * k,
    decreases k,
{
    if k > 0 {
        lemma_half_lengths(d, (k - 1) as nat);
    }
}

/// An EAN-13 symbol has 113 modules: quiet zones, guards and twelve seven-module digits.
pub proof fn lemma_ean13_modules_len(d: Seq<u8>)
    ensures
        spec_ean13_modules(d).len() == 113,
{
    lemma_half_lengths(d, 6);
}

// ---------------------------------------------------------------------------------------------
// Drawing.

/// One pixel row of the symbol: each module `scale` pixels wide, black for a bar.
pub open spec fn spec_bar_row(modules: Seq<char>, scale: nat) -> Seq<u8> {
    Seq::new(
        modules.len() * scale,
        |x: int| if modules[x / (scale as int)] == '1' { 0u8 } else { 255u8 },
    )
}

/// `row` repeated `n` times.
pub open spec fn spec_repeat_rows(row: Seq<u8>, n: nat) -> Seq<u8>
    decreases n,
{
    if n == 0 {
        seq![]
    } else {
        spec_repeat_rows(row, (n - 1) as nat) + row
    }
}

pub(crate) proof fn lemma_repeat_rows_len(row: Seq<u8>, n: nat)
    ensures
        spec_repeat_rows(row, n).len() == row.len() * n,
    decreases n,
{
    if n == 0 {
        assert(row.len() * n == 0) by (nonlinear_arith)
            requires
                n == 0,
        ;
    } else {
        let m = (n - 1) as nat;
        lemma_repeat_rows_len(row, m);
        assert(spec_repeat_rows(row, n) == spec_repeat_rows(row, m) + row);
        assert(row.len() * m + row.len() == row.len() * n) by (nonlinear_arith)
            requires
                m + 1 == n,
        ;
    }
}

/// The bitmap of the modules: `scale` pixels per module, `height` rows of bars.
pub open spec fn spec_modules_bitmap(modules: Seq<char>, scale: nat, height: nat) -> BitmapView {
    (
        (modules.len() * scale) as u32,
        height as u32,
        spec_repeat_rows(spec_bar_row(modules, scale), height),
    )
}

/// The bitmap of the modules, white with black bars.
pub fn draw_modules(modules: &Vec<char>, scale: u32, height: u32) -> (r: GrayBitmap)
    requires
        scale > 0,
        modules@.len() * scale <= u32::MAX,
        modules@.len() * scale * height <= usize::MAX,
    ensures
        r@ == spec_modules_bitmap(modules@, scale as nat, height as nat),
        r.wf(),
{
    let len = modules.len();
    let width: usize = len * scale as usize;
    let ghost row = spec_bar_row(modules@, scale as nat);
    let mut pixels: Vec<u8> = Vec::new();
    let mut y: u32 = 0;
    while y < height
        invariant
            scale > 0,
            y <= height,
            len == modules@.len(),
            width == len * scale,
            width * height <= usize::MAX,
            row == spec_bar_row(modules@, scale as nat),
            pixels@ == spec_repeat_rows(row, y as nat),
        decreases height - y,
    {
        let ghost before = pixels@;
        let mut x: usize = 0;
        while x < width
            invariant
                scale > 0,
                x <= width,
                len == modules@.len(),
                width == len * scale,
                row == spec_bar_row(modules@, scale as nat),
                pixels@ == before + row.take(x as int),
            decreases width - x,
        {
            proof {
                assert((x as int) / (scale as int) < len) by (nonlinear_arith)
                    requires
                        x < len * scale,
                        scale > 0,
                ;
            }
            let module = modules[x / scale as usize];
            pixels.push(if module == '1' { 0u8 } else { 255u8 });
            x = x + 1;
            assert(pixels@ =~= before + row.take(x as int));
        }
        assert(row.take(x as int) =~= row);
        y = y + 1;
    }
    proof {
        lemma_repeat_rows_len(row, height as nat);
    }
    GrayBitmap { width: width as u32, height, pixels }
}

/// The bitmap of an EAN-13 symbol: two pixels per module, 64 rows.
pub open spec fn spec_ean13_bitmap(d: Seq<u8>) -> BitmapView {
    spec_modules_bitmap(spec_ean13_modules(d), 2, 64)
}

pub fn render_ean13(digits: &Vec<u8>) -> (r: GrayBitmap)
    requires
        digits@.len() == 13,
    ensures
        r@ == spec_ean13_bitmap(digits@),
        r.wf(),
        r.width == 226,
        r.height == 64,
{
    let modules = ean13_modules(digits);
    proof {
        lemma_ean13_modules_len(digits@);
    }
    draw_modules(&modules, 2, 64)
}

/// The digits written under a symbol.
pub open spec fn digit_text(d: Seq<u8>) -> Seq<char> {
    d.map_values(|v: u8| ((v + 48) as u32) as char)
}

/// An EAN-13 value as a `GS v 0` raster of its symbol and the thirteen digits to print under
/// it; a value that is not 12 or 13 ASCII digits is refused.
pub fn ean13_command(value: &str) -> (r: Result<(Vec<u8>, String), EscposError>)
    ensures
        r is Ok <==> spec_normalize_ean13(value@) is Ok,
        r matches Ok((command, text)) ==> ({
            let d = spec_normalize_ean13(value@)->Ok_0;
            &&& command@ == spec_gs_v0_command(spec_ean13_bitmap(d))
            &&& text@ == digit_text(d)
        }),
        r matches Err(e) ==> e.code == ErrorCode::InvalidDocument && spec_normalize_ean13(
            value@,
        ) == Err::<Seq<u8>, Seq<char>>(e.message@),
{
    let digits = normalize_ean13(value)?;
    let mut text = String::new();
    let mut i: usize = 0;
    while i < digits.len()
        invariant
            i <= digits@.len(),
            forall|k: int| 0 <= k < digits@.len() ==> digits@[k] < 10,
            text@ == digit_text(digits@.take(i as int)),
        decreases digits@.len() - i,
    {
        push_char(&mut text, digit_of(digits[i] as u32));
        i = i + 1;
        assert(text@ =~= digit_text(digits@.take(i as int)));
    }
    assert(digits@.take(i as int) =~= digits@);
    let bitmap = render_ean13(&digits);
    let command = gs_v0_from_gray(&bitmap);
    Ok((command, text))
}


// ---------------------------------------------------------------------------------------------
// Native barcodes.

/// `GS k` in function B: symbology `system`, the data length cut to one byte, then the data.
pub open spec fn spec_function_b_command(system: u8, data: Seq<u8>) -> Seq<u8> {
    seq![0x1Du8, 0x6Bu8, system, (data.len() % 256) as u8] + data
}

/// The `GS k` function B command that prints `value` in symbology `system`.
pub fn function_b_command(system: u8, value: &str) -> (r: Vec<u8>)
    ensures
        r@ == spec_function_b_command(system, encode_utf8(value@)),
{
    let bytes = value.as_bytes();
    let mut command: Vec<u8> = vec![0x1D, 0x6B, system, (bytes.len() % 256) as u8];
    let ghost head = command@;
    let mut i: usize = 0;
    while i < bytes.len()
        invariant
            i <= bytes@.len(),
            command@ == head + bytes@.take(i as int),
        decreases bytes@.len() - i,
    {
        command.push(bytes[i]);
        i = i + 1;
        assert(command@ =~= head + bytes@.take(i as int));
    }
    assert(bytes@.take(i as int) =~= bytes@);
    assert(command@ =~= spec_function_b_command(system, encode_utf8(value@)));
    command
}

} // verus!
