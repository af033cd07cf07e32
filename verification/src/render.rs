use vstd::prelude::*;

use base64::engine::general_purpose::STANDARD;
use base64::Engine;

use crate::barcode::{
    digit_text, ean13_command, function_b_command, spec_ean13_bitmap, spec_function_b_command,
    spec_normalize_ean13,
};
use crate::chars::str_chars;
use crate::models::{
    first_block_error, Align, BarcodeSymbology, Block, CharacterSet, Column, ErrorCode,
    ErrorView, EscposError, PaperWidth, PrintDocument, TextStyle,
};
use crate::printer::GraphicsBackend;
use crate::raster::{
    bitmap_wf, decoded_outcome_wf, gs_v0_command, spec_gs_v0_command, spec_raster_max_width,
    spec_raster_outcome, BitmapView, DecodedView,
};
use crate::text::{
    append_chars, chars_to_string, column_rows, encode_pc858_chars, font_dots, horizontal_scale,
    slice_chars, spec_column_row, spec_encode_pc858, spec_font_dots, spec_horizontal_scale,
    spec_wrap_text, string_rows, wrap_text,
};
use vstd::utf8::encode_utf8;

verus! {

/// One instruction for the printer, in the order the receipt needs them.
#[derive(Debug, Clone)]
pub enum PrinterOp {
    /// Hardware initialisation (`ESC @`).
    Init,
    /// Select the code page.
    PageCode(CharacterSet),
    Bold(bool),
    Underline(bool),
    /// Character magnification, width then height.
    Size(u8, u8),
    Justify(Align),
    /// Raw bytes, sent as they are.
    Custom(Vec<u8>),
    /// Print and feed this many lines.
    Feeds(u8),
    /// An image file printed as a bit image no wider than `max_width` dots.
    BitImage { bytes: Vec<u8>, max_width: u32 },
    /// A barcode drawn by the printer, its digits printed below it or not.
    Barcode { symbology: BarcodeSymbology, value: String, print_value: bool },
    /// A QR code of the given module size.
    Qr { value: String, size: u8 },
    Cut,
    PartialCut,
}

/// A printer instruction with its data as plain sequences.
pub enum Op {
    Init,
    PageCode(CharacterSet),
    Bold(bool),
    Underline(bool),
    Size(u8, u8),
    Justify(Align),
    Custom(Seq<u8>),
    Feeds(u8),
    BitImage(Seq<u8>, u32),
    Barcode(BarcodeSymbology, Seq<char>, bool),
    Qr(Seq<char>, u8),
    Cut,
    PartialCut,
}

impl View for PrinterOp {
    type V = Op;

    open spec fn view(&self) -> Op {
        match self {
            PrinterOp::Init => Op::Init,
            PrinterOp::PageCode(c) => Op::PageCode(*c),
            PrinterOp::Bold(b) => Op::Bold(*b),
            PrinterOp::Underline(b) => Op::Underline(*b),
            PrinterOp::Size(w, h) => Op::Size(*w, *h),
            PrinterOp::Justify(a) => Op::Justify(*a),
            PrinterOp::Custom(bytes) => Op::Custom(bytes@),
            PrinterOp::Feeds(n) => Op::Feeds(*n),
            PrinterOp::BitImage { bytes, max_width } => Op::BitImage(bytes@, *max_width),
            PrinterOp::Barcode { symbology, value, print_value } => Op::Barcode(
                *symbology,
                value@,
                *print_value,
            ),
            PrinterOp::Qr { value, size } => Op::Qr(value@, *size),
            PrinterOp::Cut => Op::Cut,
            PrinterOp::PartialCut => Op::PartialCut,
        }
    }
}

/// The instructions that print a document, and the error that stopped the rendering if one
/// did: the instructions are those of the blocks before the failing one, and nothing may be
/// printed when `failure` is set.
#[derive(Debug, Clone)]
pub struct RenderPlan {
    pub ops: Vec<PrinterOp>,
    pub failure: Option<EscposError>,
}

/// The views of a sequence of instructions.
pub open spec fn ops_view(v: Seq<PrinterOp>) -> Seq<Op> {
    v.map_values(|o: PrinterOp| o@)
}

/// The view of an optional error.
pub open spec fn failure_view(f: Option<EscposError>) -> Option<ErrorView> {
    match f {
        Some(e) => Some(e@),
        None => None,
    }
}

impl View for RenderPlan {
    type V = (Seq<Op>, Option<ErrorView>);

    open spec fn view(&self) -> (Seq<Op>, Option<ErrorView>) {
        (ops_view(self.ops@), failure_view(self.failure))
    }
}

impl PrinterOp {
    /// The error code under which a failure of this instruction is reported: the printer
    /// refusing an image, a barcode or a QR code means an invalid document, anything else a
    /// failed print.
    pub open spec fn spec_failure_code(self) -> ErrorCode {
        match self {
            PrinterOp::BitImage { .. } | PrinterOp::Barcode { .. } | PrinterOp::Qr {
                ..
            } => ErrorCode::InvalidDocument,
            _ => ErrorCode::PrintFailed,
        }
    }

    pub fn failure_code(&self) -> (r: ErrorCode)
        ensures
            r == self.spec_failure_code(),
    {
        match self {
            PrinterOp::BitImage { .. } => ErrorCode::InvalidDocument,
            PrinterOp::Barcode { .. } => ErrorCode::InvalidDocument,
            PrinterOp::Qr { .. } => ErrorCode::InvalidDocument,
            _ => ErrorCode::PrintFailed,
        }
    }
}

/// The error for an image, barcode or QR code that the printer refused, with its message.
pub fn invalid_document_error(message: &str) -> (r: EscposError)
    ensures
        r.code == ErrorCode::InvalidDocument,
        r.message@ == message@,
{
    EscposError::new(ErrorCode::InvalidDocument, message)
}

/// The error for an instruction that the printer could not take or send, with its message.
pub fn print_error(message: &str) -> (r: EscposError)
    ensures
        r.code == ErrorCode::PrintFailed,
        r.message@ == message@,
{
    EscposError::new(ErrorCode::PrintFailed, message)
}

pub fn push_op(ops: &mut Vec<PrinterOp>, op: PrinterOp)
    ensures
        ops_view(final(ops)@) == ops_view(old(ops)@).push(op@),
{
    let ghost v = op@;
    ops.push(op);
    assert(ops_view(ops@) =~= ops_view(old(ops)@).push(v));
}

pub fn append_ops(ops: &mut Vec<PrinterOp>, more: Vec<PrinterOp>)
    ensures
        ops_view(final(ops)@) == ops_view(old(ops)@) + ops_view(more@),
{
    let mut more = more;
    let ghost m = more@;
    ops.append(&mut more);
    assert(ops_view(ops@) =~= ops_view(old(ops)@) + ops_view(m));
}

// ---------------------------------------------------------------------------------------------
// Images as data.

/// Where the first `,` of `s` stands, if any.
pub open spec fn first_comma(s: Seq<char>) -> Option<int>
    decreases s.len(),
{
    if s.len() == 0 {
        None
    } else if s[0] == ',' {
        Some(0)
    } else {
        match first_comma(s.drop_first()) {
            Some(k) => Some(k + 1),
            None => None,
        }
    }
}

proof fn lemma_first_comma(s: Seq<char>, i: int)
    requires
        0 <= i <= s.len(),
        forall|j: int| 0 <= j < i ==> s[j] != ',',
    ensures
        i < s.len() && s[i] == ',' ==> first_comma(s) == Some(i),
        i == s.len() ==> first_comma(s) is None,
    decreases i,
{
    if i > 0 {
        lemma_first_comma(s.drop_first(), i - 1);
    }
}

/// The payload of an image given as a data URL (what follows its first comma) or as bare
/// base64.
pub open spec fn image_payload(data: Seq<char>) -> Seq<char> {
    match first_comma(data) {
        Some(k) => data.skip(k + 1),
        None => data,
    }
}

/// What the standard base64 engine of the `base64` crate makes of a text: the decoded bytes,
/// or the message of its error.
pub uninterp spec fn base64_decoding(text: Seq<char>) -> Result<Seq<u8>, Seq<char>>;

/// `base64::engine::general_purpose::STANDARD.decode`: standard alphabet, padding required.
/// The result depends on the text alone; its error is given by its message.
#[verifier::external_body]
fn base64_decode(text: &str) -> (r: Result<Vec<u8>, String>)
    ensures
        r matches Ok(v) ==> base64_decoding(text@) is Ok && base64_decoding(text@)->Ok_0 == v@,
        r matches Err(m) ==> base64_decoding(text@) is Err && base64_decoding(text@)->Err_0 == m@,
{
    match STANDARD.decode(text) {
        Ok(bytes) => Ok(bytes),
        Err(error) => Err(error.to_string()),
    }
}

/// The bytes of an image given as base64 or as a data URL; invalid base64 is an invalid
/// document.
pub open spec fn spec_decode_image(data: Seq<char>) -> Result<Seq<u8>, ErrorView> {
    match base64_decoding(image_payload(data)) {
        Ok(bytes) => Ok(bytes),
        Err(m) => Err((ErrorCode::InvalidDocument, "Invalid base64 image: "@ + m)),
    }
}

/// The bytes of an image given as base64 or as a `data:` URL.
pub fn decode_image(data: &str) -> (r: Result<Vec<u8>, EscposError>)
    ensures
        r matches Ok(v) ==> spec_decode_image(data@) == Ok::<Seq<u8>, ErrorView>(v@),
        r matches Err(e) ==> spec_decode_image(data@) == Err::<Seq<u8>, ErrorView>(e@),
{
    let chars = str_chars(data);
    let mut i: usize = 0;
    while i < chars.len() && chars[i] != ','
        invariant
            i <= chars@.len(),
            chars@ == data@,
            forall|j: int| 0 <= j < i ==> chars@[j] != ',',
        decreases chars@.len() - i,
    {
        i = i + 1;
    }
    proof {
        lemma_first_comma(data@, i as int);
    }
    let payload = if i < chars.len() {
        let rest = slice_chars(&chars, i + 1, chars.len());
        chars_to_string(&rest)
    } else {
        chars_to_string(&chars)
    };
    assert(payload@ == image_payload(data@));
    match base64_decode(payload.as_str()) {
        Ok(bytes) => Ok(bytes),
        Err(message) => {
            let mut text = String::from_str("Invalid base64 image: ");
            text.append(message.as_str());
            Err(EscposError { code: ErrorCode::InvalidDocument, message: text })
        },
    }
}


// ---------------------------------------------------------------------------------------------
// Text and style instructions.

/// A line of text: its PC858 bytes, then a line feed.
pub open spec fn line_ops(text: Seq<char>) -> Seq<Op> {
    seq![Op::Custom(spec_encode_pc858(text)), Op::Custom(seq![0x0Au8])]
}

/// Lines of text, one after the other.
pub open spec fn lines_ops(lines: Seq<Seq<char>>) -> Seq<Op>
    decreases lines.len(),
{
    if lines.len() == 0 {
        seq![]
    } else {
        lines_ops(lines.drop_last()) + line_ops(lines.last())
    }
}

/// Back to plain, normal-size, left-aligned text.
pub open spec fn reset_ops() -> Seq<Op> {
    seq![Op::Bold(false), Op::Underline(false), Op::Size(1, 1), Op::Justify(Align::Left)]
}

pub open spec fn flag_or_false(f: Option<bool>) -> bool {
    match f {
        Some(b) => b,
        None => false,
    }
}

pub open spec fn align_or(a: Option<Align>, default: Align) -> Align {
    match a {
        Some(x) => x,
        None => default,
    }
}

pub open spec fn style_size(style: Option<TextStyle>) -> Option<crate::models::FontSize> {
    match style {
        Some(s) => s.size,
        None => None,
    }
}

/// Bold, underline and magnification of a style (all off when there is no style).
pub open spec fn font_ops(style: Option<TextStyle>) -> Seq<Op> {
    let (w, h) = spec_font_dots(style_size(style));
    let (bold, underline) = match style {
        Some(s) => (flag_or_false(s.bold), flag_or_false(s.underline)),
        None => (false, false),
    };
    seq![Op::Bold(bold), Op::Underline(underline), Op::Size(w, h)]
}

/// A reset, then the font and alignment (left by default) of the style if there is one.
pub open spec fn apply_style_ops(style: Option<TextStyle>) -> Seq<Op> {
    reset_ops() + match style {
        None => seq![],
        Some(s) => font_ops(style) + seq![Op::Justify(align_or(s.align, Align::Left))],
    }
}

fn reset_style(ops: &mut Vec<PrinterOp>)
    ensures
        ops_view(final(ops)@) == ops_view(old(ops)@) + reset_ops(),
{
    push_op(ops, PrinterOp::Bold(false));
    push_op(ops, PrinterOp::Underline(false));
    push_op(ops, PrinterOp::Size(1, 1));
    push_op(ops, PrinterOp::Justify(Align::Left));
    assert(ops_view(ops@) =~= ops_view(old(ops)@) + reset_ops());
}

fn apply_font_style(ops: &mut Vec<PrinterOp>, style: Option<TextStyle>)
    ensures
        ops_view(final(ops)@) == ops_view(old(ops)@) + font_ops(style),
{
    let size = match style {
        Some(s) => s.size,
        None => None,
    };
    let (w, h) = font_dots(size);
    let (bold, underline) = match style {
        Some(s) => (
            match s.bold {
                Some(b) => b,
                None => false,
            },
            match s.underline {
                Some(b) => b,
                None => false,
            },
        ),
        None => (false, false),
    };
    push_op(ops, PrinterOp::Bold(bold));
    push_op(ops, PrinterOp::Underline(underline));
    push_op(ops, PrinterOp::Size(w, h));
    assert(ops_view(ops@) =~= ops_view(old(ops)@) + font_ops(style));
}

fn apply_style(ops: &mut Vec<PrinterOp>, style: Option<TextStyle>)
    ensures
        ops_view(final(ops)@) == ops_view(old(ops)@) + apply_style_ops(style),
{
    reset_style(ops);
    match style {
        None => {
            assert(ops_view(ops@) =~= ops_view(old(ops)@) + apply_style_ops(style));
        },
        Some(s) => {
            apply_font_style(ops, style);
            let align = match s.align {
                Some(a) => a,
                None => Align::Left,
            };
            push_op(ops, PrinterOp::Justify(align));
            assert(ops_view(ops@) =~= ops_view(old(ops)@) + apply_style_ops(style));
        },
    }
}

fn line_feed(ops: &mut Vec<PrinterOp>)
    ensures
        ops_view(final(ops)@) == ops_view(old(ops)@).push(Op::Custom(seq![0x0Au8])),
{
    let mut lf: Vec<u8> = Vec::new();
    lf.push(0x0A);
    assert(lf@ =~= seq![0x0Au8]);
    push_op(ops, PrinterOp::Custom(lf));
}

fn write_line(ops: &mut Vec<PrinterOp>, text: &Vec<char>)
    ensures
        ops_view(final(ops)@) == ops_view(old(ops)@) + line_ops(text@),
{
    push_op(ops, PrinterOp::Custom(encode_pc858_chars(text)));
    line_feed(ops);
    assert(ops_view(ops@) =~= ops_view(old(ops)@) + line_ops(text@));
}

fn write_lines(ops: &mut Vec<PrinterOp>, lines: &Vec<String>)
    ensures
        ops_view(final(ops)@) == ops_view(old(ops)@) + lines_ops(string_rows(lines@)),
{
    let mut i: usize = 0;
    while i < lines.len()
        invariant
            i <= lines@.len(),
            ops_view(ops@) == ops_view(old(ops)@) + lines_ops(string_rows(lines@).take(i as int)),
        decreases lines@.len() - i,
    {
        let chars = str_chars(lines[i].as_str());
        proof {
            assert(string_rows(lines@).take(i + 1).drop_last() =~= string_rows(lines@).take(
                i as int,
            ));
            assert(string_rows(lines@).take(i + 1).last() == chars@);
        }
        write_line(ops, &chars);
        i = i + 1;
    }
    assert(string_rows(lines@).take(i as int) =~= string_rows(lines@));
}

// ---------------------------------------------------------------------------------------------
// Blocks.

/// `s` written `n` times in a row (`str::repeat`).
pub open spec fn repeat_chars(s: Seq<char>, n: nat) -> Seq<char>
    decreases n,
{
    if n == 0 {
        seq![]
    } else {
        repeat_chars(s, (n - 1) as nat) + s
    }
}

/// The width of a bit image: the requested width rounded down to a multiple of 8 (at least 8),
/// 512 dots when none is requested.
pub open spec fn spec_bit_image_width(max_width_dots: Option<u16>) -> u32 {
    match max_width_dots {
        Some(w) => {
            let v = if w < 8 {
                8
            } else {
                w as int
            };
            (v / 8 * 8) as u32
        },
        None => 512,
    }
}

/// What can become of the raster of an image file: what `spec_raster_outcome` makes of some
/// outcome of the decoder (the raster of the decoded image brought to the raster width that
/// `max_width_dots` asks for, or its refusal as `Invalid image: ` and the decoder's message);
/// a raster is of a well-formed bitmap no wider than that width.
pub open spec fn raster_outcome(max_width_dots: Option<u16>, result: Result<Seq<u8>, ErrorView>) -> bool {
    &&& exists|decoded: Result<DecodedView, Seq<char>>|
        decoded_outcome_wf(decoded) && result == #[trigger] spec_raster_outcome(
            decoded,
            max_width_dots,
        )
    &&& result matches Ok(command) ==> exists|g: BitmapView|
        bitmap_wf(g) && g.0 <= spec_raster_max_width(max_width_dots) && command
            == #[trigger] spec_gs_v0_command(g)
}

/// `raster` is a possible raster of the block's image, where the block needs one: an image
/// block drawn for an emulator whose data decodes.
pub open spec fn raster_fits(
    block: Block,
    graphics: GraphicsBackend,
    raster: Result<Seq<u8>, ErrorView>,
) -> bool {
    match block {
        Block::Image { data, max_width_dots, .. } => match (graphics, spec_decode_image(data@)) {
            (GraphicsBackend::Emulator, Ok(_)) => raster_outcome(max_width_dots, raster),
            _ => true,
        },
        _ => true,
    }
}

/// The instructions of a barcode drawn for an emulator: EAN-13 as a raster followed by its
/// digits when they are wanted, the others with `GS k` function B (height 80, module width 2,
/// digits below or not).
pub open spec fn emulator_barcode_ops(
    value: Seq<char>,
    symbology: BarcodeSymbology,
    print_value: bool,
) -> Result<Seq<Op>, ErrorView> {
    match symbology {
        BarcodeSymbology::Ean13 => match spec_normalize_ean13(value) {
            Ok(d) => Ok(
                seq![Op::Custom(spec_gs_v0_command(spec_ean13_bitmap(d))), Op::Custom(seq![0x0Au8])]
                    + if print_value {
                    line_ops(digit_text(d))
                } else {
                    seq![]
                },
            ),
            Err(m) => Err((ErrorCode::InvalidDocument, m)),
        },
        _ => {
            let system: u8 = match symbology {
                BarcodeSymbology::Ean8 => 68u8,
                BarcodeSymbology::Upca => 65u8,
                _ => 69u8,
            };
            let hri: u8 = if print_value {
                2
            } else {
                0
            };
            Ok(
                seq![
                    Op::Custom(seq![0x1Du8, 0x68u8, 80u8]),
                    Op::Custom(seq![0x1Du8, 0x77u8, 2u8]),
                    Op::Custom(seq![0x1Du8, 0x48u8, hri]),
                    Op::Custom(spec_function_b_command(system, encode_utf8(value))),
                ],
            )
        },
    }
}

/// A text block: its style, then its wrapped lines (the width divided by the magnification).
pub open spec fn text_block_ops(value: Seq<char>, style: Option<TextStyle>, line: nat) -> Seq<Op> {
    apply_style_ops(style) + lines_ops(spec_wrap_text(value, line / spec_horizontal_scale(style)))
}

/// A feed block: a reset, then the feed (one line by default).
pub open spec fn feed_block_ops(lines: Option<u8>) -> Seq<Op> {
    reset_ops() + seq![
        Op::Feeds(
            match lines {
                Some(n) => n,
                None => 1u8,
            },
        ),
    ]
}

/// A divider: a reset, then its character (`-` by default) across the whole line.
pub open spec fn divider_block_ops(character: Option<String>, line: nat) -> Seq<Op> {
    reset_ops() + line_ops(
        repeat_chars(
            match character {
                Some(c) => c@,
                None => "-"@,
            },
            line,
        ),
    )
}

/// A columns block: a reset, the font of the first column, then the row.
pub open spec fn columns_block_ops(columns: Seq<Column>, paper: PaperWidth) -> Seq<Op> {
    reset_ops() + font_ops(
        if columns.len() > 0 {
            columns[0].style
        } else {
            None
        },
    ) + line_ops(spec_column_row(columns, paper))
}

/// An image block: centred by default; a bit image for a printer, the given raster followed
/// by a line feed for an emulator.
pub open spec fn image_block_ops(
    data: Seq<char>,
    max_width_dots: Option<u16>,
    align: Option<Align>,
    graphics: GraphicsBackend,
    raster: Result<Seq<u8>, ErrorView>,
) -> Result<Seq<Op>, ErrorView> {
    let head = seq![Op::Justify(align_or(align, Align::Center))];
    match spec_decode_image(data) {
        Err(e) => Err(e),
        Ok(bytes) => match graphics {
            GraphicsBackend::Escpos => Ok(
                head + seq![Op::BitImage(bytes, spec_bit_image_width(max_width_dots))],
            ),
            GraphicsBackend::Emulator => match raster {
                Ok(command) => Ok(head + seq![Op::Custom(command), Op::Custom(seq![0x0Au8])]),
                Err(e) => Err(e),
            },
        },
    }
}

/// A barcode block: centred by default, digits printed below by default.
pub open spec fn barcode_block_ops(
    value: Seq<char>,
    symbology: BarcodeSymbology,
    align: Option<Align>,
    print_value: Option<bool>,
    graphics: GraphicsBackend,
) -> Result<Seq<Op>, ErrorView> {
    let head = seq![Op::Justify(align_or(align, Align::Center))];
    let print = match print_value {
        Some(b) => b,
        None => true,
    };
    match graphics {
        GraphicsBackend::Escpos => Ok(head + seq![Op::Barcode(symbology, value, print)]),
        GraphicsBackend::Emulator => match emulator_barcode_ops(value, symbology, print) {
            Ok(o) => Ok(head + o),
            Err(e) => Err(e),
        },
    }
}

/// A QR block: centred by default, module size 4 by default.
pub open spec fn qr_block_ops(value: Seq<char>, size: Option<u8>, align: Option<Align>) -> Seq<Op> {
    seq![
        Op::Justify(align_or(align, Align::Center)),
        Op::Qr(
            value,
            match size {
                Some(s) => s,
                None => 4u8,
            },
        ),
    ]
}

/// A cut: full unless a partial one is asked for.
pub open spec fn cut_block_ops(partial: Option<bool>) -> Seq<Op> {
    if flag_or_false(partial) {
        seq![Op::PartialCut]
    } else {
        seq![Op::Cut]
    }
}

/// The instructions that print one block, or the error that stops the document there.
/// `raster` stands for the raster of an image drawn for an emulator (see `raster_fits`).
pub open spec fn block_ops(
    block: Block,
    paper: PaperWidth,
    graphics: GraphicsBackend,
    raster: Result<Seq<u8>, ErrorView>,
) -> Result<Seq<Op>, ErrorView> {
    let line = paper.spec_characters_per_line();
    match block {
        Block::Text { value, style } => Ok(text_block_ops(value@, style, line)),
        Block::Feed { lines } => Ok(feed_block_ops(lines)),
        Block::Divider { character } => Ok(divider_block_ops(character, line)),
        Block::Columns { columns, .. } => Ok(columns_block_ops(columns@, paper)),
        Block::Image { data, max_width_dots, align, .. } => image_block_ops(
            data@,
            max_width_dots,
            align,
            graphics,
            raster,
        ),
        Block::Barcode { value, symbology, align, print_value } => barcode_block_ops(
            value@,
            symbology,
            align,
            print_value,
            graphics,
        ),
        Block::Qr { value, size, align } => Ok(qr_block_ops(value@, size, align)),
        Block::Cut { partial } => Ok(cut_block_ops(partial)),
    }
}

/// The view of the outcome of a block.
pub open spec fn outcome_view(r: Result<Vec<PrinterOp>, EscposError>) -> Result<Seq<Op>, ErrorView> {
    match r {
        Ok(o) => Ok(ops_view(o@)),
        Err(e) => Err(e@),
    }
}

/// A raster that fits any block: for an image drawn for an emulator, the refusal of an image
/// that the decoder rejected without a message.
pub open spec fn default_raster(block: Block, graphics: GraphicsBackend) -> Result<
    Seq<u8>,
    ErrorView,
> {
    match block {
        Block::Image { data, max_width_dots, .. } => match (graphics, spec_decode_image(data@)) {
            (GraphicsBackend::Emulator, Ok(_)) => spec_raster_outcome(
                Err(Seq::<char>::empty()),
                max_width_dots,
            ),
            _ => Ok(seq![]),
        },
        _ => Ok(seq![]),
    }
}

proof fn lemma_default_raster_fits(block: Block, graphics: GraphicsBackend)
    ensures
        raster_fits(block, graphics, default_raster(block, graphics)),
{
    if let Block::Image { max_width_dots, .. } = block {
        let refused = Err::<DecodedView, Seq<char>>(Seq::<char>::empty());
        assert(decoded_outcome_wf(refused));
        assert(spec_raster_outcome(refused, max_width_dots) == spec_raster_outcome(
            refused,
            max_width_dots,
        ));
    }
}

fn repeat_line(unit: &Vec<char>, n: usize) -> (r: Vec<char>)
    ensures
        r@ == repeat_chars(unit@, n as nat),
{
    let mut out: Vec<char> = Vec::new();
    let mut i: usize = 0;
    while i < n
        invariant
            i <= n,
            out@ == repeat_chars(unit@, i as nat),
        decreases n - i,
    {
        append_chars(&mut out, unit);
        i = i + 1;
    }
    out
}

fn text_ops(value: &String, style: Option<TextStyle>, line: usize) -> (r: Vec<PrinterOp>)
    ensures
        ops_view(r@) == text_block_ops(value@, style, line as nat),
{
    let mut ops: Vec<PrinterOp> = Vec::new();
    apply_style(&mut ops, style);
    let width = line / horizontal_scale(style);
    let lines = wrap_text(value.as_str(), width);
    write_lines(&mut ops, &lines);
    ops
}

fn columns_ops(columns: &Vec<Column>, paper: PaperWidth) -> (r: Vec<PrinterOp>)
    ensures
        ops_view(r@) == columns_block_ops(columns@, paper),
{
    let mut ops: Vec<PrinterOp> = Vec::new();
    reset_style(&mut ops);
    let first = if columns.len() > 0 {
        columns[0].style
    } else {
        None
    };
    apply_font_style(&mut ops, first);
    let rows = column_rows(columns, paper);
    write_lines(&mut ops, &rows);
    proof {
        let row = spec_column_row(columns@, paper);
        let e = seq![row].drop_last();
        assert(e =~= Seq::<Seq<char>>::empty());
        assert(lines_ops(e) =~= Seq::<Op>::empty());
        assert(lines_ops(seq![row]) == lines_ops(e) + line_ops(row));
        assert(lines_ops(seq![row]) =~= line_ops(row));
    }
    assert(ops_view(ops@) =~= reset_ops() + font_ops(first) + line_ops(
        spec_column_row(columns@, paper),
    ));
    ops
}

fn barcode_ops(
    value: &String,
    symbology: BarcodeSymbology,
    align: Option<Align>,
    print_value: Option<bool>,
    graphics: GraphicsBackend,
) -> (r: Result<Vec<PrinterOp>, EscposError>)
    ensures
        outcome_view(r) == barcode_block_ops(value@, symbology, align, print_value, graphics),
{
    let ghost expected = barcode_block_ops(value@, symbology, align, print_value, graphics);
    let mut ops: Vec<PrinterOp> = Vec::new();
    let a = match align {
        Some(a) => a,
        None => Align::Center,
    };
    push_op(&mut ops, PrinterOp::Justify(a));
    let ghost head = ops_view(ops@);
    assert(head =~= seq![Op::Justify(align_or(align, Align::Center))]);
    let print = match print_value {
        Some(b) => b,
        None => true,
    };
    match graphics {
        GraphicsBackend::Escpos => {
            push_op(
                &mut ops,
                PrinterOp::Barcode { symbology, value: value.clone(), print_value: print },
            );
            assert(ops_view(ops@) =~= head + seq![Op::Barcode(symbology, value@, print)]);
            assert(expected == Ok::<Seq<Op>, ErrorView>(ops_view(ops@)));
        },
        GraphicsBackend::Emulator => {
            match symbology {
                BarcodeSymbology::Ean13 => {
                    match ean13_command(value.as_str()) {
                        Ok((command, text)) => {
                            let ghost d = spec_normalize_ean13(value@)->Ok_0;
                            push_op(&mut ops, PrinterOp::Custom(command));
                            line_feed(&mut ops);
                            let ghost mid = ops_view(ops@);
                            assert(mid =~= head + seq![
                                Op::Custom(spec_gs_v0_command(spec_ean13_bitmap(d))),
                                Op::Custom(seq![0x0Au8]),
                            ]);
                            if print {
                                let chars = str_chars(text.as_str());
                                write_line(&mut ops, &chars);
                                assert(ops_view(ops@) =~= mid + line_ops(digit_text(d)));
                                assert(ops_view(ops@) =~= head + (seq![
                                    Op::Custom(spec_gs_v0_command(spec_ean13_bitmap(d))),
                                    Op::Custom(seq![0x0Au8]),
                                ] + line_ops(digit_text(d))));
                                assert(expected == Ok::<Seq<Op>, ErrorView>(ops_view(ops@)));
                            } else {
                                assert(ops_view(ops@) =~= head + (seq![
                                    Op::Custom(spec_gs_v0_command(spec_ean13_bitmap(d))),
                                    Op::Custom(seq![0x0Au8]),
                                ] + Seq::<Op>::empty()));
                                assert(expected == Ok::<Seq<Op>, ErrorView>(ops_view(ops@)));
                            }
                        },
                        Err(e) => {
                            return Err(e);
                        },
                    }
                },
                _ => {
                    let system: u8 = match symbology {
                        BarcodeSymbology::Ean8 => 68,
                        BarcodeSymbology::Upca => 65,
                        _ => 69,
                    };
                    let hri: u8 = if print {
                        2
                    } else {
                        0
                    };
                    let c1: Vec<u8> = vec![0x1Du8, 0x68u8, 80u8];
                    let c2: Vec<u8> = vec![0x1Du8, 0x77u8, 2u8];
                    let c3: Vec<u8> = vec![0x1Du8, 0x48u8, hri];
                    assert(c1@ =~= seq![0x1Du8, 0x68u8, 80u8]);
                    assert(c2@ =~= seq![0x1Du8, 0x77u8, 2u8]);
                    assert(c3@ =~= seq![0x1Du8, 0x48u8, hri]);
                    push_op(&mut ops, PrinterOp::Custom(c1));
                    push_op(&mut ops, PrinterOp::Custom(c2));
                    push_op(&mut ops, PrinterOp::Custom(c3));
                    let c4 = function_b_command(system, value.as_str());
                    push_op(&mut ops, PrinterOp::Custom(c4));
                    assert(ops_view(ops@) =~= head + seq![
                        Op::Custom(seq![0x1Du8, 0x68u8, 80u8]),
                        Op::Custom(seq![0x1Du8, 0x77u8, 2u8]),
                        Op::Custom(seq![0x1Du8, 0x48u8, hri]),
                        Op::Custom(spec_function_b_command(system, encode_utf8(value@))),
                    ]);
                    assert(expected == Ok::<Seq<Op>, ErrorView>(ops_view(ops@)));
                },
            }
        },
    }
    Ok(ops)
}

fn image_ops(
    data: &String,
    max_width_dots: Option<u16>,
    align: Option<Align>,
    graphics: GraphicsBackend,
) -> (r: (Result<Vec<PrinterOp>, EscposError>, Ghost<Result<Seq<u8>, ErrorView>>))
    ensures
        (spec_decode_image(data@) is Ok && graphics == GraphicsBackend::Emulator) ==> raster_outcome(
            max_width_dots,
            r.1@,
        ),
        outcome_view(r.0) == image_block_ops(data@, max_width_dots, align, graphics, r.1@),
{
    let mut ops: Vec<PrinterOp> = Vec::new();
    let a = match align {
        Some(a) => a,
        None => Align::Center,
    };
    push_op(&mut ops, PrinterOp::Justify(a));
    let ghost head = ops_view(ops@);
    assert(head =~= seq![Op::Justify(align_or(align, Align::Center))]);
    let bytes = match decode_image(data.as_str()) {
        Ok(b) => b,
        Err(e) => {
            return (Err(e), Ghost(Ok(seq![])));
        },
    };
    match graphics {
        GraphicsBackend::Escpos => {
            let width: u32 = match max_width_dots {
                Some(w) => {
                    let v: u16 = if w < 8 {
                        8
                    } else {
                        w
                    };
                    (v / 8 * 8) as u32
                },
                None => 512,
            };
            let ghost b = bytes@;
            push_op(&mut ops, PrinterOp::BitImage { bytes, max_width: width });
            assert(ops_view(ops@) =~= head + seq![Op::BitImage(b, spec_bit_image_width(max_width_dots))]);
            (Ok(ops), Ghost(Ok(seq![])))
        },
        GraphicsBackend::Emulator => {
            match gs_v0_command(bytes.as_slice(), max_width_dots) {
                Ok(command) => {
                    let ghost c = command@;
                    push_op(&mut ops, PrinterOp::Custom(command));
                    line_feed(&mut ops);
                    assert(ops_view(ops@) =~= head + seq![Op::Custom(c), Op::Custom(seq![0x0Au8])]);
                    (Ok(ops), Ghost(Ok(c)))
                },
                Err(e) => {
                    let ghost ev = e@;
                    (Err(e), Ghost(Err(ev)))
                },
            }
        },
    }
}

/// The instructions of one block, with the raster that its image got if it has one.
fn render_block(block: &Block, paper: PaperWidth, graphics: GraphicsBackend) -> (r: (
    Result<Vec<PrinterOp>, EscposError>,
    Ghost<Result<Seq<u8>, ErrorView>>,
))
    ensures
        raster_fits(*block, graphics, r.1@),
        outcome_view(r.0) == block_ops(*block, paper, graphics, r.1@),
{
    let line = paper.characters_per_line();
    proof {
        lemma_default_raster_fits(*block, graphics);
    }
    match block {
        Block::Text { value, style } => {
            let ops = text_ops(value, *style, line);
            {
                let r0 = Ok::<Vec<PrinterOp>, EscposError>(ops);
                assert(outcome_view(r0) == block_ops(*block, paper, graphics, default_raster(*block, graphics)));
                (r0, Ghost(default_raster(*block, graphics)))
            }
        },
        Block::Feed { lines } => {
            let mut ops: Vec<PrinterOp> = Vec::new();
            reset_style(&mut ops);
            let n = match lines {
                Some(n) => *n,
                None => 1,
            };
            push_op(&mut ops, PrinterOp::Feeds(n));
            assert(ops_view(ops@) =~= feed_block_ops(*lines));
            {
                let r0 = Ok::<Vec<PrinterOp>, EscposError>(ops);
                assert(outcome_view(r0) == block_ops(*block, paper, graphics, default_raster(*block, graphics)));
                (r0, Ghost(default_raster(*block, graphics)))
            }
        },
        Block::Divider { character } => {
            let mut ops: Vec<PrinterOp> = Vec::new();
            reset_style(&mut ops);
            let unit = match character {
                Some(c) => str_chars(c.as_str()),
                None => str_chars("-"),
            };
            let text = repeat_line(&unit, line);
            write_line(&mut ops, &text);
            {
                let r0 = Ok::<Vec<PrinterOp>, EscposError>(ops);
                assert(outcome_view(r0) == block_ops(*block, paper, graphics, default_raster(*block, graphics)));
                (r0, Ghost(default_raster(*block, graphics)))
            }
        },
        Block::Columns { columns, .. } => {
            let ops = columns_ops(columns, paper);
            {
                let r0 = Ok::<Vec<PrinterOp>, EscposError>(ops);
                assert(outcome_view(r0) == block_ops(*block, paper, graphics, default_raster(*block, graphics)));
                (r0, Ghost(default_raster(*block, graphics)))
            }
        },
        Block::Image { data, max_width_dots, align, .. } => {
            image_ops(data, *max_width_dots, *align, graphics)
        },
        Block::Barcode { value, symbology, align, print_value } => {
            let r = barcode_ops(value, *symbology, *align, *print_value, graphics);
            assert(outcome_view(r) == block_ops(*block, paper, graphics, default_raster(*block, graphics)));
            (r, Ghost(default_raster(*block, graphics)))
        },
        Block::Qr { value, size, align } => {
            let mut ops: Vec<PrinterOp> = Vec::new();
            let a = match align {
                Some(a) => *a,
                None => Align::Center,
            };
            push_op(&mut ops, PrinterOp::Justify(a));
            let n = match size {
                Some(s) => *s,
                None => 4,
            };
            push_op(&mut ops, PrinterOp::Qr { value: value.clone(), size: n });
            assert(ops_view(ops@) =~= qr_block_ops(value@, *size, *align));
            {
                let r0 = Ok::<Vec<PrinterOp>, EscposError>(ops);
                assert(outcome_view(r0) == block_ops(*block, paper, graphics, default_raster(*block, graphics)));
                (r0, Ghost(default_raster(*block, graphics)))
            }
        },
        Block::Cut { partial } => {
            let mut ops: Vec<PrinterOp> = Vec::new();
            let p = match partial {
                Some(b) => *b,
                None => false,
            };
            if p {
                push_op(&mut ops, PrinterOp::PartialCut);
            } else {
                push_op(&mut ops, PrinterOp::Cut);
            }
            assert(ops_view(ops@) =~= cut_block_ops(*partial));
            {
                let r0 = Ok::<Vec<PrinterOp>, EscposError>(ops);
                assert(outcome_view(r0) == block_ops(*block, paper, graphics, default_raster(*block, graphics)));
                (r0, Ghost(default_raster(*block, graphics)))
            }
        },
    }
}

// ---------------------------------------------------------------------------------------------
// Documents.

/// The raster of an image for an emulator, or why there is none.
pub type RasterView = Result<Seq<u8>, ErrorView>;

/// The instructions of the blocks in order, up to the first block that fails, and its error.
/// `rasters[i]` stands for the raster of block `i` (see `raster_fits`).
pub open spec fn plan_blocks(
    blocks: Seq<Block>,
    paper: PaperWidth,
    graphics: GraphicsBackend,
    rasters: Seq<RasterView>,
) -> (Seq<Op>, Option<ErrorView>)
    decreases blocks.len(),
{
    if blocks.len() == 0 {
        (seq![], None)
    } else {
        let (ops, failure) = plan_blocks(blocks.drop_last(), paper, graphics, rasters.drop_last());
        if failure is Some {
            (ops, failure)
        } else {
            match block_ops(blocks.last(), paper, graphics, rasters.last()) {
                Ok(o) => (ops + o, None),
                Err(e) => (ops, Some(e)),
            }
        }
    }
}

/// One possible raster for each block.
pub open spec fn rasters_fit(blocks: Seq<Block>, graphics: GraphicsBackend, rasters: Seq<RasterView>) -> bool {
    &&& rasters.len() == blocks.len()
    &&& forall|i: int| 0 <= i < blocks.len() ==> raster_fits(blocks[i], graphics, #[trigger] rasters[i])
}

/// What printing a document takes: nothing but the error when a block breaks a rule; else the
/// initialisation, the code page, and the instructions of the blocks up to the first that
/// fails.
pub open spec fn spec_render_plan(
    document: PrintDocument,
    graphics: GraphicsBackend,
    rasters: Seq<RasterView>,
) -> (Seq<Op>, Option<ErrorView>) {
    match first_block_error(document.blocks@) {
        Some(m) => (seq![], Some((ErrorCode::InvalidDocument, m))),
        None => {
            let (ops, failure) = plan_blocks(
                document.blocks@,
                document.spec_paper_width(),
                graphics,
                rasters,
            );
            (seq![Op::Init, Op::PageCode(document.spec_character_set())] + ops, failure)
        },
    }
}

/// The rasters that stand for no image at all.
pub open spec fn default_rasters(blocks: Seq<Block>, graphics: GraphicsBackend) -> Seq<RasterView> {
    Seq::new(blocks.len(), |i: int| default_raster(blocks[i], graphics))
}

proof fn lemma_default_rasters_fit(blocks: Seq<Block>, graphics: GraphicsBackend)
    ensures
        rasters_fit(blocks, graphics, default_rasters(blocks, graphics)),
{
    assert forall|i: int| 0 <= i < blocks.len() implies raster_fits(
        blocks[i],
        graphics,
        #[trigger] default_rasters(blocks, graphics)[i],
    ) by {
        lemma_default_raster_fits(blocks[i], graphics);
    }
}

/// Renders a document for the given graphics backend: the instructions to send, or the error
/// that forbids printing it.
pub fn render_with_graphics(document: &PrintDocument, graphics: GraphicsBackend) -> (r: RenderPlan)
    ensures
        exists|rasters: Seq<RasterView>|
            rasters_fit(document.blocks@, graphics, rasters) && r@ == #[trigger] spec_render_plan(
                *document,
                graphics,
                rasters,
            ),
{
    let ghost blocks = document.blocks@;
    match document.validate() {
        Err(e) => {
            let r = RenderPlan { ops: Vec::new(), failure: Some(e) };
            proof {
                lemma_default_rasters_fit(blocks, graphics);
                assert(r@ == spec_render_plan(*document, graphics, default_rasters(blocks, graphics)));
            }
            return r;
        },
        Ok(()) => {},
    }
    let paper = document.paper_width_mm();
    let mut ops: Vec<PrinterOp> = Vec::new();
    push_op(&mut ops, PrinterOp::Init);
    push_op(&mut ops, PrinterOp::PageCode(document.character_set()));
    let ghost head = ops_view(ops@);
    assert(head =~= seq![Op::Init, Op::PageCode(document.spec_character_set())]);
    let mut failure: Option<EscposError> = None;
    let ghost mut rasters: Seq<RasterView> = seq![];
    let mut i: usize = 0;
    while i < document.blocks.len()
        invariant
            i <= blocks.len(),
            blocks == document.blocks@,
            paper == document.spec_paper_width(),
            rasters.len() == i,
            forall|j: int| 0 <= j < i ==> raster_fits(blocks[j], graphics, #[trigger] rasters[j]),
            ops_view(ops@) == head + plan_blocks(blocks.take(i as int), paper, graphics, rasters).0,
            failure_view(failure) == plan_blocks(blocks.take(i as int), paper, graphics, rasters).1,
        decreases blocks.len() - i,
    {
        proof {
            assert(blocks.take(i + 1).drop_last() =~= blocks.take(i as int));
            assert(blocks.take(i + 1).last() == blocks[i as int]);
        }
        if failure.is_some() {
            proof {
                lemma_default_raster_fits(blocks[i as int], graphics);
                let next = rasters.push(default_raster(blocks[i as int], graphics));
                assert(next.drop_last() =~= rasters);
                rasters = next;
            }
        } else {
            let (outcome, Ghost(raster)) = render_block(&document.blocks[i], paper, graphics);
            proof {
                let next = rasters.push(raster);
                assert(next.drop_last() =~= rasters);
                rasters = next;
            }
            match outcome {
                Ok(more) => {
                    append_ops(&mut ops, more);
                    assert(ops_view(ops@) =~= head + plan_blocks(
                        blocks.take(i + 1),
                        paper,
                        graphics,
                        rasters,
                    ).0);
                },
                Err(e) => {
                    failure = Some(e);
                },
            }
        }
        i = i + 1;
    }
    proof {
        assert(blocks.take(i as int) =~= blocks);
        assert(first_block_error(blocks) is None);
    }
    let r = RenderPlan { ops, failure };
    proof {
        assert(rasters_fit(blocks, graphics, rasters));
        assert(r@ == spec_render_plan(*document, graphics, rasters));
    }
    r
}

/// Renders a document with the escpos commands of a real printer.
pub fn render_document(document: &PrintDocument) -> (r: RenderPlan)
    ensures
        exists|rasters: Seq<RasterView>|
            rasters_fit(document.blocks@, GraphicsBackend::Escpos, rasters) && r@
                == #[trigger] spec_render_plan(*document, GraphicsBackend::Escpos, rasters),
{
    render_with_graphics(document, GraphicsBackend::Escpos)
}

} // verus!
