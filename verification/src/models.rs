use vstd::prelude::*;

use crate::chars::{decimal, decimal_string, is_unicode_whitespace, is_whitespace, str_chars};

pub mod device;

pub use device::{
    ErrorCode, ErrorView, EscposError, PrinterBackend, PrinterInfo, PrinterTarget,
    PrinterTargetWire,
};

verus! {

/// Width of the paper roll.
#[derive(Debug, Clone, Copy, PartialEq, Eq, Structural)]
pub enum PaperWidth {
    Mm58,
    Mm80,
}

impl PaperWidth {
    /// Number of characters of the normal font on one line of this paper.
    pub open spec fn spec_characters_per_line(self) -> nat {
        match self {
            PaperWidth::Mm58 => 32,
            PaperWidth::Mm80 => 48,
        }
    }

    /// The width in millimetres, as documents write it.
    pub open spec fn spec_millimetres(self) -> u16 {
        match self {
            PaperWidth::Mm58 => 58,
            PaperWidth::Mm80 => 80,
        }
    }

    pub fn characters_per_line(self) -> (r: usize)
        ensures
            r == self.spec_characters_per_line(),
    {
        match self {
            PaperWidth::Mm58 => 32,
            PaperWidth::Mm80 => 48,
        }
    }

    /// The width in millimetres: 58 or 80.
    pub fn millimetres(self) -> (r: u16)
        ensures
            r == self.spec_millimetres(),
    {
        match self {
            PaperWidth::Mm58 => 58,
            PaperWidth::Mm80 => 80,
        }
    }

    /// The paper of the given width in millimetres; any width but 58 and 80 is refused with
    /// the message `unsupported paper width: <value>`.
    pub fn from_millimetres(value: u16) -> (r: Result<PaperWidth, String>)
        ensures
            value == 58 ==> r == Ok::<PaperWidth, String>(PaperWidth::Mm58),
            value == 80 ==> r == Ok::<PaperWidth, String>(PaperWidth::Mm80),
            value != 58 && value != 80 ==> (r matches Err(m) && m@ == "unsupported paper width: "@
                + decimal(value as nat)),
    {
        if value == 58 {
            Ok(PaperWidth::Mm58)
        } else if value == 80 {
            Ok(PaperWidth::Mm80)
        } else {
            let mut message = String::from_str("unsupported paper width: ");
            let digits = decimal_string(value as u32);
            message.append(digits.as_str());
            Err(message)
        }
    }
}

/// Code page of the printed text.
#[derive(Debug, Clone, Copy, PartialEq, Eq, Structural)]
pub enum CharacterSet {
    Pc858,
}

/// Horizontal alignment.
#[derive(Debug, Clone, Copy, PartialEq, Eq, Structural)]
pub enum Align {
    Left,
    Center,
    Right,
}

/// Character magnification.
#[derive(Debug, Clone, Copy, PartialEq, Eq, Structural)]
pub enum FontSize {
    Normal,
    Wide,
    Tall,
    Double,
}

/// Optional text attributes; an attribute left out takes its default.
#[derive(Debug, Clone, Copy)]
pub struct TextStyle {
    pub bold: Option<bool>,
    pub underline: Option<bool>,
    pub size: Option<FontSize>,
    pub align: Option<Align>,
}

impl Default for TextStyle {
    fn default() -> (r: TextStyle)
        ensures
            r.bold is None,
            r.underline is None,
            r.size is None,
            r.align is None,
    {
        TextStyle { bold: None, underline: None, size: None, align: None }
    }
}

/// The share of the line that a column asks for, as measured by the host that received it:
/// whether the share is a finite number in (0, 1], and how many characters it amounts to on
/// each paper width (the share times the characters per line, rounded).
#[derive(Debug, Clone, Copy)]
pub struct ColumnWidth {
    pub valid: bool,
    pub cells_58mm: usize,
    pub cells_80mm: usize,
}

impl ColumnWidth {
    pub open spec fn spec_cells(self, paper: PaperWidth) -> usize {
        match paper {
            PaperWidth::Mm58 => self.cells_58mm,
            PaperWidth::Mm80 => self.cells_80mm,
        }
    }

    /// Characters that this share takes on the given paper.
    pub fn cells(self, paper: PaperWidth) -> (r: usize)
        ensures
            r == self.spec_cells(paper),
    {
        match paper {
            PaperWidth::Mm58 => self.cells_58mm,
            PaperWidth::Mm80 => self.cells_80mm,
        }
    }
}

/// One cell of a receipt row.
#[derive(Debug, Clone)]
pub struct Column {
    pub text: String,
    pub width: Option<ColumnWidth>,
    pub align: Option<Align>,
    pub style: Option<TextStyle>,
}

#[derive(Debug, Clone, Copy, PartialEq, Eq, Structural)]
pub enum ImageMime {
    Png,
    Jpeg,
}

#[derive(Debug, Clone, Copy, PartialEq, Eq, Structural)]
pub enum BarcodeSymbology {
    Ean13,
    Ean8,
    Upca,
    Code39,
}

/// One printable element of a document.
///
/// `Columns::widths_exceed_line` records whether the shares of the columns that set one add up
/// to more than the whole line (beyond rounding).
#[derive(Debug, Clone)]
pub enum Block {
    Text { value: String, style: Option<TextStyle> },
    Feed { lines: Option<u8> },
    Divider { character: Option<String> },
    Columns { columns: Vec<Column>, widths_exceed_line: bool },
    Image { data: String, mime: ImageMime, max_width_dots: Option<u16>, align: Option<Align> },
    Barcode {
        value: String,
        symbology: BarcodeSymbology,
        align: Option<Align>,
        print_value: Option<bool>,
    },
    Qr { value: String, size: Option<u8>, align: Option<Align> },
    Cut { partial: Option<bool> },
}

/// Whether `c` is an ASCII decimal digit.
pub open spec fn is_digit_char(c: char) -> bool {
    '0' <= c <= '9'
}

/// `s` is made of ASCII digits only and has one of the two lengths (as all its characters are
/// ASCII, its length in bytes and in characters agree).
pub open spec fn spec_numeric_length(s: Seq<char>, a: nat, b: nat) -> bool {
    &&& (s.len() == a || s.len() == b)
    &&& forall|i: int| 0 <= i < s.len() ==> is_digit_char(#[trigger] s[i])
}

/// Every character of `s` is white space (so `s` trims to nothing).
pub open spec fn all_whitespace(s: Seq<char>) -> bool {
    forall|i: int| 0 <= i < s.len() ==> is_unicode_whitespace(#[trigger] s[i])
}

/// Whether a column sets a share that is not a finite number in (0, 1].
pub open spec fn column_width_invalid(c: Column) -> bool {
    c.width matches Some(w) && !w.valid
}

/// The message of the first rule of the block that `b` breaks, if any.
pub open spec fn block_error(b: Block) -> Option<Seq<char>> {
    match b {
        Block::Columns { columns, widths_exceed_line } => {
            if columns@.len() == 0 {
                Some("Columns block must contain at least one column"@)
            } else if exists|i: int|
                0 <= i < columns@.len() && #[trigger] column_width_invalid(columns@[i]) {
                Some("Column width must be greater than 0 and no greater than 1"@)
            } else if widths_exceed_line {
                Some("Column widths must not exceed 1"@)
            } else {
                None
            }
        },
        Block::Divider { character: Some(c) } => {
            if c@.len() != 1 {
                Some("Divider character must contain exactly one character"@)
            } else {
                None
            }
        },
        Block::Image { data, .. } => {
            if all_whitespace(data@) {
                Some("Image data must not be empty"@)
            } else {
                None
            }
        },
        Block::Barcode { value, symbology, .. } => match symbology {
            BarcodeSymbology::Ean13 => if !spec_numeric_length(value@, 12, 13) {
                Some("EAN-13 barcode must contain 12 or 13 digits"@)
            } else {
                None
            },
            BarcodeSymbology::Ean8 => if !spec_numeric_length(value@, 7, 8) {
                Some("EAN-8 barcode must contain 7 or 8 digits"@)
            } else {
                None
            },
            BarcodeSymbology::Upca => if !spec_numeric_length(value@, 11, 12) {
                Some("UPC-A barcode must contain 11 or 12 digits"@)
            } else {
                None
            },
            BarcodeSymbology::Code39 => if value@.len() == 0 {
                Some("CODE39 barcode must not be empty"@)
            } else {
                None
            },
        },
        Block::Qr { value, size, .. } => {
            if value@.len() == 0 {
                Some("QR code must not be empty"@)
            } else if size matches Some(s) && !(1 <= s <= 16) {
                Some("QR code size must be between 1 and 16"@)
            } else {
                None
            }
        },
        _ => None,
    }
}

/// Whether `value` is made of ASCII digits only and is `a` or `b` bytes long.
pub fn is_numeric_length(value: &str, a: usize, b: usize) -> (r: bool)
    ensures
        r == spec_numeric_length(value@, a as nat, b as nat),
{
    let chars = str_chars(value);
    let mut i: usize = 0;
    while i < chars.len()
        invariant
            i <= chars@.len(),
            chars@ == value@,
            forall|j: int| 0 <= j < i ==> is_digit_char(#[trigger] chars@[j]),
        decreases chars@.len() - i,
    {
        let c = chars[i];
        if c < '0' || c > '9' {
            return false;
        }
        i = i + 1;
    }
    chars.len() == a || chars.len() == b
}

fn is_blank(value: &str) -> (r: bool)
    ensures
        r == all_whitespace(value@),
{
    let chars = str_chars(value);
    let mut i: usize = 0;
    while i < chars.len()
        invariant
            i <= chars@.len(),
            chars@ == value@,
            forall|j: int| 0 <= j < i ==> is_unicode_whitespace(#[trigger] chars@[j]),
        decreases chars@.len() - i,
    {
        if !is_whitespace(chars[i]) {
            return false;
        }
        i = i + 1;
    }
    true
}

fn invalid(message: &str) -> (e: EscposError)
    ensures
        e.code == ErrorCode::InvalidDocument,
        e.message@ == message@,
{
    EscposError::invalid_document(message)
}

impl Block {
    /// Checks the block against the rules of its kind.
    #[verifier::loop_isolation(false)]
    pub fn validate(&self) -> (r: Result<(), EscposError>)
        ensures
            r is Ok <==> block_error(*self) is None,
            r matches Err(e) ==> e.code == ErrorCode::InvalidDocument && Some(e.message@)
                == block_error(*self),
    {
        match self {
            Block::Columns { columns, widths_exceed_line } => {
                if columns.len() == 0 {
                    return Err(invalid("Columns block must contain at least one column"));
                }
                let mut i: usize = 0;
                while i < columns.len()
                    invariant
                        i <= columns@.len(),
                        forall|j: int| 0 <= j < i ==> !#[trigger] column_width_invalid(columns@[j]),
                    decreases columns@.len() - i,
                {
                    if let Some(w) = columns[i].width {
                        if !w.valid {
                            assert(column_width_invalid(columns@[i as int]));
                            return Err(
                                invalid("Column width must be greater than 0 and no greater than 1"),
                            );
                        }
                    }
                    i = i + 1;
                }
                if *widths_exceed_line {
                    return Err(invalid("Column widths must not exceed 1"));
                }
                Ok(())
            },
            Block::Divider { character: Some(c) } => {
                if str_chars(c.as_str()).len() != 1 {
                    Err(invalid("Divider character must contain exactly one character"))
                } else {
                    Ok(())
                }
            },
            Block::Image { data, .. } => {
                if is_blank(data.as_str()) {
                    Err(invalid("Image data must not be empty"))
                } else {
                    Ok(())
                }
            },
            Block::Barcode { value, symbology, .. } => match symbology {
                BarcodeSymbology::Ean13 => if !is_numeric_length(value.as_str(), 12, 13) {
                    Err(invalid("EAN-13 barcode must contain 12 or 13 digits"))
                } else {
                    Ok(())
                },
                BarcodeSymbology::Ean8 => if !is_numeric_length(value.as_str(), 7, 8) {
                    Err(invalid("EAN-8 barcode must contain 7 or 8 digits"))
                } else {
                    Ok(())
                },
                BarcodeSymbology::Upca => if !is_numeric_length(value.as_str(), 11, 12) {
                    Err(invalid("UPC-A barcode must contain 11 or 12 digits"))
                } else {
                    Ok(())
                },
                BarcodeSymbology::Code39 => if value.as_str().is_empty() {
                    Err(invalid("CODE39 barcode must not be empty"))
                } else {
                    Ok(())
                },
            },
            Block::Qr { value, size, .. } => {
                if value.as_str().is_empty() {
                    Err(invalid("QR code must not be empty"))
                } else if let Some(s) = size {
                    if *s < 1 || *s > 16 {
                        Err(invalid("QR code size must be between 1 and 16"))
                    } else {
                        Ok(())
                    }
                } else {
                    Ok(())
                }
            },
            _ => Ok(()),
        }
    }
}

/// The message of the first block of `blocks` that breaks a rule, if any.
pub open spec fn first_block_error(blocks: Seq<Block>) -> Option<Seq<char>>
    decreases blocks.len(),
{
    if blocks.len() == 0 {
        None
    } else {
        match block_error(blocks[0]) {
            Some(m) => Some(m),
            None => first_block_error(blocks.drop_first()),
        }
    }
}

proof fn lemma_first_block_error_skip(blocks: Seq<Block>, i: int)
    requires
        0 <= i < blocks.len(),
        block_error(blocks[i]) is None,
        first_block_error(blocks) == first_block_error(blocks.skip(i)),
    ensures
        first_block_error(blocks) == first_block_error(blocks.skip(i + 1)),
{
    assert(blocks.skip(i)[0] == blocks[i]);
    assert(blocks.skip(i).drop_first() == blocks.skip(i + 1));
}

proof fn lemma_first_block_error_found(blocks: Seq<Block>, i: int)
    requires
        0 <= i < blocks.len(),
        block_error(blocks[i]) is Some,
        first_block_error(blocks) == first_block_error(blocks.skip(i)),
    ensures
        first_block_error(blocks) == block_error(blocks[i]),
{
    assert(blocks.skip(i)[0] == blocks[i]);
}

/// A document to print: paper, code page and the blocks in order.
#[derive(Debug, Clone)]
pub struct PrintDocument {
    pub paper_width_mm: Option<PaperWidth>,
    pub character_set: Option<CharacterSet>,
    pub blocks: Vec<Block>,
}

impl PrintDocument {
    pub open spec fn spec_paper_width(self) -> PaperWidth {
        match self.paper_width_mm {
            Some(p) => p,
            None => PaperWidth::Mm80,
        }
    }

    pub open spec fn spec_character_set(self) -> CharacterSet {
        match self.character_set {
            Some(c) => c,
            None => CharacterSet::Pc858,
        }
    }

    /// The paper width, 80 mm when the document sets none.
    pub fn paper_width_mm(&self) -> (r: PaperWidth)
        ensures
            r == self.spec_paper_width(),
    {
        match self.paper_width_mm {
            Some(p) => p,
            None => PaperWidth::Mm80,
        }
    }

    /// The code page, PC858 when the document sets none.
    pub fn character_set(&self) -> (r: CharacterSet)
        ensures
            r == self.spec_character_set(),
    {
        match self.character_set {
            Some(c) => c,
            None => CharacterSet::Pc858,
        }
    }

    pub fn characters_per_line(&self) -> (r: usize)
        ensures
            r == self.spec_paper_width().spec_characters_per_line(),
    {
        self.paper_width_mm().characters_per_line()
    }

    /// Checks every block in order and reports the first that breaks a rule.
    pub fn validate(&self) -> (r: Result<(), EscposError>)
        ensures
            r is Ok <==> first_block_error(self.blocks@) is None,
            r matches Err(e) ==> e.code == ErrorCode::InvalidDocument && Some(e.message@)
                == first_block_error(self.blocks@),
    {
        let mut i: usize = 0;
        proof {
            assert(self.blocks@.skip(0) == self.blocks@);
        }
        while i < self.blocks.len()
            invariant
                i <= self.blocks@.len(),
                first_block_error(self.blocks@) == first_block_error(self.blocks@.skip(i as int)),
            decreases self.blocks@.len() - i,
        {
            let checked = self.blocks[i].validate();
            match checked {
                Ok(()) => {
                    proof {
                        lemma_first_block_error_skip(self.blocks@, i as int);
                    }
                },
                Err(e) => {
                    proof {
                        lemma_first_block_error_found(self.blocks@, i as int);
                    }
                    return Err(e);
                },
            }
            i = i + 1;
        }
        proof {
            assert(self.blocks@.skip(i as int).len() == 0);
        }
        Ok(())
    }
}

} // verus!
