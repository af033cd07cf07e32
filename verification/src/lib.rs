//! Structured ESC/POS receipts for thermal printers: the document model and its rules, text
//! wrapping and PC858 encoding, receipt rows, EAN-13 and image rasters, and the rendering of a
//! document into the instructions a printer receives.

use vstd::prelude::*;

pub mod barcode;
pub mod chars;
pub mod laws;
pub mod models;
pub mod printer;
pub mod raster;
pub mod render;
pub mod text;

pub use models::{
    Align, BarcodeSymbology, Block, CharacterSet, Column, ColumnWidth, ErrorCode, EscposError,
    FontSize, ImageMime, PaperWidth, PrintDocument, PrinterBackend, PrinterInfo, PrinterTarget,
    PrinterTargetWire, TextStyle,
};
