use std::sync::{Arc, Mutex};

use escpos::driver::Driver;
use escpos::printer::Printer;
use escpos::utils::{
    BarcodeFont, BarcodeHeight, BarcodeOption, BarcodePosition, BarcodeWidth, BitImageOption,
    BitImageSize, JustifyMode, PageCode, Protocol, QRCodeCorrectionLevel, QRCodeModel,
    QRCodeOption, UnderlineMode,
};

use tauri_plugin_escpos::printer::{
    graphics_backend_for, list_printers, parse_host_port, GraphicsBackend,
};
use tauri_plugin_escpos::render::{decode_image, render_document, render_with_graphics, PrinterOp, RenderPlan};
use tauri_plugin_escpos::text::wrap_text;
use tauri_plugin_escpos::{
    Align, BarcodeSymbology, Block, Column, ColumnWidth, EscposError, ImageMime, PrintDocument,
    PrinterTarget,
};

#[derive(Clone, Default)]
struct RecordingDriver(Arc<Mutex<Vec<u8>>>);

impl Driver for RecordingDriver {
    fn name(&self) -> String {
        "recording".into()
    }

    fn write(&self, data: &[u8]) -> escpos::errors::Result<()> {
        self.0.lock().unwrap().extend_from_slice(data);
        Ok(())
    }

    fn read(&self, _buffer: &mut [u8]) -> escpos::errors::Result<usize> {
        Ok(0)
    }

    fn flush(&self) -> escpos::errors::Result<()> {
        Ok(())
    }
}

/// Sends a plan through an escpos printer, as the host does.
fn send(driver: RecordingDriver, plan: RenderPlan) -> Result<(), EscposError> {
    let mut printer = Printer::new(driver, Protocol::default(), None);
    for op in &plan.ops {
        let code = op.failure_code();
        let outcome = match op {
            PrinterOp::Init => printer.init().map(|_| ()),
            PrinterOp::PageCode(_) => printer.page_code(PageCode::PC858).map(|_| ()),
            PrinterOp::Bold(on) => printer.bold(*on).map(|_| ()),
            PrinterOp::Underline(on) => printer
                .underline(if *on { UnderlineMode::Single } else { UnderlineMode::None })
                .map(|_| ()),
            PrinterOp::Size(w, h) => printer.size(*w, *h).map(|_| ()),
            PrinterOp::Justify(align) => printer
                .justify(match align {
                    Align::Left => JustifyMode::LEFT,
                    Align::Center => JustifyMode::CENTER,
                    Align::Right => JustifyMode::RIGHT,
                })
                .map(|_| ()),
            PrinterOp::Custom(bytes) => printer.custom(bytes).map(|_| ()),
            PrinterOp::Feeds(n) => printer.feeds(*n).map(|_| ()),
            PrinterOp::BitImage { bytes, max_width } => {
                BitImageOption::new(Some(*max_width), None, BitImageSize::Normal)
                    .and_then(|option| printer.bit_image_from_bytes_option(bytes, option).map(|_| ()))
            }
            PrinterOp::Barcode { symbology, value, print_value } => {
                let position = if *print_value { BarcodePosition::Below } else { BarcodePosition::None };
                let option = BarcodeOption::new(BarcodeWidth::M, BarcodeHeight::S, BarcodeFont::A, position);
                match symbology {
                    BarcodeSymbology::Ean13 => printer.ean13_option(value, option).map(|_| ()),
                    BarcodeSymbology::Ean8 => printer.ean8_option(value, option).map(|_| ()),
                    BarcodeSymbology::Upca => printer.upca_option(value, option).map(|_| ()),
                    BarcodeSymbology::Code39 => printer.code39_option(value, option).map(|_| ()),
                }
            }
            PrinterOp::Qr { value, size } => printer
                .qrcode_option(value, QRCodeOption::new(QRCodeModel::Model2, *size, QRCodeCorrectionLevel::M))
                .map(|_| ()),
            PrinterOp::Cut => printer.cut().map(|_| ()),
            PrinterOp::PartialCut => printer.partial_cut().map(|_| ()),
        };
        outcome.map_err(|error| EscposError { code, message: error.to_string() })?;
    }
    if let Some(failure) = plan.failure {
        return Err(failure);
    }
    printer
        .print()
        .map_err(|error| EscposError { code: tauri_plugin_escpos::ErrorCode::PrintFailed, message: error.to_string() })?;
    Ok(())
}

fn share(width: f32) -> ColumnWidth {
    ColumnWidth {
        valid: width.is_finite() && width > 0.0 && width <= 1.0,
        cells_58mm: (width * 32.0).round() as usize,
        cells_80mm: (width * 48.0).round() as usize,
    }
}

#[test]
fn wraps_text_to_paper_width_without_losing_words() {
    let lines = wrap_text("one two three four", 9);

    assert_eq!(lines, vec!["one two", "three", "four"]);
}

#[test]
fn formats_columns_using_remaining_width_for_first_column() {
    let columns = vec![
        Column {
            text: "Coffee".into(),
            width: None,
            align: None,
            style: None,
        },
        Column {
            text: "2".into(),
            width: Some(share(0.2)),
            align: Some(Align::Right),
            style: None,
        },
        Column {
            text: "4.50".into(),
            width: Some(share(0.3)),
            align: Some(Align::Right),
            style: None,
        },
    ];

    let driver = RecordingDriver::default();
    let bytes = driver.0.clone();
    send(
        driver,
        render_document(&PrintDocument {
            paper_width_mm: None,
            character_set: None,
            blocks: vec![Block::Columns { columns, widths_exceed_line: 0.2f32 + 0.3f32 > 1.0 + f32::EPSILON }],
        }),
    )
    .unwrap();

    let bytes = bytes.lock().unwrap();
    assert!(bytes.windows(24).any(|value| value == b"Coffee                  "));
    assert!(bytes.windows(10).any(|value| value == b"         2"));
    assert!(bytes.windows(14).any(|value| value == b"          4.50"));
    assert!(
        bytes.windows(48).any(|value| value
            == b"Coffee                           2          4.50"),
        "column row must fill the character line with spaces, got {bytes:?}"
    );
    assert!(
        !bytes.windows(2).any(|value| value == [0x1B, b'$']),
        "emulator-incompatible ESC $ must not be sent, got {bytes:?}"
    );
    assert!(
        !bytes.windows(2).any(|value| value == [0x1D, b'W']),
        "emulator-incompatible GS W must not be sent, got {bytes:?}"
    );
}

#[test]
fn decodes_data_url_images() {
    let bytes = decode_image("data:image/png;base64,aGVsbG8=").unwrap();

    assert_eq!(bytes, b"hello");
}

#[test]
fn raster_image_keeps_following_text_in_the_byte_stream() {
    let driver = RecordingDriver::default();
    let bytes = driver.0.clone();
    send(
        driver,
        render_with_graphics(
            &PrintDocument {
                paper_width_mm: None,
                character_set: None,
                blocks: vec![
                    Block::Image {
                        data: ONE_PX_PNG.into(),
                        mime: ImageMime::Png,
                        max_width_dots: Some(8),
                        align: Some(Align::Center),
                    },
                    Block::Text {
                        value: "HEADER".into(),
                        style: None,
                    },
                ],
            },
            GraphicsBackend::Emulator,
        ),
    )
    .unwrap();

    let bytes = bytes.lock().unwrap();
    let after_raster = skip_gs_v0(&bytes);
    assert_eq!(
        after_raster.first().copied(),
        Some(0x0A),
        "GS v 0 must be followed by LF so emulators resume text, got {bytes:?}"
    );
    assert!(
        after_raster.windows(6).any(|value| value == b"HEADER"),
        "text after the logo must stay after GS v 0, got {bytes:?}"
    );
}

#[test]
fn ean13_barcode_is_raster_and_keeps_following_footer_text() {
    let driver = RecordingDriver::default();
    let bytes = driver.0.clone();
    send(
        driver,
        render_with_graphics(
            &PrintDocument {
                paper_width_mm: None,
                character_set: None,
                blocks: vec![
                    Block::Barcode {
                        value: "4959920317636".into(),
                        symbology: BarcodeSymbology::Ean13,
                        align: Some(Align::Center),
                        print_value: Some(true),
                    },
                    Block::Text {
                        value: "Footer sample".into(),
                        style: None,
                    },
                ],
            },
            GraphicsBackend::Emulator,
        ),
    )
    .unwrap();

    let bytes = bytes.lock().unwrap();
    assert!(
        !bytes.windows(2).any(|value| value == [0x1D, b'k']),
        "EAN-13 must not use GS k, got {bytes:?}"
    );
    let after_raster = skip_gs_v0(&bytes);
    assert_eq!(
        after_raster.first().copied(),
        Some(0x0A),
        "barcode raster must be followed by LF so emulators resume text, got {bytes:?}"
    );
    assert!(
        after_raster.windows(13).any(|value| value == b"Footer sample"),
        "footer must stay after the barcode raster, got {bytes:?}"
    );
    assert!(
        after_raster.windows(13).any(|value| value == b"4959920317636"),
        "barcode digits must print under the raster, got {bytes:?}"
    );
}

#[test]
fn sends_cut_only_when_document_contains_cut_block() {
    let without_cut_driver = RecordingDriver::default();
    let without_cut_bytes = without_cut_driver.0.clone();
    send(
        without_cut_driver,
        render_document(&PrintDocument {
            paper_width_mm: None,
            character_set: None,
            blocks: vec![Block::Text {
                value: "Hello".into(),
                style: None,
            }],
        }),
    )
    .unwrap();

    let with_cut_driver = RecordingDriver::default();
    let with_cut_bytes = with_cut_driver.0.clone();
    send(
        with_cut_driver,
        render_document(&PrintDocument {
            paper_width_mm: None,
            character_set: None,
            blocks: vec![Block::Cut {
                partial: Some(false),
            }],
        }),
    )
    .unwrap();

    let full_cut = [0x1d, b'V', b'A', 0];
    assert!(!without_cut_bytes
        .lock()
        .unwrap()
        .windows(full_cut.len())
        .any(|bytes| bytes == full_cut));
    assert!(with_cut_bytes
        .lock()
        .unwrap()
        .windows(full_cut.len())
        .any(|bytes| bytes == full_cut));
}

#[test]
fn encodes_ascii_hyphen_and_divider_as_0x2d() {
    let driver = RecordingDriver::default();
    let bytes = driver.0.clone();
    send(
        driver,
        render_document(&PrintDocument {
            paper_width_mm: None,
            character_set: None,
            blocks: vec![
                Block::Text {
                    value: "ORD-8".into(),
                    style: None,
                },
                Block::Divider { character: None },
            ],
        }),
    )
    .unwrap();

    let bytes = bytes.lock().unwrap();
    assert!(
        bytes.windows(5).any(|value| value == b"ORD-8"),
        "hyphen must stay ASCII 0x2D, got {bytes:?}"
    );
    assert!(
        bytes.windows(8).any(|value| value == b"--------"),
        "divider must repeat ASCII '-', got {bytes:?}"
    );
}

#[test]
fn encodes_pound_yen_and_cent_as_pc858_bytes() {
    let driver = RecordingDriver::default();
    let bytes = driver.0.clone();
    send(
        driver,
        render_document(&PrintDocument {
            paper_width_mm: None,
            character_set: None,
            blocks: vec![Block::Text {
                value: "£1 ¥2 ¢3".into(),
                style: None,
            }],
        }),
    )
    .unwrap();

    let bytes = bytes.lock().unwrap();
    let expected = [0x9C, b'1', b' ', 0xBE, b'2', b' ', 0xBD, b'3'];
    assert!(
        bytes.windows(expected.len()).any(|value| value == expected),
        "£ ¥ ¢ must be PC858 0x9C/0xBE/0xBD, got {bytes:?}"
    );
}

#[test]
fn encodes_euro_as_pc858_byte() {
    let driver = RecordingDriver::default();
    let bytes = driver.0.clone();
    send(
        driver,
        render_document(&PrintDocument {
            paper_width_mm: None,
            character_set: None,
            blocks: vec![Block::Text {
                value: "€2.50".into(),
                style: None,
            }],
        }),
    )
    .unwrap();

    let bytes = bytes.lock().unwrap();
    assert!(
        bytes.windows(5).any(|value| value == [0xD5, b'2', b'.', b'5', b'0']),
        "euro must be PC858 0xD5, got {bytes:?}"
    );
}

#[test]
fn parses_host_and_port_for_network_printers() {
    assert_eq!(
        parse_host_port("127.0.0.1:9100"),
        Some(("127.0.0.1".into(), 9100))
    );
    assert_eq!(parse_host_port("127.0.0.1"), None);
    assert_eq!(parse_host_port(":9100"), None);
}

#[test]
fn lists_local_network_emulator_in_debug_builds() {
    // A debug build always includes the local emulator endpoint.
    let include_default_emulator = true;
    let printers = list_printers(Vec::new(), Vec::new(), include_default_emulator);

    assert!(printers.iter().any(|printer| printer.path == "127.0.0.1:9100"));
}

#[test]
fn hardware_ean13_uses_escpos_gs_k() {
    let driver = RecordingDriver::default();
    let bytes = driver.0.clone();
    send(
        driver,
        render_document(&PrintDocument {
            paper_width_mm: None,
            character_set: None,
            blocks: vec![Block::Barcode {
                value: "4959920317636".into(),
                symbology: BarcodeSymbology::Ean13,
                align: Some(Align::Center),
                print_value: Some(true),
            }],
        }),
    )
    .unwrap();

    let bytes = bytes.lock().unwrap();
    assert!(
        bytes.windows(2).any(|value| value == [0x1D, b'k']),
        "USB/network printers must use escpos-rs GS k, got {bytes:?}"
    );
}

#[test]
fn hardware_image_uses_escpos_bit_image() {
    let driver = RecordingDriver::default();
    let bytes = driver.0.clone();
    send(
        driver,
        render_document(&PrintDocument {
            paper_width_mm: None,
            character_set: None,
            blocks: vec![Block::Image {
                data: ONE_PX_PNG.into(),
                mime: ImageMime::Png,
                max_width_dots: Some(8),
                align: Some(Align::Center),
            }],
        }),
    )
    .unwrap();

    let bytes = bytes.lock().unwrap();
    assert!(
        bytes.windows(3).any(|value| value == [0x1D, b'v', b'0']),
        "hardware images must use escpos-rs GS v 0 bit image, got {bytes:?}"
    );
}

#[test]
fn local_emulator_uses_dev_raster_backend() {
    assert_eq!(
        graphics_backend_for(&PrinterTarget::Network {
            host: "127.0.0.1".into(),
            port: 9100,
        }),
        GraphicsBackend::Emulator
    );
    assert_eq!(
        graphics_backend_for(&PrinterTarget::Network {
            host: "192.168.1.50".into(),
            port: 9100,
        }),
        GraphicsBackend::Escpos
    );
    assert_eq!(
        graphics_backend_for(&PrinterTarget::WindowsUsbByPath {
            path: r"\\?\usb#vid_1234".into(),
        }),
        GraphicsBackend::Escpos
    );
}

const ONE_PX_PNG: &str = "data:image/png;base64,iVBORw0KGgoAAAANSUhEUgAAAAEAAAABCAYAAAAfFcSJAAAADUlEQVR42mNk+M9QDwADhgGAWjR9awAAAABJRU5ErkJggg==";

fn skip_gs_v0(bytes: &[u8]) -> &[u8] {
    let prefix = [0x1D, b'v', b'0'];
    let start = bytes.windows(prefix.len()).position(|window| window == prefix).unwrap();
    let header = &bytes[start + 3..];
    let width = u16::from(header[1]) | (u16::from(header[2]) << 8);
    let height = u16::from(header[3]) | (u16::from(header[4]) << 8);
    let length = 5 + (width as usize * height as usize);
    &header[length..]
}
