use std::io::Cursor;

use image::{DynamicImage, GrayImage, ImageBuffer, ImageFormat, Luma};

use tauri_plugin_escpos::barcode::{
    check_digit, ean13_command, ean13_modules, function_b_command, normalize_ean13, parse_digits,
    render_ean13,
};
use tauri_plugin_escpos::printer::{
    has_default_emulator, is_local_emulator_host, network_endpoints, parse_host_port,
    parse_network_printers, self_test, test_document, test_printer, unsupported_platform,
    usb_printer_entry,
};
use tauri_plugin_escpos::raster::{
    decoded_gray_bitmap, gs_v0_command, gs_v0_header, load_gray_bitmap, pad8, raster_max_width,
    raster_size, scaled_height, DecodedImage, RgbaSamples,
};
use tauri_plugin_escpos::render::{decode_image, render_document, PrinterOp};
use tauri_plugin_escpos::text::{
    column_rows, encode_pc858, encode_pc858_high, encode_pc858_latin, fit_text, font_dots,
    horizontal_scale, wrap_text,
};
use tauri_plugin_escpos::{
    Align, BarcodeSymbology, Block, Column, ColumnWidth, ErrorCode, EscposError, FontSize,
    ImageMime, PaperWidth, PrintDocument, PrinterBackend, PrinterInfo, PrinterTarget, TextStyle,
};

fn invalid(message: &str) -> EscposError {
    EscposError {
        code: ErrorCode::InvalidDocument,
        message: message.into(),
    }
}

fn document(blocks: Vec<Block>) -> PrintDocument {
    PrintDocument {
        paper_width_mm: None,
        character_set: None,
        blocks,
    }
}

fn cell(width: Option<ColumnWidth>, text: &str) -> Column {
    Column {
        text: text.into(),
        width,
        align: None,
        style: None,
    }
}

fn png(image: &GrayImage) -> Vec<u8> {
    let mut bytes = Cursor::new(Vec::new());
    image.write_to(&mut bytes, ImageFormat::Png).unwrap();
    bytes.into_inner()
}

fn custom_bytes(ops: &[PrinterOp]) -> Vec<u8> {
    ops.iter()
        .filter_map(|op| match op {
            PrinterOp::Custom(bytes) => Some(bytes.clone()),
            _ => None,
        })
        .flatten()
        .collect()
}

#[test]
fn target_survives_its_wire_record() {
    let targets = vec![
        PrinterTarget::WindowsUsbByPath { path: r"\\?\usb#vid_04b8".into() },
        PrinterTarget::WindowsUsbByVidPid { vendor_id: 0x04b8, product_id: 0x0202 },
        PrinterTarget::Network { host: "192.168.1.50".into(), port: 9100 },
    ];
    for target in targets {
        assert_eq!(PrinterTarget::from_wire(target.to_wire()), Ok(target.clone()));
    }
}

#[test]
fn wire_records_without_an_address_are_refused() {
    let empty_path = PrinterTarget::WindowsUsbByPath { path: String::new() }.to_wire();
    assert_eq!(
        PrinterTarget::from_wire(empty_path),
        Err("windows_usb target requires either path or vendorId and productId".to_string())
    );
    let zero_port = PrinterTarget::Network { host: "printer".into(), port: 0 }.to_wire();
    assert_eq!(
        PrinterTarget::from_wire(zero_port),
        Err("network target requires host and a non-zero port".to_string())
    );
    let mut both = PrinterTarget::WindowsUsbByPath { path: "p".into() }.to_wire();
    both.vendor_id = Some(1);
    assert!(PrinterTarget::from_wire(both).is_err());
}

#[test]
fn paper_width_survives_its_millimetres() {
    for paper in [PaperWidth::Mm58, PaperWidth::Mm80] {
        assert_eq!(PaperWidth::from_millimetres(paper.millimetres()), Ok(paper));
    }
    assert_eq!(PaperWidth::Mm58.millimetres(), 58);
    assert_eq!(PaperWidth::Mm80.characters_per_line(), 48);
    assert_eq!(
        PaperWidth::from_millimetres(57),
        Err("unsupported paper width: 57".to_string())
    );
}

#[test]
fn network_entry_names_and_targets_its_endpoint() {
    let info = PrinterInfo::network("10.0.0.5".into(), 9101);
    assert_eq!(info.id, "network:10.0.0.5:9101");
    assert_eq!(info.path, "10.0.0.5:9101");
    assert_eq!(info.name.as_deref(), Some("ESC/POS network (10.0.0.5:9101)"));
    assert_eq!(info.backend, PrinterBackend::Network);
    assert_eq!(
        info.to_target(),
        Ok(PrinterTarget::Network { host: "10.0.0.5".into(), port: 9101 })
    );
}

#[test]
fn network_entry_without_host_or_port_is_not_found() {
    let mut info = PrinterInfo::network("10.0.0.5".into(), 9101);
    info.host = Some(String::new());
    assert_eq!(
        info.to_target(),
        Err(EscposError {
            code: ErrorCode::PrinterNotFound,
            message: "Network printer is missing a host".into(),
        })
    );
    let mut info = PrinterInfo::network("10.0.0.5".into(), 9101);
    info.port = Some(0);
    assert_eq!(
        info.to_target(),
        Err(EscposError {
            code: ErrorCode::PrinterNotFound,
            message: "Network printer is missing a port".into(),
        })
    );
    let mut usb = PrinterInfo::network("h".into(), 1);
    usb.backend = PrinterBackend::WindowsUsb;
    assert_eq!(usb.to_target(), Ok(PrinterTarget::WindowsUsbByPath { path: "h:1".into() }));
}

#[test]
fn check_digit_completes_the_weighted_sum() {
    let digits = vec![1, 2, 3, 4, 5, 6, 7, 8, 9, 0, 1, 2];
    assert_eq!(check_digit(&digits), 8);
    let full = normalize_ean13("123456789012").unwrap();
    assert_eq!(full, vec![1, 2, 3, 4, 5, 6, 7, 8, 9, 0, 1, 2, 8]);
    let sum: u32 = full
        .iter()
        .enumerate()
        .map(|(i, d)| if i % 2 == 0 { *d as u32 } else { *d as u32 * 3 })
        .sum();
    assert_eq!(sum % 10, 0);
    assert_eq!(normalize_ean13("4959920317636").unwrap()[12], 6);
}

#[test]
fn ean13_input_errors() {
    assert_eq!(parse_digits("12a"), Err(invalid("EAN-13 barcode must contain only digits")));
    assert_eq!(
        normalize_ean13("12345"),
        Err(invalid("EAN-13 barcode must contain 12 or 13 digits"))
    );
    assert_eq!(parse_digits("907"), Ok(vec![9, 0, 7]));
}

#[test]
fn ean13_raster_has_quiet_zones_and_guards() {
    let digits = normalize_ean13("123456789012").unwrap();
    let modules: String = ean13_modules(&digits).into_iter().collect();
    assert_eq!(modules.len(), 113);
    assert!(modules.starts_with("000000000101"));
    assert!(modules.ends_with("101000000000"));
    assert_eq!(&modules[54..59], "01010");
    // First digit 1 gives the parity LLGLGG; the second digit, 2, is then L-coded.
    assert_eq!(&modules[12..19], "0010011");
    let bitmap = render_ean13(&digits);
    assert_eq!((bitmap.width, bitmap.height), (226, 64));
    assert_eq!(bitmap.pixels.len(), 226 * 64);
    assert_eq!(bitmap.pixels[0], 255);
    assert_eq!(bitmap.pixels[18], 0);
}

#[test]
fn ean13_command_is_a_raster_with_its_digits() {
    let (command, text) = ean13_command("123456789012").unwrap();
    assert_eq!(text, "1234567890128");
    assert_eq!(&command[..8], &[0x1D, b'v', b'0', 0, 29, 0, 64, 0]);
    assert_eq!(command.len(), 8 + 29 * 64);
    assert!(ean13_command("12").is_err());
}

#[test]
fn function_b_barcode_command_bytes() {
    assert_eq!(
        function_b_command(68, "12345670"),
        vec![0x1D, b'k', 68, 8, b'1', b'2', b'3', b'4', b'5', b'6', b'7', b'0']
    );
}

#[test]
fn pc858_keeps_ascii_and_maps_currency() {
    assert_eq!(encode_pc858("ORD-8 ok"), b"ORD-8 ok".to_vec());
    assert_eq!(encode_pc858("€£¥¢"), vec![0xD5, 0x9C, 0xBE, 0xBD]);
}

#[test]
fn gs_v0_length_matches_its_header() {
    let header = gs_v0_header(2, 16);
    assert_eq!(header, vec![0x1D, b'v', b'0', 0, 2, 0, 16, 0]);
    assert_eq!(pad8(1), 8);
    assert_eq!(pad8(16), 16);
    assert_eq!(raster_max_width(None), 384);
    assert_eq!(raster_max_width(Some(100)), 96);
    assert_eq!(raster_max_width(Some(3)), 8);
    assert_eq!(scaled_height(32, 16, 16), 8);
    assert_eq!(scaled_height(1000, 1, 8), 1);
}

#[test]
fn wide_image_is_shrunk_to_the_raster_width() {
    let black = png(&GrayImage::from_pixel(32, 16, Luma([0])));
    let command = gs_v0_command(&black, Some(16)).unwrap();
    assert_eq!(&command[..8], &[0x1D, b'v', b'0', 0, 2, 0, 8, 0]);
    assert_eq!(command.len(), 8 + 2 * 8);
    assert!(command[8..].iter().all(|byte| *byte == 0xFF));

    let white = png(&GrayImage::from_pixel(8, 3, Luma([255])));
    let command = gs_v0_command(&white, None).unwrap();
    assert_eq!(&command[..8], &[0x1D, b'v', b'0', 0, 1, 0, 8, 0]);
    assert!(command[8..].iter().all(|byte| *byte == 0));
}

#[test]
fn undecodable_image_is_an_invalid_document() {
    let error = gs_v0_command(b"not an image", None).unwrap_err();
    assert_eq!(error.code, ErrorCode::InvalidDocument);
    assert!(error.message.starts_with("Invalid image: "), "{}", error.message);
}

#[test]
fn image_payload_is_base64_after_the_comma() {
    assert_eq!(decode_image("aGVsbG8=").unwrap(), b"hello");
    let error = decode_image("data:image/png;base64,@@@@").unwrap_err();
    assert_eq!(error.code, ErrorCode::InvalidDocument);
    assert!(error.message.starts_with("Invalid base64 image: "), "{}", error.message);
}

#[test]
fn wrap_text_edge_cases() {
    assert_eq!(wrap_text("keep   as is", 0), vec!["keep   as is"]);
    assert_eq!(wrap_text("", 10), vec![""]);
    assert_eq!(wrap_text("abcdefghij", 4), vec!["abcd", "efgh", "ij"]);
    assert_eq!(wrap_text("ab cdefghij", 4), vec!["ab", "cdef", "ghij"]);
    assert_eq!(wrap_text("a\n\nb", 10), vec!["a", "", "b"]);
    assert_eq!(wrap_text("  spaced   out  ", 20), vec!["spaced out"]);
}

#[test]
fn wrapped_lines_fit_and_keep_every_word() {
    let text = "The quick brown fox jumps over the extraordinarily lazy dog";
    for width in 1..20 {
        let lines = wrap_text(text, width);
        assert!(lines.iter().all(|line| line.chars().count() <= width));
        let joined: String = lines.concat();
        let ink: String = text.split_whitespace().collect();
        assert_eq!(joined.replace(' ', ""), ink);
    }
}

#[test]
fn fit_text_fills_the_cell() {
    assert_eq!(fit_text("ab", 5, Align::Left), "ab   ");
    assert_eq!(fit_text("ab", 5, Align::Center), " ab  ");
    assert_eq!(fit_text("ab", 5, Align::Right), "   ab");
    assert_eq!(fit_text("abcdef", 3, Align::Right), "abc");
    assert_eq!(fit_text("é€", 0, Align::Left), "");
}

#[test]
fn font_sizes_scale_the_line() {
    assert_eq!(font_dots(None), (1, 1));
    assert_eq!(font_dots(Some(FontSize::Wide)), (2, 1));
    assert_eq!(font_dots(Some(FontSize::Tall)), (1, 2));
    assert_eq!(font_dots(Some(FontSize::Double)), (2, 2));
    let double = TextStyle { bold: None, underline: None, size: Some(FontSize::Double), align: None };
    assert_eq!(horizontal_scale(Some(double)), 2);
    assert_eq!(horizontal_scale(None), 1);
}

#[test]
fn column_row_fills_the_line() {
    let document = test_document();
    let Block::Columns { columns, widths_exceed_line } = &document.blocks[2] else {
        panic!("the test page has a row of columns");
    };
    assert!(!widths_exceed_line);
    let rows = column_rows(columns, PaperWidth::Mm80);
    assert_eq!(rows, vec![format!("{:<34}{:>14}", "Character set", "PC858")]);
    let rows = column_rows(columns, PaperWidth::Mm58);
    assert_eq!(rows, vec![format!("{:<22}{:>10}", "Character set", "PC858")]);

    let wide = vec![
        cell(Some(ColumnWidth { valid: true, cells_58mm: 32, cells_80mm: 48 }), "left"),
        cell(Some(ColumnWidth { valid: true, cells_58mm: 32, cells_80mm: 48 }), "right"),
    ];
    let rows = column_rows(&wide, PaperWidth::Mm58);
    assert_eq!(rows[0].chars().count(), 64);
}

#[test]
fn divider_spans_the_line() {
    let plan = render_document(&PrintDocument {
        paper_width_mm: Some(PaperWidth::Mm58),
        character_set: None,
        blocks: vec![Block::Divider { character: Some("=".into()) }],
    });
    assert!(plan.failure.is_none());
    let bytes = custom_bytes(&plan.ops);
    let run = bytes.iter().filter(|byte| **byte == b'=').count();
    assert_eq!(run, 32);
}

#[test]
fn each_block_rule_has_its_message() {
    let cases = vec![
        (
            Block::Columns { columns: Vec::new(), widths_exceed_line: false },
            "Columns block must contain at least one column",
        ),
        (
            Block::Columns {
                columns: vec![cell(Some(ColumnWidth { valid: false, cells_58mm: 0, cells_80mm: 0 }), "x")],
                widths_exceed_line: false,
            },
            "Column width must be greater than 0 and no greater than 1",
        ),
        (
            Block::Columns { columns: vec![cell(None, "x")], widths_exceed_line: true },
            "Column widths must not exceed 1",
        ),
        (
            Block::Divider { character: Some("==".into()) },
            "Divider character must contain exactly one character",
        ),
        (
            Block::Image { data: " \n\t".into(), mime: ImageMime::Png, max_width_dots: None, align: None },
            "Image data must not be empty",
        ),
        (
            Block::Barcode { value: "12".into(), symbology: BarcodeSymbology::Ean13, align: None, print_value: None },
            "EAN-13 barcode must contain 12 or 13 digits",
        ),
        (
            Block::Barcode { value: "1234567a".into(), symbology: BarcodeSymbology::Ean8, align: None, print_value: None },
            "EAN-8 barcode must contain 7 or 8 digits",
        ),
        (
            Block::Barcode { value: "1234567890".into(), symbology: BarcodeSymbology::Upca, align: None, print_value: None },
            "UPC-A barcode must contain 11 or 12 digits",
        ),
        (
            Block::Barcode { value: String::new(), symbology: BarcodeSymbology::Code39, align: None, print_value: None },
            "CODE39 barcode must not be empty",
        ),
        (Block::Qr { value: String::new(), size: None, align: None }, "QR code must not be empty"),
        (
            Block::Qr { value: "x".into(), size: Some(17), align: None },
            "QR code size must be between 1 and 16",
        ),
    ];
    for (block, message) in cases {
        assert_eq!(block.validate(), Err(invalid(message)));
        let plan = render_document(&document(vec![block]));
        assert!(plan.ops.is_empty());
        assert_eq!(plan.failure, Some(invalid(message)));
    }
    assert_eq!(Block::Qr { value: "x".into(), size: Some(16), align: None }.validate(), Ok(()));
    assert_eq!(Block::Divider { character: Some("€".into()) }.validate(), Ok(()));
}

#[test]
fn valid_document_starts_with_init_and_code_page() {
    let plan = render_document(&document(vec![Block::Feed { lines: Some(3) }]));
    assert!(plan.failure.is_none());
    assert!(matches!(plan.ops[0], PrinterOp::Init));
    assert!(matches!(plan.ops[1], PrinterOp::PageCode(_)));
    assert!(plan.ops.iter().any(|op| matches!(op, PrinterOp::Feeds(3))));
}

#[test]
fn network_printer_list_parsing() {
    assert_eq!(
        parse_network_printers("127.0.0.1:9100, printer.local:9101,bad,:1,x:0"),
        vec![("127.0.0.1".to_string(), 9100), ("printer.local".to_string(), 9101)]
    );
    assert_eq!(parse_host_port("[::1]:9100"), Some(("[::1]".into(), 9100)));
    assert_eq!(parse_host_port("host:+42"), Some(("host".into(), 42)));
    assert_eq!(parse_host_port("host:70000"), None);
}

#[test]
fn default_emulator_is_listed_once() {
    let configured = vec![("127.0.0.1".to_string(), 9100)];
    assert!(has_default_emulator(&configured));
    assert_eq!(network_endpoints(configured.clone(), true), configured);
    assert_eq!(
        network_endpoints(vec![("10.0.0.9".to_string(), 9100)], true),
        vec![("10.0.0.9".to_string(), 9100), ("127.0.0.1".to_string(), 9100)]
    );
    assert_eq!(network_endpoints(Vec::new(), false), Vec::new());
}

#[test]
fn self_test_prefers_a_network_printer() {
    assert_eq!(
        self_test(&Vec::new()),
        Err(EscposError {
            code: ErrorCode::PrinterNotFound,
            message: "No ESC/POS printer was found. Start a TCP emulator on 127.0.0.1:9100 or connect a USB printer.".into(),
        })
    );
    let usb = usb_printer_entry("usb-path".into(), Some(0x04b8), Some(0x0202));
    assert_eq!(usb.id, "usb-path");
    assert_eq!((usb.vendor_id, usb.product_id), (Some(0x04b8), Some(0x0202)));
    assert!(usb.name.is_none() && usb.host.is_none() && usb.port.is_none());
    assert_eq!(usb.backend, PrinterBackend::WindowsUsb);
    let network = PrinterInfo::network("10.0.0.7".into(), 9100);
    assert_eq!(
        self_test(&vec![usb.clone(), network]),
        Ok(PrinterTarget::Network { host: "10.0.0.7".into(), port: 9100 })
    );
    assert_eq!(
        self_test(&vec![usb]),
        Ok(PrinterTarget::WindowsUsbByPath { path: "usb-path".into() })
    );
}

#[test]
fn local_hosts_and_unsupported_platform() {
    assert!(is_local_emulator_host("localhost"));
    assert!(is_local_emulator_host("::1"));
    assert!(!is_local_emulator_host("127.0.0.2"));
    let error = unsupported_platform();
    assert_eq!(error.code, ErrorCode::UnsupportedPlatform);
    assert_eq!(error.message, "Windows USB printing is only available on Windows");
}

#[test]
fn test_page_prints_and_cuts() {
    assert_eq!(test_document().validate(), Ok(()));
    let plan = test_printer(&PrinterTarget::Network { host: "127.0.0.1".into(), port: 9100 });
    assert!(plan.failure.is_none());
    assert!(matches!(plan.ops.last(), Some(PrinterOp::Cut)));
    let bytes = custom_bytes(&plan.ops);
    assert!(bytes.windows(20).any(|w| w == b"ESC/POS PRINTER TEST"));
    assert!(bytes.windows(13).any(|w| w == b"1234567890128"));
    let hardware = test_printer(&PrinterTarget::Network { host: "10.1.1.1".into(), port: 9100 });
    assert!(hardware.ops.iter().any(|op| matches!(op, PrinterOp::Barcode { .. })));
}

#[test]
fn raster_size_shrinks_only_wide_images() {
    assert_eq!(raster_size(8, 3, 384), None);
    assert_eq!(raster_size(384, 10, 384), None);
    assert_eq!(raster_size(32, 16, 16), Some((16, 8)));
    assert_eq!(raster_size(1000, 1, 8), Some((8, 1)));
}

#[test]
fn pc858_letter_table_is_total() {
    assert_eq!(encode_pc858_latin('ñ'), 0xA4);
    assert_eq!(encode_pc858_latin('ç'), 0x87);
    assert_eq!(encode_pc858_latin('A'), b'?');
    assert_eq!(encode_pc858_latin('€'), b'?');
    assert_eq!(encode_pc858_high('€'), 0xD5);
    assert_eq!(encode_pc858_high('Ω'), b'?');
}

#[test]
fn ean13_raster_rows_are_all_the_same() {
    let (command, _) = ean13_command("4959920317636").unwrap();
    assert_eq!(command.len(), 1864);
    let first = &command[8..37];
    for k in 0..64 {
        assert_eq!(&command[8 + 29 * k..8 + 29 * k + 29], first);
    }
}

#[test]
fn wrapping_is_greedy() {
    assert_eq!(wrap_text("aa bb cc dd", 5), vec!["aa bb", "cc dd"]);
    assert_eq!(wrap_text("aaa bb c", 6), vec!["aaa bb", "c"]);
    assert_eq!(wrap_text("a bbbb c", 5), vec!["a", "bbbb", "c"]);
}

#[test]
fn decoder_refusal_keeps_its_message() {
    let refused = decoded_gray_bitmap(Err("unknown format".to_string()), None).unwrap_err();
    assert_eq!(refused, invalid("Invalid image: unknown format"));
    let error = load_gray_bitmap(b"not an image", None).unwrap_err();
    let direct = image::load_from_memory(b"not an image").unwrap_err().to_string();
    assert_eq!(error.message, format!("Invalid image: {direct}"));
}

#[test]
fn decoded_image_is_resized_to_the_raster_width() {
    let black = DecodedImage { width: 32, height: 16, samples: RgbaSamples::Eight(vec![0; 32 * 16 * 4]) };
    let gray = decoded_gray_bitmap(Ok(black), Some(16)).unwrap();
    assert_eq!((gray.width, gray.height), (16, 8));
    assert!(gray.pixels.iter().all(|p| *p == 0));
    let small = DecodedImage { width: 3, height: 2, samples: RgbaSamples::Sixteen(vec![65535; 3 * 2 * 4]) };
    let gray = decoded_gray_bitmap(Ok(small), None).unwrap();
    assert_eq!((gray.width, gray.height), (3, 2));
    assert!(gray.pixels.iter().all(|p| *p == 255));
}

fn dynamic_png(img: image::DynamicImage) -> Vec<u8> {
    let mut bytes = Cursor::new(Vec::new());
    img.write_to(&mut bytes, ImageFormat::Png).unwrap();
    bytes.into_inner()
}

#[test]
fn grey_raster_matches_the_image_crate_resize() {
    let pngs = vec![
        dynamic_png(DynamicImage::ImageLuma8(ImageBuffer::from_fn(40, 12, |x, y| {
            Luma([(x * 6 + y * 3) as u8])
        }))),
        dynamic_png(DynamicImage::ImageRgb8(ImageBuffer::from_fn(40, 12, |x, y| {
            image::Rgb([(x * 6) as u8, (y * 20) as u8, 90u8])
        }))),
        dynamic_png(DynamicImage::ImageLuma16(ImageBuffer::from_fn(40, 12, |x, y| {
            Luma([(x * 1500 + y * 700) as u16])
        }))),
        dynamic_png(DynamicImage::ImageRgba8(ImageBuffer::from_fn(40, 12, |x, y| {
            image::Rgba([(x * 6) as u8, 200u8, (y * 20) as u8, 128u8])
        }))),
        dynamic_png(DynamicImage::ImageRgb16(ImageBuffer::from_fn(40, 12, |x, y| {
            image::Rgb([(x * 1600) as u16, (y * 5000) as u16, 30000u16])
        }))),
    ];
    for png in pngs {
        for max in [None, Some(16u16), Some(24u16)] {
            let gray = load_gray_bitmap(&png, max).unwrap();
            let limit = raster_max_width(max);
            let decoded = image::load_from_memory(&png).unwrap();
            let expected = if decoded.width() <= limit {
                decoded.to_luma8()
            } else {
                let height = scaled_height(decoded.width(), decoded.height(), limit);
                decoded.resize(limit, height, image::imageops::FilterType::Triangle).to_luma8()
            };
            assert_eq!((gray.width, gray.height), expected.dimensions());
            assert_eq!(gray.pixels, expected.into_raw());
        }
    }
}
