use tauri_plugin_escpos::{
    BarcodeSymbology, Block, CharacterSet, ErrorCode, PaperWidth, PrintDocument,
};

#[test]
fn document_defaults_to_80mm_and_pc858() {
    let document = PrintDocument {
        paper_width_mm: None,
        character_set: None,
        blocks: vec![],
    };

    assert_eq!(document.paper_width_mm(), PaperWidth::Mm80);
    assert_eq!(document.character_set(), CharacterSet::Pc858);
    assert_eq!(document.characters_per_line(), 48);
}

#[test]
fn rejects_columns_without_content() {
    let block = Block::Columns {
        columns: vec![],
        widths_exceed_line: false,
    };

    let error = block.validate().unwrap_err();

    assert_eq!(error.code, ErrorCode::InvalidDocument);
    assert_eq!(error.message, "Columns block must contain at least one column");
}

#[test]
fn rejects_invalid_ean13_data() {
    let block = Block::Barcode {
        value: "not-an-ean".into(),
        symbology: BarcodeSymbology::Ean13,
        align: None,
        print_value: None,
    };

    let error = block.validate().unwrap_err();

    assert_eq!(error.code, ErrorCode::InvalidDocument);
    assert_eq!(error.message, "EAN-13 barcode must contain 12 or 13 digits");
}
