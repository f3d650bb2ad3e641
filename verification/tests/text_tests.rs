use adf::reflect::AdfReflectedScalar;
use adf::types::{AdfPrimitive, AdfScalarType, AdfType};
use adf::reflect::AdfReflectionContext;
use adf::types::{AdfFile, AdfVersion};
use adf::xls::{cell_to_xml, sheet_cell_at, Collection, XlsAttribute, XlsBook, XlsCell, XlsError, XlsSheet, XmlCellKind};
use adf::xml::{display_name, ADF_NAME_FUEL};
use adf::xml::{dec_i64, dec_u64, parse_i64, parse_u64, scalar_string, scalar_value};

fn scalar_type(st: AdfScalarType, size: u32) -> AdfType {
    AdfType {
        primitive: AdfPrimitive::Scalar,
        size,
        alignment: size,
        type_hash: 1,
        name: b"s".to_vec(),
        flags: 0,
        scalar_type: st,
        element_type_hash: 0,
        element_length: 0,
        members: Vec::new(),
        enumerations: Vec::new(),
    }
}

#[test]
fn decimal_formatting_and_parsing_invert() {
    for v in [0u64, 7, 10, 255, 65536, u64::MAX] {
        let text = dec_u64(v);
        assert_eq!(parse_u64(&text), Some(v));
    }
    for v in [0i64, -1, 42, i64::MIN, i64::MAX] {
        let text = dec_i64(v);
        assert_eq!(parse_i64(&text), Some(v));
    }
}

#[test]
fn decimal_parsing_rejects_junk_and_overflow() {
    assert_eq!(parse_u64(b""), None);
    assert_eq!(parse_u64(b"12a"), None);
    assert_eq!(parse_u64(b"18446744073709551616"), None);
    assert_eq!(parse_u64(b"18446744073709551615"), Some(u64::MAX));
}

#[test]
fn scalar_text_round_trips_through_its_type() {
    let t = scalar_type(AdfScalarType::Signed, 4);
    let text = scalar_string(&AdfReflectedScalar::I32(-77));
    assert_eq!(text, b"-77".to_vec());
    assert_eq!(scalar_value(&text, &t), Ok(AdfReflectedScalar::I32(-77)));
    let tu = scalar_type(AdfScalarType::Unsigned, 2);
    let text2 = scalar_string(&AdfReflectedScalar::U16(65535));
    assert_eq!(scalar_value(&text2, &tu), Ok(AdfReflectedScalar::U16(65535)));
}

#[test]
fn float_scalars_project_as_bit_patterns() {
    let tf = scalar_type(AdfScalarType::Float, 4);
    let bits = 1078530011u32;
    let text = scalar_string(&AdfReflectedScalar::F32Bits(bits));
    assert_eq!(scalar_value(&text, &tf), Ok(AdfReflectedScalar::F32Bits(bits)));
}

#[test]
fn cell_pool_deduplicates_by_value() {
    let mut cells: Collection<XlsCell> = Collection::new();
    let a = XlsCell { kind: 1, data_index: 0, attribute_index: 0 };
    let b = XlsCell { kind: 2, data_index: 5, attribute_index: 1 };
    let ia = cells.index(&a);
    let ib = cells.index(&b);
    let ia2 = cells.index(&a);
    assert_eq!(ia, 0);
    assert_eq!(ib, 1);
    assert_eq!(ia2, ia);
    assert_eq!(cells.values.len(), 2);
}

#[test]
fn attribute_and_color_pools_deduplicate() {
    let mut attrs: Collection<XlsAttribute> = Collection::new();
    let x = XlsAttribute { fg_color_index: 1, bg_color_index: 2 };
    assert_eq!(attrs.index(&x), 0);
    assert_eq!(attrs.index(&x), 0);
    let mut colors: Collection<u32> = Collection::new();
    assert_eq!(colors.index(0xffffff), 0);
    assert_eq!(colors.index(0x000000), 1);
    assert_eq!(colors.index(0xffffff), 0);
    assert_eq!(colors.values, vec![0xffffff, 0x000000]);
}

#[test]
fn string_pool_returns_shared_text() {
    let mut strings: Collection<Vec<u8>> = Collection::new();
    let first = strings.index(b"name");
    let text = strings.value(b"name");
    assert_eq!(first, 0);
    assert_eq!(text, b"name".to_vec());
    assert_eq!(strings.index(b"other"), 1);
    assert_eq!(strings.index(b"name"), 0);
    assert_eq!(strings.values.len(), 2);
}

#[test]
fn workbook_cell_resolves_kind_text_and_colors() {
    let book = XlsBook {
        sheet: vec![XlsSheet {
            cols: 2,
            rows: 1,
            cell_index: vec![0, 1],
            name: b"one".to_vec(),
        }],
        cell: vec![
            XlsCell { kind: 1, data_index: 0, attribute_index: 0 },
            XlsCell { kind: 2, data_index: 0, attribute_index: 0 },
        ],
        string_data: vec![b"title".to_vec()],
        value_data: vec![1078530011],
        bool_data: Vec::new(),
        date_data: Vec::new(),
        color_data: vec![0xffffff, 0x0000ff],
        attribute: vec![XlsAttribute { fg_color_index: 1, bg_color_index: 2 }],
    };
    let idx = sheet_cell_at(&book.sheet[0], 0, 0).expect("index");
    let cell = cell_to_xml(&book, idx).expect("cell");
    assert_eq!(cell.kind, XmlCellKind::String);
    assert_eq!(cell.value, b"title".to_vec());
    assert_eq!(cell.foreground_color, 0x0000ff);
    assert_eq!(cell.background_color, 0xffffff);
    let idx2 = sheet_cell_at(&book.sheet[0], 1, 0).expect("index");
    let cell2 = cell_to_xml(&book, idx2).expect("cell");
    assert_eq!(cell2.kind, XmlCellKind::Value);
    assert_eq!(cell2.value, b"1078530011".to_vec());
    assert!(matches!(cell_to_xml(&book, 7), Err(XlsError::MissingCell)));
}

#[test]
fn display_names_follow_the_structural_scheme() {
    let elem = AdfType {
        primitive: AdfPrimitive::Scalar,
        size: 4,
        alignment: 4,
        type_hash: 1,
        name: b"uint32".to_vec(),
        flags: 0,
        scalar_type: AdfScalarType::Unsigned,
        element_type_hash: 0,
        element_length: 0,
        members: Vec::new(),
        enumerations: Vec::new(),
    };
    let mut ptr = elem.clone();
    ptr.primitive = AdfPrimitive::Pointer;
    ptr.type_hash = 2;
    ptr.element_type_hash = 1;
    let mut arr = elem.clone();
    arr.primitive = AdfPrimitive::InlineArray;
    arr.type_hash = 3;
    arr.element_type_hash = 1;
    arr.element_length = 3;
    let mut ctx = AdfReflectionContext::new();
    ctx.load_types_from_file(&AdfFile {
        version: AdfVersion::V4,
        instances: Vec::new(),
        types: vec![elem, ptr, arr],
        hashes: Vec::new(),
        description: Vec::new(),
    });
    assert_eq!(display_name(&ctx, 1, ADF_NAME_FUEL), Some(b"u32".to_vec()));
    assert_eq!(
        display_name(&ctx, 2, ADF_NAME_FUEL),
        Some(b"Pointer[u32]".to_vec())
    );
    assert_eq!(
        display_name(&ctx, 3, ADF_NAME_FUEL),
        Some(b"[u32; 3]".to_vec())
    );
    assert_eq!(display_name(&ctx, 9, ADF_NAME_FUEL), None);
}
