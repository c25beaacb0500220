use base64::engine::general_purpose::URL_SAFE_NO_PAD;
use base64::Engine;
use maze_defence::core_types::geometry::CellCoord;
use maze_defence::core_types::values::TowerKind;
use maze_defence::transfer::codec::TowerLayoutTower;
use maze_defence::transfer::error::LayoutTransferError;
use maze_defence::transfer::import::LayoutImportError;
use maze_defence::transfer::legacy::whole_number_f32_bits;
use maze_defence::transfer::snapshot::TowerLayoutSnapshot;

fn legacy_string(dimensions: &str, json: &str) -> String {
    format!("maze:v1:{dimensions}:{}", URL_SAFE_NO_PAD.encode(json.as_bytes()))
}

#[test]
fn legacy_layout_with_towers_decodes() {
    let value = "maze:v1:12x8:eyJjb2x1bW5zIjoxMiwicm93cyI6OCwidGlsZV9sZW5ndGgiOjY0LjAsImNlbGxzX3Blcl90aWxlIjo0LCJ0b3dlcnMiOlt7ImtpbmQiOiJCYXNpYyIsIm9yaWdpbiI6eyJjb2x1bW4iOjUsInJvdyI6N319LHsia2luZCI6IkJhc2ljIiwib3JpZ2luIjp7ImNvbHVtbiI6MTIsInJvdyI6NH19XX0";
    let decoded = TowerLayoutSnapshot::decode(value).expect("legacy layout decodes");
    let expected = TowerLayoutSnapshot {
        columns: 12,
        rows: 8,
        tile_length_bits: 64.0f32.to_bits(),
        cells_per_tile: 4,
        towers: vec![
            TowerLayoutTower { kind: TowerKind::Basic, origin: CellCoord::new(5, 7) },
            TowerLayoutTower { kind: TowerKind::Basic, origin: CellCoord::new(12, 4) },
        ],
    };
    assert_eq!(decoded, expected);
}

#[test]
fn legacy_layout_without_towers_and_whole_tile_length_decodes() {
    let value = legacy_string(
        "20x15",
        r#"{"columns":20,"rows":15,"tile_length":96,"cells_per_tile":6,"towers":[]}"#,
    );
    let decoded = TowerLayoutSnapshot::decode(&value).expect("legacy layout decodes");
    assert_eq!((decoded.columns, decoded.rows, decoded.cells_per_tile), (20, 15, 6));
    assert_eq!(decoded.tile_length_bits, 96.0f32.to_bits());
    assert!(decoded.towers.is_empty());
}

#[test]
fn legacy_layout_dimensions_of_the_string_win() {
    let value = legacy_string(
        "7x5",
        r#"{"columns":3,"rows":2,"tile_length":1.0,"cells_per_tile":1,"towers":[{"kind":"Basic","origin":{"column":0,"row":1}}]}"#,
    );
    let decoded = TowerLayoutSnapshot::decode(&value).expect("legacy layout decodes");
    assert_eq!((decoded.columns, decoded.rows), (7, 5));
    assert_eq!(decoded.tile_length_bits, 1.0f32.to_bits());
    assert_eq!(decoded.towers, vec![TowerLayoutTower { kind: TowerKind::Basic, origin: CellCoord::new(0, 1) }]);
}

#[test]
fn legacy_layout_errors_are_reported() {
    let fractional = legacy_string(
        "4x4",
        r#"{"columns":4,"rows":4,"tile_length":96.5,"cells_per_tile":1,"towers":[]}"#,
    );
    assert!(matches!(TowerLayoutSnapshot::decode(&fractional), Err(LayoutTransferError::InvalidLegacyPayload)));
    let trailing_comma = legacy_string(
        "4x4",
        r#"{"columns":4,"rows":4,"tile_length":2.0,"cells_per_tile":1,"towers":[{"kind":"Basic","origin":{"column":0,"row":0}},]}"#,
    );
    assert!(matches!(TowerLayoutSnapshot::decode(&trailing_comma), Err(LayoutTransferError::InvalidLegacyPayload)));
    let trailing_text = legacy_string(
        "4x4",
        r#"{"columns":4,"rows":4,"tile_length":2.0,"cells_per_tile":1,"towers":[]} "#,
    );
    assert!(matches!(TowerLayoutSnapshot::decode(&trailing_text), Err(LayoutTransferError::InvalidLegacyPayload)));
    assert!(matches!(TowerLayoutSnapshot::decode("maze:v1:4x4:%%%"), Err(LayoutTransferError::InvalidEncoding(_))));
    assert!(matches!(
        TowerLayoutSnapshot::decode("maze:v1:0x4:e30"),
        Err(LayoutTransferError::InvalidDimensions(d)) if d == "0x4"
    ));
}

#[test]
fn whole_numbers_map_to_their_float_bits() {
    for n in [0u32, 1, 2, 3, 7, 64, 96, 100, 12_345, 1 << 23, (1 << 24) - 1, 1 << 24] {
        assert_eq!(whole_number_f32_bits(n), (n as f32).to_bits(), "bits of {n}");
    }
}

#[test]
fn layout_transfer_errors_have_messages() {
    assert_eq!(LayoutTransferError::EmptyPayload.message(), "clipboard payload was empty");
    assert_eq!(
        LayoutTransferError::InvalidPrefix("maize".to_string()).message(),
        "layout prefix 'maize' is not supported"
    );
    assert_eq!(
        LayoutTransferError::InvalidDimensions("0x4".to_string()).message(),
        "could not parse grid dimensions '0x4'"
    );
    assert_eq!(
        LayoutTransferError::UnknownTowerKind(7).message(),
        "binary layout payload referenced unknown tower kind 7"
    );
    assert_eq!(
        LayoutTransferError::InvalidLegacyPayload.message(),
        "legacy layout payload is not a valid layout"
    );
    match TowerLayoutSnapshot::decode("maze:v2:4x4:%%%") {
        Err(error) => assert!(error.message().starts_with("could not decode layout payload: ")),
        Ok(_) => panic!("invalid base64 must be refused"),
    }
}

#[test]
fn layout_import_errors_have_messages() {
    assert_eq!(
        LayoutImportError::ColumnMismatch { expected: 10, observed: 12 }.message().as_deref(),
        Some("Layout uses 12 columns but the current map expects 10.")
    );
    assert_eq!(
        LayoutImportError::RowMismatch { expected: 9, observed: 8 }.message().as_deref(),
        Some("Layout uses 8 rows but the current map expects 9.")
    );
    assert_eq!(
        LayoutImportError::CellsPerTileMismatch { expected: 4, observed: 2 }.message().as_deref(),
        Some("Layout was authored with 2 cells per tile but the map is configured for 4.")
    );
    assert_eq!(
        LayoutImportError::RestorationMismatch { expected: 3, observed: 1 }.message().as_deref(),
        Some("Restored 1 towers but the layout specified 3.")
    );
    assert_eq!(LayoutImportError::TileLengthMismatch { expected_bits: 0, observed_bits: 1 }.message(), None);
}
