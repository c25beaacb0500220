use maze_defence::core_types::geometry::CellCoord;
use maze_defence::core_types::values::TowerKind;
use maze_defence::transfer::codec::{
    decode_payload, decode_tower_kind, decode_varint, encode_payload, encode_varint, read_u32, read_u8,
    TowerLayoutTower,
};
use maze_defence::transfer::error::LayoutTransferError;
use maze_defence::transfer::snapshot::{parse_dimensions, TowerLayoutSnapshot, SNAPSHOT_HEADER_V2};

#[test]
fn round_trip_empty_layout() {
    let snapshot = TowerLayoutSnapshot {
        columns: 12,
        rows: 8,
        tile_length_bits: 64.0f32.to_bits(),
        cells_per_tile: 4,
        towers: Vec::new(),
    };

    let encoded = snapshot.encode();
    assert!(encoded.starts_with(&format!("{SNAPSHOT_HEADER_V2}:12x8:")));

    let decoded = TowerLayoutSnapshot::decode(&encoded).expect("snapshot decodes");
    assert_eq!(snapshot, decoded);
}

#[test]
fn round_trip_populated_layout() {
    let towers = vec![
        TowerLayoutTower {
            kind: TowerKind::Basic,
            origin: CellCoord::new(5, 7),
        },
        TowerLayoutTower {
            kind: TowerKind::Basic,
            origin: CellCoord::new(12, 4),
        },
    ];
    let snapshot = TowerLayoutSnapshot {
        columns: 20,
        rows: 15,
        tile_length_bits: 96.0f32.to_bits(),
        cells_per_tile: 6,
        towers,
    };

    let encoded = snapshot.encode();
    assert!(encoded.starts_with(&format!("{SNAPSHOT_HEADER_V2}:20x15:")));

    let decoded = TowerLayoutSnapshot::decode(&encoded).expect("snapshot decodes");
    assert_eq!(snapshot, decoded);
}

#[test]
fn encoded_empty_layout_has_exact_text() {
    let snapshot = TowerLayoutSnapshot {
        columns: 12,
        rows: 8,
        tile_length_bits: 64.0f32.to_bits(),
        cells_per_tile: 4,
        towers: Vec::new(),
    };
    // Payload: varint 4, little-endian bits of 64.0 (0x42800000), varint 0.
    assert_eq!(snapshot.encode(), "maze:v2:12x8:BAAAgEIA");
}

#[test]
fn decode_tolerates_surrounding_white_space_and_upper_case_separator() {
    let decoded = TowerLayoutSnapshot::decode("  maze:v2: 12 X 8 :BAAAgEIA\n").expect("snapshot decodes");
    assert_eq!((decoded.columns, decoded.rows, decoded.cells_per_tile), (12, 8, 4));
    assert_eq!(f32::from_bits(decoded.tile_length_bits), 64.0);
    assert!(decoded.towers.is_empty());
}

#[test]
fn decode_reports_each_error() {
    assert!(matches!(TowerLayoutSnapshot::decode("   "), Err(LayoutTransferError::EmptyPayload)));
    assert!(matches!(TowerLayoutSnapshot::decode("maze"), Err(LayoutTransferError::MissingVersion)));
    assert!(matches!(TowerLayoutSnapshot::decode("maze:v2"), Err(LayoutTransferError::MissingDimensions)));
    assert!(matches!(TowerLayoutSnapshot::decode("maze:v2:3x3"), Err(LayoutTransferError::MissingPayload)));
    assert!(matches!(
        TowerLayoutSnapshot::decode("maize:v2:3x3:AA"),
        Err(LayoutTransferError::InvalidPrefix(p)) if p == "maize"
    ));
    assert!(matches!(
        TowerLayoutSnapshot::decode("maze:v9:3x3:AA"),
        Err(LayoutTransferError::UnsupportedVersion(v)) if v == "v9"
    ));
    assert!(matches!(
        TowerLayoutSnapshot::decode("maze:v2:0x3:AA"),
        Err(LayoutTransferError::InvalidDimensions(d)) if d == "0x3"
    ));
    assert!(matches!(
        TowerLayoutSnapshot::decode("maze:v2:3x3:***"),
        Err(LayoutTransferError::InvalidEncoding(_))
    ));
    assert!(matches!(
        TowerLayoutSnapshot::decode("maze:v2:3x3:BA"),
        Err(LayoutTransferError::TruncatedBinaryPayload)
    ));
}

#[test]
fn parse_dimensions_accepts_both_separators() {
    assert_eq!(parse_dimensions("12x8").ok(), Some((12, 8)));
    assert_eq!(parse_dimensions(" 3 X 4 ").ok(), Some((3, 4)));
    assert!(parse_dimensions("12").is_err());
    assert!(parse_dimensions("0x4").is_err());
    assert!(parse_dimensions("ax4").is_err());
}

#[test]
fn varints_round_trip_and_reject_overflow() {
    for value in [0u32, 1, 127, 128, 300, 16_384, u32::MAX] {
        let mut buffer = Vec::new();
        encode_varint(value, &mut buffer);
        let mut cursor = 0;
        assert_eq!(decode_varint(&buffer, &mut cursor).ok(), Some(value));
        assert_eq!(cursor, buffer.len());
    }
    let mut buffer = Vec::new();
    encode_varint(300, &mut buffer);
    assert_eq!(buffer, vec![0xac, 0x02]);

    let mut cursor = 0;
    assert!(matches!(
        decode_varint(&[0xff, 0xff, 0xff, 0xff, 0xff], &mut cursor),
        Err(LayoutTransferError::VarintOverflow)
    ));
    // Bits shifted past the 32nd are dropped.
    let mut cursor = 0;
    assert_eq!(decode_varint(&[0xff, 0xff, 0xff, 0xff, 0x10], &mut cursor).ok(), Some(0x0fff_ffff));
    let mut cursor = 0;
    assert!(matches!(
        decode_varint(&[0x80], &mut cursor),
        Err(LayoutTransferError::TruncatedBinaryPayload)
    ));
}

#[test]
fn fixed_width_reads_are_little_endian() {
    let bytes = [0x78, 0x56, 0x34, 0x12, 0x09];
    let mut cursor = 0;
    assert_eq!(read_u32(&bytes, &mut cursor).ok(), Some(0x1234_5678));
    assert_eq!(read_u8(&bytes, &mut cursor).ok(), Some(9));
    assert!(matches!(read_u8(&bytes, &mut cursor), Err(LayoutTransferError::TruncatedBinaryPayload)));
}

use maze_defence::core_types::messages::Command;
use maze_defence::core_types::time::Duration;
use maze_defence::core_types::values::{PlayMode, TileCoord};
use maze_defence::transfer::import::{
    capture_layout_snapshot, check_restoration, layout_import_commands, LayoutImportError,
};
use maze_defence::world::apply::apply;
use maze_defence::world::query;
use maze_defence::world::state::World;

fn configured_world(columns: u32, rows: u32, tile_length_bits: u32, cells_per_tile: u32) -> World {
    let mut world = World::new();
    let mut events = Vec::new();
    apply(
        &mut world,
        Command::ConfigureTileGrid {
            columns: TileCoord::new(columns),
            rows: TileCoord::new(rows),
            tile_length_bits,
            cells_per_tile,
        },
        &mut events,
    );
    apply(
        &mut world,
        Command::ConfigureBugStep { step_duration: Duration::from_millis(250) },
        &mut events,
    );
    world
}

#[test]
fn layout_import_bypasses_gold_costs() {
    let snapshot = TowerLayoutSnapshot::decode("maze:v2:10x10:BAAAyEJDABMlAA8jAAklAA0ZABEdABUfABkjAB8lAB8hABsdABcZABMXAA8TAAkVAAkRAA0NABENABURABkTAB0XAB8RACMVACMZAB8dABsNABcLABMHAA8HAAsHAAcLAAUBAAkBAA0BABEBABUBABkBAB0BACEBACUBACUFACUJACUNACURACUdACUhACUlACEJACEFABsJABcHAB8NAB0FAAcHAA0dAAEBAAEFAAEJAAENAAEVAAkdAAEZAAEdAAchAAcZAAMRAAUlAAEj")
        .expect("snapshot should decode");

    let mut world = configured_world(
        snapshot.columns,
        snapshot.rows,
        snapshot.tile_length_bits,
        snapshot.cells_per_tile,
    );

    let initial_gold = query::gold(&world);
    let required_gold: u32 = snapshot
        .towers
        .iter()
        .map(|tower| tower.kind.build_cost().get())
        .sum();
    assert!(required_gold > initial_gold.get());

    let commands =
        layout_import_commands(&world, &snapshot, true).expect("layout restoration should succeed");
    let mut events = Vec::new();
    for command in commands {
        apply(&mut world, command, &mut events);
    }
    check_restoration(snapshot.towers.len(), query::towers(&world).iter().len())
        .expect("layout restoration should succeed");

    let restored = query::towers(&world);
    assert_eq!(restored.iter().iter().count(), snapshot.towers.len());
    assert_eq!(query::gold(&world), initial_gold);
    assert_eq!(query::play_mode(&world), PlayMode::Builder);

    let captured = capture_layout_snapshot(&world);
    assert_eq!(captured.towers.len(), snapshot.towers.len());
    assert_eq!(captured.columns, 10);
    assert_eq!(captured.cells_per_tile, snapshot.cells_per_tile);
}

#[test]
fn layout_import_reports_the_first_mismatch() {
    let mut world = configured_world(10, 8, 100.0f32.to_bits(), 4);
    let mut events = Vec::new();
    apply(&mut world, Command::SetPlayMode { mode: PlayMode::Attack }, &mut events);
    let layout = |columns: u32, rows: u32, cells_per_tile: u32| TowerLayoutSnapshot {
        columns,
        rows,
        tile_length_bits: 100.0f32.to_bits(),
        cells_per_tile,
        towers: Vec::new(),
    };
    assert_eq!(
        layout_import_commands(&world, &layout(12, 9, 3), true).err(),
        Some(LayoutImportError::ColumnMismatch { expected: 10, observed: 12 })
    );
    assert_eq!(
        layout_import_commands(&world, &layout(10, 9, 3), true).err(),
        Some(LayoutImportError::RowMismatch { expected: 8, observed: 9 })
    );
    assert_eq!(
        layout_import_commands(&world, &layout(10, 8, 3), true).err(),
        Some(LayoutImportError::CellsPerTileMismatch { expected: 4, observed: 3 })
    );
    assert_eq!(
        layout_import_commands(&world, &layout(10, 8, 4), false).err(),
        Some(LayoutImportError::TileLengthMismatch {
            expected_bits: 100.0f32.to_bits(),
            observed_bits: 100.0f32.to_bits(),
        })
    );
    assert_eq!(
        layout_import_commands(&world, &layout(10, 8, 4), true).ok(),
        Some(vec![
            Command::SetPlayMode { mode: PlayMode::Builder },
            Command::SetPlayMode { mode: PlayMode::Attack },
        ])
    );
    assert_eq!(
        check_restoration(3, 2),
        Err(LayoutImportError::RestorationMismatch { expected: 3, observed: 2 })
    );
}

#[test]
fn payload_errors_name_unknown_kinds_and_trailing_bytes() {
    assert!(matches!(decode_tower_kind(9), Err(LayoutTransferError::UnknownTowerKind(9))));
    assert!(matches!(decode_tower_kind(0), Ok(TowerKind::Basic)));

    let towers = [TowerLayoutTower { kind: TowerKind::Basic, origin: CellCoord::new(3, 300) }];
    let mut payload = encode_payload(4, 7, &towers);
    assert_eq!(payload, vec![4, 7, 0, 0, 0, 1, 0, 3, 0xac, 0x02]);
    let decoded = decode_payload(&payload).ok().expect("payload decodes");
    assert_eq!(decoded.0, 4);
    assert_eq!(decoded.1, 7);
    assert_eq!(decoded.2, towers.to_vec());

    payload.push(0);
    assert!(matches!(decode_payload(&payload), Err(LayoutTransferError::TrailingBinaryData)));
}
