use valhalla_size_viz::tiles::{Encoding, TileId, TileIdError, MAX_TILE_IDS};

#[test]
fn encoding_header_values() {
    assert_eq!(Encoding::Identity.as_header_value(), "identity");
    assert_eq!(Encoding::Gzip.as_header_value(), "gzip");
    assert_eq!(Encoding::Zstd.as_header_value(), "zstd");
}

#[test]
fn encoding_deserialize_accepts_known_lowercase() {
    assert_eq!(Encoding::from_name("identity").unwrap(), Encoding::Identity);
    assert_eq!(Encoding::from_name("gzip").unwrap(), Encoding::Gzip);
    assert_eq!(Encoding::from_name("zstd").unwrap(), Encoding::Zstd);
}

#[test]
fn encoding_deserialize_rejects_unknown_and_uppercase() {
    assert!(Encoding::from_name("br").is_none());
    assert!(Encoding::from_name("Gzip").is_none());
    assert!(Encoding::from_name("ZSTD").is_none());
    assert!(Encoding::from_name("").is_none());
}

#[test]
fn names_read_back_as_their_encoding() {
    for encoding in [Encoding::Identity, Encoding::Gzip, Encoding::Zstd] {
        assert_eq!(Encoding::from_name(encoding.as_header_value()), Some(encoding));
    }
}

#[test]
fn to_path_matches_js_reference() {
    assert_eq!(
        TileId {
            level: 2,
            id: 818660
        }
        .to_path(),
        "2/818/660.gph"
    );
    assert_eq!(TileId { level: 0, id: 529 }.to_path(), "0/000/529.gph");
    assert_eq!(TileId { level: 1, id: 0 }.to_path(), "1/000/000.gph");
    assert_eq!(
        TileId {
            level: 2,
            id: 1_000
        }
        .to_path(),
        "2/001/000.gph"
    );
}

#[test]
fn to_path_widens_beyond_three_digits() {
    assert_eq!(
        TileId {
            level: 2,
            id: 1_036_799
        }
        .to_path(),
        "2/1036/799.gph"
    );
    assert_eq!(
        TileId {
            level: 255,
            id: u32::MAX
        }
        .to_path(),
        "255/4294967/295.gph"
    );
    assert_eq!(TileId { level: 10, id: 10_010 }.to_path(), "10/010/010.gph");
}

#[test]
fn distinct_tiles_have_distinct_paths() {
    let tiles = [
        TileId { level: 0, id: 1 },
        TileId { level: 1, id: 1 },
        TileId { level: 1, id: 1_000 },
        TileId { level: 1, id: 1_001 },
        TileId { level: 1, id: 10 },
    ];
    for (i, a) in tiles.iter().enumerate() {
        for (j, b) in tiles.iter().enumerate() {
            assert_eq!(a.to_path() == b.to_path(), i == j);
        }
    }
}

#[test]
fn validate_rejects_bad_level() {
    let err = TileId { level: 3, id: 0 }.validate().unwrap_err();
    assert_eq!(err, TileIdError::InvalidLevel { level: 3 });
    let err = TileId { level: 99, id: 0 }.validate().unwrap_err();
    assert_eq!(err, TileIdError::InvalidLevel { level: 99 });
}

#[test]
fn validate_rejects_id_out_of_range() {
    let err = TileId {
        level: 0,
        id: 4_050,
    }
    .validate()
    .unwrap_err();
    assert_eq!(
        err,
        TileIdError::IdOutOfRange {
            level: 0,
            id: 4_050,
            max: 4_049
        }
    );
    let err = TileId {
        level: 2,
        id: 1_036_800,
    }
    .validate()
    .unwrap_err();
    assert_eq!(
        err,
        TileIdError::IdOutOfRange {
            level: 2,
            id: 1_036_800,
            max: 1_036_799
        }
    );
}

#[test]
fn validate_accepts_boundary_values() {
    assert!(TileId { level: 0, id: 0 }.validate().is_ok());
    assert!(TileId {
        level: 0,
        id: 4_049
    }
    .validate()
    .is_ok());
    assert!(TileId {
        level: 1,
        id: 64_799
    }
    .validate()
    .is_ok());
    assert!(TileId {
        level: 2,
        id: 1_036_799
    }
    .validate()
    .is_ok());
}

#[test]
fn validate_rejects_the_first_id_after_each_grid() {
    for level in 0..3u8 {
        let max = MAX_TILE_IDS[level as usize];
        assert_eq!(TileId { level, id: max }.validate(), Ok(()));
        assert_eq!(
            TileId { level, id: max + 1 }.validate(),
            Err(TileIdError::IdOutOfRange {
                level,
                id: max + 1,
                max
            })
        );
    }
}

#[test]
fn last_row_and_column_is_the_largest_id() {
    let (columns, rows) = (360, 180);
    let corner = TileId {
        level: 1,
        id: (rows - 1) * columns + (columns - 1),
    };
    assert_eq!(corner.validate(), Ok(()));
    let below = TileId {
        level: 1,
        id: rows * columns,
    };
    assert!(below.validate().is_err());
}

#[test]
fn tile_id_error_messages() {
    assert_eq!(
        TileIdError::InvalidLevel { level: 99 }.message(),
        "invalid level 99, expected 0, 1, or 2"
    );
    assert_eq!(
        TileIdError::IdOutOfRange {
            level: 0,
            id: 99_999,
            max: 4_049
        }
        .message(),
        "tile id 99999 out of range for level 0 (max 4049)"
    );
}
