use cubing::alg::Alg;
use cubing::kpuzzle::ConversionError;
use cubing::kpuzzle::KPattern;
use cubing::kpuzzle::KPatternBuffer;
use cubing::kpuzzle::KPatternData;
use cubing::kpuzzle::KPatternOrbitData;
use cubing::kpuzzle::KPuzzle;
use cubing::kpuzzle::KPuzzleDefinition;
use cubing::kpuzzle::KPuzzleOrbitDefinition;
use cubing::kpuzzle::KTransformation;
use cubing::kpuzzle::KTransformationBuffer;
use cubing::kpuzzle::KTransformationData;
use cubing::kpuzzle::KTransformationOrbitData;

fn small_def() -> KPuzzleDefinition {
    KPuzzleDefinition {
        name: "small".into(),
        orbits: vec![
            KPuzzleOrbitDefinition {
                orbit_name: "A".into(),
                num_pieces: 3,
                num_orientations: 2,
            },
            KPuzzleOrbitDefinition {
                orbit_name: "B".into(),
                num_pieces: 2,
                num_orientations: 4,
            },
        ],
        default_pattern: KPatternData {
            entries: vec![
                (
                    "A".into(),
                    KPatternOrbitData {
                        pieces: vec![0, 1, 2],
                        orientation: vec![0; 3],
                        orientation_mod: None,
                    },
                ),
                (
                    "B".into(),
                    KPatternOrbitData {
                        pieces: vec![0, 1],
                        orientation: vec![0; 2],
                        orientation_mod: None,
                    },
                ),
            ],
        },
        moves: vec![(
            "M".try_into().unwrap(),
            KTransformationData {
                entries: vec![
                    (
                        "A".into(),
                        KTransformationOrbitData {
                            permutation: vec![1, 2, 0],
                            orientation_delta: vec![1, 0, 1],
                        },
                    ),
                    (
                        "B".into(),
                        KTransformationOrbitData {
                            permutation: vec![1, 0],
                            orientation_delta: vec![3, 1],
                        },
                    ),
                ],
            },
        )],
        derived_moves: None,
    }
}

#[test]
fn packed_buffer_layout_is_per_orbit_segments() {
    let kpuzzle = KPuzzle::try_new(small_def()).unwrap();
    let data = KPatternData {
        entries: vec![
            (
                "A".into(),
                KPatternOrbitData {
                    pieces: vec![2, 1, 0],
                    orientation: vec![1, 0, 1],
                    orientation_mod: None,
                },
            ),
            (
                "B".into(),
                KPatternOrbitData {
                    pieces: vec![1, 0],
                    orientation: vec![3, 2],
                    orientation_mod: None,
                },
            ),
        ],
    };
    let pattern = KPattern::try_from_data(&kpuzzle, &data).unwrap();
    // Orbit A: permutation bytes, then orientation bytes; orbit B follows.
    assert_eq!(pattern.byte_slice(), &[2, 1, 0, 1, 0, 1, 1, 0, 3, 2]);
}

#[test]
fn orientation_round_trip_through_pattern_data() {
    let kpuzzle = KPuzzle::try_new(small_def()).unwrap();
    // Orbit B has 4 orientations; moduli 1, 2 and 4 all divide it.
    let data = KPatternData {
        entries: vec![
            (
                "A".into(),
                KPatternOrbitData {
                    pieces: vec![0, 1, 2],
                    orientation: vec![1, 0, 1],
                    orientation_mod: Some(vec![0, 1, 2]),
                },
            ),
            (
                "B".into(),
                KPatternOrbitData {
                    pieces: vec![0, 1],
                    orientation: vec![3, 1],
                    orientation_mod: Some(vec![4, 2]),
                },
            ),
        ],
    };
    let pattern = KPattern::try_from_data(&kpuzzle, &data).unwrap();
    let out = pattern.to_data();
    assert_eq!(out.entries.len(), 2);
    let (name_a, orbit_a) = &out.entries[0];
    assert_eq!(name_a, &"A".into());
    assert_eq!(orbit_a.pieces, vec![0, 1, 2]);
    assert_eq!(orbit_a.orientation, vec![1, 0, 1]);
    assert_eq!(orbit_a.orientation_mod, Some(vec![0, 1, 2]));
    let (name_b, orbit_b) = &out.entries[1];
    assert_eq!(name_b, &"B".into());
    assert_eq!(orbit_b.orientation, vec![3, 1]);
    assert_eq!(orbit_b.orientation_mod, Some(vec![4, 2]));
}

#[test]
fn orientation_mod_must_divide_orientation_count() {
    let kpuzzle = KPuzzle::try_new(small_def()).unwrap();
    let data = KPatternData {
        entries: vec![
            (
                "A".into(),
                KPatternOrbitData {
                    pieces: vec![0, 1, 2],
                    orientation: vec![0; 3],
                    orientation_mod: None,
                },
            ),
            (
                "B".into(),
                KPatternOrbitData {
                    pieces: vec![0, 1],
                    orientation: vec![0, 0],
                    orientation_mod: Some(vec![3, 1]),
                },
            ),
        ],
    };
    match KPattern::try_from_data(&kpuzzle, &data) {
        Err(ConversionError::InvalidKPatternData(e)) => {
            assert!(e.description.contains("orientation_mod"));
        }
        _ => panic!("expected an invalid pattern data error"),
    }
}

#[test]
fn pattern_data_with_missing_orbit_is_rejected() {
    let kpuzzle = KPuzzle::try_new(small_def()).unwrap();
    let data = KPatternData {
        entries: vec![(
            "A".into(),
            KPatternOrbitData {
                pieces: vec![0, 1, 2],
                orientation: vec![0; 3],
                orientation_mod: None,
            },
        )],
    };
    assert!(KPattern::try_from_data(&kpuzzle, &data).is_err());
}

#[test]
fn transformation_data_shape_is_checked() {
    let kpuzzle = KPuzzle::try_new(small_def()).unwrap();
    let bad = KTransformationData {
        entries: vec![
            (
                "A".into(),
                KTransformationOrbitData {
                    permutation: vec![1, 2, 3],
                    orientation_delta: vec![0, 0, 0],
                },
            ),
            (
                "B".into(),
                KTransformationOrbitData {
                    permutation: vec![0, 1],
                    orientation_delta: vec![0, 0],
                },
            ),
        ],
    };
    // Permutation target 3 is outside a 3-piece orbit.
    assert!(KTransformation::try_from_data(&kpuzzle, &bad).is_err());
    let good = KTransformationData {
        entries: vec![
            (
                "A".into(),
                KTransformationOrbitData {
                    permutation: vec![1, 2, 0],
                    orientation_delta: vec![0, 1, 1],
                },
            ),
            (
                "B".into(),
                KTransformationOrbitData {
                    permutation: vec![0, 1],
                    orientation_delta: vec![0, 0],
                },
            ),
        ],
    };
    let t = KTransformation::try_from_data(&kpuzzle, &good).unwrap();
    let out = t.to_data();
    assert_eq!(out.entries[0].1.permutation, vec![1, 2, 0]);
    assert_eq!(out.entries[0].1.orientation_delta, vec![0, 1, 1]);
}

#[test]
fn transformation_buffer_ping_pongs() {
    let kpuzzle = KPuzzle::try_new(small_def()).unwrap();
    let m = kpuzzle
        .transformation_from_alg(&"M".parse::<Alg>().unwrap())
        .unwrap();
    let mut buffer = KTransformationBuffer::from(kpuzzle.identity_transformation());
    buffer.apply_transformation(&m);
    assert_eq!(buffer.current(), &m);
    buffer.apply_transformation(&m);
    assert_eq!(
        buffer.current(),
        &m.apply_transformation(&m)
    );
}

#[test]
fn pattern_buffer_ping_pongs() {
    let kpuzzle = KPuzzle::try_new(small_def()).unwrap();
    let m = kpuzzle
        .transformation_from_alg(&"M".parse::<Alg>().unwrap())
        .unwrap();
    let start = kpuzzle.default_pattern();
    let mut buffer = KPatternBuffer::from(start.clone());
    buffer.apply_transformation(&m);
    assert_eq!(buffer.current(), &start.apply_transformation(&m));
    buffer.apply_transformation(&m);
    assert_eq!(
        buffer.current(),
        &start.apply_transformation(&m).apply_transformation(&m)
    );
}

#[test]
fn hashes_follow_the_packed_bytes() {
    let kpuzzle = KPuzzle::try_new(small_def()).unwrap();
    let start = kpuzzle.default_pattern();
    let moved = start
        .apply_alg(&"M".parse::<Alg>().unwrap())
        .unwrap();
    assert_eq!(start.hash(), kpuzzle.default_pattern().hash());
    assert_ne!(start.byte_slice(), moved.byte_slice());
    assert_ne!(start.hash(), moved.hash());
    let id = kpuzzle.identity_transformation();
    assert_eq!(id.hash(), kpuzzle.identity_transformation().hash());
}

#[test]
fn exact_and_inverse_move_lookups() {
    // A table keyed by `y2` (identity and amount) resolves `y2` at
    // relative amount 1 and `y2'` at relative amount -1.
    let def = KPuzzleDefinition {
        name: "clocklike".into(),
        orbits: vec![KPuzzleOrbitDefinition {
            orbit_name: "A".into(),
            num_pieces: 4,
            num_orientations: 1,
        }],
        default_pattern: KPatternData {
            entries: vec![(
                "A".into(),
                KPatternOrbitData {
                    pieces: vec![0, 1, 2, 3],
                    orientation: vec![0; 4],
                    orientation_mod: None,
                },
            )],
        },
        moves: vec![(
            "y2".try_into().unwrap(),
            KTransformationData {
                entries: vec![(
                    "A".into(),
                    KTransformationOrbitData {
                        permutation: vec![1, 2, 3, 0],
                        orientation_delta: vec![0; 4],
                    },
                )],
            },
        )],
        derived_moves: None,
    };
    let kpuzzle = KPuzzle::try_new(def).unwrap();
    let forward = kpuzzle
        .transformation_from_move(&"y2".parse().unwrap())
        .unwrap();
    let backward = kpuzzle
        .transformation_from_move(&"y2'".parse().unwrap())
        .unwrap();
    assert_eq!(backward, forward.invert());
    assert_eq!(
        forward.apply_transformation(&backward),
        kpuzzle.identity_transformation()
    );
}

#[test]
fn checked_accessors_round_trip_orientations() {
    let kpuzzle = KPuzzle::try_new(small_def()).unwrap();
    let data = KPatternData {
        entries: vec![
            (
                "A".into(),
                KPatternOrbitData {
                    pieces: vec![2, 0, 1],
                    orientation: vec![1, 0, 0],
                    orientation_mod: Some(vec![0, 1, 2]),
                },
            ),
            (
                "B".into(),
                KPatternOrbitData {
                    pieces: vec![0, 1],
                    orientation: vec![3, 1],
                    orientation_mod: Some(vec![0, 2]),
                },
            ),
        ],
    };
    let pattern = KPattern::try_from_data(&kpuzzle, &data).unwrap();
    let info_a = kpuzzle.lookup_orbit_info(&"A".into()).unwrap();
    assert_eq!(pattern.get_piece(info_a, 0), 2);
    assert_eq!(pattern.get_piece(info_a, 2), 1);
    let pair = pattern.get_orientation_with_mod(info_a, 0);
    assert_eq!((pair.orientation, pair.orientation_mod), (1, 0));
    let pair = pattern.get_orientation_with_mod(info_a, 2);
    assert_eq!((pair.orientation, pair.orientation_mod), (0, 2));
    let info_b = kpuzzle.lookup_orbit_info(&"B".into()).unwrap();
    let pair = pattern.get_orientation_with_mod(info_b, 1);
    assert_eq!((pair.orientation, pair.orientation_mod), (1, 2));
}

#[test]
fn definition_and_orbit_info_are_reachable() {
    let kpuzzle = KPuzzle::try_new(small_def()).unwrap();
    assert_eq!(kpuzzle.definition().name, "small");
    assert_eq!(kpuzzle.definition().orbits.len(), 2);
    let info = kpuzzle.lookup_orbit_info(&"B".into()).unwrap();
    assert_eq!(info.num_pieces, 2);
    assert_eq!(info.num_orientations, 4);
    assert!(kpuzzle.lookup_orbit_info(&"missing".into()).is_none());
    let t = kpuzzle
        .transformation_from_str("M")
        .unwrap();
    assert_eq!(t.get_permutation_idx(kpuzzle.lookup_orbit_info(&"A".into()).unwrap(), 0), 1);
    assert_eq!(t.get_orientation_delta(kpuzzle.lookup_orbit_info(&"A".into()).unwrap(), 0), 1);
    assert_eq!(t.kpuzzle().definition().name, "small");
}
