use cubing::alg::Alg;
use cubing::kpuzzle::KPatternData;
use cubing::kpuzzle::KPatternOrbitData;
use cubing::kpuzzle::KPuzzle;
use cubing::kpuzzle::KPuzzleDefinition;
use cubing::kpuzzle::KPuzzleOrbitDefinition;
use cubing::kpuzzle::KTransformationData;
use cubing::kpuzzle::KTransformationOrbitData;

fn solve_orbit_def() -> KPuzzleDefinition {
    KPuzzleDefinition {
        name: "uh-oh".to_owned(),
        orbits: vec![KPuzzleOrbitDefinition {
            orbit_name: "SOLVE_ORBIT".into(),
            num_pieces: 2,
            num_orientations: 1,
        }],
        default_pattern: KPatternData {
            entries: vec![(
                "SOLVE_ORBIT".into(),
                KPatternOrbitData {
                    pieces: vec![1, 0],
                    orientation: vec![0; 2],
                    orientation_mod: None,
                },
            )],
        },
        moves: vec![(
            "A".try_into().unwrap(),
            KTransformationData {
                entries: vec![(
                    "SOLVE_ORBIT".into(),
                    KTransformationOrbitData {
                        permutation: vec![1, 0],
                        orientation_delta: vec![0; 2],
                    },
                )],
            },
        )],
        derived_moves: Some(vec![
            ("B".try_into().unwrap(), "C".try_into().unwrap()),
            ("C".try_into().unwrap(), "A B".try_into().unwrap()),
        ]),
    }
}

#[test]
fn puzzle_tests_avoids_recursion() {
    let def = solve_orbit_def();
    assert!(KPuzzle::try_new(def)
        .expect_err("Expected recursive KPuzzle to fail instantiation.")
        .description
        .starts_with("Recursive derived move definition for: "));
}

#[test]
fn avoids_recursion() {
    let def = solve_orbit_def();
    assert!(KPuzzle::try_new(def)
        .expect_err("Expected recursive KPuzzle to fail instantiation.")
        .description
        .starts_with("Recursive derived move definition for: "));
}

#[test]
fn acyclic_derived_moves_succeed() {
    let mut def = solve_orbit_def();
    // A deep but acyclic chain of derived definitions must build.
    def.derived_moves = Some(vec![
        ("B".try_into().unwrap(), "C C".try_into().unwrap()),
        ("C".try_into().unwrap(), "D".try_into().unwrap()),
        ("D".try_into().unwrap(), "A A A".try_into().unwrap()),
    ]);
    let kpuzzle = KPuzzle::try_new(def).unwrap();
    let via_b = kpuzzle
        .transformation_from_alg(&"B".parse::<Alg>().unwrap())
        .unwrap();
    let direct = kpuzzle
        .transformation_from_alg(&"A6".parse::<Alg>().unwrap())
        .unwrap();
    assert_eq!(via_b, direct);
}

#[test]
fn oversized_orientation_count_is_rejected() {
    let mut def = solve_orbit_def();
    def.derived_moves = None;
    def.orbits[0].num_orientations = 108;
    let err = KPuzzle::try_new(def).unwrap_err();
    assert!(err.description.contains("num_orientations"));
}

#[test]
fn inconsistent_default_pattern_is_rejected() {
    let mut def = solve_orbit_def();
    def.derived_moves = None;
    def.default_pattern.entries[0].1.pieces = vec![0, 1, 2];
    assert!(KPuzzle::try_new(def).is_err());
}

#[test]
fn unresolvable_move_is_a_local_error() {
    let mut def = solve_orbit_def();
    def.derived_moves = None;
    let kpuzzle = KPuzzle::try_new(def).unwrap();
    let missing = kpuzzle.transformation_from_str("Q");
    assert!(missing.is_err());
    // The puzzle stays usable afterwards.
    assert!(kpuzzle.transformation_from_str("A").is_ok());
}

#[test]
fn twelve_piece_cycle_returns_after_ten() {
    // One 12-piece, 1-orientation orbit; R is a fixed permutation of
    // order 10.
    let items = "items";
    let def = KPuzzleDefinition {
        name: "topsy_turvy".into(),
        orbits: vec![KPuzzleOrbitDefinition {
            orbit_name: items.into(),
            num_pieces: 12,
            num_orientations: 1,
        }],
        default_pattern: KPatternData {
            entries: vec![(
                items.into(),
                KPatternOrbitData {
                    pieces: (0..12).collect(),
                    orientation: vec![0; 12],
                    orientation_mod: None,
                },
            )],
        },
        moves: vec![(
            "R".try_into().unwrap(),
            KTransformationData {
                entries: vec![(
                    items.into(),
                    KTransformationOrbitData {
                        permutation: vec![1, 3, 5, 7, 9, 11, 10, 8, 6, 4, 2, 0],
                        orientation_delta: vec![0; 12],
                    },
                )],
            },
        )],
        derived_moves: None,
    };
    let kpuzzle = KPuzzle::try_new(def).unwrap();
    let r = kpuzzle
        .transformation_from_move(&"R".parse().unwrap())
        .unwrap();
    let mut current = r.clone();
    for _ in 1..10 {
        assert_ne!(current, kpuzzle.identity_transformation());
        current = current.apply_transformation(&r);
    }
    assert_eq!(current, kpuzzle.identity_transformation());
    // Applying R then its inverse returns the original pattern.
    let default_pattern = kpuzzle.default_pattern();
    let moved = default_pattern.apply_transformation(&r);
    assert_ne!(moved, default_pattern);
    let back = moved.apply_transformation(&r.invert());
    assert_eq!(back, default_pattern);
}

fn cube_style_def() -> KPuzzleDefinition {
    KPuzzleDefinition {
        name: "cube_style".into(),
        orbits: vec![
            KPuzzleOrbitDefinition {
                orbit_name: "EDGES".into(),
                num_pieces: 12,
                num_orientations: 2,
            },
            KPuzzleOrbitDefinition {
                orbit_name: "CORNERS".into(),
                num_pieces: 8,
                num_orientations: 3,
            },
            KPuzzleOrbitDefinition {
                orbit_name: "CENTERS".into(),
                num_pieces: 6,
                num_orientations: 4,
            },
        ],
        default_pattern: KPatternData {
            entries: vec![
                (
                    "EDGES".into(),
                    KPatternOrbitData {
                        pieces: (0..12).collect(),
                        orientation: vec![0; 12],
                        orientation_mod: None,
                    },
                ),
                (
                    "CORNERS".into(),
                    KPatternOrbitData {
                        pieces: (0..8).collect(),
                        orientation: vec![0; 8],
                        orientation_mod: None,
                    },
                ),
                (
                    "CENTERS".into(),
                    KPatternOrbitData {
                        pieces: (0..6).collect(),
                        orientation: vec![0; 6],
                        orientation_mod: Some(vec![1; 6]),
                    },
                ),
            ],
        },
        moves: vec![
            (
                "U".try_into().unwrap(),
                KTransformationData {
                    entries: vec![
                        (
                            "EDGES".into(),
                            KTransformationOrbitData {
                                permutation: vec![3, 0, 1, 2, 4, 5, 6, 7, 8, 9, 10, 11],
                                orientation_delta: vec![0; 12],
                            },
                        ),
                        (
                            "CORNERS".into(),
                            KTransformationOrbitData {
                                permutation: vec![3, 0, 1, 2, 4, 5, 6, 7],
                                orientation_delta: vec![0; 8],
                            },
                        ),
                        (
                            "CENTERS".into(),
                            KTransformationOrbitData {
                                permutation: (0..6).collect(),
                                orientation_delta: vec![0; 6],
                            },
                        ),
                    ],
                },
            ),
            (
                "R".try_into().unwrap(),
                KTransformationData {
                    entries: vec![
                        (
                            "EDGES".into(),
                            KTransformationOrbitData {
                                permutation: vec![0, 10, 2, 3, 4, 8, 6, 7, 1, 9, 5, 11],
                                orientation_delta: vec![
                                    0, 1, 0, 0, 0, 1, 0, 0, 1, 0, 1, 0,
                                ],
                            },
                        ),
                        (
                            "CORNERS".into(),
                            KTransformationOrbitData {
                                permutation: vec![3, 1, 0, 6, 4, 5, 2, 7],
                                orientation_delta: vec![2, 0, 1, 1, 0, 0, 1, 0],
                            },
                        ),
                        (
                            "CENTERS".into(),
                            KTransformationOrbitData {
                                permutation: (0..6).collect(),
                                orientation_delta: vec![0; 6],
                            },
                        ),
                    ],
                },
            ),
        ],
        derived_moves: None,
    }
}

#[test]
fn commutator_evaluates_to_its_expansion() {
    let kpuzzle = KPuzzle::try_new(cube_style_def()).unwrap();
    let commutator = kpuzzle
        .transformation_from_alg(&"[R, U]".parse::<Alg>().unwrap())
        .unwrap();
    let expanded = kpuzzle
        .transformation_from_alg(&"R U R' U'".parse::<Alg>().unwrap())
        .unwrap();
    assert_eq!(commutator, expanded);
    let default_pattern = kpuzzle.default_pattern();
    assert_eq!(
        default_pattern.apply_transformation(&commutator),
        default_pattern.apply_transformation(&expanded)
    );
    let conjugate = kpuzzle
        .transformation_from_alg(&"[R: U]".parse::<Alg>().unwrap())
        .unwrap();
    let conjugate_expanded = kpuzzle
        .transformation_from_alg(&"R U R'".parse::<Alg>().unwrap())
        .unwrap();
    assert_eq!(conjugate, conjugate_expanded);
}

#[test]
fn repeated_sexy_move_differs_from_identity() {
    let kpuzzle = KPuzzle::try_new(cube_style_def()).unwrap();
    let five = kpuzzle
        .transformation_from_alg(&"(R U R' U)5".parse::<Alg>().unwrap())
        .unwrap();
    assert_ne!(five, kpuzzle.identity_transformation());
    let default_pattern = kpuzzle.default_pattern();
    assert_ne!(default_pattern.apply_transformation(&five), default_pattern);
}

#[test]
fn grouping_to_the_zeroth_power_is_identity() {
    let kpuzzle = KPuzzle::try_new(cube_style_def()).unwrap();
    // Whatever the grouping holds, raising it to the 0th power gives the
    // identity, as long as its contents resolve.
    for inner in ["R", "R U", "[R, U] (U R)3"] {
        let alg_text = format!("({inner})0");
        let t = kpuzzle
            .transformation_from_alg(&alg_text.parse::<Alg>().unwrap())
            .unwrap();
        assert_eq!(t, kpuzzle.identity_transformation());
    }
}

#[test]
fn self_multiply_adds_exponents() {
    let kpuzzle = KPuzzle::try_new(cube_style_def()).unwrap();
    let t = kpuzzle
        .transformation_from_alg(&"R U".parse::<Alg>().unwrap())
        .unwrap();
    // T^m . T^n == T^(m+n)
    assert_eq!(
        t.self_multiply(2).apply_transformation(&t.self_multiply(3)),
        t.self_multiply(5)
    );
    assert_eq!(
        t.self_multiply(0).apply_transformation(&t.self_multiply(4)),
        t.self_multiply(4)
    );
    // T^0 is the identity; T^-1 is the inverse.
    assert_eq!(t.self_multiply(0), kpuzzle.identity_transformation());
    assert_eq!(t.self_multiply(-1), t.invert());
    // Mixed signs also add.
    assert_eq!(
        t.self_multiply(3).apply_transformation(&t.self_multiply(-1)),
        t.self_multiply(2)
    );
    assert_eq!(
        t.self_multiply(-2).apply_transformation(&t.self_multiply(-3)),
        t.self_multiply(-5)
    );
    // Large amounts resolve through binary exponentiation.
    let large = kpuzzle
        .transformation_from_alg(&"R2000".parse::<Alg>().unwrap())
        .unwrap();
    assert_eq!(
        large,
        kpuzzle
            .transformation_from_alg(&"R8".parse::<Alg>().unwrap())
            .unwrap()
    );
}

#[test]
fn identity_laws_hold_on_samples() {
    let kpuzzle = KPuzzle::try_new(cube_style_def()).unwrap();
    let t = kpuzzle
        .transformation_from_alg(&"R U2 R'".parse::<Alg>().unwrap())
        .unwrap();
    let id = kpuzzle.identity_transformation();
    assert_eq!(t.apply_transformation(&id), t);
    assert_eq!(id.apply_transformation(&t), t);
    assert_eq!(t.apply_transformation(&t.invert()), id);
    assert_eq!(t.invert().apply_transformation(&t), id);
}

#[test]
fn pattern_application_is_a_left_action() {
    let kpuzzle = KPuzzle::try_new(cube_style_def()).unwrap();
    let a = kpuzzle
        .transformation_from_alg(&"R U".parse::<Alg>().unwrap())
        .unwrap();
    let b = kpuzzle
        .transformation_from_alg(&"U2 R'".parse::<Alg>().unwrap())
        .unwrap();
    let p = kpuzzle.default_pattern();
    assert_eq!(
        p.apply_transformation(&a).apply_transformation(&b),
        p.apply_transformation(&a.apply_transformation(&b))
    );
}
