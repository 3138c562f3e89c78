use cubing::kpuzzle::KPatternData;
use cubing::kpuzzle::KPatternOrbitData;
use cubing::kpuzzle::KPatternBuffer;
use cubing::kpuzzle::KPuzzle;
use cubing::kpuzzle::KPuzzleDefinition;
use cubing::kpuzzle::KPuzzleOrbitDefinition;
use cubing::kpuzzle::KTransformationBuffer;
use cubing::kpuzzle::KTransformationData;
use cubing::kpuzzle::KTransformationOrbitData;
use cubing::kpuzzle::OrientationWithMod;

fn three_cycle_def() -> KPuzzleDefinition {
    KPuzzleDefinition {
        name: "three-cycle".to_owned(),
        orbits: vec![KPuzzleOrbitDefinition {
            orbit_name: "O".into(),
            num_pieces: 3,
            num_orientations: 3,
        }],
        default_pattern: KPatternData {
            entries: vec![(
                "O".into(),
                KPatternOrbitData {
                    pieces: vec![0, 1, 2],
                    orientation: vec![0; 3],
                    orientation_mod: None,
                },
            )],
        },
        moves: vec![(
            "R".try_into().unwrap(),
            KTransformationData {
                entries: vec![(
                    "O".into(),
                    KTransformationOrbitData {
                        permutation: vec![1, 2, 0],
                        orientation_delta: vec![1, 0, 2],
                    },
                )],
            },
        )],
        derived_moves: None,
    }
}

#[test]
fn pattern_setters_write_single_entries() {
    let kpuzzle = KPuzzle::try_new(three_cycle_def()).unwrap();
    let mut pattern = kpuzzle.default_pattern();
    let orbit = kpuzzle.lookup_orbit_info(&"O".into()).unwrap();
    pattern.set_piece(orbit, 1, 2);
    assert_eq!(pattern.get_piece(orbit, 0), 0);
    assert_eq!(pattern.get_piece(orbit, 1), 2);
    assert_eq!(pattern.get_piece(orbit, 2), 2);
    let pair = OrientationWithMod {
        orientation: 2,
        orientation_mod: 0,
    };
    pattern.set_orientation_with_mod(orbit, 0, &pair);
    let read_back = pattern.get_orientation_with_mod(orbit, 0);
    assert_eq!(read_back.orientation, 2);
    assert_eq!(read_back.orientation_mod, 0);
    let untouched = pattern.get_orientation_with_mod(orbit, 1);
    assert_eq!(untouched.orientation, 0);
    assert_eq!(untouched.orientation_mod, 0);
}

#[test]
fn transformation_setters_write_single_entries() {
    let kpuzzle = KPuzzle::try_new(three_cycle_def()).unwrap();
    let mut transformation = kpuzzle.identity_transformation();
    let orbit = kpuzzle.lookup_orbit_info(&"O".into()).unwrap();
    transformation.set_permutation_idx(orbit, 0, 2);
    transformation.set_orientation_delta(orbit, 0, 1);
    assert_eq!(transformation.get_permutation_idx(orbit, 0), 2);
    assert_eq!(transformation.get_permutation_idx(orbit, 1), 1);
    assert_eq!(transformation.get_orientation_delta(orbit, 0), 1);
    assert_eq!(transformation.get_orientation_delta(orbit, 2), 0);
}

#[test]
fn transformation_buffer_tracks_iterated_application() {
    let kpuzzle = KPuzzle::try_new(three_cycle_def()).unwrap();
    let r = kpuzzle
        .transformation_from_move(&"R".try_into().unwrap())
        .unwrap();
    let mut buffer = KTransformationBuffer::from(r.clone());
    assert_eq!(buffer.current(), &r);
    buffer.apply_transformation(&r);
    buffer.apply_transformation(&r);
    let direct = r.apply_transformation(&r).apply_transformation(&r);
    assert_eq!(buffer.current(), &direct);
    assert!(buffer.current() == &kpuzzle.identity_transformation());
}

#[test]
fn pattern_buffer_tracks_iterated_application() {
    let kpuzzle = KPuzzle::try_new(three_cycle_def()).unwrap();
    let r = kpuzzle
        .transformation_from_move(&"R".try_into().unwrap())
        .unwrap();
    let start = kpuzzle.default_pattern();
    let mut buffer = KPatternBuffer::from(start.clone());
    assert_eq!(buffer.current(), &start);
    buffer.apply_transformation(&r);
    buffer.apply_transformation(&r);
    let direct = start.apply_transformation(&r).apply_transformation(&r);
    assert_eq!(buffer.current(), &direct);
    buffer.apply_transformation(&r);
    assert_eq!(buffer.current(), &start);
}
