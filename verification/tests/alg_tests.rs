use std::convert::TryFrom;

use cubing::alg::Alg;
use cubing::alg::AlgBuilder;
use cubing::alg::AlgFragment;
use cubing::alg::AlgNode;
use cubing::alg::Move;
use cubing::alg::MoveLayer;
use cubing::alg::MovePrefix;
use cubing::alg::MoveRange;
use cubing::alg::Newline;
use cubing::alg::QuantumMove;

#[test]
fn it_works() {
    assert_eq!(
        "R",
        Move {
            quantum: QuantumMove::new("R", None),
            amount: 1
        }
        .to_string()
    );

    assert_eq!("F2", Move::try_from("F2").unwrap().to_string());
    assert_eq!("F2", "F2".parse::<Move>().unwrap().to_string());
    assert_eq!("F", "F1".parse::<Move>().unwrap().to_string());
    assert_eq!("F", "F".parse::<Move>().unwrap().to_string());
    assert_eq!("F'", "F1'".parse::<Move>().unwrap().to_string());
    assert_eq!("F0", "F0".parse::<Move>().unwrap().to_string());
    assert_eq!("F2'", "F2'".parse::<Move>().unwrap().to_string());
    assert_eq!("U_R", "U_R".parse::<Move>().unwrap().to_string());
    assert_eq!("4R2'", "4R2'".parse::<Move>().unwrap().to_string());
    assert_eq!("3-7R2'", "3-7R2'".parse::<Move>().unwrap().to_string());
    assert_eq!("R++", "R++".parse::<Move>().unwrap().to_string());
    assert_eq!("D--", "D--".parse::<Move>().unwrap().to_string());
    assert_eq!("/", "/".parse::<Move>().unwrap().to_string());
    assert_eq!("R1+", "R1+".parse::<Move>().unwrap().to_string());
    assert_eq!("DR3-", "DR3-".parse::<Move>().unwrap().to_string());
    assert_eq!("U0+", "U0+".parse::<Move>().unwrap().to_string());
    assert!("R+".parse::<Move>().is_err());
    assert!("DR-".parse::<Move>().is_err());
    assert!("DR+3".parse::<Move>().is_err());
    assert!("DR+3'".parse::<Move>().is_err());
    assert!("DR-3".parse::<Move>().is_err());
    assert!("DR-3'".parse::<Move>().is_err());
    assert!("DR++1".parse::<Move>().is_err());
    assert!("DR++3".parse::<Move>().is_err());

    assert_eq!("\n", Newline {}.to_string());

    assert_eq!(
        "3-7R2'",
        Move {
            quantum: QuantumMove::new("R", Some(MovePrefix::Range(MoveRange::new(3, 7)))),
            amount: -2
        }
        .to_string()
    );

    assert_eq!(MoveLayer::from(7), MoveLayer { layer: 7 });

    let single_move = "R2'".parse::<Move>().unwrap();
    assert_eq!(single_move.quantum.prefix, None);
    assert_eq!(single_move.quantum.family, "R");
    assert_eq!(single_move.amount, -2);

    let face_move = "R2'".parse::<Move>().unwrap();
    assert_eq!(face_move.quantum.prefix, None);
    assert_eq!(face_move.quantum.family, "R");
    assert_eq!(face_move.amount, -2);

    let block_move = "7R2'".parse::<Move>().unwrap();
    assert_eq!(
        block_move.quantum.prefix,
        Some(MovePrefix::Layer(MoveLayer::new(7)))
    );
    assert_eq!(block_move.quantum.family, "R");
    assert_eq!(block_move.amount, -2);

    let range_move = "3-7R2'".parse::<Move>().unwrap();
    assert_eq!(
        range_move.quantum.prefix,
        Some(MovePrefix::Range(MoveRange::new(3, 7)))
    );
    assert_eq!(range_move.quantum.family, "R");
    assert_eq!(range_move.amount, -2);

    let range_move = "R++".parse::<Move>().unwrap();
    assert_eq!(range_move.quantum.prefix, None);
    assert_eq!(range_move.quantum.family, "R_PLUSPLUS_");
    assert_eq!(range_move.amount, 1);

    let range_move = "D--".parse::<Move>().unwrap();
    assert_eq!(range_move.quantum.prefix, None);
    assert_eq!(range_move.quantum.family, "D_PLUSPLUS_");
    assert_eq!(range_move.amount, -1);

    assert_eq!(
        "R2".parse::<Move>().unwrap(),
        Move {
            quantum: QuantumMove {
                family: "R".into(),
                prefix: None
            },
            amount: 2
        }
    );

    assert_eq!("F2'", "F2".parse::<Move>().unwrap().invert().to_string());

    assert_eq!(
        "2R3'".parse::<Move>().unwrap().quantum,
        QuantumMove {
            prefix: Some(MovePrefix::Layer(MoveLayer { layer: 2 })),
            family: "R".into()
        }
    );
    assert_eq!("2R3'".parse::<Move>().unwrap().amount, -3);

    assert!("2".parse::<Move>().is_err());
    assert!("U-R".parse::<Move>().is_err());
    assert!(Move::try_from("UR43").is_ok());

    let a1 = Alg {
        nodes: vec![
            Move::try_from("F2").unwrap().into(),
            Move::try_from("R").unwrap().into(),
        ],
    };
    let a2 = Alg {
        nodes: vec![
            Move::try_from("R'").unwrap().into(),
            Move::try_from("F2'").unwrap().into(),
        ],
    };
    assert!(a1 == a2.invert());

    assert_eq!(
        "R U' R'".parse::<Alg>().unwrap(),
        "R U R'".parse::<Alg>().unwrap().invert()
    );
    assert_eq!(
        " R   U'  R'  ".parse::<Alg>().unwrap(),
        "R U' R'".parse::<Alg>().unwrap()
    );
    assert_eq!("R U' R'", " R   U'  R'  ".parse::<Alg>().unwrap().to_string());
    assert_eq!(Alg { nodes: vec![] }, "".parse::<Alg>().unwrap());
    assert_eq!(Alg { nodes: vec![] }, "  ".parse::<Alg>().unwrap());
    assert_eq!(
        Alg {
            nodes: vec!["R'".parse::<Move>().unwrap().into()]
        },
        " R' ".parse::<Alg>().unwrap()
    );
    assert_eq!("(R U' R')", "(R   U'  R' )".parse::<Alg>().unwrap().to_string());
    assert_eq!(
        "[R, U]",
        "  [ U  , R ]  ".parse::<Alg>().unwrap().invert().to_string()
    );
    assert_eq!(
        "[R: U']",
        "  [ R  : U ]  ".parse::<Alg>().unwrap().invert().to_string()
    );

    assert_eq!("R'".parse::<Move>().unwrap(), "R'".parse::<Move>().unwrap());
    assert_eq!("R U R'".parse::<Alg>().unwrap(), "R U R'".parse::<Alg>().unwrap());
    assert_eq!(
        "[R', F]3",
        "([R', F])3".parse::<Alg>().unwrap().to_string()
    );

    let wr = "y x' // inspection
U R2 U' F' L F' U' L' // XX-Cross + EO
U' R U R' // 3rd slot
R' U R U2' R' U R // 4th slot
U R' U' R U' R' U2 R // OLL / ZBLL
U // AUF

// from http://cubesolv.es/solve/5757";
    assert!(wr.parse::<Alg>().is_ok());
    assert_eq!(wr, wr.parse::<Alg>().unwrap().to_string());
    assert_eq!("\n\n", "\n\n".parse::<Alg>().unwrap().to_string());
    assert_eq!("\n", "\n".parse::<Alg>().unwrap().to_string());
    assert_eq!(
        "R\nB // comment\n\n",
        "R\nB // comment\n\n".parse::<Alg>().unwrap().to_string()
    );
    assert_eq!(
        "R\nB // comment\n",
        "R\nB // comment\n".parse::<Alg>().unwrap().to_string()
    );
}

#[test]
fn it_can_build_and_parse_long_strings() {
    let mut builder = AlgBuilder::new();
    let quantum = QuantumMove {
        family: "R".into(),
        prefix: None,
    };
    for amount in 1..1000 {
        let m = Move {
            quantum: quantum.clone(),
            amount,
        };
        let alg_node: AlgNode = m.into();
        builder.push(AlgFragment::from(&alg_node));
    }
    let alg = builder.to_alg();
    let s = alg.to_string();
    let re_parsed = s.parse::<Alg>().unwrap();
    assert_eq!(alg, re_parsed);
}

#[test]
fn mixed_puzzle_notation() {
    // Eventual parsing goal: `(R 2-5r3' (5, -24234) R++)' / [ UR1+   UR , F2 ]`
    assert!("(R 2-5r3' R++)' / [ UR , F2 ]".parse::<Alg>().is_ok());
}

#[test]
fn it_handles_crowding() {
    assert!("R'U".parse::<Alg>().is_err());
    assert!("R//F".parse::<Alg>().is_err());
}

#[test]
fn square1_tuple_inversion() {
    let alg = "(3, -4)".parse::<Alg>().unwrap();
    assert_eq!(alg.invert(), "(-3, 4)".parse::<Alg>().unwrap());
}

#[test]
fn parse_move() {
    let m: Move = "R".parse::<Move>().unwrap();
    assert_eq!("R".parse::<Move>().unwrap(), m);
    assert_eq!(
        Move {
            quantum: QuantumMove {
                family: "R".to_owned(),
                prefix: None
            },
            amount: 1
        },
        m
    );

    assert_eq!(
        "2R".parse::<Move>().unwrap(),
        Move {
            quantum: QuantumMove {
                family: "R".to_owned(),
                prefix: Some(MovePrefix::Layer(MoveLayer::new(2)))
            },
            amount: 1
        },
    );

    assert_eq!(
        "2-7R".parse::<Move>().unwrap(),
        Move {
            quantum: QuantumMove {
                family: "R".to_owned(),
                prefix: Some(MovePrefix::Range(MoveRange::new(2, 7)))
            },
            amount: 1
        },
    );
}

#[test]
fn parse_alg() {
    let alg: Alg = "R".parse::<Alg>().unwrap();
    assert_eq!("R".parse::<Alg>().unwrap(), alg);

    let alg: Alg = "R U R'".parse::<Alg>().unwrap();
    assert_eq!("R U R'".parse::<Alg>().unwrap(), alg);
}

#[test]
fn parse_move_trailing_underscores() {
    let m: Move = "R_".parse::<Move>().unwrap();
    assert_eq!("R_".parse::<Move>().unwrap(), m);
    assert_eq!(m.quantum.family, "R_");
}

#[test]
fn macro_tests_parse_move() {
    let m: Move = "R".parse::<Move>().unwrap();
    assert_eq!("R".parse::<Move>().unwrap(), m);
    assert_eq!(
        Move {
            quantum: QuantumMove {
                family: "R".to_owned(),
                prefix: None
            },
            amount: 1
        },
        m
    );
}

#[test]
fn macro_tests_parse_alg() {
    let alg: Alg = "R".parse::<Alg>().unwrap();
    assert_eq!("R".parse::<Alg>().unwrap(), alg);

    let alg: Alg = "R U R'".parse::<Alg>().unwrap();
    assert_eq!("R U R'".parse::<Alg>().unwrap(), alg);
}

#[test]
fn macro_tests_parse_move_trailing_underscores() {
    let m: Move = "R_".parse::<Move>().unwrap();
    assert_eq!("R_".parse::<Move>().unwrap(), m);
}

#[test]
fn amount_rendering() {
    assert_eq!("", cubing::alg::fmt_amount(1));
    assert_eq!("'", cubing::alg::fmt_amount(-1));
    assert_eq!("12", cubing::alg::fmt_amount(12));
    assert_eq!("305'", cubing::alg::fmt_amount(-305));
    assert_eq!("0", cubing::alg::fmt_amount(0));
}

#[test]
fn pause_and_comment_nodes() {
    let alg = "R . U".parse::<Alg>().unwrap();
    assert_eq!(3, alg.nodes.len());
    assert_eq!("R . U", alg.to_string());
    let commented = "R // wide\n".parse::<Alg>().unwrap();
    assert_eq!("R // wide\n", commented.to_string());
    assert!("// multi\nline".parse::<Alg>().is_ok());
}

#[test]
fn grouping_zero_and_negative_amounts() {
    let alg = "(R U)0".parse::<Alg>().unwrap();
    assert_eq!("(R U)0", alg.to_string());
    let inverted = "(R U)3'".parse::<Alg>().unwrap().invert();
    assert_eq!("(R U)3", inverted.to_string());
}
