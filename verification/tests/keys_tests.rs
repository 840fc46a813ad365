use set_rollup::keys::{
    decode_c, decode_g1_list, encode_c, encode_g1_list, generate_keys, Fq2Element, G1Point,
    G2Point, Parameters, VerifyingKey,
};
use set_rollup::natural::Natural;

fn n(value: u64) -> Natural {
    Natural::from_u64(value)
}

fn g1(x: u64, y: u64) -> G1Point {
    G1Point { x: n(x), y: n(y), infinity: false }
}

fn g1_zero() -> G1Point {
    G1Point { x: n(0), y: n(1), infinity: true }
}

fn g2(a: u64, b: u64, c: u64, d: u64) -> G2Point {
    G2Point {
        x: Fq2Element { c0: n(a), c1: n(b) },
        y: Fq2Element { c0: n(c), c1: n(d) },
        infinity: false,
    }
}

fn same_g1(a: &G1Point, b: &G1Point) -> bool {
    a.x.equals(&b.x) && a.y.equals(&b.y) && a.infinity == b.infinity
}

fn same_g2(a: &G2Point, b: &G2Point) -> bool {
    a.x.c0.equals(&b.x.c0)
        && a.x.c1.equals(&b.x.c1)
        && a.y.c0.equals(&b.y.c0)
        && a.y.c1.equals(&b.y.c1)
        && a.infinity == b.infinity
}

fn sample() -> Parameters {
    Parameters {
        vk: VerifyingKey {
            alpha_g1: g1(1, 2),
            beta_g1: g1(3, 4),
            beta_g2: g2(5, 6, 7, 8),
            gamma_g2: g2(9, 10, 11, 12),
            delta_g1: g1(13, 14),
            delta_g2: g2(15, 16, 17, 18),
            ic: vec![g1(19, 20), g1_zero()],
        },
        h: vec![g1(21, 22)],
        l: vec![g1(23, 24), g1(25, 26), g1(27, 28)],
        a: vec![g1(29, 30), g1_zero()],
        b_g1: vec![g1(31, 32)],
        b_g2: vec![g2(33, 34, 35, 36), G2Point {
            x: Fq2Element { c0: n(0), c1: n(0) },
            y: Fq2Element { c0: n(1), c1: n(0) },
            infinity: true,
        }],
    }
}

#[test]
fn g1_point_is_two_numerals_and_a_flag() {
    let big = Natural::from_decimal(
        "21888242871839275222246405745257275088696311157297823662689037894645226208583",
    )
    .unwrap();
    let p = G1Point { x: big, y: n(2), infinity: false };
    assert_eq!(
        p.to_strings(),
        vec![
            "21888242871839275222246405745257275088696311157297823662689037894645226208583",
            "2",
            "0"
        ]
    );
    assert_eq!(g1_zero().to_strings(), vec!["0", "1", "1"]);
}

#[test]
fn g2_point_is_three_pairs() {
    let p = g2(5, 6, 7, 8);
    assert_eq!(
        p.to_strings(),
        vec![vec!["5", "6"], vec!["7", "8"], vec!["0", "0"]]
    );
    let zero = G2Point {
        x: Fq2Element { c0: n(0), c1: n(0) },
        y: Fq2Element { c0: n(1), c1: n(0) },
        infinity: true,
    };
    assert_eq!(
        zero.to_strings(),
        vec![vec!["0", "0"], vec!["1", "0"], vec!["1", "0"]]
    );
}

#[test]
fn g1_round_trip_keeps_coordinates_and_flag() {
    for p in [g1(17, 19), g1_zero()] {
        let back = G1Point::from_strings(&p.to_strings()).unwrap();
        assert!(same_g1(&p, &back));
    }
}

#[test]
fn g2_round_trip_keeps_coordinates_and_flag() {
    let p = g2(1, 2, 3, 4);
    let back = G2Point::from_strings(&p.to_strings()).unwrap();
    assert!(same_g2(&p, &back));
}

#[test]
fn from_strings_refuses_malformed_points() {
    let s = |v: &[&str]| v.iter().map(|x| x.to_string()).collect::<Vec<String>>();
    assert!(G1Point::from_strings(&s(&["1", "2"])).is_none());
    assert!(G1Point::from_strings(&s(&["1", "2", "2"])).is_none());
    assert!(G1Point::from_strings(&s(&["1", "x", "0"])).is_none());
    assert!(G1Point::from_strings(&s(&["", "2", "0"])).is_none());
    assert!(G1Point::from_strings(&s(&["1", "2", "1", "1"])).is_none());
    assert!(G1Point::from_strings(&s(&["1", "2", "1"])).unwrap().infinity);
    assert!(!G1Point::from_strings(&s(&["1", "2", "0"])).unwrap().infinity);
    assert!(G2Point::from_strings(&vec![s(&["1", "2"]), s(&["3", "4"]), s(&["1", "1"])]).is_none());
    assert!(G2Point::from_strings(&vec![s(&["1", "2"]), s(&["3"]), s(&["0", "0"])]).is_none());
    assert!(Fq2Element::from_strings(&s(&["1"])).is_none());
}

#[test]
fn c_has_an_empty_slot_for_each_public_input() {
    let l = vec![g1(1, 2), g1(3, 4)];
    let c = encode_c(3, &l);
    assert_eq!(c.len(), 5);
    assert!(c[0].is_none() && c[1].is_none() && c[2].is_none());
    assert_eq!(c[3].clone().unwrap(), vec!["1", "2", "0"]);
    assert_eq!(c[4].clone().unwrap(), vec!["3", "4", "0"]);
    let back = decode_c(&c).unwrap();
    assert_eq!(back.len(), 5);
    assert!(back[0].is_none());
    assert!(same_g1(back[4].as_ref().unwrap(), &l[1]));
}

#[test]
fn lists_round_trip() {
    let points = vec![g1(1, 2), g1_zero(), g1(5, 6)];
    let list = encode_g1_list(&points);
    assert_eq!(list.len(), 3);
    let back = decode_g1_list(&list).unwrap();
    assert!(points.iter().zip(back.iter()).all(|(a, b)| same_g1(a, b)));
    let mut broken = list.clone();
    broken[1][2] = "7".to_string();
    assert!(decode_g1_list(&broken).is_none());
}

#[test]
fn generate_keys_fills_every_field() {
    let params = sample();
    let (pk, vk) = generate_keys(&params);
    assert_eq!(pk.a, vec![vec!["29", "30", "0"], vec!["0", "1", "1"]]);
    assert_eq!(pk.b1, vec![vec!["31", "32", "0"]]);
    assert_eq!(pk.b2.len(), 2);
    assert_eq!(pk.b2[0], vec![vec!["33", "34"], vec!["35", "36"], vec!["0", "0"]]);
    assert_eq!(pk.b2[1], vec![vec!["0", "0"], vec!["1", "0"], vec!["1", "0"]]);
    assert_eq!(pk.c.len(), 5);
    assert!(pk.c[0].is_none() && pk.c[1].is_none());
    assert_eq!(pk.c[2].clone().unwrap(), vec!["23", "24", "0"]);
    assert_eq!(pk.vk_alfa_1, vec!["1", "2", "0"]);
    assert_eq!(pk.vk_beta_1, vec!["3", "4", "0"]);
    assert_eq!(pk.vk_delta_1, vec!["13", "14", "0"]);
    assert_eq!(pk.vk_beta_2, vec![vec!["5", "6"], vec!["7", "8"], vec!["0", "0"]]);
    assert_eq!(pk.vk_delta_2, vec![vec!["15", "16"], vec!["17", "18"], vec!["0", "0"]]);
    assert_eq!(pk.h, vec![vec!["21", "22", "0"]]);
    assert_eq!(vk.ic, vec![vec!["19", "20", "0"], vec!["0", "1", "1"]]);
    assert_eq!(vk.vk_alfa_1, vec!["1", "2", "0"]);
    assert_eq!(vk.vk_beta_2, vec![vec!["5", "6"], vec!["7", "8"], vec!["0", "0"]]);
    assert_eq!(vk.vk_gamma_2, vec![vec!["9", "10"], vec!["11", "12"], vec!["0", "0"]]);
    assert_eq!(vk.vk_delta_2, vec![vec!["15", "16"], vec!["17", "18"], vec!["0", "0"]]);
}

#[test]
fn keys_round_trip_reproduces_every_point() {
    let params = sample();
    let (pk, vk) = generate_keys(&params);
    let vk_points = vk.read().unwrap();
    assert_eq!(vk_points.ic.len(), 2);
    assert!(same_g1(&vk_points.ic[0], &params.vk.ic[0]));
    assert!(same_g1(&vk_points.ic[1], &params.vk.ic[1]));
    assert!(vk_points.ic[1].infinity);
    assert!(same_g1(&vk_points.alpha_g1, &params.vk.alpha_g1));
    assert!(same_g2(&vk_points.beta_g2, &params.vk.beta_g2));
    assert!(same_g2(&vk_points.gamma_g2, &params.vk.gamma_g2));
    assert!(same_g2(&vk_points.delta_g2, &params.vk.delta_g2));
    let pk_points = pk.read().unwrap();
    assert!(pk_points.a.iter().zip(params.a.iter()).all(|(a, b)| same_g1(a, b)));
    assert!(pk_points.b1.iter().zip(params.b_g1.iter()).all(|(a, b)| same_g1(a, b)));
    assert!(pk_points.b2.iter().zip(params.b_g2.iter()).all(|(a, b)| same_g2(a, b)));
    assert!(pk_points.b2[1].infinity);
    assert!(pk_points.h.iter().zip(params.h.iter()).all(|(a, b)| same_g1(a, b)));
    assert_eq!(pk_points.c.len(), 5);
    assert!(pk_points.c[0].is_none() && pk_points.c[1].is_none());
    for (slot, point) in pk_points.c[2..].iter().zip(params.l.iter()) {
        assert!(same_g1(slot.as_ref().unwrap(), point));
    }
    assert!(same_g1(&pk_points.alpha_g1, &params.vk.alpha_g1));
    assert!(same_g1(&pk_points.beta_g1, &params.vk.beta_g1));
    assert!(same_g1(&pk_points.delta_g1, &params.vk.delta_g1));
    assert!(same_g2(&pk_points.beta_g2, &params.vk.beta_g2));
    assert!(same_g2(&pk_points.delta_g2, &params.vk.delta_g2));
}

#[test]
fn read_refuses_a_broken_key() {
    let (mut pk, mut vk) = generate_keys(&sample());
    vk.vk_gamma_2[2][0] = "2".to_string();
    assert!(vk.read().is_none());
    pk.h[0][0] = "12x".to_string();
    assert!(pk.read().is_none());
}
