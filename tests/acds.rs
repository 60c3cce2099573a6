use damage_calc_acds::{damage_bonus, damage_reduction, db_bytes_from_nominal, dr_bytes_from_nominal};

#[test]
fn acds_damage_bonus() {
    let nominal_list: Vec<i8> = (-10..=10).collect();
    let db_byte_list: Vec<[i8; 8]> = vec![
        [0, -1, 0, 0, 0, 0, 0, -1],
        [-1, 0, 0, 0, 0, 0, 0, -1],
        [0, 0, 0, 0, 0, 0, 0, -1],
        [0, 0, 0, 0, 0, 0, -1, 0],
        [0, 0, 0, 0, 0, -1, 0, 0],
        [0, 0, 0, 0, -1, 0, 0, 0],
        [0, 0, 0, -1, 0, 0, 0, 0],
        [0, 0, -1, 0, 0, 0, 0, 0],
        [0, -1, 0, 0, 0, 0, 0, 0],
        [-1, 0, 0, 0, 0, 0, 0, 0],
        [0, 0, 0, 0, 0, 0, 0, 0],
        [1, 0, 0, 0, 0, 0, 0, 0],
        [0, 1, 0, 0, 0, 0, 0, 0],
        [0, 0, 1, 0, 0, 0, 0, 0],
        [0, 0, 0, 1, 0, 0, 0, 0],
        [0, 0, 0, 0, 1, 0, 0, 0],
        [0, 0, 0, 0, 0, 1, 0, 0],
        [0, 0, 0, 0, 0, 0, 1, 0],
        [0, 0, 0, 0, 0, 0, 0, 1],
        [1, 0, 0, 0, 0, 0, 0, 1],
        [0, 1, 0, 0, 0, 0, 0, 1],
    ];
    let damages = [
        0, 0, 0, 125, 250, 375, 500, 625, 750, 875, 1000, 1125, 1250, 1375, 1500, 1625, 1750,
        1875, 2000, 2250, 2500,
    ];

    for (nominal, expected_bytes) in nominal_list.iter().zip(&db_byte_list) {
        let actual = db_bytes_from_nominal(*nominal);
        assert_eq!(actual, *expected_bytes)
    }

    for (db_bytes, expected_damage) in db_byte_list.iter().zip(damages) {
        let actual = damage_bonus(1000, *db_bytes);
        assert_eq!(actual, expected_damage)
    }
}

#[test]
fn acds_damage_reduction() {
    let nominal_list: Vec<i8> = (-10..=10).collect();
    let dr_byte_list: Vec<[i8; 8]> = vec![
        [0, -1, 0, 0, 0, 0, 0, -1],
        [-1, 0, 0, 0, 0, 0, 0, -1],
        [0, 0, 0, 0, 0, 0, 0, -1],
        [0, 0, 0, 0, 0, 0, -1, 0],
        [0, 0, 0, 0, 0, -1, 0, 0],
        [0, 0, 0, 0, -1, 0, 0, 0],
        [0, 0, 0, -1, 0, 0, 0, 0],
        [0, 0, -1, 0, 0, 0, 0, 0],
        [0, -1, 0, 0, 0, 0, 0, 0],
        [-1, 0, 0, 0, 0, 0, 0, 0],
        [0, 0, 0, 0, 0, 0, 0, 0],
        [1, 0, 0, 0, 0, 0, 0, 0],
        [0, 1, 0, 0, 0, 0, 0, 0],
        [0, 0, 1, 0, 0, 0, 0, 0],
        [0, 0, 0, 1, 0, 0, 0, 0],
        [0, 0, 0, 0, 1, 0, 0, 0],
        [0, 0, 0, 0, 0, 1, 0, 0],
        [0, 0, 0, 0, 0, 0, 1, 0],
        [0, 0, 0, 0, 0, 0, 0, 1],
        [1, 0, 0, 0, 0, 0, 0, 1],
        [0, 1, 0, 0, 0, 0, 0, 1],
    ];
    let damages = [
        2500, 2250, 2000, 1875, 1750, 1625, 1500, 1375, 1250, 1125, 1000, 875, 750, 625, 500,
        375, 250, 125, 0, 0, 0,
    ];

    for (nominal, expected_bytes) in nominal_list.iter().zip(&dr_byte_list) {
        let actual = dr_bytes_from_nominal(*nominal);
        assert_eq!(actual, *expected_bytes)
    }

    for (dr_bytes, expected_damage) in dr_byte_list.iter().zip(damages) {
        let actual = damage_reduction(1000, *dr_bytes);
        assert_eq!(actual, expected_damage)
    }
}

#[test]
fn acds_compound_damage_reduction() {
    let dr_byte_list: Vec<[i8; 8]> = vec![
        [2, 0, 0, 0, 0, 0, 0, 0],  // 766 (23.4% DR)
        [0, 0, 0, 0, 0, -3, 1, 0], // 670 (33.0% DR)
        [1, 1, 0, 0, 0, 0, 0, 0],  // 657 (34.3% DR)
        [0, 2, 0, 0, 0, 0, 0, 0],  // 563 (43.7% DR)
        [0, 0, 2, 0, 0, 0, 0, 0],  // 391 (60.9% DR)
        [0, 1, 0, 1, 0, 0, 0, 0],  // 375 (62.5% DR)
        [0, 0, 0, 0, -2, 0, 1, 0], // 330 (67.0% DR)
    ];
    let damages = [766, 670, 657, 563, 391, 375, 330];

    for (dr_bytes, expected_damage) in dr_byte_list.iter().zip(damages) {
        let actual = damage_reduction(1000, *dr_bytes);
        assert_eq!(actual, expected_damage)
    }
}
