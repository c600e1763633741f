use simai_player::mesh::{hollow_arch_indices, hollow_star_indices};

#[test]
fn arch_indices() {
    assert_eq!(
        hollow_arch_indices(),
        vec![0, 5, 6, 0, 6, 1, 1, 6, 7, 1, 7, 2, 2, 7, 8, 2, 8, 3, 3, 8, 9, 3, 9, 4]
    );
}

#[test]
fn star_indices_wrap_round() {
    let v = hollow_star_indices(2);
    assert_eq!(
        v,
        vec![
            0, 1, 4, 1, 5, 4, //
            1, 2, 5, 2, 6, 5, //
            2, 3, 6, 3, 7, 6, //
            3, 0, 7, 0, 4, 7,
        ]
    );
    let five = hollow_star_indices(5);
    assert_eq!(five.len(), 60);
    assert!(five.iter().all(|&i| i < 20));
    assert!(hollow_star_indices(0).is_empty());
}
