use cloth_sim::topology::{calculate_neighbors, NO_NEIGHBOR};

fn live_count(n: [u32; 4]) -> usize {
    n.iter().filter(|&&v| v != NO_NEIGHBOR).count()
}

#[test]
fn neighbors_exact_slots_5x5() {
    // corner 0: no left, right 1, no up, down 5
    assert_eq!(calculate_neighbors(0, 5), [NO_NEIGHBOR, 1, NO_NEIGHBOR, 5]);
    // center 12: left 11, right 13, up 7, down 17
    assert_eq!(calculate_neighbors(12, 5), [11, 13, 7, 17]);
    // corner 24: left 23, no right, up 19, no down
    assert_eq!(calculate_neighbors(24, 5), [23, NO_NEIGHBOR, 19, NO_NEIGHBOR]);
    // top edge 2: left 1, right 3, no up, down 7
    assert_eq!(calculate_neighbors(2, 5), [1, 3, NO_NEIGHBOR, 7]);
}

#[test]
fn edge_sentinel_counts_5x5() {
    for i in 0u32..25 {
        let x = i % 5;
        let z = i / 5;
        let corner = (x == 0 || x == 4) && (z == 0 || z == 4);
        let interior = x > 0 && x < 4 && z > 0 && z < 4;
        let n = live_count(calculate_neighbors(i, 5));
        if corner {
            assert_eq!(n, 2, "corner {i}");
        } else if interior {
            assert_eq!(n, 4, "interior {i}");
        } else {
            assert_eq!(n, 3, "edge {i}");
        }
    }
}

#[test]
fn neighbor_symmetry_5x5() {
    for i in 0u32..25 {
        let nbrs = calculate_neighbors(i, 5);
        for &j in nbrs.iter() {
            if j != NO_NEIGHBOR {
                let back = calculate_neighbors(j, 5);
                assert!(
                    back.iter().any(|&b| b == i),
                    "particle {j} does not name {i} back"
                );
            }
        }
    }
}

#[test]
fn neighbor_symmetry_uses_mirrored_slot() {
    for i in 0u32..225 {
        let nbrs = calculate_neighbors(i, 15);
        for (k, &j) in nbrs.iter().enumerate() {
            if j != NO_NEIGHBOR {
                let mirror = [1, 0, 3, 2][k];
                assert_eq!(calculate_neighbors(j, 15)[mirror], i);
            }
        }
    }
}

#[test]
fn single_particle_grid_has_no_neighbors() {
    assert_eq!(calculate_neighbors(0, 1), [NO_NEIGHBOR; 4]);
}
