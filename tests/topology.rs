use resonance::rng::{Lcg, DEFAULT_SEED};
use resonance::topology::{Topology, CONNECTIONS_PER_OSC};

fn targets(t: &Topology) -> Vec<Vec<usize>> {
    (0..t.size()).map(|i| (0..t.degree()).map(|c| t.target(i, c)).collect()).collect()
}

#[test]
fn topology_small_networks_are_fixed_by_seed() {
    let mut g = Lcg::new(DEFAULT_SEED);
    let t = Topology::new(3, 5, &mut g);
    assert_eq!(targets(&t), vec![vec![2, 1], vec![2, 0], vec![0, 1]]);
    let mut g = Lcg::new(DEFAULT_SEED);
    let t = Topology::new(5, 5, &mut g);
    assert_eq!(
        targets(&t),
        vec![
            vec![3, 4, 1, 2],
            vec![0, 2, 4, 3],
            vec![3, 1, 0, 4],
            vec![4, 1, 0, 2],
            vec![3, 0, 1, 2]
        ]
    );
}

#[test]
fn topology_edges_in_range_and_never_self() {
    let mut g = Lcg::new(DEFAULT_SEED);
    let t = Topology::new(200, 5, &mut g);
    assert_eq!(t.size(), 200);
    assert_eq!(t.degree(), CONNECTIONS_PER_OSC);
    for i in 0..200 {
        for c in 0..t.degree() {
            let j = t.target(i, c);
            assert!(j < 200);
            assert_ne!(j, i);
            assert_eq!(t.delay(i, c), 2);
            for e in 0..c {
                assert_ne!(t.target(i, e), j);
            }
        }
    }
}

#[test]
fn topology_same_seed_same_edges() {
    let mut a = Lcg::new(DEFAULT_SEED);
    let mut b = Lcg::new(DEFAULT_SEED);
    let ta = Topology::new(100, 3, &mut a);
    let tb = Topology::new(100, 3, &mut b);
    assert_eq!(targets(&ta), targets(&tb));
    assert_eq!(a.state, b.state);
}

#[test]
fn topology_degree_shrinks_for_tiny_networks() {
    let mut g = Lcg::new(7);
    assert_eq!(Topology::new(0, 5, &mut g).degree(), 0);
    assert_eq!(Topology::new(1, 5, &mut g).degree(), 0);
    assert_eq!(Topology::new(2, 5, &mut g).degree(), 1);
    assert_eq!(Topology::new(41, 5, &mut g).degree(), 40);
}

#[test]
fn topology_delay_capped_by_history() {
    let mut g = Lcg::new(7);
    let t = Topology::new(10, 1, &mut g);
    assert_eq!(t.delay(3, 0), 1);
    let t = Topology::new(10, 0, &mut g);
    assert_eq!(t.delay(3, 0), 0);
}

#[test]
fn topology_consumes_one_draw_per_synapse() {
    let mut g = Lcg::new(DEFAULT_SEED);
    let _ = Topology::new(5, 5, &mut g);
    let mut h = Lcg::new(DEFAULT_SEED);
    for _ in 0..20 {
        h.next_bits();
    }
    assert_eq!(g.state, h.state);
}

#[test]
fn topology_probes_past_taken_targets() {
    let mut g = Lcg::new(DEFAULT_SEED);
    let t = Topology::new(8, 5, &mut g);
    assert_eq!(targets(&t)[..3].to_vec(), vec![
        vec![5, 6, 7, 1, 2, 3, 4],
        vec![0, 3, 2, 4, 6, 5, 7],
        vec![0, 6, 5, 7, 1, 3, 4]
    ]);
}
