use rbnet::bonding::Stability;
use rbnet::errors::RbnError;
use rbnet::rbn::RBN;
use rbnet::state::RBNState;

fn twelve_node_tables() -> Vec<Vec<bool>> {
    vec![
        vec![true, false, false, true],
        vec![true, true, false, false],
        vec![true, false, false, false],
        vec![true, false, true, true],
        vec![true, true, false, false],
        vec![false, false, false, false],
        vec![true, true, true, false],
        vec![false, true, true, false],
        vec![true, false, false, false],
        vec![false, false, true, false],
        vec![false, true, true, false],
        vec![true, false, true, true],
    ]
}

fn twelve_node_structure() -> Vec<(usize, usize)> {
    vec![
        (4, 5),
        (3, 5),
        (0, 10),
        (1, 4),
        (3, 4),
        (4, 6),
        (4, 8),
        (11, 4),
        (2, 3),
        (2, 11),
        (0, 5),
        (9, 8),
    ]
}

#[test]
fn test_rbn_calc() {
    let nds = twelve_node_tables();
    let rbn_struct = twelve_node_structure();
    let mut newrbn = RBN::new_from_def(nds, rbn_struct).unwrap();

    println!("{}", newrbn.fmt_structure());
    println!("{}", newrbn.fmt_header());
    newrbn.calculate_particle(0b000000000101).unwrap();
    // This generates a cycle length of 4
    assert_eq!(Some(4), newrbn.cycle_len);
    assert_eq!(Some(5), newrbn.trans_len);
    let expected_struct = "ID\tFunction\tStruct\tInfluence\n0,\t1,0,0,1,\t4,5,\t2\n1,\t1,1,0,0,\t3,5,\t1\n2,\t1,0,0,0,\t0,10,\t2\n3,\t1,0,1,1,\t1,4,\t3\n4,\t1,1,0,0,\t3,4,\t6\n5,\t0,0,0,0,\t4,6,\t3\n6,\t1,1,1,0,\t4,8,\t1\n7,\t0,1,1,0,\t11,4,\t0\n8,\t1,0,0,0,\t2,3,\t2\n9,\t0,0,1,0,\t2,11,\t1\n10,\t0,1,1,0,\t0,5,\t1\n11,\t1,0,1,1,\t9,8,\t2\n";
    assert_eq!(newrbn.fmt_structure(), expected_struct);

    let expected_cl = "CL  2,  0,  2,  0, -2,  4, -4,  0,  0, -4,  4,  0,";
    let mut cl_str = String::new();
    cl_str.push_str(&newrbn.fmt_cycle_liveliness());
    assert_eq!(cl_str, expected_cl);
    let expected_tl = "TL -1,  1, -1, -3, -1,  3, -5, -1,  1, -3,  3,  1,";
    let mut tl_str = String::new();
    tl_str.push_str(&newrbn.fmt_trans_liveliness());
    assert_eq!(tl_str, expected_tl);
}

#[test]
fn test_rbn_interaction_list() {
    let nds = twelve_node_tables();
    let rbn_struct = twelve_node_structure();
    let mut newrbn = RBN::new_from_def(nds, rbn_struct).unwrap();

    println!("{}", newrbn.fmt_structure());
    println!("{}", newrbn.fmt_header());
    newrbn.calculate_particle(0b000000000101).unwrap();
    let bonding_sites = newrbn.generate_interaction_groups_inf(23, false);
    let mut generated_sites = String::new();
    for bonding_site in bonding_sites {
        generated_sites.push_str(&bonding_site.to_text());
    }
    let expected_sites = "[4, 3, 1, 5, 6, 8, 2, 0][11, 9][10][7]";
    assert_eq!(generated_sites, expected_sites);

    let bonding_sites = newrbn.generate_interaction_groups_inf(23, true);
    let mut generated_sites = String::new();
    for bonding_site in bonding_sites {
        generated_sites.push_str(&bonding_site.to_text());
    }
    let expected_sites = "[7, 11, 9, 2, 10, 0, 5, 6, 8, 3, 1][4]";
    assert_eq!(generated_sites, expected_sites);

    let bonding_sites = newrbn.generate_interaction_groups_inf(2, false);
    let mut generated_sites = String::new();
    for bonding_site in bonding_sites {
        generated_sites.push_str(&bonding_site.to_text());
    }
    let expected_sites = "[4, 3][5, 6][11, 8][2, 0][10][9][1][7]";
    assert_eq!(generated_sites, expected_sites);

    let bonding_sites = newrbn.generate_interaction_groups_inf(1, false);
    let mut generated_sites = String::new();
    for bonding_site in bonding_sites {
        generated_sites.push_str(&bonding_site.to_text());
    }
    let expected_sites = "[4][5][3][11][8][2][0][10][9][6][1][7]";
    assert_eq!(generated_sites, expected_sites);
}

#[test]
fn detection_is_idempotent_for_fixed_seed() {
    let mut net = RBN::new_from_def(twelve_node_tables(), twelve_node_structure()).unwrap();
    let first = match net.calculate_particle(0b000000000101).unwrap() {
        Stability::Unstable { cycle, transient } => (cycle, transient),
        Stability::Stable => panic!("detection reported no lengths"),
    };
    for _ in 0..3 {
        let again = match net.calculate_particle(0b000000000101).unwrap() {
            Stability::Unstable { cycle, transient } => (cycle, transient),
            Stability::Stable => panic!("detection reported no lengths"),
        };
        assert_eq!(first, again);
    }
    assert_eq!(first, (4, 5));
}

#[test]
fn transient_requires_cycle_first() {
    let mut net = RBN::new_from_def(twelve_node_tables(), twelve_node_structure()).unwrap();
    assert_eq!(net.calculate_transient_ln(5).unwrap_err(), RbnError::MissingCycleLength);
}

#[test]
fn liveliness_requires_both_lengths() {
    let mut net = RBN::new_from_def(twelve_node_tables(), twelve_node_structure()).unwrap();
    assert_eq!(net.calculate_liveliness(5).unwrap_err(), RbnError::MissingCycleOrTransient);
    net.calculate_cycle_ln(5).unwrap();
    assert_eq!(net.calculate_liveliness(5).unwrap_err(), RbnError::MissingCycleOrTransient);
}

#[test]
fn mismatched_definition_is_rejected() {
    let nds = twelve_node_tables();
    let mut strct = twelve_node_structure();
    strct.pop();
    assert_eq!(RBN::new_from_def(nds, strct).unwrap_err(), RbnError::StructureMismatch);
}

#[test]
fn unsupported_fan_in_is_rejected() {
    assert_eq!(RBN::new(3, 5).unwrap_err(), RbnError::UnsupportedFanIn);
    assert_eq!(RBN::new(0, 5).unwrap_err(), RbnError::UnsupportedFanIn);
}

#[test]
fn undersized_table_lookup_fails_detection() {
    // both nodes start at state true, so node 1 forms address 3 against a
    // two-entry table
    let nds = vec![vec![false, true], vec![true, false]];
    let strct = vec![(0, 0), (0, 1)];
    let mut net = RBN::new_from_def(nds, strct).unwrap();
    let seed = RBNState::from_u64(3);
    net.set_state(&seed);
    assert_eq!(net.calculate_cycle_ln(3).unwrap_err(), RbnError::IndexOutOfRange);
}

#[test]
fn step_and_sync_follow_the_tables() {
    // node 0 copies node 1, node 1 negates itself
    let nds = vec![vec![false, false, true, true], vec![true, false, true, false]];
    let strct = vec![(0, 1), (1, 1)];
    let mut net = RBN::new_from_def(nds, strct).unwrap();
    net.set_state(&RBNState::from_u64(0b01));
    let staged = net.step().unwrap();
    assert_eq!(staged.get(0), false);
    assert_eq!(staged.get(1), true);
    net.sync();
    let staged = net.step().unwrap();
    assert_eq!(staged.get(0), true);
    assert_eq!(staged.get(1), false);
}

#[test]
fn random_construction_shape() {
    let net = RBN::new(2, 17).unwrap();
    assert_eq!(net.nodes.len(), 17);
    let mut influence_sum: u64 = 0;
    for nd in &net.nodes {
        assert_eq!(nd.get_function_table().len(), 4);
        assert_eq!(nd.inputs.len(), 2);
        assert!((nd.inputs[0] as usize) < 17);
        assert!((nd.inputs[1] as usize) < 17);
        influence_sum += nd.get_influence().unwrap() as u64;
    }
    // every input edge contributes exactly one influence increment: n * k
    assert_eq!(influence_sum, 17 * 2);
}

#[test]
fn explicit_construction_influence_sums_to_edges() {
    let net = RBN::new_from_def(twelve_node_tables(), twelve_node_structure()).unwrap();
    let mut influence_sum: u64 = 0;
    for nd in &net.nodes {
        influence_sum += nd.get_influence().unwrap() as u64;
    }
    assert_eq!(influence_sum, 12 * 2);
}

#[test]
fn groups_partition_all_nodes() {
    let net = RBN::new(2, 40).unwrap();
    for (cap, least) in [(1u16, false), (3, false), (40, true), (200, false)] {
        let groups = net.generate_interaction_groups_inf(cap, least);
        let mut seen = vec![false; 40];
        for g in &groups {
            assert!(!g.interaction_list.is_empty());
            assert!(g.interaction_list.len() <= cap.max(1) as usize);
            for &id in &g.interaction_list {
                assert!(!seen[id as usize], "node {} appears twice", id);
                seen[id as usize] = true;
            }
        }
        assert!(seen.iter().all(|&b| b));
        if cap == 1 {
            assert!(groups.iter().all(|g| g.interaction_list.len() == 1));
        }
    }
}

#[test]
fn state_vector_round_trip() {
    let num: u64 = 0xDEAD_BEEF_0123_4567;
    let v = RBNState::from_u64(num);
    assert_eq!(v.len(), 64);
    let mut rebuilt: u64 = 0;
    for i in 0..64 {
        if v.get(i) {
            rebuilt |= 1u64 << i;
        }
    }
    assert_eq!(rebuilt, num);

    let v16 = RBNState::from_u16(0b1010_0000_0000_0001);
    assert_eq!(v16.len(), 16);
    assert!(v16.get(0));
    assert!(!v16.get(1));
    assert!(v16.get(15));
    let v32 = RBNState::from_u32(1 << 31);
    assert_eq!(v32.len(), 32);
    assert!(v32.get(31));
    assert!(!v32.get(0));

    let a = RBNState::from_u64(5);
    let b = RBNState::from_u64(5);
    let c = RBNState::from_u64(6);
    assert!(a == b);
    assert!(a != c);
    assert!(a != v16);
}

#[test]
fn liveliness_magnitudes_bounded_by_phase_lengths() {
    let mut net = RBN::new_from_def(twelve_node_tables(), twelve_node_structure()).unwrap();
    net.calculate_particle(0b000000000101).unwrap();
    let mu = net.trans_len.unwrap() as i64;
    let cl = net.cycle_len.unwrap() as i64;
    assert!(mu >= 1);
    for nd in &net.nodes {
        let tl = nd.get_trans_liveliness() as i64;
        let cv = nd.get_cycle_liveliness() as i64;
        assert!(tl.abs() <= mu, "transient tally {} exceeds transient length {}", tl, mu);
        assert!(cv.abs() <= cl, "cycle tally {} exceeds cycle length {}", cv, cl);
        // each phase folds one observation per step, so parity follows length
        assert_eq!((tl - mu) % 2, 0);
        assert_eq!((cv - cl) % 2, 0);
    }
}

#[test]
fn groups_invariant_above_node_count() {
    let net = RBN::new_from_def(twelve_node_tables(), twelve_node_structure()).unwrap();
    for least in [false, true] {
        let baseline: Vec<String> =
            net.generate_interaction_groups_inf(12, least).iter().map(|g| g.to_text()).collect();
        for cap in [13u16, 23, 64, u16::MAX] {
            let again: Vec<String> =
                net.generate_interaction_groups_inf(cap, least).iter().map(|g| g.to_text()).collect();
            assert_eq!(baseline, again);
        }
    }
}
