use rbnet::errors::RbnError;
use rbnet::node::Node;

#[test]
fn make_node_2() {
    let n = Node::new(2, 1).unwrap();
    assert_eq!(n.tbl_size, 4);
    assert_eq!(n.get_id(), 1);
}

#[test]
fn make_node_3() {
    let n = Node::new(3, 1).unwrap();
    assert_eq!(n.tbl_size, 8);
    assert_eq!(n.get_id(), 1);
}

#[test]
fn make_node_7() {
    let n = Node::new(7, 1).unwrap();
    assert_eq!(n.tbl_size, 128);
    assert_eq!(n.get_id(), 1);
}

#[test]
fn make_node_8_rejected() {
    assert_eq!(Node::new(8, 1).unwrap_err(), RbnError::UnsupportedFanIn);
}

#[test]
fn make_node_max_rejected() {
    assert_eq!(Node::new(u8::MAX, 1).unwrap_err(), RbnError::UnsupportedFanIn);
}

#[test]
fn make_from_tbl() {
    let mut tbl = Vec::new();
    tbl.push(true);
    tbl.push(true);
    tbl.push(true);
    tbl.push(true);

    let n = Node::new_with_tbl(tbl, 1);
    assert_eq!(n.tbl_size, 4);
    assert_eq!(n.get_id(), 1);
}

#[test]
fn get_state() {
    let mut tbl = Vec::new();
    tbl.push(true);
    tbl.push(false);
    tbl.push(true);
    tbl.push(false);

    let mut n = Node::new_with_tbl(tbl, 1);
    assert_eq!(n.get_id(), 1);
    assert_eq!(true, n.get_state(0).unwrap());
    assert_eq!(false, n.get_state(1).unwrap());
    assert_eq!(true, n.get_state(2).unwrap());
    assert_eq!(false, n.get_state(3).unwrap());
}

#[test]
fn get_state_oversize_rejected() {
    let mut tbl = Vec::new();
    tbl.push(true);
    tbl.push(false);

    let mut n = Node::new_with_tbl(tbl, 1);
    assert_eq!(n.get_state(3).unwrap_err(), RbnError::IndexOutOfRange);
    assert_eq!(n.calc_next_state(2).unwrap_err(), RbnError::IndexOutOfRange);
}

#[test]
fn state_read_before_set_is_rejected() {
    let mut n = Node::new_with_tbl(vec![true, false], 1);
    // one commit moves the staged value in, a second drains both slots
    n.update_state();
    n.update_state();
    assert_eq!(n.get_current_state().unwrap_err(), RbnError::NoCurrentState);
    assert_eq!(n.update_trans_liveliness().unwrap_err(), RbnError::NoCurrentState);
    assert_eq!(n.update_cycle_liveliness().unwrap_err(), RbnError::NoCurrentState);
}

#[test]
fn liveliness_tallies_accumulate() {
    let mut n = Node::new_with_tbl(vec![true, false], 1);
    n.set_current_state(true);
    n.update_trans_liveliness().unwrap();
    n.update_trans_liveliness().unwrap();
    n.set_current_state(false);
    n.update_trans_liveliness().unwrap();
    assert_eq!(n.get_trans_liveliness(), 1);
    n.update_cycle_liveliness().unwrap();
    assert_eq!(n.get_cycle_liveliness(), -1);
    n.reset_cycle_liveliness();
    n.set_current_state(true);
    n.update_cycle_liveliness().unwrap();
    assert_eq!(n.get_cycle_liveliness(), 1);
    n.reset_liveliness();
    assert_eq!(n.get_influence(), None);
}

#[test]
fn input_preference_orders_by_influence() {
    let mut n = Node::new_with_tbl(vec![true, false, true, false], 0);
    assert_eq!(n.get_input_by_inf(false, 3, 5), None);
    n.inputs.push(4);
    n.inputs.push(7);
    // equal influence hands the first input to the "least" side
    assert_eq!(n.get_input_by_inf(true, 2, 2), Some(4));
    assert_eq!(n.get_input_by_inf(false, 2, 2), Some(7));
    assert_eq!(n.get_input_by_inf(true, 1, 9), Some(4));
    assert_eq!(n.get_input_by_inf(false, 1, 9), Some(7));
    assert_eq!(n.get_input_by_inf(true, 9, 1), Some(7));
    assert_eq!(n.get_input_by_inf(false, 9, 1), Some(4));
}

#[test]
fn influence_counting() {
    let mut n = Node::new_with_tbl(vec![true, false], 3);
    assert_eq!(n.get_influence(), None);
    n.inc_influence();
    n.inc_influence();
    assert_eq!(n.get_influence(), Some(2));
    n.structure_set();
    assert_eq!(n.get_influence(), Some(2));
    let mut untouched = Node::new_with_tbl(vec![true, false], 4);
    untouched.structure_set();
    assert_eq!(untouched.get_influence(), Some(0));
}
