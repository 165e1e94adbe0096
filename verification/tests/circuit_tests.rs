use circuit_sim::circuit::Circuit;
use circuit_sim::circuit::calculate_current;
use circuit_sim::rat::Rat;
use circuit_sim::resistance::calculate_parallel_resistance;
use circuit_sim::resistance::calculate_total_resistance;
use circuit_sim::topology::CircuitError;
use circuit_sim::topology::ElectronicComponent;
use circuit_sim::topology::PowerSupply;
use circuit_sim::topology::Resistor;
use circuit_sim::topology::Series;
use circuit_sim::topology::SeriesElement;

fn resistor(r: Rat) -> SeriesElement {
    SeriesElement::new(ElectronicComponent::new_resistor(r).unwrap())
}

fn ohms(n: i64) -> SeriesElement {
    resistor(Rat::from_int(n))
}

fn leaf_drop(s: &Series, i: usize) -> Rat {
    match &s[i] {
        SeriesElement::Component(c) => c.get_tension(),
        SeriesElement::Parallel(_) => panic!("not a leaf"),
    }
}

fn branch_leaf_drop(s: &Series, i: usize, j: usize, k: usize) -> Rat {
    match &s[i] {
        SeriesElement::Parallel(bs) => match &bs[j][k] {
            SeriesElement::Component(c) => c.get_tension(),
            SeriesElement::Parallel(_) => panic!("not a leaf"),
        },
        SeriesElement::Component(_) => panic!("not a parallel group"),
    }
}

/// Supply 12 V over 10 ohm, 20 ohm, and a parallel group of one 30 ohm and
/// one 40 ohm branch.
fn example_series() -> Series {
    let par = SeriesElement::new_parallel(vec![vec![ohms(30)], vec![ohms(40)]]).unwrap();
    vec![ohms(10), ohms(20), par]
}

#[test]
fn series_chain_resistance_is_the_sum() {
    let s = vec![
        resistor(Rat::new(1, 2)),
        resistor(Rat::new(1, 3)),
        resistor(Rat::new(1, 6)),
    ];
    let total = calculate_total_resistance(&s).unwrap();
    assert!(total.eqv(&Rat::from_int(1)));
}

#[test]
fn parallel_resistance_is_reciprocal_of_reciprocal_sum() {
    let branches = vec![vec![ohms(30)], vec![ohms(40)]];
    let p = calculate_parallel_resistance(&branches).unwrap();
    assert!(p.eqv(&Rat::new(120, 7)));
}

#[test]
fn parallel_of_one_branch_is_that_branch() {
    let branches = vec![vec![ohms(50)]];
    let p = calculate_parallel_resistance(&branches).unwrap();
    assert!(p.eqv(&Rat::from_int(50)));
}

#[test]
fn voltage_divider_drops_sum_to_supply() {
    let supply = PowerSupply::new(Rat::from_int(12));
    let c = Circuit::new(supply, vec![ohms(10), ohms(20)]).unwrap();
    let s = c.get_series();
    let d0 = leaf_drop(s, 0);
    let d1 = leaf_drop(s, 1);
    assert!(d0.eqv(&Rat::from_int(4)));
    assert!(d1.eqv(&Rat::from_int(8)));
    let sum = d0.checked_add(&d1).unwrap();
    assert!(sum.eqv(&Rat::from_int(12)));
}

#[test]
fn set_tensions_assigns_in_place() {
    let mut s = vec![ohms(2), ohms(3)];
    circuit_sim::tension::set_tensions_in_circuit(&mut s, Rat::from_int(10)).unwrap();
    assert!(leaf_drop(&s, 0).eqv(&Rat::from_int(4)));
    assert!(leaf_drop(&s, 1).eqv(&Rat::from_int(6)));
}

#[test]
fn parallel_branches_share_the_group_voltage() {
    let supply = PowerSupply::new(Rat::from_int(12));
    let c = Circuit::new(supply, example_series()).unwrap();
    let s = c.get_series();
    let d30 = branch_leaf_drop(s, 2, 0, 0);
    let d40 = branch_leaf_drop(s, 2, 1, 0);
    assert!(d30.eqv(&Rat::new(48, 11)));
    assert!(d40.eqv(&Rat::new(48, 11)));
    assert!(d30.eqv(&d40));
}

#[test]
fn update_is_idempotent() {
    let supply = PowerSupply::new(Rat::from_int(12));
    let mut c = Circuit::new(supply, example_series()).unwrap();
    let before_intensity = c.get_intensity();
    let before_drops = (
        leaf_drop(c.get_series(), 0),
        leaf_drop(c.get_series(), 1),
        branch_leaf_drop(c.get_series(), 2, 0, 0),
        branch_leaf_drop(c.get_series(), 2, 1, 0),
    );
    c.update().unwrap();
    assert_eq!(c.get_intensity(), before_intensity);
    assert_eq!(leaf_drop(c.get_series(), 0), before_drops.0);
    assert_eq!(leaf_drop(c.get_series(), 1), before_drops.1);
    assert_eq!(branch_leaf_drop(c.get_series(), 2, 0, 0), before_drops.2);
    assert_eq!(branch_leaf_drop(c.get_series(), 2, 1, 0), before_drops.3);
}

#[test]
fn snapshot_round_trip_preserves_derived_values() {
    let supply = PowerSupply::new(Rat::from_int(12));
    let original = Circuit::new(supply, example_series()).unwrap();
    let saved_voltage = original.get_power_supply().get_voltage();
    let total_before = calculate_total_resistance(original.get_series()).unwrap();
    let current_before = original.get_intensity();

    // Reload from the persisted shape: the same supply and topology, with
    // whatever stale drops the file carried.
    let reloaded = Circuit::new(PowerSupply::new(saved_voltage), example_series()).unwrap();
    let total_after = calculate_total_resistance(reloaded.get_series()).unwrap();
    assert!(total_before.eqv(&total_after));
    assert!(current_before.eqv(&reloaded.get_intensity()));
}

#[test]
fn empty_circuit_has_zero_resistance_and_zero_current() {
    let supply = PowerSupply::new(Rat::from_int(12));
    let c = Circuit::new(supply, vec![]).unwrap();
    let total = calculate_total_resistance(c.get_series()).unwrap();
    assert!(total.is_zero());
    assert!(c.get_intensity().is_zero());
    assert!(calculate_current(&c).unwrap().is_zero());
}

#[test]
fn example_circuit_exact_values() {
    let supply = PowerSupply::new(Rat::from_int(12));
    let c = Circuit::new(supply, example_series()).unwrap();
    let total = calculate_total_resistance(c.get_series()).unwrap();
    // 10 + 20 + 1/(1/30 + 1/40) = 30 + 120/7 = 330/7 (about 47.142857)
    assert!(total.eqv(&Rat::new(330, 7)));
    // 12 / (330/7) = 14/55 (about 0.2545 A)
    assert!(c.get_intensity().eqv(&Rat::new(14, 55)));
    // 12 * 10 / (330/7) = 28/11 (about 2.545 V)
    assert!(leaf_drop(c.get_series(), 0).eqv(&Rat::new(28, 11)));
    // the group sees 12 * (120/7) / (330/7) = 48/11 (about 4.364 V)
    assert!(branch_leaf_drop(c.get_series(), 2, 0, 0).eqv(&Rat::new(48, 11)));
    assert!(branch_leaf_drop(c.get_series(), 2, 1, 0).eqv(&Rat::new(48, 11)));
    // 28/11 + 56/11 + 48/11 = 12: the drops across the three series
    // positions add back up to the supply voltage.
    let top = leaf_drop(c.get_series(), 0)
        .checked_add(&leaf_drop(c.get_series(), 1))
        .unwrap()
        .checked_add(&branch_leaf_drop(c.get_series(), 2, 0, 0))
        .unwrap();
    assert!(top.eqv(&Rat::from_int(12)));
}

#[test]
fn empty_parallel_group_is_rejected() {
    match SeriesElement::new_parallel(vec![]) {
        Err(e) => assert_eq!(e, CircuitError::MalformedTopology),
        Ok(_) => panic!("accepted an empty parallel group"),
    }
}

#[test]
fn empty_parallel_branch_is_rejected() {
    match SeriesElement::new_parallel(vec![vec![ohms(10)], vec![]]) {
        Err(e) => assert_eq!(e, CircuitError::MalformedTopology),
        Ok(_) => panic!("accepted an empty branch"),
    }
}

#[test]
fn non_positive_resistance_is_rejected_at_construction() {
    assert_eq!(
        Resistor::new(Rat::zero()).unwrap_err(),
        CircuitError::NonPositiveResistance
    );
    assert_eq!(
        ElectronicComponent::new_resistor(Rat::new(-5, 1)).unwrap_err(),
        CircuitError::NonPositiveResistance
    );
}

#[test]
fn overflowing_evaluation_is_reported() {
    let supply = PowerSupply::new(Rat::from_int(12));
    let huge = vec![resistor(Rat::from_int(i64::MAX)), resistor(Rat::from_int(i64::MAX))];
    match Circuit::new(supply, huge) {
        Err(e) => assert_eq!(e, CircuitError::ArithmeticOverflow),
        Ok(_) => panic!("evaluated past the machine range"),
    }
}

#[test]
fn edit_defers_recompute_until_update() {
    let supply = PowerSupply::new(Rat::from_int(12));
    let mut c = Circuit::new(supply, vec![ohms(10), ohms(20)]).unwrap();
    assert!(c.get_intensity().eqv(&Rat::new(2, 5)));
    c.set_component_resistance(&vec![0], Rat::from_int(40)).unwrap();
    // The cached values are deliberately stale until update() runs.
    assert!(c.get_intensity().eqv(&Rat::new(2, 5)));
    assert!(leaf_drop(c.get_series(), 0).eqv(&Rat::from_int(4)));
    c.update().unwrap();
    assert!(c.get_intensity().eqv(&Rat::new(1, 5)));
    assert!(leaf_drop(c.get_series(), 0).eqv(&Rat::from_int(8)));
    assert!(leaf_drop(c.get_series(), 1).eqv(&Rat::from_int(4)));
}

#[test]
fn edit_reaches_a_leaf_inside_a_parallel_group() {
    let supply = PowerSupply::new(Rat::from_int(12));
    let mut c = Circuit::new(supply, example_series()).unwrap();
    c.set_component_resistance(&vec![2, 0, 0], Rat::from_int(60)).unwrap();
    c.update().unwrap();
    // 10 + 20 + 1/(1/60 + 1/40) = 30 + 24 = 54
    let total = calculate_total_resistance(c.get_series()).unwrap();
    assert!(total.eqv(&Rat::from_int(54)));
    assert!(c.get_intensity().eqv(&Rat::new(2, 9)));
}

#[test]
fn invalid_paths_are_rejected() {
    let supply = PowerSupply::new(Rat::from_int(12));
    let mut c = Circuit::new(supply, example_series()).unwrap();
    let v = Rat::from_int(5);
    assert_eq!(
        c.set_component_resistance(&vec![5], v).unwrap_err(),
        CircuitError::InvalidPath
    );
    assert_eq!(
        c.set_component_resistance(&vec![2], v).unwrap_err(),
        CircuitError::InvalidPath
    );
    assert_eq!(
        c.set_component_resistance(&vec![0, 1], v).unwrap_err(),
        CircuitError::InvalidPath
    );
    assert_eq!(
        c.set_component_resistance(&vec![2, 5, 0], v).unwrap_err(),
        CircuitError::InvalidPath
    );
    assert_eq!(
        c.set_component_resistance(&vec![], v).unwrap_err(),
        CircuitError::InvalidPath
    );
    assert_eq!(
        c.set_component_resistance(&vec![0], Rat::zero()).unwrap_err(),
        CircuitError::NonPositiveResistance
    );
    // The rejected edits left everything as it was.
    assert!(c.get_intensity().eqv(&Rat::new(14, 55)));
    assert!(leaf_drop(c.get_series(), 0).eqv(&Rat::new(28, 11)));
}

#[test]
fn replace_topology_recomputes_at_once() {
    let supply = PowerSupply::new(Rat::from_int(12));
    let mut c = Circuit::new(supply, vec![ohms(10), ohms(20)]).unwrap();
    c.replace_topology(vec![ohms(6)]).unwrap();
    assert!(c.get_intensity().eqv(&Rat::from_int(2)));
    assert!(leaf_drop(c.get_series(), 0).eqv(&Rat::from_int(12)));
    assert_eq!(
        c.replace_topology(vec![ohms(1), SeriesElement::Parallel(vec![])]).unwrap_err(),
        CircuitError::MalformedTopology
    );
    // The failed replacement changed nothing.
    assert!(c.get_intensity().eqv(&Rat::from_int(2)));
}

#[test]
fn component_accessors_and_edits() {
    let mut comp = ElectronicComponent::new_resistor(Rat::from_int(10)).unwrap();
    assert!(comp.get_resistance().eqv(&Rat::from_int(10)));
    assert!(comp.get_tension().is_zero());
    comp.set_resistance(Rat::from_int(25)).unwrap();
    assert!(comp.get_resistance().eqv(&Rat::from_int(25)));
    assert_eq!(
        comp.set_resistance(Rat::zero()).unwrap_err(),
        CircuitError::NonPositiveResistance
    );
    assert!(comp.get_resistance().eqv(&Rat::from_int(25)));
    let supply = PowerSupply::new(Rat::new(-5, 2));
    assert!(supply.get_voltage().eqv(&Rat::new(-5, 2)));
}

#[test]
fn negative_supply_divides_like_a_positive_one() {
    let supply = PowerSupply::new(Rat::from_int(-12));
    let c = Circuit::new(supply, vec![ohms(10), ohms(20)]).unwrap();
    assert!(c.get_intensity().eqv(&Rat::new(-2, 5)));
    assert!(leaf_drop(c.get_series(), 0).eqv(&Rat::from_int(-4)));
}
