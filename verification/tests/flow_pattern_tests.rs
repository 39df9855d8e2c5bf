use web_games::flow_pattern::{FlowPattern, FlowRate, MaterialFlow, RATE_DIVISOR};
use web_games::machine_data::Material;

fn assert_flow_pattern(rate: i64, prefix: &[i64]) {
    let observed: Vec<i64> = (0..prefix.len())
        .map(|index| FlowPattern::new(0, rate).num_disbursed_at_time(index as i64))
        .collect();
    assert_eq!(prefix, observed.as_slice());
}

#[test]
fn flow_pattern_flow_pattern_unit_tests() {
    assert_flow_pattern(RATE_DIVISOR, &[1, 1, 1, 1]);
    assert_flow_pattern(RATE_DIVISOR / 2, &[1, 0, 1, 0, 1, 0, 1, 0]);
    assert_flow_pattern(RATE_DIVISOR / 3, &[1, 0, 0, 1, 0, 0, 1, 0]);
    assert_flow_pattern(RATE_DIVISOR * 2 / 3, &[1, 1, 0, 1, 1, 0, 1, 1]);
}

#[test]
fn flow_rate_counts_round_up_from_time_zero() {
    let rate = FlowRate::new(RATE_DIVISOR / 3);
    assert_eq!(rate.num_disbursed_between([0, 1]), 1);
    assert_eq!(rate.num_disbursed_between([0, 3]), 1);
    assert_eq!(rate.num_disbursed_between([0, 4]), 2);
    assert_eq!(rate.num_disbursed_between([-3, 0]), 1);
}

#[test]
fn flow_rate_density_on_a_window() {
    let rate = FlowRate::new(RATE_DIVISOR * 2 / 3);
    let observed = rate.num_disbursed_between([5, 5 + 7]);
    assert!(observed >= 4 && observed <= 5);
}

#[test]
fn flow_rate_cycle_on_a_window() {
    let rate = FlowRate::new(12345);
    assert_eq!(
        rate.num_disbursed_between([-17, 40]),
        rate.num_disbursed_between([-17 + RATE_DIVISOR, 40 + RATE_DIVISOR])
    );
}

#[test]
fn flow_rate_last_disbursement_exact_values() {
    let rate = FlowRate::new(RATE_DIVISOR / 3);
    assert_eq!(rate.last_disbursement_before(1), 0);
    assert_eq!(rate.last_disbursement_before(3), 0);
    assert_eq!(rate.last_disbursement_before(4), 3);
    assert_eq!(rate.last_disbursement_before(-1), -3);
}

#[test]
fn flow_pattern_last_disbursement_before_start_is_none() {
    let pattern = FlowPattern::new(10, RATE_DIVISOR / 2);
    assert_eq!(pattern.last_disbursement_before(10), None);
    assert_eq!(pattern.last_disbursement_before(5), None);
    assert_eq!(pattern.last_disbursement_before(11), Some(10));
    assert_eq!(pattern.last_disbursement_before(14), Some(12));
    let t = pattern.last_disbursement_before(14).unwrap();
    assert_eq!(pattern.num_disbursed_between([t + 1, 14]), 0);
    assert_eq!(pattern.num_disbursed_between([t, 14]), 1);
}

#[test]
fn flow_nth_disbursement_times() {
    let rate = FlowRate::new(RATE_DIVISOR / 3);
    assert_eq!(rate.nth_disbursement_time(0), 0);
    assert_eq!(rate.nth_disbursement_time(2), 6);
    assert_eq!(rate.nth_disbursement_time(-1), -3);
    let pattern = FlowPattern::new(100, RATE_DIVISOR / 3);
    assert_eq!(pattern.nth_disbursement_time(2), Some(106));
    assert_eq!(pattern.nth_disbursement_time(-1), None);
    assert_eq!(pattern.num_disbursed_before(106), 2);
    assert_eq!(pattern.num_disbursed_before(107), 3);
}

#[test]
fn flow_time_from_which_at_least_amount() {
    let rate = FlowRate::new(RATE_DIVISOR / 2);
    // nothing disbursed before 0; 3 items need 6 time units
    assert_eq!(
        rate.time_from_which_this_will_always_disburse_at_least_amount_plus_ideal_rate(0, 3),
        6
    );
    // 2 items were disbursed before time 3, so 2 + 3 items need 10 time units
    assert_eq!(
        rate.time_from_which_this_will_always_disburse_at_least_amount_plus_ideal_rate(3, 3),
        10
    );
    let observed = rate.num_disbursed_between([3, 10 + 4 + 1]);
    assert!(observed >= 3 + (RATE_DIVISOR / 2 * 5 + RATE_DIVISOR - 1) / RATE_DIVISOR);
}

#[test]
fn flow_pattern_accessors_and_delay() {
    let pattern = FlowPattern::new(7, 99);
    assert_eq!(pattern.start_time(), 7);
    assert_eq!(pattern.rate(), 99);
    let delayed = pattern.delayed_by(5);
    assert_eq!(delayed.start_time(), 12);
    assert_eq!(delayed.rate(), 99);
    assert_eq!(delayed.num_disbursed_before(30 + 5), pattern.num_disbursed_before(30));
    assert_eq!(pattern.num_disbursed_at_time(6), 0);
    assert_eq!(pattern.num_disbursed_at_time(7), 1);
}

#[test]
fn flow_pattern_between_clamps_at_start() {
    let pattern = FlowPattern::new(10, RATE_DIVISOR);
    assert_eq!(pattern.num_disbursed_between([0, 13]), 3);
    assert_eq!(pattern.num_disbursed_between([0, 5]), 0);
}


#[test]
fn first_and_nth_disbursement_at_or_after_a_time() {
    let flow = MaterialFlow { material: Material::Iron, flow: FlowPattern::new(10, 43200) };
    assert_eq!(flow.first_disbursement_time_geq(0), Some(10));
    assert_eq!(flow.first_disbursement_time_geq(10), Some(10));
    assert_eq!(flow.first_disbursement_time_geq(11), Some(70));
    assert_eq!(flow.nth_disbursement_time_geq(2, 11), Some(190));
    assert_eq!(flow.first_disbursement_time_geq(i64::MAX), None);
}

#[test]
fn at_most_one_item_per_time_unit() {
    for rate in [1, 7, 43200, RATE_DIVISOR / 3, RATE_DIVISOR] {
        let r = FlowRate::new(rate);
        for t in -50..200 {
            let n = r.num_disbursed_at_time(t);
            assert!(n == 0 || n == 1);
            assert_eq!(n, r.num_disbursed_between([t, t + 1]));
        }
    }
}

#[test]
fn windows_add_up_and_delays_shift() {
    let p = FlowPattern::new(5, RATE_DIVISOR / 3);
    assert_eq!(p.num_disbursed_between([0, 20]), p.num_disbursed_between([0, 9]) + p.num_disbursed_between([9, 20]));
    assert_eq!(p.num_disbursed_between([-10, 5]), 0);
    let q = p.delayed_by(100);
    for t in 0..30 {
        assert_eq!(q.num_disbursed_at_time(t + 100), p.num_disbursed_at_time(t));
    }
    let r = FlowRate::new(RATE_DIVISOR / 4);
    let last = r.last_disbursement_before(10);
    assert_eq!(last, 8);
    assert_eq!(r.num_disbursed_at_time(last), 1);
    assert_eq!(r.num_disbursed_between([last + 1, 10]), 0);
}

#[test]
fn a_zero_rate_is_no_flow() {
    let r = FlowRate::new(0);
    assert_eq!(r.num_disbursed_between([0, 1000]), 0);
    assert_eq!(r.num_disbursed_between([-500, 500]), r.num_disbursed_between([-500 + RATE_DIVISOR, 500 + RATE_DIVISOR]));
    let p = FlowPattern::new(3, 0);
    assert_eq!(p.num_disbursed_between([0, 100]), 0);
    for rate in [0, 1, 1000, RATE_DIVISOR] {
        for duration in [0, 1, 7, 100000] {
            assert_eq!(
                FlowRate::new(rate).num_disbursed_between([0, duration]),
                (rate * duration + RATE_DIVISOR - 1) / RATE_DIVISOR
            );
        }
    }
}
