use proxyzms::traffic::traffic_step;

#[test]
fn first_poll_sets_no_rate() {
    assert_eq!(traffic_step(None, Some((100, 50))), (Some((100, 50)), None));
}

#[test]
fn rates_are_the_increase_of_the_totals() {
    assert_eq!(traffic_step(Some((100, 50)), Some((1124, 60))), (Some((1124, 60)), Some((1024, 10))));
}

#[test]
fn a_smaller_total_gives_zero() {
    assert_eq!(traffic_step(Some((100, 50)), Some((40, 70))), (Some((40, 70)), Some((0, 20))));
}

#[test]
fn failed_poll_zeroes_the_rates_and_keeps_the_totals() {
    assert_eq!(traffic_step(Some((100, 50)), None), (Some((100, 50)), Some((0, 0))));
    assert_eq!(traffic_step(None, None), (None, Some((0, 0))));
}
