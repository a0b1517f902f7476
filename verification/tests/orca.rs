use autobahn_dex::orca::{
    derive_first_tick_array_start_tick, derive_last_tick_in_array, derive_last_tick_in_seq,
    derive_next_start_tick_in_seq, derive_start_tick, derive_tick_array_start_indexes, MAX_TICK_INDEX,
    MIN_TICK_INDEX,
};

#[test]
fn start_ticks() {
    assert_eq!(derive_start_tick(100, 1), 88);
    assert_eq!(derive_start_tick(0, 64), 0);
    assert_eq!(derive_start_tick(-1, 1), -88);
    assert_eq!(derive_start_tick(-88, 1), -88);
    assert_eq!(derive_start_tick(-1, 64), -5632);
    assert_eq!(derive_first_tick_array_start_tick(87, 1, false), 0);
    assert_eq!(derive_first_tick_array_start_tick(87, 1, true), 88);
}

#[test]
fn next_start_ticks() {
    assert_eq!(derive_next_start_tick_in_seq(88, 1, true), Some(0));
    assert_eq!(derive_next_start_tick_in_seq(88, 1, false), Some(176));
    assert_eq!(derive_next_start_tick_in_seq(443520, 64, false), None);
    assert_eq!(derive_next_start_tick_in_seq(-439296, 64, true), None);
}

#[test]
fn start_indexes() {
    assert_eq!(derive_tick_array_start_indexes(100, 1, true), (88, Some(0), Some(-88)));
    assert_eq!(derive_tick_array_start_indexes(100, 1, false), (88, Some(176), Some(264)));
    assert_eq!(derive_tick_array_start_indexes(87, 1, false), (88, Some(176), Some(264)));
    assert_eq!(derive_tick_array_start_indexes(MAX_TICK_INDEX, 64, false), (439296, None, None));
}

#[test]
fn last_ticks() {
    assert_eq!(derive_last_tick_in_array(88, 1, true), 88);
    assert_eq!(derive_last_tick_in_array(88, 1, false), 175);
    assert_eq!(derive_last_tick_in_array(439296, 64, false), MAX_TICK_INDEX);
    assert_eq!(derive_last_tick_in_array(-450560, 64, true), MIN_TICK_INDEX);
    assert_eq!(derive_last_tick_in_seq(&(88, Some(0), Some(-88)), 1, true), -88);
    assert_eq!(derive_last_tick_in_seq(&(88, Some(176), None), 1, false), 263);
    assert_eq!(derive_last_tick_in_seq(&(88, None, None), 1, false), 175);
}

#[test]
fn scanned_tick_arrays() {
    let starts = autobahn_dex::orca::scanned_tick_array_starts(100, 1);
    assert_eq!(starts.len(), 500);
    assert_eq!((starts[0], starts[1], starts[250], starts[499]), (-21912, -21824, 88, 22000));
    let wide = autobahn_dex::orca::scanned_tick_array_starts(0, 65535);
    assert_eq!(wide[0], -1441770000);
    assert_eq!(wide[372], 703583760);
    assert_eq!(wide[373], 705713647);
    assert_eq!(wide[499], 705713647);
}

#[test]
fn start_indexes_outside_the_tick_range() {
    assert_eq!(derive_tick_array_start_indexes(1_000_000, 1, true), (999944, None, None));
    assert_eq!(derive_tick_array_start_indexes(-1_000_000, 1, false), (-1000032, None, None));
}
