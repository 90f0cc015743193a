use music_mesa_tables::index::{
    spline_window_start, subrange_span, take_one, take_pair, IdxLin, StateVar, N_STATE_VARS,
};

#[test]
fn exact_and_between_windows() {
    assert_eq!(IdxLin::Exact(3).window(5), (3, 4));
    assert_eq!(IdxLin::Between(1, 2).window(5), (1, 3));
    assert_eq!(IdxLin::Exact(3).rebased(), IdxLin::Exact(0));
    assert_eq!(IdxLin::Between(3, 4).rebased(), IdxLin::Between(0, 1));
}

#[test]
fn spline_window_edges() {
    assert_eq!(spline_window_start(1, 4), Some(0));
    assert_eq!(spline_window_start(0, 4), None);
    assert_eq!(spline_window_start(2, 4), None);
    assert_eq!(spline_window_start(5, 10), Some(4));
    assert_eq!(spline_window_start(7, 10), Some(6));
    assert_eq!(spline_window_start(8, 10), None);
}

#[test]
fn subrange_of_overlapping_axes() {
    assert_eq!(subrange_span(&[false, true, true, true, false]), Some((1, 3)));
    assert_eq!(subrange_span(&[true, true]), Some((0, 2)));
    assert_eq!(subrange_span(&[false, false, true]), None);
    assert_eq!(subrange_span(&[]), None);
}

#[test]
fn take_entries() {
    let items = vec![10, 11, 12, 13];
    assert_eq!(take_pair(items, 1, 3), (11, 13));
    let items = vec![10, 11, 12, 13];
    assert_eq!(take_pair(items, 2, 3), (12, 13));
    let items = vec![10, 11, 12];
    assert_eq!(take_one(items, 0), 10);
}

#[test]
fn state_var_columns() {
    assert_eq!(StateVar::LogDensity.index(), 0);
    assert_eq!(StateVar::LogTemperature.index(), 3);
    assert_eq!(StateVar::Gamma.index(), 11);
    for i in 0..N_STATE_VARS {
        let v = StateVar::from_index(i).expect("column in range");
        assert_eq!(v.index(), i);
    }
    assert_eq!(StateVar::from_index(N_STATE_VARS), None);
}
