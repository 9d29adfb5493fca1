use checksmith::search::params::{
    asp_delta, futility_margin_1, futility_margin_2, lmp_base, param_get, param_set,
    probcut_margin, razor_margin, se_depth_factor, set_futility_margin_1, SearchParams, ALL_PARAMS,
};

#[test]
fn defaults_match_constants() {
    let q = SearchParams::default();
    assert_eq!(futility_margin_1(&q), 250);
    assert_eq!(futility_margin_2(&q), 500);
    assert_eq!(razor_margin(&q),      300);
    assert_eq!(probcut_margin(&q),    200);
    assert_eq!(asp_delta(&q),          50);
    assert_eq!(lmp_base(&q),            3);
    assert_eq!(se_depth_factor(&q),     6);
}

#[test]
fn setters_clamp_to_range() {
    let mut q = SearchParams::default();
    let orig = futility_margin_1(&q);
    set_futility_margin_1(&mut q, 99_999);
    assert_eq!(futility_margin_1(&q), 500);
    set_futility_margin_1(&mut q, -1);
    assert_eq!(futility_margin_1(&q), 100);
    set_futility_margin_1(&mut q, orig);
    assert_eq!(futility_margin_1(&q), orig);
}

#[test]
fn all_params_metadata_is_consistent() {
    for (name, min, max, default, c_step) in ALL_PARAMS {
        assert!(min < max, "{}: min must be < max", name);
        assert!(default >= min && default <= max,
            "{}: default {} not in [{}, {}]", name, default, min, max);
        assert!(c_step > 0, "{}: c_step must be positive", name);
    }
}

#[test]
fn param_get_returns_current_value() {
    let q = SearchParams::default();
    for (i, (name, min, max, _, _)) in ALL_PARAMS.iter().enumerate() {
        let current = param_get(&q, i);
        assert!(current >= *min && current <= *max,
            "{}: current value {} out of range [{}, {}]", name, current, min, max);
    }
}

#[test]
fn parameters_are_set_by_index() {
    for i in 0..ALL_PARAMS.len() {
        let mut q = SearchParams::default();
        param_set(&mut q, i, 1_000_000);
        assert_eq!(param_get(&q, i), ALL_PARAMS[i].2);
        param_set(&mut q, i, -1_000_000);
        assert_eq!(param_get(&q, i), ALL_PARAMS[i].1);
        for k in 0..ALL_PARAMS.len() {
            if k != i {
                assert_eq!(param_get(&q, k), ALL_PARAMS[k].3);
            }
        }
    }
}
