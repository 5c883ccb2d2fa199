use rust_qsim::flags::{any_measurement_enabled, flag_enabled, flag_value_enabled, measurement_switches};

#[test]
fn flag_value_one_and_true_enable() {
    assert!(flag_value_enabled("1"));
    assert!(flag_value_enabled("true"));
    assert!(flag_value_enabled("TRUE"));
    assert!(flag_value_enabled("TrUe"));
}

#[test]
fn flag_value_other_text_disables() {
    assert!(!flag_value_enabled(""));
    assert!(!flag_value_enabled("0"));
    assert!(!flag_value_enabled("false"));
    assert!(!flag_value_enabled("yes"));
    assert!(!flag_value_enabled("11"));
    assert!(!flag_value_enabled("true "));
    assert!(!flag_value_enabled(" true"));
    assert!(!flag_value_enabled("tru"));
    assert!(!flag_value_enabled("trüe"));
}

#[test]
fn unset_flag_is_off() {
    assert!(!flag_enabled(None));
    assert!(flag_enabled(Some("1")));
}

#[test]
fn any_measurement_when_either_switch_is_on() {
    assert!(!any_measurement_enabled(None, None));
    assert!(any_measurement_enabled(Some("true"), None));
    assert!(any_measurement_enabled(None, Some("1")));
    assert!(any_measurement_enabled(Some("1"), Some("TRUE")));
    assert!(!any_measurement_enabled(Some("0"), Some("false")));
}

#[test]
fn measurement_switches_follow_precedence() {
    assert_eq!(measurement_switches(true, true, true), (false, false));
    assert_eq!(measurement_switches(false, true, true), (false, true));
    assert_eq!(measurement_switches(false, false, true), (true, false));
    assert_eq!(measurement_switches(false, false, false), (false, false));
}
