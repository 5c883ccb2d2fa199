//! Measurement switches, read from environment values such as
//! `ENABLE_PERFORMANCE_LOGGING` and `ONLY_ROUTE_BLOCKING_WAIT`.

use vstd::prelude::*;

verus! {

/// `s` is `"true"` in any mix of ASCII upper and lower case.
pub open spec fn is_true_ignoring_ascii_case(s: Seq<char>) -> bool {
    &&& s.len() == 4
    &&& (s[0] == 't' || s[0] == 'T')
    &&& (s[1] == 'r' || s[1] == 'R')
    &&& (s[2] == 'u' || s[2] == 'U')
    &&& (s[3] == 'e' || s[3] == 'E')
}

/// A switch value turns the switch on when it is `"1"` or `"true"`
/// (ASCII case ignored).
pub open spec fn spec_flag_value_enabled(s: Seq<char>) -> bool {
    s =~= seq!['1'] || is_true_ignoring_ascii_case(s)
}

/// A switch that may be unset: an unset switch is off.
pub open spec fn spec_flag_enabled(value: Option<&str>) -> bool {
    match value {
        Some(s) => spec_flag_value_enabled(s@),
        None => false,
    }
}

/// Whether the value of a measurement switch turns it on.
pub fn flag_value_enabled(value: &str) -> (enabled: bool)
    ensures
        enabled == spec_flag_value_enabled(value@),
{
    let mut head: Vec<char> = Vec::new();
    for c in it: value.chars()
        invariant
            it.seq() == value@,
            head.len() <= 5,
            head.len() == if it.index() < 5 { it.index() as int } else { 5 },
            head@ =~= value@.take(head.len() as int),
    {
        if head.len() < 5 {
            head.push(c);
        }
    }
    if head.len() == 1 {
        assert(head@ =~= value@);
        head[0] == '1'
    } else if head.len() == 4 {
        assert(head@ =~= value@);
        (head[0] == 't' || head[0] == 'T') && (head[1] == 'r' || head[1] == 'R') && (head[2] == 'u'
            || head[2] == 'U') && (head[3] == 'e' || head[3] == 'E')
    } else {
        false
    }
}

/// Whether a switch, unset or set to some value, is on.
pub fn flag_enabled(value: Option<&str>) -> (enabled: bool)
    ensures
        enabled == spec_flag_enabled(value),
{
    match value {
        Some(s) => flag_value_enabled(s),
        None => false,
    }
}

/// Whether any measurement is on: the full performance logging or the
/// routing blocking-wait measurement, given the values of their switches.
pub fn any_measurement_enabled(
    performance_logging: Option<&str>,
    only_route_blocking_wait: Option<&str>,
) -> (enabled: bool)
    ensures
        enabled == (spec_flag_enabled(performance_logging) || spec_flag_enabled(
            only_route_blocking_wait,
        )),
{
    flag_enabled(performance_logging) || flag_enabled(only_route_blocking_wait)
}

/// The values of the two measurement switches that the command line
/// selects: measurements off, only the routing blocking wait, or full
/// performance logging, in that order of precedence.
pub fn measurement_switches(
    disable_all_measurements: bool,
    only_route_blocking_wait: bool,
    enable_performance_logging: bool,
) -> (switches: (bool, bool))
    ensures
        switches.0 == (!disable_all_measurements && !only_route_blocking_wait
            && enable_performance_logging),
        switches.1 == (!disable_all_measurements && only_route_blocking_wait),
        !(switches.0 && switches.1),
{
    if disable_all_measurements {
        (false, false)
    } else if only_route_blocking_wait {
        (false, true)
    } else if enable_performance_logging {
        (true, false)
    } else {
        (false, false)
    }
}

} // verus!
