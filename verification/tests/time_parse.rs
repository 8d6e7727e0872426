use stilla::manager::{plugin_script_entry, ScriptName};
use stilla::time_parse::{time_parse, time_parse_checked};

#[test]
fn readme_intervals() {
    assert_eq!(time_parse("30s"), 30);
    assert_eq!(time_parse("5m"), 300);
    assert_eq!(time_parse("2h"), 7200);
    assert_eq!(time_parse("1d"), 86400);
}

#[test]
fn notify_suffix_keeps_interval() {
    assert_eq!(time_parse("5mn"), time_parse("5m"));
    assert_eq!(time_parse("5mn"), 300);
    assert_eq!(time_parse("12n"), time_parse("12"));
}

#[test]
fn missing_count_is_one() {
    assert_eq!(time_parse("m"), 60);
    assert_eq!(time_parse("h"), 3600);
    assert_eq!(time_parse("s"), 1);
}

#[test]
fn unknown_or_missing_unit_is_sixty_seconds() {
    assert_eq!(time_parse(""), 60);
    assert_eq!(time_parse("10"), 60);
    assert_eq!(time_parse("10x"), 60);
    assert_eq!(time_parse("10é"), 60);
}

#[test]
fn count_too_large_for_u64_is_one() {
    assert_eq!(time_parse("99999999999999999999s"), 1);
    assert_eq!(time_parse("18446744073709551615s"), u64::MAX);
}

#[test]
fn overflowing_interval_is_reported() {
    assert_eq!(time_parse_checked("18446744073709551615m"), None);
    assert_eq!(time_parse_checked("3000000000000000d"), None);
    assert_eq!(time_parse_checked("7m"), Some(420));
}

#[test]
fn script_names() {
    assert_eq!(
        plugin_script_entry("status.30s.sh"),
        ScriptName::Plugin { interval: 30, notify: false }
    );
    assert_eq!(
        plugin_script_entry("alerts.5mn.sh"),
        ScriptName::Plugin { interval: 300, notify: true }
    );
    assert_eq!(
        plugin_script_entry("test.60s.sh"),
        ScriptName::Plugin { interval: 60, notify: false }
    );
    assert_eq!(plugin_script_entry(".5m.sh"), ScriptName::Plugin { interval: 300, notify: false });
    assert_eq!(plugin_script_entry("a..sh"), ScriptName::Plugin { interval: 60, notify: false });
}

#[test]
fn names_that_are_not_scripts() {
    assert_eq!(plugin_script_entry("readme.md"), ScriptName::NotAPlugin);
    assert_eq!(plugin_script_entry("status.sh"), ScriptName::NotAPlugin);
    assert_eq!(plugin_script_entry("a.5m.tar.sh"), ScriptName::NotAPlugin);
    assert_eq!(plugin_script_entry("a.5m.sh.bak"), ScriptName::NotAPlugin);
    assert_eq!(plugin_script_entry("a.5m.SH"), ScriptName::NotAPlugin);
    assert_eq!(plugin_script_entry(""), ScriptName::NotAPlugin);
}

#[test]
fn renamed_script_is_still_a_script() {
    assert_eq!(
        plugin_script_entry("original.60s.sh"),
        plugin_script_entry("renamed.60s.sh")
    );
}

#[test]
fn script_name_with_overflowing_interval() {
    assert_eq!(
        plugin_script_entry("x.18446744073709551615d.sh"),
        ScriptName::IntervalOverflow
    );
}

#[test]
fn text_after_unit_is_ignored() {
    assert_eq!(time_parse("5mfoo"), 300);
    assert_eq!(time_parse("2h.bak"), 7200);
    assert_eq!(time_parse("30sn"), time_parse("30s"));
}
