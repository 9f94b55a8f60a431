use asterveil::gpu::{resolve_power_value, FloatStep, PowerError};

fn needs(step: FloatStep) -> Result<String, PowerError> {
    Err(PowerError::NeedsFloat(step))
}

#[test]
fn power_presets_return_limits_verbatim() {
    assert_eq!(resolve_power_value("min", "350.00", "100.00", "500.00").unwrap(), "100.00");
    assert_eq!(resolve_power_value("  ECO ", "350.00", "100.00", "500.00").unwrap(), "100.00");
    assert_eq!(resolve_power_value("Default", "350.00", "100.00", "500.00").unwrap(), "350.00");
    assert_eq!(resolve_power_value("PERFORMANCE", "350.00", "100.00", "500.00").unwrap(), "500.00");
    assert_eq!(resolve_power_value("eco", "x", "[N/A]", "y").unwrap(), "[N/A]");
}

#[test]
fn balanced_is_rounded_midpoint_of_whole_limits() {
    assert_eq!(resolve_power_value("balanced", "350.00", "100.00", "500.00").unwrap(), "300");
    // 300.5 rounds to the even neighbour.
    assert_eq!(resolve_power_value("balanced", "0", "100", "501").unwrap(), "300");
    // 301.5 rounds up to the even neighbour.
    assert_eq!(resolve_power_value("balanced", "0", "100", "503").unwrap(), "302");
    assert_eq!(resolve_power_value("balanced", "0", "-5", "3").unwrap(), "-1");
    assert_eq!(resolve_power_value("balanced", "0", "-1", "0").unwrap(), "-0");
    assert_eq!(resolve_power_value("balanced", "0", "-3", "3").unwrap(), "0");
    assert_eq!(resolve_power_value("balanced", "0", "inf", "5").unwrap(), "inf");
    assert_eq!(resolve_power_value("balanced", "0", "-inf", "inf").unwrap(), "NaN");
    assert_eq!(
        resolve_power_value("balanced", "0", "4503599627370496", "4503599627370496").unwrap(),
        "4503599627370496"
    );
}

#[test]
fn balanced_leaves_inexact_limits_to_floating_point() {
    assert_eq!(resolve_power_value("balanced", "0", "100.3", "500.9"), needs(FloatStep::Midpoint));
    assert_eq!(resolve_power_value("balanced", "0", "2e308", "0"), needs(FloatStep::Midpoint));
    assert_eq!(
        resolve_power_value("balanced", "0", "0", "4503599627370497"),
        needs(FloatStep::Midpoint)
    );
}

#[test]
fn whole_power_values_are_clamped() {
    assert_eq!(resolve_power_value("250", "350", "100", "500").unwrap(), "250");
    assert_eq!(resolve_power_value("2.5e2", "350", "100", "500").unwrap(), "250");
    assert_eq!(resolve_power_value("1e400", "350", "100", "500").unwrap(), "500");
    assert_eq!(resolve_power_value("-inf", "350", "100", "500").unwrap(), "100");
    assert_eq!(resolve_power_value("nan", "350", "100", "500").unwrap(), "NaN");
    assert_eq!(resolve_power_value("-0", "350", "-1", "1").unwrap(), "-0");
    assert_eq!(resolve_power_value("-3", "350", "-0", "1").unwrap(), "-0");
    assert_eq!(resolve_power_value("+150.", "350", "100.00", "500.00").unwrap(), "150");
}

#[test]
fn inexact_power_values_need_floating_point() {
    assert_eq!(resolve_power_value("250.4", "350", "100", "500"), needs(FloatStep::Clamp));
    assert_eq!(resolve_power_value(".5", "350", "-1", "1"), needs(FloatStep::Clamp));
    assert_eq!(
        resolve_power_value("9007199254740993", "350", "0", "1e17"),
        needs(FloatStep::Clamp)
    );
    assert_eq!(resolve_power_value("150", "350", "100.5", "500"), needs(FloatStep::Clamp));
    // Limits that f64::clamp refuses are left to it as well.
    assert_eq!(resolve_power_value("150", "350", "500", "100"), needs(FloatStep::Clamp));
    assert_eq!(resolve_power_value("150", "350", "nan", "100"), needs(FloatStep::Clamp));
}

#[test]
fn power_value_errors() {
    assert_eq!(resolve_power_value("fast", "350", "100", "500"), Err(PowerError::InvalidValue));
    assert_eq!(resolve_power_value(" 150", "350", "100", "500"), Err(PowerError::InvalidValue));
    assert_eq!(resolve_power_value("1.2.3", "350", "100", "500"), Err(PowerError::InvalidValue));
    assert_eq!(resolve_power_value("150", "350", "[N/A]", "500"), Err(PowerError::InvalidLimit));
    assert_eq!(resolve_power_value("150", "350", "100", "500 W"), Err(PowerError::InvalidLimit));
    assert_eq!(resolve_power_value("balanced", "350", "100", ""), Err(PowerError::InvalidLimit));
}
