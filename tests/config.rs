use sam_compare::compare::{DistanceFraction, Mode};
use sam_compare::config::{parse_thresholds, ConfigError};

#[test]
fn mode_names() {
    assert_eq!(Mode::from_str("all"), Ok(Mode::All));
    assert_eq!(Mode::from_str("prim_tgt"), Ok(Mode::PrimTgt));
    assert_eq!(Mode::from_str("prim"), Ok(Mode::Prim));
    assert_eq!(Mode::from_str("prim_supp"), Ok(Mode::PrimSupp));
    assert_eq!(Mode::from_str("ALL"), Err(ConfigError::InvalidMode));
    assert_eq!(Mode::from_str(""), Err(ConfigError::InvalidMode));
    assert_eq!(Mode::from_str("primary"), Err(ConfigError::InvalidMode));
}

#[test]
fn threshold_lists() {
    assert_eq!(parse_thresholds("60,10,1,0"), Ok(vec![60, 10, 1, 0]));
    assert_eq!(parse_thresholds("255"), Ok(vec![255]));
    assert_eq!(parse_thresholds("30,0"), Ok(vec![30, 0]));
    assert_eq!(parse_thresholds("10,60"), Err(ConfigError::InvalidThresholds));
    assert_eq!(parse_thresholds("10,10"), Err(ConfigError::InvalidThresholds));
    assert_eq!(parse_thresholds("256,0"), Err(ConfigError::InvalidThresholds));
    assert_eq!(parse_thresholds("a"), Err(ConfigError::InvalidThresholds));
    assert_eq!(parse_thresholds(""), Err(ConfigError::InvalidThresholds));
    assert_eq!(parse_thresholds("60,,0"), Err(ConfigError::InvalidThresholds));
}

#[test]
fn distance_fractions() {
    assert_eq!(DistanceFraction::from_decimal("1.0"), Ok(DistanceFraction { num: 10, den: 10 }));
    assert_eq!(DistanceFraction::from_decimal("1"), Ok(DistanceFraction { num: 1, den: 1 }));
    assert_eq!(DistanceFraction::from_decimal("0.25"), Ok(DistanceFraction { num: 25, den: 100 }));
    assert_eq!(DistanceFraction::from_decimal(".5"), Ok(DistanceFraction { num: 5, den: 10 }));
    assert_eq!(DistanceFraction::from_decimal("2."), Ok(DistanceFraction { num: 2, den: 1 }));
    assert_eq!(
        DistanceFraction::from_decimal("0.123456789"),
        Ok(DistanceFraction { num: 123456789, den: 1_000_000_000 })
    );
    assert_eq!(DistanceFraction::from_decimal("0.1234567890"), Err(ConfigError::InvalidDistance));
    assert_eq!(DistanceFraction::from_decimal("."), Err(ConfigError::InvalidDistance));
    assert_eq!(DistanceFraction::from_decimal(""), Err(ConfigError::InvalidDistance));
    assert_eq!(DistanceFraction::from_decimal("1.2.3"), Err(ConfigError::InvalidDistance));
    assert_eq!(DistanceFraction::from_decimal("-1"), Err(ConfigError::InvalidDistance));
    assert_eq!(DistanceFraction::from_decimal("abc"), Err(ConfigError::InvalidDistance));
    assert_eq!(DistanceFraction::from_decimal("4294967296"), Err(ConfigError::InvalidDistance));
}
