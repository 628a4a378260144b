use scoreboard::time::{BILLION, INFINITY, MILLION, ONE, SIGN_BIT, THOUSAND};
use scoreboard::{NiceTime, TimeUnit};

fn nice(value: f64) -> String {
    let time = NiceTime::new(value.to_bits());
    let mantissa = value / f64::from_bits(time.unit().scale());
    time.render(&format!("{:.3}", mantissa))
}

#[test]
fn the_thresholds_are_the_numbers_they_name() {
    assert_eq!(ONE, 1.0f64.to_bits());
    assert_eq!(THOUSAND, 1_000.0f64.to_bits());
    assert_eq!(MILLION, 1_000_000.0f64.to_bits());
    assert_eq!(BILLION, 1_000_000_000.0f64.to_bits());
    assert_eq!(INFINITY, f64::INFINITY.to_bits());
    assert_eq!(SIGN_BIT, (-0.0f64).to_bits());
}

#[test]
fn nice_time_picks_the_unit() {
    assert_eq!(nice(999.0), "999.000ns");
    assert_eq!(nice(1000.0), "1.000us");
    assert_eq!(nice(1_500_000_000.0), "1.500s");
}

#[test]
fn a_threshold_takes_the_next_unit_up() {
    assert_eq!(NiceTime::new(999.999f64.to_bits()).unit(), TimeUnit::Nanos);
    assert_eq!(NiceTime::new(1_000.0f64.to_bits()).unit(), TimeUnit::Micros);
    assert_eq!(NiceTime::new(999_999.0f64.to_bits()).unit(), TimeUnit::Micros);
    assert_eq!(NiceTime::new(1_000_000.0f64.to_bits()).unit(), TimeUnit::Millis);
    assert_eq!(NiceTime::new(999_999_999.0f64.to_bits()).unit(), TimeUnit::Millis);
    assert_eq!(NiceTime::new(1_000_000_000.0f64.to_bits()).unit(), TimeUnit::Seconds);
    assert_eq!(nice(1_000_000.0), "1.000ms");
    assert_eq!(nice(1_000_000_000.0), "1.000s");
    assert_eq!(nice(2_345_678.0), "2.346ms");
    assert_eq!(nice(0.0), "0.000ns");
}

#[test]
fn the_unit_is_that_of_the_comparison_of_numbers() {
    let samples = [
        0.0,
        -0.0,
        0.5,
        -5.0,
        999.0,
        1e3,
        1e5,
        1e6,
        1e8,
        1e9,
        1e300,
        -1e300,
        f64::INFINITY,
        f64::NEG_INFINITY,
        f64::NAN,
        -f64::NAN,
        f64::MIN_POSITIVE,
    ];
    for value in samples {
        let expected = if value < 1_000.0 {
            TimeUnit::Nanos
        } else if value < 1_000_000.0 {
            TimeUnit::Micros
        } else if value < 1_000_000_000.0 {
            TimeUnit::Millis
        } else {
            TimeUnit::Seconds
        };
        assert_eq!(NiceTime::new(value.to_bits()).unit(), expected);
    }
}

#[test]
fn suffix_and_scale_go_with_the_unit() {
    assert_eq!(TimeUnit::Nanos.suffix(), "ns");
    assert_eq!(TimeUnit::Micros.suffix(), "us");
    assert_eq!(TimeUnit::Millis.suffix(), "ms");
    assert_eq!(TimeUnit::Seconds.suffix(), "s");
    assert_eq!(f64::from_bits(TimeUnit::Nanos.scale()), 1.0);
    assert_eq!(f64::from_bits(TimeUnit::Micros.scale()), 1e3);
    assert_eq!(f64::from_bits(TimeUnit::Millis.scale()), 1e6);
    assert_eq!(f64::from_bits(TimeUnit::Seconds.scale()), 1e9);
}
