use rolling_volatility::window::Tick;
use rolling_volatility::window::VolatilityCalculator;
use rolling_volatility::window::NANOS_PER_SEC;

/// Population standard deviation: the mean of the squared deviations from
/// the mean, divided by the sample count, under a square root.
fn population_std_dev(prices: &[f64]) -> f64 {
    let n = prices.len() as f64;
    let mean = prices.iter().sum::<f64>() / n;
    let variance = prices.iter().map(|v| (v - mean).powi(2)).sum::<f64>() / n;
    variance.sqrt()
}

fn secs(s: u128) -> u128 {
    s * NANOS_PER_SEC
}

#[test]
fn test_volatility_empty_window() {
    let calculator: VolatilityCalculator<f64> = VolatilityCalculator::new(5);
    let result = calculator.calculate_volatility();
    assert_eq!(result, None, "Volatility should be None for an empty window.");
}

#[test]
fn test_volatility_single_value() {
    let mut calculator = VolatilityCalculator::new(5);
    calculator.add_value(100.0);
    let result = calculator.calculate_volatility();
    assert_eq!(result, None, "Volatility should be None for a single value.");
}

#[test]
fn test_volatility_basic_calculation() {
    let mut calculator = VolatilityCalculator::new(5);
    calculator.add_value(100.0);
    calculator.add_value(110.0);
    calculator.add_value(120.0);

    let result = calculator.calculate_volatility();
    assert!(result.is_some(), "Volatility should be calculable for multiple values.");
    assert!(
        population_std_dev(&result.unwrap()) > 0.0,
        "Volatility should be greater than 0."
    );
}

#[test]
fn test_rolling_window() {
    let mut calculator = VolatilityCalculator::new(30); // 30-second window
    let start = secs(1_700_000_000);

    // Add values at different times
    calculator.add_value_at(start, 100.0);
    calculator.add_value_at(start + secs(15), 110.0);
    calculator.add_value_at(start + secs(15) + secs(20), 120.0);

    // Only the last two values should remain (30-second window)
    assert_eq!(calculator.len(), 2);

    // Calculate volatility
    let volatility = calculator.calculate_volatility();
    assert!(volatility.is_some());
    println!("Calculated Volatility: {:?}", volatility.map(|p| population_std_dev(&p)));
}

#[test]
fn test_rolling_volatility() {
    let mut calc = VolatilityCalculator::new(10);

    calc.add_value(100.0);
    calc.add_value(102.0);
    calc.add_value(98.0);
    calc.add_value(101.0);

    let volatility = population_std_dev(&calc.calculate_volatility().unwrap());
    assert!(volatility > 0.0); // Ensure a non-zero volatility is calculated
}

#[test]
fn test_empty_volatility() {
    let calc: VolatilityCalculator<f64> = VolatilityCalculator::new(10);

    // No data points
    assert!(calc.calculate_volatility().is_none());
}

#[test]
fn new_window_is_empty() {
    let calc: VolatilityCalculator<f64> = VolatilityCalculator::new(7);
    assert_eq!(calc.len(), 0);
    assert!(calc.is_empty());
    assert_eq!(calc.max_age_nanos(), 7 * NANOS_PER_SEC);
    assert_eq!(calc.ticks(), vec![]);
}

#[test]
fn largest_duration_fits() {
    let calc: VolatilityCalculator<u8> = VolatilityCalculator::new(u64::MAX);
    assert_eq!(calc.max_age_nanos(), u64::MAX as u128 * 1_000_000_000);
}

#[test]
fn three_ticks_within_ten_seconds() {
    let mut calc = VolatilityCalculator::new(10);
    calc.add_value_at(secs(0), 100.0);
    calc.add_value_at(secs(1), 110.0);
    calc.add_value_at(secs(2), 120.0);

    let samples = calc.calculate_volatility().unwrap();
    assert_eq!(samples, vec![100.0, 110.0, 120.0]);
    assert_eq!(samples.len(), 3);
    let volatility = population_std_dev(&samples);
    assert!((volatility - 8.16496580927726).abs() < 1e-12);
    assert!((volatility - 8.165).abs() < 1e-3);
}

#[test]
fn late_tick_evicts_the_early_one() {
    let mut calc = VolatilityCalculator::new(1);
    calc.add_value_at(secs(0), 100.0);
    calc.add_value_at(secs(2), 102.0);

    assert_eq!(calc.ticks(), vec![Tick { timestamp: secs(2), price: 102.0 }]);
    assert_eq!(calc.len(), 1);
    assert_eq!(calc.calculate_volatility(), None);
}

#[test]
fn tick_at_the_age_limit_stays() {
    let mut calc = VolatilityCalculator::new(5);
    calc.add_value_at(secs(10), 1u32);
    calc.add_value_at(secs(15), 2u32);
    assert_eq!(calc.calculate_volatility(), Some(vec![1, 2]));

    // One nanosecond past the limit the first tick leaves.
    let mut calc = VolatilityCalculator::new(5);
    calc.add_value_at(secs(10), 1u32);
    calc.add_value_at(secs(15) + 1, 2u32);
    assert_eq!(calc.calculate_volatility(), None);
    assert_eq!(calc.len(), 1);
}

#[test]
fn every_retained_tick_is_young_enough() {
    let mut calc = VolatilityCalculator::new(3);
    let mut now = secs(100);
    for step in 0..40u128 {
        now += (step % 5) * NANOS_PER_SEC / 2;
        calc.add_value_at(now, step as u64);
        let ticks = calc.ticks();
        assert!(!ticks.is_empty());
        assert_eq!(ticks[ticks.len() - 1], Tick { timestamp: now, price: step as u64 });
        for tick in &ticks {
            assert!(tick.timestamp <= now);
            assert!(now - tick.timestamp <= calc.max_age_nanos());
        }
        for pair in ticks.windows(2) {
            assert!(pair[0].timestamp <= pair[1].timestamp);
        }
    }
}

#[test]
fn window_grows_by_one_at_most() {
    let mut calc = VolatilityCalculator::new(2);
    let mut before = calc.len();
    for step in 0..20u128 {
        calc.add_value_at(secs(step * step), step as u16);
        let after = calc.len();
        assert!(after >= 1);
        assert!(after <= before + 1);
        before = after;
    }
}

#[test]
fn tick_from_the_future_is_evicted() {
    let mut calc = VolatilityCalculator::new(60);
    calc.add_value_at(secs(50), 1i32);
    calc.add_value_at(secs(40), 2i32);
    // The first tick is stamped later than the second one's arrival.
    assert_eq!(calc.ticks(), vec![Tick { timestamp: secs(40), price: 2 }]);
}

#[test]
fn eviction_stops_at_the_first_live_tick() {
    let mut calc = VolatilityCalculator::new(10);
    calc.add_value_at(secs(1), 'a');
    calc.add_value_at(secs(5), 'b');
    calc.add_value_at(secs(3), 'c');
    assert_eq!(calc.calculate_volatility(), Some(vec!['a', 'b', 'c']));
    calc.add_value_at(secs(12), 'd');
    assert_eq!(calc.calculate_volatility(), Some(vec!['b', 'c', 'd']));
    // The front is still live at 14 s, so the older tick behind it stays.
    calc.add_value_at(secs(14), 'e');
    assert_eq!(calc.calculate_volatility(), Some(vec!['b', 'c', 'd', 'e']));
}

#[test]
fn identical_prices_within_the_window_are_all_sampled() {
    let mut calc = VolatilityCalculator::new(60);
    for i in 0..5u128 {
        calc.add_value_at(secs(i), 250.0);
    }
    let samples = calc.calculate_volatility().unwrap();
    assert_eq!(samples, vec![250.0; 5]);
    assert_eq!(population_std_dev(&samples), 0.0);
}

#[test]
fn zero_duration_keeps_only_ticks_of_the_same_instant() {
    let mut calc = VolatilityCalculator::new(0);
    calc.add_value_at(7, 1u8);
    calc.add_value_at(7, 2u8);
    assert_eq!(calc.calculate_volatility(), Some(vec![1, 2]));
    calc.add_value_at(8, 3u8);
    assert_eq!(calc.calculate_volatility(), None);
}

#[test]
fn clock_ticks_land_in_the_window() {
    let mut calc = VolatilityCalculator::new(3600);
    calc.add_value(1.5);
    calc.add_value(2.5);
    let ticks = calc.ticks();
    assert_eq!(ticks.len(), 2);
    assert_eq!(ticks[0].price, 1.5);
    assert_eq!(ticks[1].price, 2.5);
    // The clock reads later than the first of January 2020.
    assert!(ticks[1].timestamp > secs(1_577_836_800));
}
