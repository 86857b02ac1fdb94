use indicator_udf::dict::Dict;
use indicator_udf::error::IndicatorError;
use indicator_udf::handler::{IndicatorHandler, Phase};
use indicator_udf::options::{IndicatorOptions, IndicatorType, OptionValue, ProtoOption};
use indicator_udf::point::Point;
use indicator_udf::state::{window_with, Formula, IndicatorState};

fn text(s: &str) -> OptionValue {
    OptionValue::String(s.to_string())
}

fn option(name: &str, value: OptionValue) -> ProtoOption {
    ProtoOption { name: name.to_string(), values: vec![value] }
}

fn settings(period: i64, kind: &str) -> Vec<ProtoOption> {
    vec![
        option("period", OptionValue::Int(period)),
        option("type", text(kind)),
        option("ticker_field", text("t")),
        option("field", text("price")),
        option("as_field", text("out")),
    ]
}

fn configured(period: i64, kind: &str) -> IndicatorHandler {
    let mut h = IndicatorHandler::new(IndicatorOptions {
        period: 0,
        indicator_type: IndicatorType::EMA,
        ticker_field: String::new(),
        field: String::new(),
        as_field: String::new(),
    });
    assert_eq!(h.init(&settings(period, kind)), Ok(()));
    h
}

fn record(ticker: &str, price: f64) -> Point {
    let mut p = Point::new();
    p.tags.insert("t".to_string(), ticker.to_string());
    p.fields_double.insert("price".to_string(), price.to_bits());
    p
}

fn evaluate(formula: &Formula) -> u64 {
    match formula {
        Formula::Input => 0,
        Formula::Blend { period, previous, value } => {
            let alpha = 2.0 / (*period as f64 + 1.0);
            (alpha * f64::from_bits(*value) + (1.0 - alpha) * f64::from_bits(*previous)).to_bits()
        }
        Formula::Mean { window } => {
            let sum = window.iter().map(|b| f64::from_bits(*b)).sum::<f64>();
            (sum / window.len() as f64).to_bits()
        }
    }
}

fn observe(h: &mut IndicatorHandler, ticker: &str, price: f64) -> f64 {
    let p = record(ticker, price);
    let formula = h.formula(&p).unwrap();
    let out = h.point(p, evaluate(&formula)).unwrap();
    f64::from_bits(*out.fields_double.get("out").unwrap())
}

#[test]
fn sma_period_three_end_to_end() {
    let mut h = configured(3, "SMA");
    assert_eq!(observe(&mut h, "X", 1.0), 1.0);
    assert_eq!(observe(&mut h, "X", 2.0), 2.0);
    assert_eq!(observe(&mut h, "X", 3.0), 2.0);
    assert_eq!(observe(&mut h, "X", 4.0), 3.0);
}

#[test]
fn ema_first_observation_is_the_input() {
    for period in [1i64, 2, 3, 10, 4_294_967_295] {
        let mut h = configured(period, "EMA");
        let p = record("X", 42.5);
        assert_eq!(h.formula(&p), Ok(Formula::Input));
        // whatever is handed in as computed, the input comes out
        let out = h.point(p, 7.0f64.to_bits()).unwrap();
        assert_eq!(out.fields_double.get("out"), Some(&42.5f64.to_bits()));
        assert_eq!(h.state("X").unwrap().current_value, Some(42.5f64.to_bits()));
        assert_eq!(h.state("X").unwrap().count, 1);
    }
}

#[test]
fn ema_blends_with_the_previous_output() {
    let mut h = configured(3, "EMA");
    assert_eq!(observe(&mut h, "X", 10.0), 10.0);
    let p = record("X", 20.0);
    assert_eq!(
        h.formula(&p),
        Ok(Formula::Blend { period: 3, previous: 10.0f64.to_bits(), value: 20.0f64.to_bits() })
    );
    // alpha = 2 / (3 + 1) = 0.5
    assert_eq!(observe(&mut h, "X", 20.0), 15.0);
    assert_eq!(observe(&mut h, "X", 30.0), 22.5);
    let s = h.state("X").unwrap();
    assert_eq!(s.current_value, Some(22.5f64.to_bits()));
    assert_eq!(s.count, 3);
    assert!(s.values.is_empty());
}

#[test]
fn ema_period_one_follows_the_input() {
    let mut h = configured(1, "EMA");
    assert_eq!(observe(&mut h, "X", 3.0), 3.0);
    assert_eq!(observe(&mut h, "X", 8.0), 8.0);
}

#[test]
fn ema_stores_what_was_computed() {
    let mut h = configured(5, "EMA");
    observe(&mut h, "X", 1.0);
    let out = h.point(record("X", 2.0), 99.0f64.to_bits()).unwrap();
    assert_eq!(out.fields_double.get("out"), Some(&99.0f64.to_bits()));
    assert_eq!(
        h.formula(&record("X", 4.0)),
        Ok(Formula::Blend { period: 5, previous: 99.0f64.to_bits(), value: 4.0f64.to_bits() })
    );
}

#[test]
fn sma_window_never_exceeds_the_period() {
    let mut h = configured(4, "SMA");
    for n in 1..=10usize {
        observe(&mut h, "X", n as f64);
        let s = h.state("X").unwrap();
        assert_eq!(s.values.len(), n.min(4));
        assert_eq!(s.count, n as u64);
        assert_eq!(s.current_value, None);
    }
    let s = h.state("X").unwrap();
    let kept: Vec<f64> = s.values.iter().map(|b| f64::from_bits(*b)).collect();
    assert_eq!(kept, vec![7.0, 8.0, 9.0, 10.0]);
}

#[test]
fn sma_gives_the_input_until_the_window_is_full() {
    let mut h = configured(4, "SMA");
    assert_eq!(h.formula(&record("X", 5.0)), Ok(Formula::Input));
    assert_eq!(observe(&mut h, "X", 5.0), 5.0);
    assert_eq!(observe(&mut h, "X", 7.0), 7.0);
    assert_eq!(h.formula(&record("X", 9.0)), Ok(Formula::Input));
    assert_eq!(observe(&mut h, "X", 9.0), 9.0);
    assert_eq!(
        h.formula(&record("X", 11.0)),
        Ok(Formula::Mean {
            window: vec![5.0f64.to_bits(), 7.0f64.to_bits(), 9.0f64.to_bits(), 11.0f64.to_bits()]
        })
    );
    assert_eq!(observe(&mut h, "X", 11.0), 8.0);
    assert_eq!(observe(&mut h, "X", 13.0), 10.0);
}

#[test]
fn sma_period_one_is_the_mean_of_one() {
    let mut h = configured(1, "SMA");
    assert_eq!(
        h.formula(&record("X", 6.0)),
        Ok(Formula::Mean { window: vec![6.0f64.to_bits()] })
    );
    assert_eq!(observe(&mut h, "X", 6.0), 6.0);
    assert_eq!(observe(&mut h, "X", 2.0), 2.0);
    assert_eq!(h.state("X").unwrap().values, vec![2.0f64.to_bits()]);
}

#[test]
fn sma_ignores_computed_while_filling() {
    let mut h = configured(3, "SMA");
    let out = h.point(record("X", 1.5), 1000.0f64.to_bits()).unwrap();
    assert_eq!(out.fields_double.get("out"), Some(&1.5f64.to_bits()));
}

#[test]
fn keys_are_kept_apart() {
    let mut h = configured(2, "SMA");
    assert_eq!(observe(&mut h, "A", 1.0), 1.0);
    assert_eq!(observe(&mut h, "B", 100.0), 100.0);
    assert_eq!(observe(&mut h, "A", 3.0), 2.0);
    assert_eq!(observe(&mut h, "B", 300.0), 200.0);
    assert_eq!(h.key_count(), 2);
    assert!(h.state("C").is_none());
}

#[test]
fn non_finite_input_passes_through() {
    let mut h = configured(3, "SMA");
    let out = h.point(record("X", f64::NAN), 0).unwrap();
    assert_eq!(out.fields_double.get("out"), Some(&f64::NAN.to_bits()));
    let mut e = configured(3, "EMA");
    assert_eq!(observe(&mut e, "X", f64::INFINITY), f64::INFINITY);
    assert!(observe(&mut e, "X", f64::NEG_INFINITY).is_nan());
}

#[test]
fn the_record_is_handed_back_with_one_more_field() {
    let mut h = configured(3, "EMA");
    let mut p = record("X", 2.0);
    p.time = 17;
    p.name = "trades".to_string();
    p.database = "db".to_string();
    p.retention_policy = "rp".to_string();
    p.group = "g".to_string();
    p.dimensions = vec!["t".to_string()];
    p.by_name = true;
    p.fields_int.insert("volume".to_string(), 9);
    p.fields_string.insert("venue".to_string(), "N".to_string());
    p.fields_bool.insert("open".to_string(), true);
    p.fields_double.insert("other".to_string(), 1.25f64.to_bits());
    let out = h.point(p, 0).unwrap();
    assert_eq!(out.time, 17);
    assert_eq!(out.name, "trades");
    assert_eq!(out.database, "db");
    assert_eq!(out.retention_policy, "rp");
    assert_eq!(out.group, "g");
    assert_eq!(out.dimensions, vec!["t".to_string()]);
    assert!(out.by_name);
    assert_eq!(out.tags.len(), 1);
    assert_eq!(out.tags.get("t"), Some(&"X".to_string()));
    assert_eq!(out.fields_int.get("volume"), Some(&9));
    assert_eq!(out.fields_string.get("venue"), Some(&"N".to_string()));
    assert_eq!(out.fields_bool.get("open"), Some(&true));
    assert_eq!(out.fields_double.len(), 3);
    assert_eq!(out.fields_double.get("price"), Some(&2.0f64.to_bits()));
    assert_eq!(out.fields_double.get("other"), Some(&1.25f64.to_bits()));
    assert_eq!(out.fields_double.get("out"), Some(&2.0f64.to_bits()));
}

#[test]
fn the_output_field_replaces_a_field_of_its_name() {
    let mut h = configured(3, "EMA");
    let mut p = record("X", 2.0);
    p.fields_double.insert("out".to_string(), 50.0f64.to_bits());
    let out = h.point(p, 0).unwrap();
    assert_eq!(out.fields_double.len(), 2);
    assert_eq!(out.fields_double.get("out"), Some(&2.0f64.to_bits()));
}

#[test]
fn a_record_without_the_ticker_is_refused() {
    let mut h = configured(3, "SMA");
    observe(&mut h, "X", 1.0);
    let mut p = Point::new();
    p.tags.insert("other".to_string(), "X".to_string());
    p.fields_double.insert("price".to_string(), 2.0f64.to_bits());
    assert_eq!(h.formula(&p), Err(IndicatorError::MissingTickerField("t".to_string())));
    let r = h.point(p, 0);
    assert_eq!(r.err(), Some(IndicatorError::MissingTickerField("t".to_string())));
    assert_eq!(h.key_count(), 1);
    assert_eq!(
        h.state("X"),
        Some(&IndicatorState { current_value: None, values: vec![1.0f64.to_bits()], count: 1 })
    );
}

#[test]
fn a_record_without_the_double_field_is_refused() {
    let mut h = configured(3, "SMA");
    observe(&mut h, "X", 1.0);
    let mut p = Point::new();
    p.tags.insert("t".to_string(), "X".to_string());
    p.fields_int.insert("price".to_string(), 2);
    p.fields_string.insert("price".to_string(), "2".to_string());
    assert_eq!(h.formula(&p), Err(IndicatorError::InvalidFieldType("price".to_string())));
    let r = h.point(p, 0);
    assert_eq!(r.err(), Some(IndicatorError::InvalidFieldType("price".to_string())));
    assert_eq!(h.key_count(), 1);
    assert_eq!(
        h.state("X"),
        Some(&IndicatorState { current_value: None, values: vec![1.0f64.to_bits()], count: 1 })
    );
}

#[test]
fn the_ticker_is_looked_for_before_the_field() {
    let mut h = configured(3, "SMA");
    let r = h.point(Point::new(), 0);
    assert_eq!(r.err(), Some(IndicatorError::MissingTickerField("t".to_string())));
    assert_eq!(h.key_count(), 0);
}

#[test]
fn records_are_refused_before_configuration_and_after_stop() {
    let mut h = IndicatorHandler::new(IndicatorOptions {
        period: 3,
        indicator_type: IndicatorType::SMA,
        ticker_field: "t".to_string(),
        field: "price".to_string(),
        as_field: "out".to_string(),
    });
    assert_eq!(h.phase(), Phase::Unconfigured);
    assert_eq!(h.formula(&record("X", 1.0)), Err(IndicatorError::NotConfigured));
    assert_eq!(h.point(record("X", 1.0), 0).err(), Some(IndicatorError::NotConfigured));
    assert_eq!(h.key_count(), 0);
    let mut h = configured(3, "SMA");
    h.stop();
    assert_eq!(h.formula(&record("X", 1.0)), Err(IndicatorError::Stopped));
    assert_eq!(h.point(record("X", 1.0), 0).err(), Some(IndicatorError::Stopped));
    assert_eq!(h.key_count(), 0);
}

#[test]
fn window_with_keeps_the_most_recent() {
    assert_eq!(window_with(&vec![], 3, 9), vec![9]);
    assert_eq!(window_with(&vec![1, 2], 3, 9), vec![1, 2, 9]);
    assert_eq!(window_with(&vec![1, 2, 3], 3, 9), vec![2, 3, 9]);
    assert_eq!(window_with(&vec![1, 2, 3, 4, 5], 3, 9), vec![4, 5, 9]);
    assert_eq!(window_with(&vec![1, 2, 3], 1, 9), vec![9]);
    assert_eq!(window_with(&vec![1, 2, 3], 0, 9), Vec::<u64>::new());
}

#[test]
fn fresh_state_is_empty() {
    assert_eq!(
        IndicatorState::new(),
        IndicatorState { current_value: None, values: vec![], count: 0 }
    );
}

#[test]
fn dict_binds_each_key_once() {
    let mut d: Dict<u64> = Dict::new();
    assert_eq!(d.len(), 0);
    assert_eq!(d.get("a"), None);
    d.insert("a".to_string(), 1);
    d.insert("b".to_string(), 2);
    d.insert("a".to_string(), 3);
    assert_eq!(d.len(), 2);
    assert_eq!(d.get("a"), Some(&3));
    assert_eq!(d.get("b"), Some(&2));
    assert!(d.contains_key("b"));
    assert!(!d.contains_key("c"));
    let mut seen = Vec::new();
    for i in 0..d.len() {
        seen.push((d.key_at(i).clone(), *d.value_at(i)));
    }
    seen.sort();
    assert_eq!(seen, vec![("a".to_string(), 3), ("b".to_string(), 2)]);
    assert_eq!(d.remove("a"), Some(3));
    assert_eq!(d.remove("a"), None);
    assert_eq!(d.len(), 1);
    d.clear();
    assert_eq!(d.len(), 0);
    assert_eq!(d.get("b"), None);
}

#[test]
fn dict_tells_keys_apart_by_their_text() {
    let mut d: Dict<u64> = Dict::new();
    d.insert("é".to_string(), 1);
    d.insert("e".to_string(), 2);
    d.insert("".to_string(), 3);
    d.insert("ee".to_string(), 4);
    assert_eq!(d.len(), 4);
    assert_eq!(d.get("é"), Some(&1));
    assert_eq!(d.get("e"), Some(&2));
    assert_eq!(d.get(""), Some(&3));
    assert_eq!(d.get("ee"), Some(&4));
    assert_eq!(d.get("E"), None);
}
