use indicator_udf::codec::{decode, encode, MAGIC};
use indicator_udf::dict::Dict;
use indicator_udf::error::IndicatorError;
use indicator_udf::handler::IndicatorHandler;
use indicator_udf::options::{IndicatorOptions, IndicatorType, OptionValue, ProtoOption};
use indicator_udf::point::Point;
use indicator_udf::state::{Formula, IndicatorState};

fn handler(period: i64, kind: &str) -> IndicatorHandler {
    let text = |s: &str| vec![OptionValue::String(s.to_string())];
    let raw = vec![
        ProtoOption { name: "period".to_string(), values: vec![OptionValue::Int(period)] },
        ProtoOption { name: "type".to_string(), values: text(kind) },
        ProtoOption { name: "ticker_field".to_string(), values: text("t") },
        ProtoOption { name: "field".to_string(), values: text("price") },
        ProtoOption { name: "as_field".to_string(), values: text("out") },
    ];
    let mut h = IndicatorHandler::new(IndicatorOptions {
        period: 1,
        indicator_type: IndicatorType::EMA,
        ticker_field: "t".to_string(),
        field: "price".to_string(),
        as_field: "out".to_string(),
    });
    h.init(&raw).unwrap();
    h
}

fn record(ticker: &str, price: f64) -> Point {
    let mut p = Point::new();
    p.tags.insert("t".to_string(), ticker.to_string());
    p.fields_double.insert("price".to_string(), price.to_bits());
    p
}

fn evaluate(formula: &Formula) -> u64 {
    match formula {
        Formula::Input => 0,
        Formula::Blend { period, previous, value } => {
            let alpha = 2.0 / (*period as f64 + 1.0);
            (alpha * f64::from_bits(*value) + (1.0 - alpha) * f64::from_bits(*previous)).to_bits()
        }
        Formula::Mean { window } => {
            let sum = window.iter().map(|b| f64::from_bits(*b)).sum::<f64>();
            (sum / window.len() as f64).to_bits()
        }
    }
}

fn observe(h: &mut IndicatorHandler, ticker: &str, price: f64) -> u64 {
    let p = record(ticker, price);
    let formula = h.formula(&p).unwrap();
    let out = h.point(p, evaluate(&formula)).unwrap();
    *out.fields_double.get("out").unwrap()
}

fn word(x: u64) -> Vec<u8> {
    x.to_le_bytes().to_vec()
}

fn sorted(table: &Dict<IndicatorState>) -> Vec<(String, IndicatorState)> {
    let mut all = Vec::new();
    for i in 0..table.len() {
        all.push((table.key_at(i).clone(), table.value_at(i).clone()));
    }
    all.sort_by(|a, b| a.0.cmp(&b.0));
    all
}

#[test]
fn the_opening_word_spells_its_name() {
    assert_eq!(word(MAGIC), b"INDSNAP1".to_vec());
}

#[test]
fn an_empty_table_is_two_words() {
    let table: Dict<IndicatorState> = Dict::new();
    let bytes = encode(&table);
    assert_eq!(bytes, [b"INDSNAP1".to_vec(), word(0)].concat());
    assert_eq!(decode(&bytes).unwrap().len(), 0);
}

#[test]
fn a_snapshot_is_laid_out_entry_by_entry() {
    let mut table: Dict<IndicatorState> = Dict::new();
    table.insert(
        "Xé".to_string(),
        IndicatorState { current_value: Some(0x0102), values: vec![7, u64::MAX], count: 3 },
    );
    table.insert("".to_string(), IndicatorState { current_value: None, values: vec![], count: 0 });
    let expected = [
        b"INDSNAP1".to_vec(),
        word(2),
        word(3),
        vec![b'X', 0xc3, 0xa9],
        word(1),
        vec![2, 1, 0, 0, 0, 0, 0, 0],
        word(3),
        word(2),
        word(7),
        vec![0xff; 8],
        word(0),
        word(0),
        word(0),
        word(0),
    ]
    .concat();
    assert_eq!(encode(&table), expected);
    let back = decode(&expected).unwrap();
    assert_eq!(sorted(&back), sorted(&table));
}

#[test]
fn reading_gives_back_what_was_written() {
    let mut table: Dict<IndicatorState> = Dict::new();
    for (i, key) in ["AAPL", "", "ключ", "a b\n", "🦀", "\u{0}"].iter().enumerate() {
        table.insert(
            key.to_string(),
            IndicatorState {
                current_value: if i % 2 == 0 { Some(f64::NAN.to_bits() + i as u64) } else { None },
                values: (0..i as u64).map(|v| v.wrapping_mul(0x0123_4567_89ab_cdef)).collect(),
                count: u64::MAX - i as u64,
            },
        );
    }
    let back = decode(&encode(&table)).unwrap();
    assert_eq!(back.len(), 6);
    assert_eq!(sorted(&back), sorted(&table));
    assert_eq!(encode(&back), encode(&table));
}

#[test]
fn bytes_that_are_no_snapshot_are_refused() {
    let mut table: Dict<IndicatorState> = Dict::new();
    table.insert(
        "X".to_string(),
        IndicatorState { current_value: Some(1), values: vec![2, 3], count: 4 },
    );
    let good = encode(&table);
    assert!(decode(&good).is_some());
    // every proper prefix is cut short
    for n in 0..good.len() {
        assert!(decode(&good[..n]).is_none());
    }
    // nothing may follow the entries
    let mut longer = good.clone();
    longer.push(0);
    assert!(decode(&longer).is_none());
    // the opening word
    let mut other = good.clone();
    other[0] = b'i';
    assert!(decode(&other).is_none());
    // more entries announced than there are
    let mut more = good.clone();
    more[8] = 2;
    assert!(decode(&more).is_none());
    // an entry count beyond all bytes
    let huge = [b"INDSNAP1".to_vec(), word(u64::MAX)].concat();
    assert!(decode(&huge).is_none());
    // a key length beyond all bytes
    let huge = [b"INDSNAP1".to_vec(), word(1), word(u64::MAX), vec![b'X']].concat();
    assert!(decode(&huge).is_none());
    // a window length beyond all bytes
    let huge = [
        b"INDSNAP1".to_vec(),
        word(1),
        word(1),
        vec![b'X'],
        word(0),
        word(0),
        word(u64::MAX / 8 + 1),
    ]
    .concat();
    assert!(decode(&huge).is_none());
    // a flag that is neither 0 nor 1
    let flag =
        [b"INDSNAP1".to_vec(), word(1), word(1), vec![b'X'], word(2), word(0), word(0)].concat();
    assert!(decode(&flag).is_none());
    assert!(decode(b"{\"states\":{}}").is_none());
}

#[test]
fn a_key_must_be_text() {
    let entry = |key: Vec<u8>| {
        [b"INDSNAP1".to_vec(), word(1), word(key.len() as u64), key, word(0), word(5), word(0)]
            .concat()
    };
    let back = decode(&entry(vec![0xe2, 0x82, 0xac])).unwrap();
    assert_eq!(back.key_at(0), "€");
    assert_eq!(back.get("€").unwrap().count, 5);
    assert!(decode(&entry(vec![0xff])).is_none());
    assert!(decode(&entry(vec![0xe2, 0x82])).is_none());
    assert!(decode(&entry(vec![0xc0, 0x80])).is_none());
    assert!(decode(&entry(vec![0xed, 0xa0, 0x80])).is_none());
}

#[test]
fn a_key_occurs_once_in_a_snapshot() {
    let entry = |key: &str, count: u64| {
        [word(key.len() as u64), key.as_bytes().to_vec(), word(0), word(count), word(0)].concat()
    };
    let two = [b"INDSNAP1".to_vec(), word(2), entry("A", 1), entry("B", 2)].concat();
    assert_eq!(decode(&two).unwrap().len(), 2);
    let twice = [b"INDSNAP1".to_vec(), word(2), entry("A", 1), entry("A", 2)].concat();
    assert!(decode(&twice).is_none());
    let later =
        [b"INDSNAP1".to_vec(), word(3), entry("A", 1), entry("B", 2), entry("A", 1)].concat();
    assert!(decode(&later).is_none());
}

#[test]
fn restore_after_snapshot_changes_nothing() {
    for kind in ["SMA", "EMA"] {
        let mut h = handler(3, kind);
        let mut twin = handler(3, kind);
        let feed = [("A", 1.0), ("B", 10.0), ("A", 2.5), ("C", -4.0), ("A", 7.0), ("B", 0.1)];
        for (k, v) in feed {
            observe(&mut h, k, v);
            observe(&mut twin, k, v);
        }
        let blob = h.snapshot().unwrap();
        assert_eq!(h.restore(&blob), Ok(()));
        assert_eq!(h.key_count(), 3);
        for k in ["A", "B", "C"] {
            assert_eq!(h.state(k), twin.state(k));
        }
        for (k, v) in [("A", 3.0), ("B", 9.0), ("D", 1.0), ("C", 2.0), ("A", 0.5), ("C", 8.0)] {
            assert_eq!(observe(&mut h, k, v), observe(&mut twin, k, v));
        }
        assert_eq!(h.snapshot().map(|b| b.len()), twin.snapshot().map(|b| b.len()));
    }
}

#[test]
fn a_snapshot_carries_over_to_another_handler() {
    let mut h = handler(2, "SMA");
    observe(&mut h, "A", 1.0);
    observe(&mut h, "A", 3.0);
    let blob = h.snapshot().unwrap();
    let mut other = handler(2, "SMA");
    observe(&mut other, "Z", 5.0);
    assert_eq!(other.restore(&blob), Ok(()));
    assert_eq!(other.key_count(), 1);
    assert!(other.state("Z").is_none());
    assert_eq!(f64::from_bits(observe(&mut other, "A", 5.0)), 4.0);
    // non-finite numbers are carried as they are
    let mut e = handler(2, "EMA");
    observe(&mut e, "N", f64::NAN);
    let blob = e.snapshot().unwrap();
    let mut f = handler(2, "EMA");
    f.restore(&blob).unwrap();
    assert_eq!(f.state("N").unwrap().current_value, Some(f64::NAN.to_bits()));
}

#[test]
fn a_refused_restore_changes_nothing() {
    let mut h = handler(2, "SMA");
    observe(&mut h, "A", 1.0);
    let before = h.snapshot().unwrap();
    assert_eq!(h.restore(b"not a snapshot"), Err(IndicatorError::MalformedSnapshot));
    assert_eq!(h.restore(&[]), Err(IndicatorError::MalformedSnapshot));
    assert_eq!(h.restore(&before[..before.len() - 1]), Err(IndicatorError::MalformedSnapshot));
    assert_eq!(h.key_count(), 1);
    assert_eq!(h.snapshot().unwrap(), before);
}

#[test]
fn a_window_longer_than_the_period_is_refused() {
    let mut wide = handler(3, "SMA");
    for v in [1.0, 2.0, 3.0] {
        observe(&mut wide, "A", v);
    }
    let blob = wide.snapshot().unwrap();
    let mut narrow = handler(2, "SMA");
    observe(&mut narrow, "B", 1.0);
    assert_eq!(narrow.restore(&blob), Err(IndicatorError::MalformedSnapshot));
    assert_eq!(narrow.key_count(), 1);
    assert!(narrow.state("B").is_some());
    let mut same = handler(3, "SMA");
    assert_eq!(same.restore(&blob), Ok(()));
    let mut wider = handler(4, "EMA");
    assert_eq!(wider.restore(&blob), Ok(()));
    assert_eq!(wider.state("A").unwrap().values.len(), 3);
}

#[test]
fn snapshots_need_a_configuration() {
    let mut h = IndicatorHandler::new(IndicatorOptions {
        period: 3,
        indicator_type: IndicatorType::SMA,
        ticker_field: "t".to_string(),
        field: "price".to_string(),
        as_field: "out".to_string(),
    });
    let empty = encode(&Dict::new());
    assert_eq!(h.snapshot(), Err(IndicatorError::NotConfigured));
    assert_eq!(h.restore(&empty), Err(IndicatorError::NotConfigured));
    let mut h = handler(3, "SMA");
    assert_eq!(h.snapshot(), Ok(empty.clone()));
    assert_eq!(h.restore(&empty), Ok(()));
    h.stop();
    assert_eq!(h.snapshot(), Err(IndicatorError::Stopped));
    assert_eq!(h.restore(&empty), Err(IndicatorError::Stopped));
}

#[test]
fn the_count_stops_at_its_largest_value() {
    let mut table: Dict<IndicatorState> = Dict::new();
    table.insert(
        "A".to_string(),
        IndicatorState { current_value: Some(1), values: vec![], count: u64::MAX - 1 },
    );
    let mut h = handler(2, "EMA");
    h.restore(&encode(&table)).unwrap();
    h.point(record("A", 1.0), 5).unwrap();
    assert_eq!(h.state("A").unwrap().count, u64::MAX);
    h.point(record("A", 1.0), 6).unwrap();
    assert_eq!(h.state("A").unwrap().count, u64::MAX);
    assert_eq!(h.state("A").unwrap().current_value, Some(6));
}
