use crate::options::IndicatorType;
use vstd::prelude::*;

verus! {

/// The rolling state kept for one key. Numbers are held as the 64 bits of their
/// IEEE 754 double form; the library moves and stores them and never does arithmetic
/// on them.
#[derive(Debug, Clone, PartialEq, Eq)]
pub struct IndicatorState {
    /// The last exponential average, once an observation has been folded in.
    pub current_value: Option<u64>,
    /// The most recent inputs of the simple average, oldest first.
    pub values: Vec<u64>,
    /// How many observations have been folded in; it stops at `u64::MAX`.
    pub count: u64,
}

/// A rolling state with its window as a sequence.
pub struct StateView {
    pub current_value: Option<u64>,
    pub values: Seq<u64>,
    pub count: u64,
}

impl View for IndicatorState {
    type V = StateView;

    open spec fn view(&self) -> StateView {
        StateView { current_value: self.current_value, values: self.values@, count: self.count }
    }
}

/// The arithmetic whose result is the indicator's value for one observation. The caller
/// evaluates it in double precision.
#[derive(Debug, Clone, PartialEq, Eq)]
pub enum Formula {
    /// The value is the input itself: nothing is to be computed.
    Input,
    /// `a * value + (1 - a) * previous` with `a = 2 / (period + 1)`.
    Blend { period: u32, previous: u64, value: u64 },
    /// The sum of `window`, in order, divided by its length.
    Mean { window: Vec<u64> },
}

/// A formula with its window as a sequence.
pub enum FormulaView {
    Input,
    Blend { period: u32, previous: u64, value: u64 },
    Mean { window: Seq<u64> },
}

impl View for Formula {
    type V = FormulaView;

    open spec fn view(&self) -> FormulaView {
        match *self {
            Formula::Input => FormulaView::Input,
            Formula::Blend { period, previous, value } => FormulaView::Blend {
                period,
                previous,
                value,
            },
            Formula::Mean { window } => FormulaView::Mean { window: window@ },
        }
    }
}

/// The state of a key that has not been observed.
pub open spec fn fresh() -> StateView {
    StateView { current_value: None, values: Seq::empty(), count: 0 }
}

/// The state that `states` holds for `key`: the fresh one where the key has none.
pub open spec fn state_of(states: Map<Seq<char>, StateView>, key: Seq<char>) -> StateView {
    if states.contains_key(key) {
        states[key]
    } else {
        fresh()
    }
}

/// The last `n` entries of `w`, all of it where it has no more than `n`.
pub open spec fn recent(w: Seq<u64>, n: int) -> Seq<u64> {
    if w.len() <= n {
        w
    } else if n <= 0 {
        Seq::empty()
    } else {
        w.subrange(w.len() - n, w.len() as int)
    }
}

/// The observation count after one more observation.
pub open spec fn bump(count: u64) -> u64 {
    if count < u64::MAX {
        (count + 1) as u64
    } else {
        count
    }
}

/// The window of the simple average once `value` has been observed.
pub open spec fn window_after(period: u32, s: StateView, value: u64) -> Seq<u64> {
    recent(s.values.push(value), period as int)
}

/// The formula that gives the indicator's value when `value` is observed in state `s`.
///
/// The exponential average starts from the first input and blends every later one with
/// the average before it. The simple average is the mean of the window once the window
/// holds `period` inputs, and the input itself until then.
pub open spec fn formula_for(
    kind: IndicatorType,
    period: u32,
    s: StateView,
    value: u64,
) -> FormulaView {
    match kind {
        IndicatorType::EMA => match s.current_value {
            Some(previous) => FormulaView::Blend { period, previous, value },
            None => FormulaView::Input,
        },
        IndicatorType::SMA => if window_after(period, s, value).len() == period {
            FormulaView::Mean { window: window_after(period, s, value) }
        } else {
            FormulaView::Input
        },
    }
}

/// The indicator's value when `value` is observed in state `s`, where `computed` is
/// what the formula evaluates to.
pub open spec fn output_for(
    kind: IndicatorType,
    period: u32,
    s: StateView,
    value: u64,
    computed: u64,
) -> u64 {
    if formula_for(kind, period, s, value) is Input {
        value
    } else {
        computed
    }
}

/// The state that follows `s` when `value` is observed.
pub open spec fn state_after(
    kind: IndicatorType,
    period: u32,
    s: StateView,
    value: u64,
    computed: u64,
) -> StateView {
    match kind {
        IndicatorType::EMA => StateView {
            current_value: Some(output_for(kind, period, s, value, computed)),
            values: s.values,
            count: bump(s.count),
        },
        IndicatorType::SMA => StateView {
            current_value: s.current_value,
            values: window_after(period, s, value),
            count: bump(s.count),
        },
    }
}

/// The state that follows `s` when `inputs` are observed one after the other. Each input
/// comes with what its formula evaluated to.
pub open spec fn state_after_all(
    kind: IndicatorType,
    period: u32,
    s: StateView,
    inputs: Seq<(u64, u64)>,
) -> StateView
    decreases inputs.len(),
{
    if inputs.len() == 0 {
        s
    } else {
        state_after(
            kind,
            period,
            state_after_all(kind, period, s, inputs.drop_last()),
            inputs.last().0,
            inputs.last().1,
        )
    }
}

/// The inputs of a run of observations, without what was computed for them.
pub open spec fn inputs_of(inputs: Seq<(u64, u64)>) -> Seq<u64> {
    Seq::new(inputs.len(), |i: int| inputs[i].0)
}

/// The window that follows `values` when `value` is observed under `period`.
pub fn window_with(values: &Vec<u64>, period: u32, value: u64) -> (r: Vec<u64>)
    ensures
        r@ == recent(values@.push(value), period as int),
{
    let n = values.len();
    let keep = period as usize;
    let mut r: Vec<u64> = Vec::new();
    if keep == 0 {
        assert(r@ =~= recent(values@.push(value), 0));
        return r;
    }
    let start: usize = if n >= keep {
        n - (keep - 1)
    } else {
        0
    };
    let mut i: usize = start;
    while i < n
        invariant
            n == values@.len(),
            start <= i <= n,
            r@ == values@.subrange(start as int, i as int),
        decreases n - i,
    {
        r.push(values[i]);
        assert(r@ =~= values@.subrange(start as int, i + 1));
        i += 1;
    }
    r.push(value);
    assert(r@ =~= recent(values@.push(value), period as int));
    r
}

impl IndicatorState {
    /// The state of a key that has not been observed.
    pub fn new() -> (r: Self)
        ensures
            r@ == fresh(),
    {
        IndicatorState { current_value: None, values: Vec::new(), count: 0 }
    }
}

} // verus!
