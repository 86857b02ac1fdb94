use crate::codec::{decode, decoded, encode};
use crate::dict::{has_key, lemma_entries_map_keys, lemma_entries_map_values, Dict};
use crate::error::{ErrorView, IndicatorError};
use crate::options::{
    resolve, IndicatorOptions, IndicatorType, OptionInfo, OptionsView, ProtoOption, ValueType,
};
use crate::point::Point;
use crate::state::{
    formula_for, output_for, state_after, state_of, window_after, window_with, Formula,
    FormulaView, IndicatorState, StateView,
};
use vstd::prelude::*;
use vstd::string::*;

verus! {

/// Where a handler stands in its life.
#[derive(Debug, Clone, Copy, PartialEq, Eq, Structural)]
pub enum Phase {
    /// No configuration has been accepted yet.
    Unconfigured,
    /// A configuration is in force and records are accepted.
    Configured,
    /// The handler has been stopped for good.
    Stopped,
}

/// How records travel on an edge of the host engine.
#[derive(Debug, Clone, Copy, PartialEq, Eq, Structural)]
pub enum EdgeType {
    Stream,
    Batch,
}

/// What a handler declares of itself to the host engine.
#[derive(Debug)]
pub struct InfoResponse {
    pub wants: EdgeType,
    pub provides: EdgeType,
    pub options: Vec<OptionInfo>,
}

/// Computes a moving average per key over a stream of records.
#[derive(Debug)]
pub struct IndicatorHandler {
    phase: Phase,
    options: IndicatorOptions,
    data: Dict<IndicatorState>,
}

/// A handler as a value: its phase, its configuration and the state it keeps per key.
pub struct HandlerView {
    pub phase: Phase,
    pub options: OptionsView,
    pub states: Map<Seq<char>, StateView>,
}

/// No window of `states` is longer than `period`.
pub open spec fn windows_fit(states: Map<Seq<char>, StateView>, period: u32) -> bool {
    forall|k: Seq<char>|
        states.contains_key(k) ==> (#[trigger] states[k]).values.len() <= period
}

impl HandlerView {
    /// What holds of every handler: a configuration in force has a period of at least 1,
    /// and no window is longer than the period.
    pub open spec fn wf(self) -> bool {
        &&& self.phase == Phase::Configured ==> self.options.period >= 1
        &&& windows_fit(self.states, self.options.period)
    }
}

/// The error that an operation which needs a configuration in force meets in `phase`.
pub open spec fn refusal(phase: Phase) -> Option<ErrorView> {
    match phase {
        Phase::Unconfigured => Some(ErrorView::NotConfigured),
        Phase::Configured => None,
        Phase::Stopped => Some(ErrorView::Stopped),
    }
}

/// The key and the input that handler `h` reads from record `p`. A handler without a
/// configuration in force reads nothing; then the ticker tag is looked for, then the
/// double field.
pub open spec fn reading(h: HandlerView, p: Point) -> Result<(Seq<char>, u64), ErrorView> {
    if refusal(h.phase) is Some {
        Err(refusal(h.phase)->0)
    } else if !p.tags@.contains_key(h.options.ticker_field) {
        Err(ErrorView::MissingTickerField(h.options.ticker_field))
    } else if !p.fields_double@.contains_key(h.options.field) {
        Err(ErrorView::InvalidFieldType(h.options.field))
    } else {
        Ok((p.tags@[h.options.ticker_field]@, p.fields_double@[h.options.field]))
    }
}

/// The formula whose result is the indicator's value for record `p`.
pub open spec fn point_formula(h: HandlerView, p: Point) -> Result<FormulaView, ErrorView> {
    match reading(h, p) {
        Ok((key, value)) => Ok(
            formula_for(
                h.options.indicator_type,
                h.options.period,
                state_of(h.states, key),
                value,
            ),
        ),
        Err(e) => Err(e),
    }
}

/// The indicator's value for record `p`, where `computed` is what the formula evaluates to.
pub open spec fn point_output(h: HandlerView, p: Point, computed: u64) -> Result<
    u64,
    ErrorView,
> {
    match reading(h, p) {
        Ok((key, value)) => Ok(
            output_for(
                h.options.indicator_type,
                h.options.period,
                state_of(h.states, key),
                value,
                computed,
            ),
        ),
        Err(e) => Err(e),
    }
}

/// The handler after record `p` has been offered to it: unchanged where the record is
/// refused, and with the record folded into the state of its key otherwise.
pub open spec fn after_point(h: HandlerView, p: Point, computed: u64) -> HandlerView {
    match reading(h, p) {
        Ok((key, value)) => HandlerView {
            states: h.states.insert(
                key,
                state_after(
                    h.options.indicator_type,
                    h.options.period,
                    state_of(h.states, key),
                    value,
                    computed,
                ),
            ),
            ..h
        },
        Err(_) => h,
    }
}

/// What configuring handler `h` with `raw` answers.
pub open spec fn init_result(h: HandlerView, raw: Seq<ProtoOption>) -> Result<(), ErrorView> {
    if h.phase == Phase::Stopped {
        Err(ErrorView::Stopped)
    } else {
        match resolve(raw) {
            Ok(_) => Ok(()),
            Err(e) => Err(e),
        }
    }
}

/// The handler after it has been configured with `raw`: with the new configuration in
/// force and no state where `raw` is accepted, unchanged otherwise.
pub open spec fn after_init(h: HandlerView, raw: Seq<ProtoOption>) -> HandlerView {
    if h.phase == Phase::Stopped {
        h
    } else {
        match resolve(raw) {
            Ok(options) => HandlerView {
                phase: Phase::Configured,
                options,
                states: Map::empty(),
            },
            Err(_) => h,
        }
    }
}

/// What restoring handler `h` from `blob` answers. Bytes that are no snapshot are
/// refused, and so is a snapshot with a window longer than the period in force.
pub open spec fn restore_result(h: HandlerView, blob: Seq<u8>) -> Result<(), ErrorView> {
    if refusal(h.phase) is Some {
        Err(refusal(h.phase)->0)
    } else {
        match decoded(blob) {
            Some(states) => if windows_fit(states, h.options.period) {
                Ok(())
            } else {
                Err(ErrorView::MalformedSnapshot)
            },
            None => Err(ErrorView::MalformedSnapshot),
        }
    }
}

/// The handler after a restore from `blob`: with the state table that `blob` is a
/// snapshot of where the restore succeeds, unchanged otherwise.
pub open spec fn after_restore(h: HandlerView, blob: Seq<u8>) -> HandlerView {
    if restore_result(h, blob) is Ok {
        HandlerView { states: decoded(blob)->0, ..h }
    } else {
        h
    }
}

/// Whether no window of `table` is longer than `period`.
fn windows_within(table: &Dict<IndicatorState>, period: u32) -> (r: bool)
    ensures
        r == windows_fit(table@.map_values(|s: IndicatorState| s@), period),
{
    let n = table.len();
    let ghost states = table@.map_values(|s: IndicatorState| s@);
    proof {
        lemma_entries_map_keys(table.items());
        lemma_entries_map_values(table.items());
    }
    let mut i: usize = 0;
    while i < n
        invariant
            n == table.items().len(),
            i <= n,
            states == table@.map_values(|s: IndicatorState| s@),
            forall|j: int| 0 <= j < i ==> (#[trigger] table.items()[j]).1@.values.len() <= period,
        decreases n - i,
    {
        if table.value_at(i).values.len() > period as usize {
            proof {
                let k = table.items()[i as int].0;
                lemma_entries_map_keys(table.items());
                assert(has_key(table.items(), k));
                assert(states.contains_key(k));
                assert(states[k].values.len() > period);
            }
            return false;
        }
        i += 1;
    }
    proof {
        assert forall|k: Seq<char>| states.contains_key(k) implies (#[trigger] states[k]).values.len()
            <= period by {
            assert(has_key(table.items(), k));
            let j = choose|j: int|
                0 <= j < table.items().len() && (#[trigger] table.items()[j]).0 == k;
            assert(table@[table.items()[j].0] == table.items()[j].1);
        }
    }
    true
}

impl View for IndicatorHandler {
    type V = HandlerView;

    closed spec fn view(&self) -> HandlerView {
        HandlerView {
            phase: self.phase,
            options: self.options@,
            states: self.data@.map_values(|s: IndicatorState| s@),
        }
    }
}

impl IndicatorHandler {
    /// Every handler is well formed.
    #[verifier::type_invariant]
    spec fn inv(self) -> bool {
        self@.wf()
    }

    /// A handler that awaits its configuration. It holds `options` until then and
    /// holds no state.
    pub fn new(options: IndicatorOptions) -> (r: Self)
        ensures
            r@ == (HandlerView {
                phase: Phase::Unconfigured,
                options: options@,
                states: Map::empty(),
            }),
    {
        let r = IndicatorHandler { phase: Phase::Unconfigured, options, data: Dict::new() };
        assert(r@.states =~= Map::empty());
        r
    }

    /// Where the handler stands in its life.
    pub fn phase(&self) -> (r: Phase)
        ensures
            r == self@.phase,
    {
        self.phase
    }

    /// The configuration that the handler holds.
    pub fn options(&self) -> (r: &IndicatorOptions)
        ensures
            r@ == self@.options,
    {
        &self.options
    }

    /// The state kept for `key`, if the key has one.
    pub fn state(&self, key: &str) -> (r: Option<&IndicatorState>)
        ensures
            match r {
                Some(s) => self@.states.contains_key(key@) && s@ == self@.states[key@],
                None => !self@.states.contains_key(key@),
            },
            self@.wf(),
    {
        proof {
            use_type_invariant(self);
        }
        self.data.get(key)
    }

    /// The number of keys that have a state.
    pub fn key_count(&self) -> (r: usize)
        ensures
            self@.states.dom().finite(),
            r == self@.states.len(),
    {
        let n = self.data.len();
        assert(self@.states.dom() =~= self.data@.dom());
        n
    }

    /// What the handler declares of itself: it takes a stream, gives a stream, and has
    /// five options. This is available in every phase and changes nothing.
    pub fn info(&self) -> (r: InfoResponse)
        ensures
            r.wants == EdgeType::Stream,
            r.provides == EdgeType::Stream,
            r.options@.len() == 5,
            r.options@[0].name@ == "period"@ && r.options@[0].value_types@ == seq![ValueType::Int],
            r.options@[1].name@ == "type"@ && r.options@[1].value_types@ == seq![
                ValueType::String,
            ],
            r.options@[2].name@ == "ticker_field"@ && r.options@[2].value_types@ == seq![
                ValueType::String,
            ],
            r.options@[3].name@ == "field"@ && r.options@[3].value_types@ == seq![
                ValueType::String,
            ],
            r.options@[4].name@ == "as_field"@ && r.options@[4].value_types@ == seq![
                ValueType::String,
            ],
    {
        InfoResponse {
            wants: EdgeType::Stream,
            provides: EdgeType::Stream,
            options: self.options.to_option_info(),
        }
    }

    /// Configures the handler. Where `options` give a configuration, it comes into force
    /// and all state is dropped; where they do not, or the handler is stopped, nothing
    /// changes and the error says why.
    pub fn init(&mut self, options: &Vec<ProtoOption>) -> (r: Result<(), IndicatorError>)
        ensures
            final(self)@ == after_init(old(self)@, options@),
            match r {
                Ok(_) => init_result(old(self)@, options@) == Ok::<(), ErrorView>(()),
                Err(e) => init_result(old(self)@, options@) == Err::<(), ErrorView>(e@),
            },
    {
        match self.phase {
            Phase::Stopped => {
                return Err(IndicatorError::Stopped);
            },
            _ => {},
        }
        match IndicatorOptions::from_proto_options(options) {
            Ok(accepted) => {
                proof {
                    use_type_invariant(&*self);
                }
                self.data = Dict::new();
                assert(self@.states =~= Map::empty());
                self.options = accepted;
                self.phase = Phase::Configured;
                Ok(())
            },
            Err(e) => Err(e),
        }
    }

    /// The formula whose result the caller owes to `point` for record `p`, or the error
    /// with which `point` will refuse the record.
    pub fn formula(&self, p: &Point) -> (r: Result<Formula, IndicatorError>)
        ensures
            match r {
                Ok(f) => point_formula(self@, *p) == Ok::<FormulaView, ErrorView>(f@),
                Err(e) => point_formula(self@, *p) == Err::<FormulaView, ErrorView>(e@),
            },
    {
        match self.phase {
            Phase::Unconfigured => {
                return Err(IndicatorError::NotConfigured);
            },
            Phase::Stopped => {
                return Err(IndicatorError::Stopped);
            },
            Phase::Configured => {},
        }
        let ticker = match p.tags.get(self.options.ticker_field.as_str()) {
            Some(t) => t,
            None => {
                return Err(IndicatorError::MissingTickerField(self.options.ticker_field.clone()));
            },
        };
        let value = match p.fields_double.get(self.options.field.as_str()) {
            Some(v) => *v,
            None => {
                return Err(IndicatorError::InvalidFieldType(self.options.field.clone()));
            },
        };
        let period = self.options.period;
        let state = self.data.get(ticker.as_str());
        match self.options.indicator_type {
            IndicatorType::EMA => {
                let previous = match state {
                    Some(s) => s.current_value,
                    None => None,
                };
                match previous {
                    Some(previous) => Ok(Formula::Blend { period, previous, value }),
                    None => Ok(Formula::Input),
                }
            },
            IndicatorType::SMA => {
                let window = match state {
                    Some(s) => window_with(&s.values, period, value),
                    None => window_with(&Vec::new(), period, value),
                };
                if window.len() == period as usize {
                    Ok(Formula::Mean { window })
                } else {
                    Ok(Formula::Input)
                }
            },
        }
    }

    /// Folds record `p` into the state of its key and returns the record with the
    /// indicator's value written to the output field. `computed` is the result of the
    /// formula that `formula` gives for `p`; it is not looked at where that formula is
    /// the input itself. A record that is refused changes nothing.
    pub fn point(&mut self, p: Point, computed: u64) -> (r: Result<Point, IndicatorError>)
        ensures
            final(self)@ == after_point(old(self)@, p, computed),
            match r {
                Ok(out) => {
                    &&& point_output(old(self)@, p, computed) is Ok
                    &&& out.fields_double@ == p.fields_double@.insert(
                        old(self)@.options.as_field,
                        point_output(old(self)@, p, computed)->Ok_0,
                    )
                    &&& out == (Point { fields_double: out.fields_double, ..p })
                },
                Err(e) => point_output(old(self)@, p, computed) == Err::<u64, ErrorView>(e@),
            },
    {
        match self.phase {
            Phase::Unconfigured => {
                return Err(IndicatorError::NotConfigured);
            },
            Phase::Stopped => {
                return Err(IndicatorError::Stopped);
            },
            Phase::Configured => {},
        }
        let ticker = match p.tags.get(self.options.ticker_field.as_str()) {
            Some(t) => t,
            None => {
                return Err(IndicatorError::MissingTickerField(self.options.ticker_field.clone()));
            },
        };
        let value = match p.fields_double.get(self.options.field.as_str()) {
            Some(v) => *v,
            None => {
                return Err(IndicatorError::InvalidFieldType(self.options.field.clone()));
            },
        };
        let indicator_value = self.calculate_indicator(ticker.as_str(), value, computed);
        let mut new_point = p;
        new_point.fields_double.insert(self.options.as_field.clone(), indicator_value);
        Ok(new_point)
    }

    /// The state table as a snapshot, where a configuration is in force. Nothing changes;
    /// restoring from the snapshot gives this state table again.
    pub fn snapshot(&self) -> (r: Result<Vec<u8>, IndicatorError>)
        ensures
            match r {
                Ok(bytes) => refusal(self@.phase) is None && decoded(bytes@) == Some(
                    self@.states,
                ),
                Err(e) => refusal(self@.phase) == Some(e@),
            },
    {
        match self.phase {
            Phase::Unconfigured => Err(IndicatorError::NotConfigured),
            Phase::Stopped => Err(IndicatorError::Stopped),
            Phase::Configured => Ok(encode(&self.data)),
        }
    }

    /// Puts the state table of a snapshot in place of the handler's own. Where the
    /// restore is refused nothing changes.
    pub fn restore(&mut self, snapshot: &[u8]) -> (r: Result<(), IndicatorError>)
        ensures
            final(self)@ == after_restore(old(self)@, snapshot@),
            match r {
                Ok(_) => restore_result(old(self)@, snapshot@) == Ok::<(), ErrorView>(()),
                Err(e) => restore_result(old(self)@, snapshot@) == Err::<(), ErrorView>(e@),
            },
    {
        match self.phase {
            Phase::Unconfigured => {
                return Err(IndicatorError::NotConfigured);
            },
            Phase::Stopped => {
                return Err(IndicatorError::Stopped);
            },
            Phase::Configured => {},
        }
        match decode(snapshot) {
            Some(table) => {
                if windows_within(&table, self.options.period) {
                    proof {
                        use_type_invariant(&*self);
                    }
                    self.data = table;
                    Ok(())
                } else {
                    Err(IndicatorError::MalformedSnapshot)
                }
            },
            None => Err(IndicatorError::MalformedSnapshot),
        }
    }

    /// Refuses the start of a batch: records are taken one at a time only. Nothing changes.
    pub fn begin_batch(&mut self) -> (r: Result<(), IndicatorError>)
        ensures
            r == Err::<(), IndicatorError>(IndicatorError::UnsupportedOperation),
            *final(self) == *old(self),
    {
        Err(IndicatorError::UnsupportedOperation)
    }

    /// Accepts the end of a batch: there is nothing to flush. Nothing changes.
    pub fn end_batch(&mut self) -> (r: Result<(), IndicatorError>)
        ensures
            r == Ok::<(), IndicatorError>(()),
            *final(self) == *old(self),
    {
        Ok(())
    }

    /// Stops the handler for good. Its configuration and state stay as they are.
    pub fn stop(&mut self)
        ensures
            final(self)@ == (HandlerView { phase: Phase::Stopped, ..old(self)@ }),
    {
        proof {
            use_type_invariant(&*self);
        }
        self.phase = Phase::Stopped;
    }

    /// The exponential average for `ticker` after `value`: the value itself on the first
    /// observation, and `computed` after that.
    fn calculate_ema(&mut self, ticker: &str, value: u64, computed: u64) -> (r: u64)
        ensures
            r == output_for(
                IndicatorType::EMA,
                old(self)@.options.period,
                state_of(old(self)@.states, ticker@),
                value,
                computed,
            ),
            final(self)@ == (HandlerView {
                states: old(self)@.states.insert(
                    ticker@,
                    state_after(
                        IndicatorType::EMA,
                        old(self)@.options.period,
                        state_of(old(self)@.states, ticker@),
                        value,
                        computed,
                    ),
                ),
                ..old(self)@
            }),
    {
        proof {
            use_type_invariant(&*self);
        }
        let mut data = Dict::new();
        std::mem::swap(&mut data, &mut self.data);
        let ghost before = data@;
        let mut state = match data.remove(ticker) {
            Some(s) => s,
            None => IndicatorState::new(),
        };
        assert(state@ == state_of(old(self)@.states, ticker@));
        let new_ema = match state.current_value {
            Some(_) => computed,
            None => value,
        };
        state.current_value = Some(new_ema);
        state.count = state.count.saturating_add(1);
        data.insert(ticker.to_owned(), state);
        proof {
            assert(data@ =~= before.insert(ticker@, state));
            assert(data@.map_values(|s: IndicatorState| s@) =~= before.map_values(
                |s: IndicatorState| s@,
            ).insert(ticker@, state@));
        }
        self.data = data;
        new_ema
    }

    /// The simple average for `ticker` after `value`: `computed` once the window holds
    /// as many inputs as the period, and the value itself until then.
    fn calculate_sma(&mut self, ticker: &str, value: u64, computed: u64) -> (r: u64)
        ensures
            r == output_for(
                IndicatorType::SMA,
                old(self)@.options.period,
                state_of(old(self)@.states, ticker@),
                value,
                computed,
            ),
            final(self)@ == (HandlerView {
                states: old(self)@.states.insert(
                    ticker@,
                    state_after(
                        IndicatorType::SMA,
                        old(self)@.options.period,
                        state_of(old(self)@.states, ticker@),
                        value,
                        computed,
                    ),
                ),
                ..old(self)@
            }),
    {
        proof {
            use_type_invariant(&*self);
        }
        let period = self.options.period as usize;
        let mut data = Dict::new();
        std::mem::swap(&mut data, &mut self.data);
        let ghost before = data@;
        let mut state = match data.remove(ticker) {
            Some(s) => s,
            None => IndicatorState::new(),
        };
        let ghost prior = state@;
        assert(prior == state_of(old(self)@.states, ticker@));
        assert(prior.values.len() <= period);
        state.values.push(value);
        if state.values.len() > period {
            state.values.remove(0);
        }
        state.count = state.count.saturating_add(1);
        assert(state.values@ =~= window_after(old(self)@.options.period, prior, value));
        let r = if state.values.len() == period {
            computed
        } else {
            value
        };
        data.insert(ticker.to_owned(), state);
        proof {
            assert(data@ =~= before.insert(ticker@, state));
            assert(data@.map_values(|s: IndicatorState| s@) =~= before.map_values(
                |s: IndicatorState| s@,
            ).insert(ticker@, state@));
        }
        self.data = data;
        r
    }

    /// The indicator's value for `ticker` after `value`, by the configured type.
    fn calculate_indicator(&mut self, ticker: &str, value: u64, computed: u64) -> (r: u64)
        ensures
            r == output_for(
                old(self)@.options.indicator_type,
                old(self)@.options.period,
                state_of(old(self)@.states, ticker@),
                value,
                computed,
            ),
            final(self)@ == (HandlerView {
                states: old(self)@.states.insert(
                    ticker@,
                    state_after(
                        old(self)@.options.indicator_type,
                        old(self)@.options.period,
                        state_of(old(self)@.states, ticker@),
                        value,
                        computed,
                    ),
                ),
                ..old(self)@
            }),
    {
        match self.options.indicator_type {
            IndicatorType::EMA => self.calculate_ema(ticker, value, computed),
            IndicatorType::SMA => self.calculate_sma(ticker, value, computed),
        }
    }
}

} // verus!
