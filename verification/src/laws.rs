use crate::codec::{blob, decoded, fits, lemma_decode_blob};
use crate::dict::{entries_map, keys_distinct};
use crate::error::ErrorView;
use crate::handler::{
    after_init, after_point, after_restore, init_result, point_formula, point_output, reading,
    restore_result, HandlerView, Phase,
};
use crate::options::{resolve, IndicatorType, ProtoOption};
use crate::point::Point;
use crate::state::{
    formula_for, fresh, inputs_of, output_for, recent, state_after, state_after_all, FormulaView,
    StateView,
};
use vstd::prelude::*;

verus! {

/// The exponential average of a key's first observation is the input itself, whatever
/// the period and whatever the caller computed, and it is what the next observation
/// blends with.
pub proof fn law_ema_cold_start(period: u32, value: u64, computed: u64)
    ensures
        formula_for(IndicatorType::EMA, period, fresh(), value) == FormulaView::Input,
        output_for(IndicatorType::EMA, period, fresh(), value, computed) == value,
        state_after(IndicatorType::EMA, period, fresh(), value, computed).current_value == Some(
            value,
        ),
{
}

/// A handler with the exponential average in force answers the first record of a key
/// with the record's own input.
pub proof fn law_ema_first_record(h: HandlerView, p: Point, computed: u64)
    requires
        h.options.indicator_type == IndicatorType::EMA,
        reading(h, p) is Ok,
        !h.states.contains_key(reading(h, p)->Ok_0.0),
    ensures
        point_formula(h, p) == Ok::<FormulaView, ErrorView>(FormulaView::Input),
        point_output(h, p, computed) == Ok::<u64, ErrorView>(reading(h, p)->Ok_0.1),
{
}

/// Once a key has an exponential average, the next one is the blend of the input with
/// it under the period: that is the formula, its result is the output, and the result is
/// what the observation after that blends with.
pub proof fn law_ema_blends_previous(
    period: u32,
    s: StateView,
    previous: u64,
    value: u64,
    computed: u64,
)
    requires
        s.current_value == Some(previous),
    ensures
        formula_for(IndicatorType::EMA, period, s, value) == (FormulaView::Blend {
            period,
            previous,
            value,
        }),
        output_for(IndicatorType::EMA, period, s, value, computed) == computed,
        state_after(IndicatorType::EMA, period, s, value, computed).current_value == Some(
            computed,
        ),
{
}

/// After any run of observations from the fresh state, the window of the simple average
/// holds the most recent inputs, as many as were observed and no more than the period.
pub proof fn law_sma_window(period: u32, inputs: Seq<(u64, u64)>)
    ensures
        state_after_all(IndicatorType::SMA, period, fresh(), inputs).values == recent(
            inputs_of(inputs),
            period as int,
        ),
        state_after_all(IndicatorType::SMA, period, fresh(), inputs).values.len() == if inputs.len()
            <= period {
            inputs.len()
        } else {
            period as nat
        },
    decreases inputs.len(),
{
    if inputs.len() == 0 {
        assert(inputs_of(inputs) =~= Seq::empty());
    } else {
        let before = inputs.drop_last();
        law_sma_window(period, before);
        let s = state_after_all(IndicatorType::SMA, period, fresh(), before);
        assert(inputs_of(inputs) =~= inputs_of(before).push(inputs.last().0));
        assert(recent(s.values.push(inputs.last().0), period as int) =~= recent(
            inputs_of(inputs),
            period as int,
        ));
    }
}

/// While the simple average has seen fewer inputs than the period, its value is the
/// input itself. From the observation that fills the window on, its value is the mean
/// of the last inputs, as many as the period.
pub proof fn law_sma_fill(period: u32, inputs: Seq<(u64, u64)>, value: u64, computed: u64)
    requires
        period >= 1,
    ensures
        ({
            let s = state_after_all(IndicatorType::SMA, period, fresh(), inputs);
            let window = recent(inputs_of(inputs).push(value), period as int);
            if inputs.len() + 1 < period {
                &&& formula_for(IndicatorType::SMA, period, s, value) == FormulaView::Input
                &&& output_for(IndicatorType::SMA, period, s, value, computed) == value
            } else {
                &&& formula_for(IndicatorType::SMA, period, s, value) == (FormulaView::Mean {
                    window,
                })
                &&& window.len() == period
                &&& output_for(IndicatorType::SMA, period, s, value, computed) == computed
            }
        }),
{
    law_sma_window(period, inputs);
    let s = state_after_all(IndicatorType::SMA, period, fresh(), inputs);
    assert(recent(s.values.push(value), period as int) =~= recent(
        inputs_of(inputs).push(value),
        period as int,
    ));
}

/// The count of a key never falls.
pub proof fn law_count_never_falls(
    kind: IndicatorType,
    period: u32,
    s: StateView,
    value: u64,
    computed: u64,
)
    ensures
        state_after(kind, period, s, value, computed).count >= s.count,
{
}

/// Whatever is offered to a handler, no window grows longer than the period and a
/// configuration in force keeps a period of at least 1.
pub proof fn law_invariant_kept(
    h: HandlerView,
    p: Point,
    computed: u64,
    raw: Seq<ProtoOption>,
    blob: Seq<u8>,
)
    requires
        h.wf(),
    ensures
        after_point(h, p, computed).wf(),
        after_init(h, raw).wf(),
        after_restore(h, blob).wf(),
{
}

/// Reading a snapshot gives back the state table that was written: every key with its
/// current value, its window in order and its count.
pub proof fn law_snapshot_round_trip(es: Seq<(Seq<char>, StateView)>)
    requires
        keys_distinct(es),
        fits(es),
    ensures
        decoded(blob(es)) == Some(entries_map(es)),
{
    lemma_decode_blob(es);
}

/// Restoring a handler from a snapshot of its own state table succeeds and leaves the
/// handler as it was, so every record after it is answered as it would have been
/// without the restore.
pub proof fn law_restore_of_snapshot(h: HandlerView, blob: Seq<u8>)
    requires
        h.wf(),
        h.phase == Phase::Configured,
        decoded(blob) == Some(h.states),
    ensures
        restore_result(h, blob) == Ok::<(), ErrorView>(()),
        after_restore(h, blob) == h,
        forall|p: Point, computed: u64|
            #![trigger point_output(after_restore(h, blob), p, computed)]
            point_formula(after_restore(h, blob), p) == point_formula(h, p) && point_output(
                after_restore(h, blob),
                p,
                computed,
            ) == point_output(h, p, computed) && after_point(after_restore(h, blob), p, computed)
                == after_point(h, p, computed),
{
}

/// A record without the ticker tag is refused as such by a handler with a configuration
/// in force, and the handler stays as it was.
pub proof fn law_missing_ticker(h: HandlerView, p: Point, computed: u64)
    requires
        h.phase == Phase::Configured,
        !p.tags@.contains_key(h.options.ticker_field),
    ensures
        point_output(h, p, computed) == Err::<u64, ErrorView>(
            ErrorView::MissingTickerField(h.options.ticker_field),
        ),
        after_point(h, p, computed) == h,
{
}

/// A record with the ticker tag and without the double field is refused as such by a
/// handler with a configuration in force, and the handler stays as it was.
pub proof fn law_invalid_field(h: HandlerView, p: Point, computed: u64)
    requires
        h.phase == Phase::Configured,
        p.tags@.contains_key(h.options.ticker_field),
        !p.fields_double@.contains_key(h.options.field),
    ensures
        point_output(h, p, computed) == Err::<u64, ErrorView>(
            ErrorView::InvalidFieldType(h.options.field),
        ),
        after_point(h, p, computed) == h,
{
}

/// After a configuration has been accepted no key has a state, whatever was observed
/// before: the next record of any key is answered from the fresh state.
pub proof fn law_reconfigure_clears(
    h: HandlerView,
    raw: Seq<ProtoOption>,
    p: Point,
    computed: u64,
)
    requires
        init_result(h, raw) is Ok,
    ensures
        after_init(h, raw).phase == Phase::Configured,
        after_init(h, raw).options == resolve(raw)->Ok_0,
        after_init(h, raw).states == Map::<Seq<char>, StateView>::empty(),
        reading(after_init(h, raw), p) is Ok ==> {
            let now = after_init(h, raw);
            let value = reading(now, p)->Ok_0.1;
            &&& point_formula(now, p) == Ok::<FormulaView, ErrorView>(
                formula_for(now.options.indicator_type, now.options.period, fresh(), value),
            )
            &&& point_output(now, p, computed) == Ok::<u64, ErrorView>(
                output_for(
                    now.options.indicator_type,
                    now.options.period,
                    fresh(),
                    value,
                    computed,
                ),
            )
            &&& now.options.indicator_type == IndicatorType::EMA ==> point_output(
                now,
                p,
                computed,
            ) == Ok::<u64, ErrorView>(value)
        },
{
}

} // verus!
