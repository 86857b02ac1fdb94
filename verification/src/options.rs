use crate::dict::same_text;
use crate::error::{ErrorView, IndicatorError};
use vstd::prelude::*;
use vstd::string::*;

verus! {

/// Which moving average is computed.
#[derive(Debug, Clone, Copy, PartialEq, Eq, Structural)]
pub enum IndicatorType {
    /// Exponential moving average.
    EMA,
    /// Simple moving average.
    SMA,
}

/// The type of value that a configuration option takes.
#[derive(Debug, Clone, Copy, PartialEq, Eq, Structural)]
pub enum ValueType {
    Bool,
    Int,
    Double,
    String,
    Duration,
}

/// One value given for a configuration option. A double is held as the 64 bits of its
/// IEEE 754 form.
#[derive(Debug, Clone, PartialEq, Eq)]
pub enum OptionValue {
    Bool(bool),
    Int(i64),
    Double(u64),
    String(String),
    Duration(i64),
    /// A value that arrived without content.
    Unset,
}

/// A configuration option as the host engine gives it: a name and the values given for it.
#[derive(Debug, Clone, PartialEq, Eq)]
pub struct ProtoOption {
    pub name: String,
    pub values: Vec<OptionValue>,
}

/// A configuration option that the handler declares: its name and the types of its values.
#[derive(Debug, Clone, PartialEq, Eq)]
pub struct OptionInfo {
    pub name: String,
    pub value_types: Vec<ValueType>,
}

/// The configuration of a handler.
#[derive(Debug, Clone, PartialEq, Eq)]
pub struct IndicatorOptions {
    /// Window length of the simple average, smoothing basis of the exponential one.
    pub period: u32,
    pub indicator_type: IndicatorType,
    /// Name of the tag whose value keys the rolling state.
    pub ticker_field: String,
    /// Name of the double field that is read.
    pub field: String,
    /// Name of the double field that is written.
    pub as_field: String,
}

/// A configuration with its names as character sequences.
pub struct OptionsView {
    pub period: u32,
    pub indicator_type: IndicatorType,
    pub ticker_field: Seq<char>,
    pub field: Seq<char>,
    pub as_field: Seq<char>,
}

impl View for IndicatorOptions {
    type V = OptionsView;

    open spec fn view(&self) -> OptionsView {
        OptionsView {
            period: self.period,
            indicator_type: self.indicator_type,
            ticker_field: self.ticker_field@,
            field: self.field@,
            as_field: self.as_field@,
        }
    }
}

/// The values of the last option called `name`, if there is such an option.
pub open spec fn last_named(raw: Seq<ProtoOption>, name: Seq<char>) -> Option<Seq<OptionValue>>
    decreases raw.len(),
{
    if raw.len() == 0 {
        None
    } else if raw.last().name@ == name {
        Some(raw.last().values@)
    } else {
        last_named(raw.drop_last(), name)
    }
}

/// The period that a list of values gives: a single integer from 1 to `u32::MAX`.
pub open spec fn period_value(values: Seq<OptionValue>) -> Option<u32> {
    if values.len() == 1 {
        match values[0] {
            OptionValue::Int(v) => if 1 <= v <= u32::MAX {
                Some(v as u32)
            } else {
                None
            },
            _ => None,
        }
    } else {
        None
    }
}

/// The indicator type that a list of values gives: the single string `EMA` or `SMA`.
pub open spec fn type_value(values: Seq<OptionValue>) -> Option<IndicatorType> {
    if values.len() == 1 {
        match values[0] {
            OptionValue::String(s) => if s@ == "EMA"@ {
                Some(IndicatorType::EMA)
            } else if s@ == "SMA"@ {
                Some(IndicatorType::SMA)
            } else {
                None
            },
            _ => None,
        }
    } else {
        None
    }
}

/// The field name that a list of values gives: a single string that is not empty.
pub open spec fn name_value(values: Seq<OptionValue>) -> Option<Seq<char>> {
    if values.len() == 1 {
        match values[0] {
            OptionValue::String(s) => if s@.len() > 0 {
                Some(s@)
            } else {
                None
            },
            _ => None,
        }
    } else {
        None
    }
}

/// What the option called `name` gives under `parse`: an error where the option is
/// missing, another where `parse` finds no usable value in it.
pub open spec fn read_option<T>(
    raw: Seq<ProtoOption>,
    name: Seq<char>,
    parse: spec_fn(Seq<OptionValue>) -> Option<T>,
) -> Result<T, ErrorView> {
    match last_named(raw, name) {
        None => Err(ErrorView::MissingOption(name)),
        Some(values) => match parse(values) {
            Some(v) => Ok(v),
            None => Err(ErrorView::InvalidOption(name)),
        },
    }
}

/// The configuration that a list of options gives. All five options are required; they
/// are examined in the order `period`, `type`, `ticker_field`, `field`, `as_field`, and
/// the first that is missing or unusable decides the error. Options of other names are
/// passed over.
pub open spec fn resolve(raw: Seq<ProtoOption>) -> Result<OptionsView, ErrorView> {
    let period = read_option(raw, "period"@, |v: Seq<OptionValue>| period_value(v));
    let kind = read_option(raw, "type"@, |v: Seq<OptionValue>| type_value(v));
    let ticker_field = read_option(raw, "ticker_field"@, |v: Seq<OptionValue>| name_value(v));
    let field = read_option(raw, "field"@, |v: Seq<OptionValue>| name_value(v));
    let as_field = read_option(raw, "as_field"@, |v: Seq<OptionValue>| name_value(v));
    if period is Err {
        Err(period->Err_0)
    } else if kind is Err {
        Err(kind->Err_0)
    } else if ticker_field is Err {
        Err(ticker_field->Err_0)
    } else if field is Err {
        Err(field->Err_0)
    } else if as_field is Err {
        Err(as_field->Err_0)
    } else {
        Ok(
            OptionsView {
                period: period->Ok_0,
                indicator_type: kind->Ok_0,
                ticker_field: ticker_field->Ok_0,
                field: field->Ok_0,
                as_field: as_field->Ok_0,
            },
        )
    }
}

/// The values of the last option called `name`.
fn find_option<'a>(options: &'a Vec<ProtoOption>, name: &str) -> (r: Option<&'a Vec<OptionValue>>)
    ensures
        match r {
            Some(values) => last_named(options@, name@) == Some(values@),
            None => last_named(options@, name@) is None,
        },
{
    let mut i: usize = options.len();
    assert(options@.take(i as int) =~= options@);
    while i > 0
        invariant
            i <= options@.len(),
            last_named(options@, name@) == last_named(options@.take(i as int), name@),
        decreases i,
    {
        let ghost head = options@.take(i as int);
        assert(head.last() == options@[i - 1]);
        assert(head.drop_last() =~= options@.take(i - 1));
        if same_text(options[i - 1].name.as_str(), name) {
            return Some(&options[i - 1].values);
        }
        i -= 1;
    }
    assert(options@.take(0).len() == 0);
    None
}

/// The period that the options give.
fn read_period(options: &Vec<ProtoOption>) -> (r: Result<u32, IndicatorError>)
    ensures
        match r {
            Ok(p) => read_option(options@, "period"@, |v: Seq<OptionValue>| period_value(v))
                == Ok::<u32, ErrorView>(p),
            Err(e) => read_option(options@, "period"@, |v: Seq<OptionValue>| period_value(v))
                == Err::<u32, ErrorView>(e@),
        },
{
    match find_option(options, "period") {
        None => Err(IndicatorError::MissingOption(String::from_str("period"))),
        Some(values) => {
            if values.len() == 1 {
                if let OptionValue::Int(v) = &values[0] {
                    if 1 <= *v && *v <= 0xffff_ffff {
                        return Ok(*v as u32);
                    }
                }
            }
            Err(IndicatorError::InvalidOption(String::from_str("period")))
        },
    }
}

/// The indicator type that the options give.
fn read_type(options: &Vec<ProtoOption>) -> (r: Result<IndicatorType, IndicatorError>)
    ensures
        match r {
            Ok(t) => read_option(options@, "type"@, |v: Seq<OptionValue>| type_value(v))
                == Ok::<IndicatorType, ErrorView>(t),
            Err(e) => read_option(options@, "type"@, |v: Seq<OptionValue>| type_value(v))
                == Err::<IndicatorType, ErrorView>(e@),
        },
{
    match find_option(options, "type") {
        None => Err(IndicatorError::MissingOption(String::from_str("type"))),
        Some(values) => {
            if values.len() == 1 {
                if let OptionValue::String(s) = &values[0] {
                    if same_text(s.as_str(), "EMA") {
                        return Ok(IndicatorType::EMA);
                    }
                    if same_text(s.as_str(), "SMA") {
                        return Ok(IndicatorType::SMA);
                    }
                }
            }
            Err(IndicatorError::InvalidOption(String::from_str("type")))
        },
    }
}

/// The field name that the options give under `name`.
fn read_name(options: &Vec<ProtoOption>, name: &str) -> (r: Result<String, IndicatorError>)
    ensures
        match r {
            Ok(s) => read_option(options@, name@, |v: Seq<OptionValue>| name_value(v))
                == Ok::<Seq<char>, ErrorView>(s@),
            Err(e) => read_option(options@, name@, |v: Seq<OptionValue>| name_value(v))
                == Err::<Seq<char>, ErrorView>(e@),
        },
{
    match find_option(options, name) {
        None => Err(IndicatorError::MissingOption(String::from_str(name))),
        Some(values) => {
            if values.len() == 1 {
                if let OptionValue::String(s) = &values[0] {
                    if !s.as_str().is_empty() {
                        return Ok(s.clone());
                    }
                }
            }
            Err(IndicatorError::InvalidOption(String::from_str(name)))
        },
    }
}

impl IndicatorOptions {
    /// Reads a configuration from the options that the host engine gives.
    pub fn from_proto_options(options: &Vec<ProtoOption>) -> (r: Result<Self, IndicatorError>)
        ensures
            match r {
                Ok(o) => resolve(options@) == Ok::<OptionsView, ErrorView>(o@),
                Err(e) => resolve(options@) == Err::<OptionsView, ErrorView>(e@),
            },
    {
        let period = match read_period(options) {
            Ok(p) => p,
            Err(e) => {
                return Err(e);
            },
        };
        let indicator_type = match read_type(options) {
            Ok(t) => t,
            Err(e) => {
                return Err(e);
            },
        };
        let ticker_field = match read_name(options, "ticker_field") {
            Ok(s) => s,
            Err(e) => {
                return Err(e);
            },
        };
        let field = match read_name(options, "field") {
            Ok(s) => s,
            Err(e) => {
                return Err(e);
            },
        };
        let as_field = match read_name(options, "as_field") {
            Ok(s) => s,
            Err(e) => {
                return Err(e);
            },
        };
        Ok(IndicatorOptions { period, indicator_type, ticker_field, field, as_field })
    }

    /// The options that a handler declares to the host engine, each with the one type
    /// of value that it takes.
    pub fn to_option_info(&self) -> (r: Vec<OptionInfo>)
        ensures
            r@.len() == 5,
            r@[0].name@ == "period"@ && r@[0].value_types@ == seq![ValueType::Int],
            r@[1].name@ == "type"@ && r@[1].value_types@ == seq![ValueType::String],
            r@[2].name@ == "ticker_field"@ && r@[2].value_types@ == seq![ValueType::String],
            r@[3].name@ == "field"@ && r@[3].value_types@ == seq![ValueType::String],
            r@[4].name@ == "as_field"@ && r@[4].value_types@ == seq![ValueType::String],
    {
        let mut r: Vec<OptionInfo> = Vec::new();
        r.push(declared("period", ValueType::Int));
        r.push(declared("type", ValueType::String));
        r.push(declared("ticker_field", ValueType::String));
        r.push(declared("field", ValueType::String));
        r.push(declared("as_field", ValueType::String));
        r
    }
}

/// The declaration of an option that takes one value of type `t`.
fn declared(name: &str, t: ValueType) -> (r: OptionInfo)
    ensures
        r.name@ == name@,
        r.value_types@ == seq![t],
{
    let mut value_types: Vec<ValueType> = Vec::new();
    value_types.push(t);
    assert(value_types@ =~= seq![t]);
    OptionInfo { name: String::from_str(name), value_types }
}

} // verus!
