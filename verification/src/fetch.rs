//! The fetch-and-store decision logic.
//!
//! The embedding program performs the three oracle queries (latest answer,
//! feed description, decimal precision) and hands their outcomes here as
//! plain optional values. [`execute`] decides: only when all three are
//! present does it overwrite the caller-owned record and produce the log
//! line; otherwise the record is left untouched and the run fails, so the
//! stored state is all-or-nothing.

use vstd::prelude::*;

use crate::decimal::rendered;
use crate::decimal::Decimal;

verus! {

/// Why a fetch-and-store run failed.
#[derive(Clone, Copy, Debug, PartialEq, Eq, Structural)]
pub enum FetchError {
    /// An oracle query returned no value.
    OracleUnavailable,
}

/// The log line announcing a freshly stored price: the feed's label, the
/// words `" price is "`, and the canonical rendering of the value.
pub open spec fn log_line(label: Seq<char>, v: int, d: nat) -> Seq<char> {
    label + " price is "@ + rendered(v, d)
}

/// Copies an oracle reading into the caller-owned record and returns the log
/// line to emit. The reading is the outcome of three independent queries;
/// all three must have produced a value. On failure nothing is written: the
/// record keeps exactly its prior content.
pub fn execute(
    record: &mut Decimal,
    answer: Option<i128>,
    decimals: Option<u8>,
    label: Option<String>,
) -> (r: Result<String, FetchError>)
    ensures
        r is Ok <==> (answer is Some && decimals is Some && label is Some),
        r is Ok ==> {
            &&& final(record).value == answer.unwrap()
            &&& final(record).decimals == decimals.unwrap() as u32
            &&& r->Ok_0@ == log_line(
                label.unwrap()@,
                answer.unwrap() as int,
                decimals.unwrap() as nat,
            )
        },
        r is Err ==> *final(record) == *old(record) && r->Err_0 == FetchError::OracleUnavailable,
{
    match (answer, decimals, label) {
        (Some(value), Some(precision), Some(text)) => {
            record.value = value;
            record.decimals = precision as u32;
            let shown = Decimal::new(value, precision as u32);
            let price = shown.render();
            let mut line = text;
            line.append(" price is ");
            line.append(price.as_str());
            Ok(line)
        },
        _ => Err(FetchError::OracleUnavailable),
    }
}

} // verus!
