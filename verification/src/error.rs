//! The [`AecError`] type returned by the crate's fallible operations.

use vstd::prelude::*;
use vstd::string::StringExecFns;

use crate::config::AecModel;

verus! {

/// Errors produced by the echo canceller.
///
/// This enum is `#[non_exhaustive]`: consumers pattern-matching on it must
/// include a `_ =>` catch-all arm so future variant additions are not
/// source-breaking.
///
/// The out-of-range variants carry the offending value as a structured payload
/// that is never formatted into the message, so the message text stays stable
/// across releases. [`AecError::UnknownModel`] is the deliberate exception: it is
/// the binding-facing typo catch, so echoing the received string and the
/// available-model list into the message is its whole job.
///
/// Every publicly selectable model is compiled into the library and constructed
/// with the engine, so a validly named model can never be unavailable at
/// runtime. The only model error is therefore the string-boundary one, and every
/// remaining variant is a configuration error raised at construction.
#[derive(Debug)]
#[allow(inconsistent_fields)]
#[non_exhaustive]
pub enum AecError {
    /// The configured sample rate was outside the supported range. The supported
    /// range is 8000 to 48000 Hz inclusive.
    SampleRateOutOfRange {
        /// The rejected sample rate, in Hz.
        requested: u32,
    },
    /// The configured maximum echo delay was outside the supported range. The
    /// supported range is 10 to 1000 milliseconds inclusive.
    EchoDelayOutOfRange {
        /// The rejected maximum echo delay, in milliseconds.
        requested_ms: u16,
    },
    /// The configured coarse search ceiling was outside the supported range. It
    /// must be at least the fine search window and at most 2000 milliseconds.
    SearchDelayOutOfRange {
        /// The rejected ceiling, in milliseconds.
        requested_ms: u16,
        /// The fine search window it must not undercut, in milliseconds.
        fine_window_ms: u16,
    },
    /// The configured filter tail was outside the supported range. The supported
    /// range is 16 to 500 milliseconds inclusive.
    TailOutOfRange {
        /// The rejected filter tail length, in milliseconds.
        requested_ms: u16,
    },
    /// The model string did not name any publicly selectable model.
    ///
    /// This is the boundary error behind the [`AecModel`] parse: a typo like
    /// `"tao"` surfaces here with a message that names the received string and
    /// lists the available models.
    UnknownModel {
        /// The received string that named no publicly selectable model.
        requested: String,
    },
}

/// The text of one decimal digit.
pub open spec fn digit_text(digit: int) -> Seq<char> {
    if digit == 0 {
        "0"@
    } else if digit == 1 {
        "1"@
    } else if digit == 2 {
        "2"@
    } else if digit == 3 {
        "3"@
    } else if digit == 4 {
        "4"@
    } else if digit == 5 {
        "5"@
    } else if digit == 6 {
        "6"@
    } else if digit == 7 {
        "7"@
    } else if digit == 8 {
        "8"@
    } else {
        "9"@
    }
}

/// A number in decimal, without leading zeros.
pub open spec fn decimal_text(value: int) -> Seq<char>
    decreases value,
{
    if value < 10 {
        digit_text(value)
    } else {
        decimal_text(value / 10) + digit_text(value % 10)
    }
}

/// The first `count` of the public model names: each quoted, comma separated, in
/// declaration order.
pub open spec fn names_text(count: int) -> Seq<char>
    decreases count,
{
    if count <= 0 {
        ""@
    } else {
        names_text(count - 1) + (if count == 1 {
            ""@
        } else {
            ", "@
        }) + "'"@ + AecModel::PUBLIC_MODEL_NAMES@[count - 1]@ + "'"@
    }
}

/// The public model-name list: each name quoted, comma separated, in declaration
/// order.
pub open spec fn available_text() -> Seq<char> {
    names_text(AecModel::PUBLIC_MODEL_NAMES@.len() as int)
}

fn digit(value: u16) -> (r: &'static str)
    requires
        value < 10,
    ensures
        r@ == digit_text(value as int),
{
    if value == 0 {
        "0"
    } else if value == 1 {
        "1"
    } else if value == 2 {
        "2"
    } else if value == 3 {
        "3"
    } else if value == 4 {
        "4"
    } else if value == 5 {
        "5"
    } else if value == 6 {
        "6"
    } else if value == 7 {
        "7"
    } else if value == 8 {
        "8"
    } else {
        "9"
    }
}

/// Renders a number in decimal.
fn decimal(value: u16) -> (r: String)
    ensures
        r@ == decimal_text(value as int),
    decreases value,
{
    if value < 10 {
        digit(value).to_owned()
    } else {
        let mut text: String = decimal(value / 10);
        text.append(digit(value % 10));
        text
    }
}

/// Formats the public model-name list for the [`AecError::UnknownModel`]
/// message: each name quoted, comma separated, in declaration order.
pub fn available_model_names() -> (r: String)
    ensures
        r@ == available_text(),
{
    let mut text: String = "".to_owned();
    let mut i: usize = 0;
    while i < AecModel::PUBLIC_MODEL_NAMES.len()
        invariant
            i <= AecModel::PUBLIC_MODEL_NAMES@.len(),
            text@ == names_text(i as int),
        decreases AecModel::PUBLIC_MODEL_NAMES@.len() - i,
    {
        text.append(if i == 0 {
            ""
        } else {
            ", "
        });
        text.append("'");
        text.append(AecModel::PUBLIC_MODEL_NAMES[i]);
        text.append("'");
        i += 1;
    }
    text
}

impl AecError {
    /// The message text, as a specification.
    pub open spec fn text(self) -> Seq<char> {
        match self {
            AecError::SampleRateOutOfRange { .. } =>
                "sample rate must be between 8000 and 48000 Hz"@,
            AecError::EchoDelayOutOfRange { .. } =>
                "maximum echo delay must be between 10 and 1000 milliseconds"@,
            AecError::SearchDelayOutOfRange { requested_ms, fine_window_ms } =>
                "coarse search ceiling must be between the fine search window ("@ + decimal_text(
                    fine_window_ms as int,
                ) + " ms) and 2000 milliseconds"@,
            AecError::TailOutOfRange { .. } =>
                "filter tail must be between 16 and 500 milliseconds"@,
            AecError::UnknownModel { requested } => "model must be one of: "@ + available_text()
                + "; got '"@ + requested@ + "'"@,
        }
    }

    /// The message text. An out-of-range message never names the offending
    /// value; the model one names the received string and the available models.
    pub fn message(&self) -> (r: String)
        ensures
            r@ == self.text(),
    {
        match self {
            AecError::SampleRateOutOfRange { .. } =>
                "sample rate must be between 8000 and 48000 Hz".to_owned(),
            AecError::EchoDelayOutOfRange { .. } =>
                "maximum echo delay must be between 10 and 1000 milliseconds".to_owned(),
            AecError::SearchDelayOutOfRange { requested_ms: _, fine_window_ms } => {
                let window: String = decimal(*fine_window_ms);
                let mut text: String =
                    "coarse search ceiling must be between the fine search window (".to_owned();
                text.append(window.as_str());
                text.append(" ms) and 2000 milliseconds");
                text
            },
            AecError::TailOutOfRange { .. } =>
                "filter tail must be between 16 and 500 milliseconds".to_owned(),
            AecError::UnknownModel { requested } => {
                let names: String = available_model_names();
                let mut text: String = "model must be one of: ".to_owned();
                text.append(names.as_str());
                text.append("; got '");
                text.append(requested.as_str());
                text.append("'");
                text
            },
        }
    }
}

} // verus!
