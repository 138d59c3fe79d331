//! How the probe writes a number.
//!
//! The default is the shortest text that parses back to the same float, in
//! the width the program was compiled in; `Fixed(n)` keeps a fixed count of
//! decimals. What is decided here is which of the two a run uses and at
//! which width; the printing of a float itself is the host program's.

use vstd::prelude::*;
use crate::text::{chars_of, parse_usize, push_chars, push_str, same_text, spec_parse_usize, string_of};

verus! {

/// The text form of the numbers the probe prints.
#[derive(Debug, Clone, Copy, PartialEq, Eq, Structural)]
pub enum Precision {
    /// Shortest text that round-trips at the value's own width.
    RoundTrip,
    /// This many fixed decimals, scientific for a training loss.
    Fixed(usize),
}

impl Default for Precision {
    fn default() -> (p: Self)
        ensures
            p == Precision::RoundTrip,
    {
        Precision::RoundTrip
    }
}

/// What `--precision TEXT` means: `full` is the round-trip text, a count of
/// decimals is that many fixed decimals, anything else is refused.
pub open spec fn spec_precision(text: Seq<char>) -> Option<Precision> {
    if text == "full"@ {
        Some(Precision::RoundTrip)
    } else {
        match spec_parse_usize(text) {
            Some(n) => Some(Precision::Fixed(n)),
            None => None,
        }
    }
}

/// The message that refuses `--precision TEXT`.
pub open spec fn precision_error(text: Seq<char>) -> Seq<char> {
    "`--precision "@ + text + "`: expected `full` or a number of decimals"@
}

impl Precision {
    /// Parses `--precision`: `full` or a number of decimals.
    ///
    /// # Errors
    /// Names the value when it is neither.
    pub fn parse(text: &str) -> (r: Result<Self, String>)
        ensures
            match spec_precision(text@) {
                Some(p) => r == Ok::<Precision, String>(p),
                None => r is Err && r->Err_0@ == precision_error(text@),
            },
    {
        let chars = chars_of(text);
        if same_text(&chars, "full") {
            return Ok(Precision::RoundTrip);
        }
        match parse_usize(&chars) {
            Some(n) => Ok(Precision::Fixed(n)),
            None => {
                let mut message: Vec<char> = Vec::new();
                push_str(&mut message, "`--precision ");
                push_chars(&mut message, &chars);
                push_str(&mut message, "`: expected `full` or a number of decimals");
                Err(string_of(&message))
            },
        }
    }
}

/// A [`Precision`] bound to the width of the program's samples.
#[derive(Debug, Clone, Copy)]
pub struct NumberFormat {
    precision: Precision,
    double: bool,
}

impl NumberFormat {
    /// The format of a program compiled in double (`true`) or single
    /// precision.
    pub fn new(precision: Precision, double: bool) -> (f: Self)
        ensures
            f.precision() == precision,
            f.is_double() == double,
    {
        NumberFormat { precision, double }
    }

    /// The precision the numbers are written at.
    pub closed spec fn precision(&self) -> Precision {
        self.precision
    }

    /// Whether the program's samples are double precision.
    pub closed spec fn is_double(&self) -> bool {
        self.double
    }

    /// The precision the numbers are written at.
    pub fn precision_of(&self) -> (p: Precision)
        ensures
            p == self.precision(),
    {
        self.precision
    }

    /// Whether the program's samples are double precision: a sample of a
    /// single-precision program is written from its `f32`.
    pub fn double(&self) -> (b: bool)
        ensures
            b == self.is_double(),
    {
        self.double
    }
}

} // verus!
