use vstd::prelude::*;
use vstd::string::StrSliceExecFns;

use crate::error::WmError;
use crate::length_value::{parse_length, LengthValue};

verus! {

/// A value read as a relative change: a magnitude and a sign.
#[derive(Debug, Clone, Copy, PartialEq, Eq)]
pub struct Delta<T> {
    pub inner: T,
    pub is_negative: bool,
}

/// What `str::trim` returns for a string.
pub uninterp spec fn trimmed(s: Seq<char>) -> Seq<char>;

/// Relies on `str::trim`: the string without leading and trailing whitespace.
#[verifier::external_body]
fn trim_str(s: &str) -> (r: &str)
    ensures
        r@ == trimmed(s@),
{
    s.trim()
}

/// The sign of a delta string and what follows it: a leading `+` or `-`
/// is taken off, and no sign means positive.
pub open spec fn split_sign(t: Seq<char>) -> (Seq<char>, bool) {
    if t.len() > 0 && t[0] == '+' {
        (t.skip(1), false)
    } else if t.len() > 0 && t[0] == '-' {
        (t.skip(1), true)
    } else {
        (t, false)
    }
}

/// The delta that an already trimmed string denotes, or `None` where what
/// follows the sign is empty or is no length.
pub open spec fn parse_delta(t: Seq<char>) -> Option<Delta<LengthValue>> {
    let (raw, neg) = split_sign(t);
    if raw.len() == 0 {
        None
    } else {
        match parse_length(raw) {
            Some(v) => Some(Delta { inner: v, is_negative: neg }),
            None => None,
        }
    }
}

/// The input that a failed delta parse echoes: the whole string when nothing
/// follows the sign, else what follows it.
pub open spec fn parse_error_echo(t: Seq<char>) -> Seq<char> {
    if split_sign(t).0.len() == 0 {
        t
    } else {
        split_sign(t).0
    }
}

impl Delta<LengthValue> {
    /// Parses a trimmed delta string `[+|-]<length>`. An empty remainder
    /// after the sign, or one that is no length, is a parse error.
    pub fn parse_trimmed(t: &str) -> (r: Result<Delta<LengthValue>, WmError>)
        ensures
            match parse_delta(t@) {
                Some(d) => r == Ok::<Delta<LengthValue>, WmError>(d),
                None => r matches Err(WmError::Parse(e)) && e@ == parse_error_echo(t@),
            },
    {
        let len = t.unicode_len();
        let mut raw = t;
        let mut neg = false;
        if len > 0 {
            let c = t.get_char(0);
            if c == '+' || c == '-' {
                raw = t.substring_char(1, len);
                neg = c == '-';
                assert(raw@ =~= t@.skip(1));
            }
        }
        assert(split_sign(t@) == (raw@, neg));
        if raw.unicode_len() == 0 {
            return Err(WmError::Parse(t.to_string()));
        }
        match LengthValue::parse(raw) {
            Ok(v) => Ok(Delta { inner: v, is_negative: neg }),
            Err(e) => Err(e),
        }
    }

    /// Parses a delta string: surrounding whitespace is ignored, then as
    /// `parse_trimmed`.
    pub fn parse(s: &str) -> (r: Result<Delta<LengthValue>, WmError>)
        ensures
            match parse_delta(trimmed(s@)) {
                Some(d) => r == Ok::<Delta<LengthValue>, WmError>(d),
                None => r matches Err(WmError::Parse(e)) && e@ == parse_error_echo(trimmed(s@)),
            },
    {
        let t = trim_str(s);
        Self::parse_trimmed(t)
    }
}

impl std::str::FromStr for Delta<LengthValue> {
    type Err = WmError;

    fn from_str(s: &str) -> Result<Delta<LengthValue>, WmError> {
        Delta::<LengthValue>::parse(s)
    }
}

} // verus!
