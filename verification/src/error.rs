//! What can be wrong with a secret, a URI or a service name.
use crate::base32::{Base32Error, Base32Fault};
use crate::decimal::write_number;
use crate::text::string_of;
use vstd::prelude::*;

verus! {

/// A reason to refuse an input.  `T` is `String` in executable code; the
/// specification speaks of the same reasons with `T` a sequence of characters.
#[derive(Debug, Clone, PartialEq, Eq)]
pub enum Problem<T> {
    /// The name is not one of the supported hashes.
    UnsupportedAlgorithm(T),
    /// The number of digits is not between 1 and 9.
    DigitsOutOfRange(u32),
    /// The period is zero.
    ZeroPeriod,
    /// Nothing is left of the secret without white space and padding.
    EmptySecret,
    /// The secret is not base32.
    InvalidBase32(Base32Error),
    /// The URI does not begin with `otpauth://totp/`.
    NotTotpUri(T),
    /// The `digits` parameter is not a number.
    InvalidDigits(T),
    /// The `period` parameter is not a number.
    InvalidPeriod(T),
    /// The URI has no `secret` parameter.
    MissingSecret,
    /// The service name is empty.
    EmptyServiceName,
    /// The service name holds a colon or white space.
    InvalidServiceName(T),
}

/// The error of this crate's functions.
pub type Error = Problem<String>;

impl View for Problem<String> {
    type V = Problem<Seq<char>>;

    open spec fn view(&self) -> Problem<Seq<char>> {
        match *self {
            Problem::UnsupportedAlgorithm(s) => Problem::UnsupportedAlgorithm(s@),
            Problem::DigitsOutOfRange(n) => Problem::DigitsOutOfRange(n),
            Problem::ZeroPeriod => Problem::ZeroPeriod,
            Problem::EmptySecret => Problem::EmptySecret,
            Problem::InvalidBase32(e) => Problem::InvalidBase32(e),
            Problem::NotTotpUri(s) => Problem::NotTotpUri(s@),
            Problem::InvalidDigits(s) => Problem::InvalidDigits(s@),
            Problem::InvalidPeriod(s) => Problem::InvalidPeriod(s@),
            Problem::MissingSecret => Problem::MissingSecret,
            Problem::EmptyServiceName => Problem::EmptyServiceName,
            Problem::InvalidServiceName(s) => Problem::InvalidServiceName(s@),
        }
    }
}

/// A result, with its value and its error taken by their views.
pub open spec fn outcome<T: View>(r: Result<T, Error>) -> Result<T::V, Problem<Seq<char>>> {
    match r {
        Ok(v) => Ok(v@),
        Err(e) => Err(e@),
    }
}

// ---------------------------------------------------------------------------
// Messages
// ---------------------------------------------------------------------------

/// What `<str as std::fmt::Debug>` writes for a text: the text in quotation
/// marks, with escapes.
pub uninterp spec fn debug_text(s: Seq<char>) -> Seq<char>;

/// `format!` with `{:?}`: the `Debug` form of a string, a function of the
/// string's characters alone.  Which characters are escaped is not stated.
#[verifier::external_body]
pub(crate) fn quoted(s: &str) -> (r: String)
    ensures
        r@ == debug_text(s@),
{
    format!("{s:?}")
}

/// The words for a base32 fault.
pub open spec fn fault_text(kind: Base32Fault) -> Seq<char> {
    match kind {
        Base32Fault::Length => "invalid length"@,
        Base32Fault::Symbol => "invalid symbol"@,
        Base32Fault::Trailing => "non-zero trailing bits"@,
        Base32Fault::Padding => "invalid padding length"@,
    }
}

impl Problem<Seq<char>> {
    /// The message for this reason.
    pub open spec fn text(self) -> Seq<char> {
        match self {
            Problem::UnsupportedAlgorithm(s) => "unsupported algorithm "@ + debug_text(s)
                + " (use SHA1/SHA256/SHA512)"@,
            Problem::DigitsOutOfRange(n) => "digits must be between 1 and 9 (got "@
                + crate::decimal::numeral(n as nat) + ")"@,
            Problem::ZeroPeriod => "period must be greater than zero"@,
            Problem::EmptySecret => "empty secret"@,
            Problem::InvalidBase32(e) => "invalid base32 secret: "@ + fault_text(e.kind) + " at "@
                + crate::decimal::numeral(e.position as nat),
            Problem::NotTotpUri(s) => "not a TOTP otpauth URI: "@ + debug_text(s),
            Problem::InvalidDigits(s) => "invalid digits: "@ + debug_text(s),
            Problem::InvalidPeriod(s) => "invalid period: "@ + debug_text(s),
            Problem::MissingSecret => "otpauth URI is missing the secret parameter"@,
            Problem::EmptyServiceName => "service name must not be empty"@,
            Problem::InvalidServiceName(s) =>
                "service name must not contain a colon or whitespace: "@ + debug_text(s),
        }
    }
}

/// `a`, `b` and `c` one after the other.
pub(crate) fn join(a: &str, b: &str, c: &str) -> (r: String)
    ensures
        r@ == a@ + b@ + c@,
{
    let mut r = String::new();
    r.append(a);
    r.append(b);
    r.append(c);
    assert(Seq::<char>::empty() + a@ == a@);
    r
}

impl Problem<String> {
    /// The message for this error.
    pub fn message(&self) -> (r: String)
        ensures
            r@ == self@.text(),
    {
        proof {
            reveal_strlit("");
        }
        let r = match self {
            Problem::UnsupportedAlgorithm(s) => join(
                "unsupported algorithm ",
                quoted(s.as_str()).as_str(),
                " (use SHA1/SHA256/SHA512)",
            ),
            Problem::DigitsOutOfRange(n) => join(
                "digits must be between 1 and 9 (got ",
                string_of(write_number(*n as u64).as_slice()).as_str(),
                ")",
            ),
            Problem::ZeroPeriod => join("period must be greater than zero", "", ""),
            Problem::EmptySecret => join("empty secret", "", ""),
            Problem::InvalidBase32(e) => {
                let kind = match e.kind {
                    Base32Fault::Length => "invalid length",
                    Base32Fault::Symbol => "invalid symbol",
                    Base32Fault::Trailing => "non-zero trailing bits",
                    Base32Fault::Padding => "invalid padding length",
                };
                let start = join("invalid base32 secret: ", kind, " at ");
                let place = string_of(write_number(e.position as u64).as_slice());
                join(start.as_str(), place.as_str(), "")
            },
            Problem::NotTotpUri(s) => join(
                "not a TOTP otpauth URI: ",
                quoted(s.as_str()).as_str(),
                "",
            ),
            Problem::InvalidDigits(s) => join("invalid digits: ", quoted(s.as_str()).as_str(), ""),
            Problem::InvalidPeriod(s) => join("invalid period: ", quoted(s.as_str()).as_str(), ""),
            Problem::MissingSecret => join("otpauth URI is missing the secret parameter", "", ""),
            Problem::EmptyServiceName => join("service name must not be empty", "", ""),
            Problem::InvalidServiceName(s) => join(
                "service name must not contain a colon or whitespace: ",
                quoted(s.as_str()).as_str(),
                "",
            ),
        };
        assert(r@ == self@.text());
        r
    }
}

// ---------------------------------------------------------------------------
// Laws
// ---------------------------------------------------------------------------

/// A problem is seen as the same problem with the same contents.
pub proof fn law_problem_seen(s: String, n: u32, e: Base32Error)
    ensures
        Problem::UnsupportedAlgorithm(s)@ == Problem::UnsupportedAlgorithm(s@),
        Problem::<String>::DigitsOutOfRange(n)@ == Problem::<Seq<char>>::DigitsOutOfRange(n),
        Problem::<String>::ZeroPeriod@ == Problem::<Seq<char>>::ZeroPeriod,
        Problem::<String>::EmptySecret@ == Problem::<Seq<char>>::EmptySecret,
        Problem::<String>::InvalidBase32(e)@ == Problem::<Seq<char>>::InvalidBase32(e),
        Problem::NotTotpUri(s)@ == Problem::NotTotpUri(s@),
        Problem::InvalidDigits(s)@ == Problem::InvalidDigits(s@),
        Problem::InvalidPeriod(s)@ == Problem::InvalidPeriod(s@),
        Problem::<String>::MissingSecret@ == Problem::<Seq<char>>::MissingSecret,
        Problem::<String>::EmptyServiceName@ == Problem::<Seq<char>>::EmptyServiceName,
        Problem::InvalidServiceName(s)@ == Problem::InvalidServiceName(s@),
{
}

/// A result is seen as a success with the value, or a failure with the error.
pub proof fn law_outcome<T: View>(v: T, e: Error)
    ensures
        outcome(Ok::<T, Error>(v)) == Ok::<T::V, Problem<Seq<char>>>(v@),
        outcome(Err::<T, Error>(e)) == Err::<T::V, Problem<Seq<char>>>(e@),
{
}

/// Each message names its problem and shows what was wrong.
pub proof fn law_messages(s: Seq<char>, n: u32, position: usize)
    ensures
        Problem::UnsupportedAlgorithm(s).text() == "unsupported algorithm "@ + debug_text(s)
            + " (use SHA1/SHA256/SHA512)"@,
        Problem::<Seq<char>>::DigitsOutOfRange(n).text() == "digits must be between 1 and 9 (got "@
            + crate::decimal::numeral(n as nat) + ")"@,
        Problem::<Seq<char>>::ZeroPeriod.text() == "period must be greater than zero"@,
        Problem::<Seq<char>>::EmptySecret.text() == "empty secret"@,
        Problem::<Seq<char>>::InvalidBase32(
            Base32Error { position, kind: Base32Fault::Length },
        ).text() == "invalid base32 secret: "@ + "invalid length"@ + " at "@
            + crate::decimal::numeral(position as nat),
        Problem::<Seq<char>>::InvalidBase32(
            Base32Error { position, kind: Base32Fault::Symbol },
        ).text() == "invalid base32 secret: "@ + "invalid symbol"@ + " at "@
            + crate::decimal::numeral(position as nat),
        Problem::<Seq<char>>::InvalidBase32(
            Base32Error { position, kind: Base32Fault::Trailing },
        ).text() == "invalid base32 secret: "@ + "non-zero trailing bits"@ + " at "@
            + crate::decimal::numeral(position as nat),
        Problem::<Seq<char>>::InvalidBase32(
            Base32Error { position, kind: Base32Fault::Padding },
        ).text() == "invalid base32 secret: "@ + "invalid padding length"@ + " at "@
            + crate::decimal::numeral(position as nat),
        Problem::NotTotpUri(s).text() == "not a TOTP otpauth URI: "@ + debug_text(s),
        Problem::InvalidDigits(s).text() == "invalid digits: "@ + debug_text(s),
        Problem::InvalidPeriod(s).text() == "invalid period: "@ + debug_text(s),
        Problem::<Seq<char>>::MissingSecret.text()
            == "otpauth URI is missing the secret parameter"@,
        Problem::<Seq<char>>::EmptyServiceName.text() == "service name must not be empty"@,
        Problem::InvalidServiceName(s).text()
            == "service name must not contain a colon or whitespace: "@ + debug_text(s),
{
}

} // verus!
