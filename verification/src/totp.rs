//! Time-based one-time passwords (RFC 6238).
use crate::algorithm::Algorithm;
use crate::decimal;
use crate::error;
use crate::error::{Error, Problem};
use crate::hotp;
use crate::secret;
use crate::text;
use vstd::prelude::*;

verus! {

/// A fully resolved TOTP configuration: the decoded key plus its parameters.
#[derive(Debug, Clone)]
pub struct TotpParams {
    pub key: Vec<u8>,
    pub digits: u32,
    pub period: u64,
    pub algorithm: Algorithm,
}

/// What a `TotpParams` holds.
pub struct Params {
    pub key: Seq<u8>,
    pub digits: u32,
    pub period: u64,
    pub algorithm: Algorithm,
}

impl View for TotpParams {
    type V = Params;

    open spec fn view(&self) -> Params {
        Params {
            key: self.key@,
            digits: self.digits,
            period: self.period,
            algorithm: self.algorithm,
        }
    }
}

// ---------------------------------------------------------------------------
// Specification
// ---------------------------------------------------------------------------

impl Params {
    /// What every configuration built from a secret satisfies.
    pub open spec fn valid(self) -> bool {
        &&& self.key.len() > 0
        &&& 1 <= self.digits <= 9
        &&& self.period > 0
    }

    /// The number of whole periods up to the time `unix_secs`.
    pub open spec fn step(self, unix_secs: u64) -> u64 {
        unix_secs / self.period
    }

    /// The code at the time `unix_secs`, as a number.
    pub open spec fn code_value(self, unix_secs: u64) -> nat {
        hotp::hotp_value(self.key, self.step(unix_secs), self.digits as nat, self.algorithm)
    }

    /// The code at the time `unix_secs`, as a user reads it.
    pub open spec fn code(self, unix_secs: u64) -> Seq<char> {
        decimal::padded(self.code_value(unix_secs), self.digits as nat)
    }

    /// How many seconds the step at the time `unix_secs` still lasts.
    pub open spec fn seconds_left(self, unix_secs: u64) -> int {
        self.period - unix_secs % self.period
    }
}

/// The configuration for a base32 secret: the ranges are looked at first.
pub open spec fn configured(
    secret: Seq<char>,
    digits: u32,
    period: u64,
    algorithm: Algorithm,
) -> Result<Params, Problem<Seq<char>>> {
    if !(1 <= digits <= 9) {
        Err(Problem::DigitsOutOfRange(digits))
    } else if period == 0 {
        Err(Problem::ZeroPeriod)
    } else {
        match secret::secret_key(secret) {
            Ok(key) => Ok(Params { key, digits, period, algorithm }),
            Err(e) => Err(e),
        }
    }
}

// ---------------------------------------------------------------------------
// Operations
// ---------------------------------------------------------------------------

impl TotpParams {
    /// Build parameters from a base32-encoded secret, validating the ranges.
    pub fn from_base32(secret: &str, digits: u32, period: u64, algorithm: Algorithm) -> (r: Result<
        Self,
        Error,
    >)
        ensures
            error::outcome(r) == configured(secret@, digits, period, algorithm),
            r matches Ok(params) ==> params@.valid(),
            r is Ok <==> 1 <= digits <= 9 && period > 0 && secret::secret_key(secret@) is Ok,
            r matches Ok(params) ==> {
                &&& params.digits == digits
                &&& params.period == period
                &&& params.algorithm == algorithm
                &&& secret::secret_key(secret@) == Ok::<Seq<u8>, Problem<Seq<char>>>(params.key@)
            },
    {
        if digits < 1 || digits > 9 {
            return Err(Problem::DigitsOutOfRange(digits));
        }
        if period == 0 {
            return Err(Problem::ZeroPeriod);
        }
        match secret::decode_base32(secret) {
            Ok(key) => Ok(TotpParams { key, digits, period, algorithm }),
            Err(e) => Err(e),
        }
    }
}

/// Compute the TOTP code (RFC 6238) for a given Unix time, zero-padded.
pub fn totp_at(params: &TotpParams, unix_secs: u64) -> (r: String)
    requires
        params.period > 0,
        params.digits <= 9,
    ensures
        r@ == params@.code(unix_secs),
        forall|counter: u64|
            counter * params.period <= unix_secs < (counter + 1) * params.period ==> r@
                == decimal::padded(
                #[trigger] hotp::hotp_value(
                    params.key@,
                    counter,
                    params.digits as nat,
                    params.algorithm,
                ),
                params.digits as nat,
            ),
        params.digits >= 1 ==> r@.len() == params.digits && decimal::all_digits(r@),
{
    let counter: u64 = unix_secs / params.period;
    let code: u32 = hotp::hotp(params.key.as_slice(), counter, params.digits, params.algorithm);
    let padded = decimal::write_padded(code as u64, params.digits as usize);
    proof {
        assert forall|c: u64|
            c * params.period <= unix_secs < (c + 1) * params.period implies #[trigger] hotp::hotp_value(
            params.key@,
            c,
            params.digits as nat,
            params.algorithm,
        ) == code by {
            law_step(params@, unix_secs, c);
        }
        if params.digits >= 1 {
            decimal::law_padded_width(code as nat, params.digits as nat);
        }
    }
    text::string_of(padded.as_slice())
}

/// Seconds until the current TOTP step ends (1..=period).
pub fn seconds_remaining(params: &TotpParams, unix_secs: u64) -> (r: u64)
    requires
        params.period > 0,
    ensures
        r == params@.seconds_left(unix_secs),
        1 <= r <= params.period,
        (unix_secs + r) % params.period as int == 0,
{
    proof {
        law_seconds_left(params@, unix_secs);
    }
    params.period - (unix_secs % params.period)
}

// ---------------------------------------------------------------------------
// Laws
// ---------------------------------------------------------------------------

/// A configuration built from a secret is valid.
pub proof fn law_configured_valid(secret: Seq<char>, digits: u32, period: u64, algorithm: Algorithm)
    ensures
        configured(secret, digits, period, algorithm) matches Ok(params) ==> params.valid(),
{
    secret::law_key_nonempty(secret);
}

/// A code has as many digits as its configuration asks for, and they write the
/// HOTP value of the step.
pub proof fn law_code_digits(params: Params, unix_secs: u64)
    requires
        params.period > 0,
        1 <= params.digits <= 9,
    ensures
        params.code(unix_secs).len() == params.digits,
        decimal::all_digits(params.code(unix_secs)),
        decimal::digits_value(params.code(unix_secs)) == params.code_value(unix_secs),
        params.code_value(unix_secs) < decimal::ten_to(params.digits as nat),
{
    let ten = decimal::ten_to(params.digits as nat);
    decimal::lemma_ten_to_positive(params.digits as nat);
    let v = hotp::truncated(
        crate::mac::digest(
            params.algorithm,
            params.key,
            hotp::counter_bytes(params.step(unix_secs)),
        ),
    );
    assert(0 <= v % ten < ten);
    decimal::law_padded_width(params.code_value(unix_secs), params.digits as nat);
    decimal::law_padded_value(params.code_value(unix_secs), params.digits as nat);
}

/// The code stays the same until the seconds that remain have passed.
pub proof fn law_code_lasts(params: Params, unix_secs: u64, elapsed: u64)
    requires
        params.period > 0,
        elapsed < params.seconds_left(unix_secs),
        unix_secs + elapsed <= u64::MAX,
    ensures
        params.step((unix_secs + elapsed) as u64) == params.step(unix_secs),
        params.code((unix_secs + elapsed) as u64) == params.code(unix_secs),
        params.seconds_left((unix_secs + elapsed) as u64) == params.seconds_left(unix_secs)
            - elapsed,
{
    let (t, p, e) = (unix_secs as int, params.period as int, elapsed as int);
    vstd::arithmetic::div_mod::lemma_fundamental_div_mod(t, p);
    let q = t / p;
    let r = t % p;
    assert(t + e == q * p + (r + e)) by (nonlinear_arith)
        requires
            t == p * q + r,
    ;
    vstd::arithmetic::div_mod::lemma_fundamental_div_mod_converse(t + e, p, q, r + e);
}

/// When the seconds that remain have passed, the next step begins.
pub proof fn law_step_ends(params: Params, unix_secs: u64)
    requires
        params.period > 0,
        unix_secs + params.seconds_left(unix_secs) <= u64::MAX,
    ensures
        ({
            let next = (unix_secs + params.seconds_left(unix_secs)) as u64;
            &&& params.step(next) == params.step(unix_secs) + 1
            &&& params.seconds_left(next) == params.period
        }),
{
    let (t, p) = (unix_secs as int, params.period as int);
    vstd::arithmetic::div_mod::lemma_fundamental_div_mod(t, p);
    let q = t / p;
    let r = t % p;
    assert(t + (p - r) == (q + 1) * p + 0) by (nonlinear_arith)
        requires
            t == p * q + r,
    ;
    vstd::arithmetic::div_mod::lemma_fundamental_div_mod_converse(t + (p - r), p, q + 1, 0);
}

/// The step is the number of whole periods since the epoch: the time lies in the
/// period that begins with it, and in no other.
pub proof fn law_step(params: Params, unix_secs: u64, counter: u64)
    requires
        params.period > 0,
    ensures
        params.step(unix_secs) * params.period <= unix_secs < (params.step(unix_secs) + 1)
            * params.period,
        counter * params.period <= unix_secs < (counter + 1) * params.period ==> counter
            == params.step(unix_secs),
{
    let (t, p, c) = (unix_secs as int, params.period as int, counter as int);
    vstd::arithmetic::div_mod::lemma_fundamental_div_mod(t, p);
    let q = t / p;
    assert(p * q == q * p) by (nonlinear_arith);
    assert((q + 1) * p == q * p + p) by (nonlinear_arith);
    if c * p <= t < (c + 1) * p {
        assert((c + 1) * p == c * p + p) by (nonlinear_arith);
        vstd::arithmetic::div_mod::lemma_fundamental_div_mod_converse(t, p, c, t - c * p);
    }
}

/// The code at a time is the HOTP value of the number of whole periods since the
/// epoch, under the configuration's key and hash, in as many digits as it has.
pub proof fn law_code_of_time(params: Params, unix_secs: u64, counter: u64)
    requires
        params.period > 0,
        counter * params.period <= unix_secs < (counter + 1) * params.period,
    ensures
        params.code_value(unix_secs) == hotp::hotp_value(
            params.key,
            counter,
            params.digits as nat,
            params.algorithm,
        ),
        params.code(unix_secs) == decimal::padded(
            hotp::hotp_value(params.key, counter, params.digits as nat, params.algorithm),
            params.digits as nat,
        ),
{
    law_step(params, unix_secs, counter);
}

/// A step ends at a multiple of the period, at most a period ahead.
pub proof fn law_seconds_left(params: Params, unix_secs: u64)
    requires
        params.period > 0,
    ensures
        1 <= params.seconds_left(unix_secs) <= params.period,
        (unix_secs + params.seconds_left(unix_secs)) % params.period as int == 0,
        unix_secs + params.seconds_left(unix_secs) == (params.step(unix_secs) + 1) * params.period,
{
    let (t, p) = (unix_secs as int, params.period as int);
    vstd::arithmetic::div_mod::lemma_fundamental_div_mod(t, p);
    let q = t / p;
    let r = t % p;
    assert(t + (p - r) == (q + 1) * p + 0) by (nonlinear_arith)
        requires
            t == p * q + r,
    ;
    vstd::arithmetic::div_mod::lemma_fundamental_div_mod_converse(t + (p - r), p, q + 1, 0);
}

/// A configuration carries what it was asked for.  There is one whenever the
/// digits and the period are in range and the secret has a key; else the first
/// of these that fails is the problem.
pub proof fn law_configured_as_asked(
    secret: Seq<char>,
    digits: u32,
    period: u64,
    algorithm: Algorithm,
)
    ensures
        ({
            let r = configured(secret, digits, period, algorithm);
            let ranges = digits != 0 && digits < 10 && period != 0;
            &&& r is Ok <==> ranges && secret::secret_key(secret) is Ok
            &&& r matches Ok(p) ==> {
                &&& p.digits == digits
                &&& p.period == period
                &&& p.algorithm == algorithm
                &&& secret::secret_key(secret) == Ok::<Seq<u8>, Problem<Seq<char>>>(p.key)
            }
            &&& digits == 0 || digits >= 10 ==> r == Err::<Params, Problem<Seq<char>>>(
                Problem::DigitsOutOfRange(digits),
            )
            &&& digits != 0 && digits < 10 && period == 0 ==> r == Err::<Params, Problem<Seq<char>>>(
                Problem::ZeroPeriod,
            )
            &&& ranges && r is Err ==> secret::secret_key(secret) is Err && r == Err::<
                Params,
                Problem<Seq<char>>,
            >(secret::secret_key(secret)->Err_0)
        }),
{
}

/// A configuration is seen with its own fields, and is valid if they are in
/// range.
pub proof fn law_params_seen(params: TotpParams)
    ensures
        params@.key == params.key@,
        params@.digits == params.digits,
        params@.period == params.period,
        params@.algorithm == params.algorithm,
        params@.valid() <==> params.key@.len() != 0 && params.digits != 0 && params.digits < 10
            && params.period != 0,
{
}

} // verus!
