//! `otpauth://` URIs, and stored values in general.
use crate::algorithm;
use crate::algorithm::Algorithm;
use crate::decimal;
use crate::error;
use crate::error::{Error, Problem};
use crate::percent;
use crate::secret;
use crate::text;
use crate::totp;
use crate::totp::TotpParams;
use vstd::prelude::*;
use vstd::slice::slice_subrange;

verus! {

/// The parameters read from a query so far.
pub struct QueryFields {
    pub secret: Option<String>,
    pub digits: u32,
    pub period: u64,
    pub algorithm: Algorithm,
}

/// What a `QueryFields` holds.
pub struct Fields {
    pub secret: Option<Seq<char>>,
    pub digits: u32,
    pub period: u64,
    pub algorithm: Algorithm,
}

impl View for QueryFields {
    type V = Fields;

    open spec fn view(&self) -> Fields {
        Fields {
            secret: match self.secret {
                Some(s) => Some(s@),
                None => None,
            },
            digits: self.digits,
            period: self.period,
            algorithm: self.algorithm,
        }
    }
}

// ---------------------------------------------------------------------------
// Specification
// ---------------------------------------------------------------------------

/// The standard defaults: no secret, 6 digits, 30 seconds, SHA-1.
pub open spec fn no_fields() -> Fields {
    Fields { secret: None, digits: 6, period: 30, algorithm: Algorithm::Sha1 }
}

/// The key and the raw value of one piece of a query.
pub open spec fn key_and_value(pair: Seq<char>) -> (Seq<char>, Seq<char>) {
    match text::cut(pair, '=') {
        Some(parts) => parts,
        None => (pair, seq![]),
    }
}

/// `fields` after one piece of a query.  The key may be in any case; an empty
/// piece and an unknown key change nothing.
pub open spec fn with_pair(fields: Fields, pair: Seq<char>) -> Result<
    Fields,
    Problem<Seq<char>>,
> {
    let key = text::lowercase(key_and_value(pair).0);
    let value = percent::percent_decoded(key_and_value(pair).1);
    if pair.len() == 0 {
        Ok(fields)
    } else if key == "secret"@ {
        Ok(Fields { secret: Some(value), ..fields })
    } else if key == "digits"@ {
        match decimal::number(value, u32::MAX as nat) {
            Some(n) => Ok(Fields { digits: n as u32, ..fields }),
            None => Err(Problem::InvalidDigits(value)),
        }
    } else if key == "period"@ {
        match decimal::number(value, u64::MAX as nat) {
            Some(n) => Ok(Fields { period: n as u64, ..fields }),
            None => Err(Problem::InvalidPeriod(value)),
        }
    } else if key == "algorithm"@ {
        match algorithm::named(value) {
            Ok(a) => Ok(Fields { algorithm: a, ..fields }),
            Err(e) => Err(e),
        }
    } else {
        Ok(fields)
    }
}

/// `fields` after the pieces of a query in their order, or the first problem.
pub open spec fn with_pairs(fields: Fields, pairs: Seq<Seq<char>>) -> Result<
    Fields,
    Problem<Seq<char>>,
>
    decreases pairs.len(),
{
    if pairs.len() == 0 {
        Ok(fields)
    } else {
        match with_pair(fields, pairs[0]) {
            Ok(next) => with_pairs(next, pairs.skip(1)),
            Err(e) => Err(e),
        }
    }
}

/// What follows the first question mark of `rest`, or nothing.
pub open spec fn query_of(rest: Seq<char>) -> Seq<char> {
    match text::cut(rest, '?') {
        Some((_, query)) => query,
        None => seq![],
    }
}

/// The configuration that the parameters of a query give.
pub open spec fn fields_configured(fields: Fields) -> Result<totp::Params, Problem<Seq<char>>> {
    match fields.secret {
        Some(secret) => totp::configured(secret, fields.digits, fields.period, fields.algorithm),
        None => Err(Problem::MissingSecret),
    }
}

/// The configuration that an `otpauth://totp/` URI carries.
pub open spec fn uri_configured(uri: Seq<char>) -> Result<totp::Params, Problem<Seq<char>>> {
    let prefix = "otpauth://totp/"@;
    if !text::begins_with(uri, prefix) {
        Err(Problem::NotTotpUri(uri))
    } else {
        let query = query_of(uri.skip(prefix.len() as int));
        match with_pairs(no_fields(), text::pieces(query, '&')) {
            Ok(fields) => fields_configured(fields),
            Err(e) => Err(e),
        }
    }
}

/// The configuration that a stored value stands for: an `otpauth://` URI, or a
/// bare secret with the standard defaults.
pub open spec fn resolved(value: Seq<char>) -> Result<totp::Params, Problem<Seq<char>>> {
    let v = text::trimmed(value);
    if text::begins_with(v, "otpauth://"@) {
        uri_configured(v)
    } else {
        totp::configured(v, 6, 30, Algorithm::Sha1)
    }
}

// ---------------------------------------------------------------------------
// Operations
// ---------------------------------------------------------------------------

/// The parameters after one piece of a query.
fn apply_pair(fields: QueryFields, pair: &[char]) -> (r: Result<QueryFields, Error>)
    ensures
        error::outcome(r) == with_pair(fields@, pair@),
{
    if pair.len() == 0 {
        return Ok(fields);
    }
    let (key, raw) = match text::split_once(pair, '=') {
        Some(parts) => parts,
        None => (pair, slice_subrange(pair, 0, 0)),
    };
    assert(key@ == key_and_value(pair@).0);
    assert(raw@ == key_and_value(pair@).1);
    let value = percent::percent_decode(text::string_of(raw).as_str());
    let key = text::to_lowercase(key);
    let key = key.as_slice();
    let mut fields = fields;
    if text::spells(key, "secret") {
        fields.secret = Some(value);
    } else if text::spells(key, "digits") {
        let digits = text::chars_of(value.as_str());
        match decimal::read_number(digits.as_slice(), u32::MAX as u64) {
            Some(n) => {
                fields.digits = n as u32;
            },
            None => {
                return Err(Problem::InvalidDigits(value));
            },
        }
    } else if text::spells(key, "period") {
        let digits = text::chars_of(value.as_str());
        match decimal::read_number(digits.as_slice(), u64::MAX) {
            Some(n) => {
                fields.period = n;
            },
            None => {
                return Err(Problem::InvalidPeriod(value));
            },
        }
    } else if text::spells(key, "algorithm") {
        match Algorithm::parse(value.as_str()) {
            Ok(a) => {
                fields.algorithm = a;
            },
            Err(e) => {
                return Err(e);
            },
        }
    }
    Ok(fields)
}

/// The parameters that a query gives.
fn read_query(query: &[char]) -> (r: Result<QueryFields, Error>)
    ensures
        error::outcome(r) == with_pairs(no_fields(), text::pieces(query@, '&')),
{
    let pairs = text::split(query, '&');
    let ghost all = text::views(pairs@);
    let mut fields = QueryFields {
        secret: None,
        digits: 6,
        period: 30,
        algorithm: Algorithm::Sha1,
    };
    let mut i: usize = 0;
    assert(all.skip(0) == all);
    while i < pairs.len()
        invariant
            i <= pairs.len(),
            all == text::views(pairs@),
            all == text::pieces(query@, '&'),
            with_pairs(no_fields(), all) == with_pairs(fields@, all.skip(i as int)),
        decreases pairs.len() - i,
    {
        assert(all.skip(i as int)[0] == pairs@[i as int]@);
        assert(all.skip(i as int).skip(1) == all.skip(i + 1));
        match apply_pair(fields, pairs[i]) {
            Ok(next) => {
                fields = next;
            },
            Err(e) => {
                return Err(e);
            },
        }
        i += 1;
    }
    Ok(fields)
}

/// The configuration that the URI `uri` carries.
fn read_uri(uri: &[char]) -> (r: Result<TotpParams, Error>)
    ensures
        error::outcome(r) == uri_configured(uri@),
        r matches Ok(params) ==> params@.valid(),
{
    if !text::starts_with(uri, "otpauth://totp/") {
        return Err(Problem::NotTotpUri(text::string_of(uri)));
    }
    proof {
        reveal_strlit("otpauth://totp/");
    }
    let rest = slice_subrange(uri, 15, uri.len());
    assert(rest@ == uri@.skip(15));
    let query = match text::split_once(rest, '?') {
        Some((_, query)) => query,
        None => slice_subrange(rest, 0, 0),
    };
    assert(query@ == query_of(rest@));
    match read_query(query) {
        Ok(fields) => match fields.secret {
            Some(secret) => TotpParams::from_base32(
                secret.as_str(),
                fields.digits,
                fields.period,
                fields.algorithm,
            ),
            None => Err(Problem::MissingSecret),
        },
        Err(e) => Err(e),
    }
}

/// Parse an `otpauth://totp/...` URI into TOTP parameters. Missing query
/// fields fall back to the standard defaults (SHA1, 6 digits, 30s period).
pub fn parse_otpauth(uri: &str) -> (r: Result<TotpParams, Error>)
    ensures
        error::outcome(r) == uri_configured(uri@),
        r matches Ok(params) ==> params@.valid(),
{
    read_uri(text::chars_of(uri).as_slice())
}

/// Resolve a stored secret value: either a bare base32 secret (with the
/// standard defaults) or a full `otpauth://` URI carrying its own parameters.
pub fn resolve_secret(value: &str) -> (r: Result<TotpParams, Error>)
    ensures
        error::outcome(r) == resolved(value@),
        r matches Ok(params) ==> params@.valid(),
{
    let all = text::chars_of(value);
    let v = text::trim(all.as_slice());
    if text::starts_with(v, "otpauth://") {
        read_uri(v)
    } else {
        TotpParams::from_base32(text::string_of(v).as_str(), 6, 30, Algorithm::Sha1)
    }
}

// ---------------------------------------------------------------------------
// Laws
// ---------------------------------------------------------------------------

/// A query parameter.
pub open spec fn parameter(key: Seq<char>, value: Seq<char>) -> Seq<char> {
    key + seq!['='] + value
}

/// The URI with the given label and query.
pub open spec fn uri_with(label: Seq<char>, query: Seq<char>) -> Seq<char> {
    "otpauth://totp/"@ + label + seq!['?'] + query
}

/// The label of a URI does not matter: the configuration is that of its query.
pub proof fn law_label_ignored(label: Seq<char>, query: Seq<char>)
    requires
        !label.contains('?'),
    ensures
        uri_configured(uri_with(label, query)) == match with_pairs(
            no_fields(),
            text::pieces(query, '&'),
        ) {
            Ok(fields) => fields_configured(fields),
            Err(e) => Err(e),
        },
{
    let prefix = "otpauth://totp/"@;
    let uri = uri_with(label, query);
    let rest = label + seq!['?'] + query;
    assert(uri.take(prefix.len() as int) == prefix);
    assert(uri.skip(prefix.len() as int) == rest);
    assert forall|j: int| 0 <= j < label.len() implies rest[j] != '?' by {
        assert(rest[j] == label[j]);
        assert(label.contains(label[j]));
    }
    text::lemma_position_is(rest, '?', label.len() as int);
    assert(rest.skip(label.len() as int + 1) == query);
}

/// The first piece of a query ends at the first ampersand.
proof fn lemma_pieces_first(a: Seq<char>, b: Seq<char>)
    requires
        forall|i: int| 0 <= i < a.len() ==> #[trigger] a[i] != '&',
    ensures
        text::pieces(a, '&') == seq![a],
        text::pieces(a + seq!['&'] + b, '&') == seq![a] + text::pieces(b, '&'),
{
    text::lemma_position_is(a, '&', a.len() as int);
    let s = a + seq!['&'] + b;
    assert forall|j: int| 0 <= j < a.len() implies s[j] != '&' by {
        assert(s[j] == a[j]);
    }
    text::lemma_position_is(s, '&', a.len() as int);
    assert(s.take(a.len() as int) == a);
    assert(s.skip(a.len() as int + 1) == b);
}

/// A parameter without an ampersand has its key and its value.
proof fn lemma_parameter(key: Seq<char>, value: Seq<char>)
    requires
        forall|i: int|
            0 <= i < key.len() ==> #[trigger] key[i] != '=' && key[i] != '&' && text::lower(key[i])
                == key[i],
        !value.contains('&'),
    ensures
        key_and_value(parameter(key, value)) == (key, value),
        text::lowercase(key) == key,
        forall|i: int|
            0 <= i < parameter(key, value).len() ==> #[trigger] parameter(key, value)[i] != '&',
        parameter(key, value).len() > 0,
{
    let pair = parameter(key, value);
    assert forall|j: int| 0 <= j < key.len() implies pair[j] != '=' by {
        assert(pair[j] == key[j]);
    }
    text::lemma_position_is(pair, '=', key.len() as int);
    assert(pair.take(key.len() as int) == key);
    assert(pair.skip(key.len() as int + 1) == value);
    assert(text::lowercase(key) == key);
    assert forall|i: int| 0 <= i < pair.len() implies #[trigger] pair[i] != '&' by {
        if i < key.len() {
            assert(pair[i] == key[i]);
        } else if i > key.len() {
            assert(pair[i] == value[i - key.len() - 1]);
            assert(value.contains(value[i - key.len() - 1]));
        }
    }
}

/// A URI that gives the secret alone stands for the bare secret: both have the
/// standard defaults.
pub proof fn law_uri_defaults(label: Seq<char>, value: Seq<char>)
    requires
        !label.contains('?'),
        !value.contains('&'),
    ensures
        uri_configured(uri_with(label, parameter("secret"@, value))) == totp::configured(
            percent::percent_decoded(value),
            6,
            30,
            Algorithm::Sha1,
        ),
{
    reveal_strlit("secret");
    let pair = parameter("secret"@, value);
    law_label_ignored(label, pair);
    lemma_parameter("secret"@, value);
    lemma_pieces_first(pair, seq![]);
    let pairs = seq![pair];
    assert(pairs.skip(1) == Seq::<Seq<char>>::empty());
    reveal_with_fuel(with_pairs, 2);
}

/// The query that gives all four parameters.
pub open spec fn full_query(
    value: Seq<char>,
    digits: u32,
    period: u64,
    algorithm: Algorithm,
) -> Seq<char> {
    parameter("secret"@, value) + seq!['&'] + (parameter("digits"@, decimal::numeral(digits as nat))
        + seq!['&'] + (parameter("period"@, decimal::numeral(period as nat)) + seq!['&'] + parameter(
        "algorithm"@,
        algorithm::name(algorithm),
    )))
}

/// A numeral can stand in a query as it is.
proof fn lemma_numeral_plain(n: nat)
    ensures
        !decimal::numeral(n).contains('&'),
        percent::percent_decoded(decimal::numeral(n)) == decimal::numeral(n),
{
    let s = decimal::numeral(n);
    decimal::law_numeral_value(n);
    assert forall|i: int| 0 <= i < s.len() implies #[trigger] s[i] != '&' && s[i] != '%' && s[i]
        != '+' by {
        assert(decimal::is_digit(s[i]));
    }
    percent::law_plain_value(s);
}

/// The name of an algorithm can stand in a query as it is.
proof fn lemma_name_plain(algorithm: Algorithm)
    ensures
        !algorithm::name(algorithm).contains('&'),
        percent::percent_decoded(algorithm::name(algorithm)) == algorithm::name(algorithm),
{
    reveal_strlit("SHA1");
    reveal_strlit("SHA256");
    reveal_strlit("SHA512");
    percent::law_plain_value(algorithm::name(algorithm));
}

/// A URI carries its own parameters: those that its query gives are those of
/// the configuration.
pub proof fn law_uri_carries_parameters(
    label: Seq<char>,
    value: Seq<char>,
    digits: u32,
    period: u64,
    algorithm: Algorithm,
)
    requires
        !label.contains('?'),
        !value.contains('&'),
    ensures
        uri_configured(uri_with(label, full_query(value, digits, period, algorithm)))
            == totp::configured(percent::percent_decoded(value), digits, period, algorithm),
{
    reveal_strlit("secret");
    reveal_strlit("digits");
    reveal_strlit("period");
    reveal_strlit("algorithm");
    let (d, p, a) = (
        decimal::numeral(digits as nat),
        decimal::numeral(period as nat),
        algorithm::name(algorithm),
    );
    let p1 = parameter("secret"@, value);
    let p2 = parameter("digits"@, d);
    let p3 = parameter("period"@, p);
    let p4 = parameter("algorithm"@, a);
    lemma_numeral_plain(digits as nat);
    lemma_numeral_plain(period as nat);
    lemma_name_plain(algorithm);
    lemma_parameter("secret"@, value);
    lemma_parameter("digits"@, d);
    lemma_parameter("period"@, p);
    lemma_parameter("algorithm"@, a);
    decimal::law_number_of_numeral(digits as nat, u32::MAX as nat);
    decimal::law_number_of_numeral(period as nat, u64::MAX as nat);
    algorithm::law_named_by_name(algorithm);
    law_label_ignored(label, full_query(value, digits, period, algorithm));
    lemma_pieces_first(p4, seq![]);
    lemma_pieces_first(p3, p4);
    lemma_pieces_first(p2, p3 + seq!['&'] + p4);
    lemma_pieces_first(p1, p2 + seq!['&'] + (p3 + seq!['&'] + p4));
    let pairs = text::pieces(full_query(value, digits, period, algorithm), '&');
    assert(pairs == seq![p1, p2, p3, p4]);
    assert("digits"@[0] != "secret"@[0]);
    assert("period"@[0] != "secret"@[0] && "period"@[0] != "digits"@[0]);
    assert("algorithm"@[0] != "secret"@[0] && "algorithm"@[0] != "digits"@[0]
        && "algorithm"@[0] != "period"@[0]);
    let f0 = no_fields();
    let f1 = Fields { secret: Some(percent::percent_decoded(value)), ..f0 };
    let f2 = Fields { digits, ..f1 };
    let f3 = Fields { period, ..f2 };
    let f4 = Fields { algorithm, ..f3 };
    assert(with_pair(f0, p1) == Ok::<Fields, Problem<Seq<char>>>(f1));
    assert(with_pair(f1, p2) == Ok::<Fields, Problem<Seq<char>>>(f2));
    assert(with_pair(f2, p3) == Ok::<Fields, Problem<Seq<char>>>(f3));
    assert(with_pair(f3, p4) == Ok::<Fields, Problem<Seq<char>>>(f4));
    assert(pairs.skip(1) == seq![p2, p3, p4]);
    assert(seq![p2, p3, p4].skip(1) == seq![p3, p4]);
    assert(seq![p3, p4].skip(1) == seq![p4]);
    assert(seq![p4].skip(1) == Seq::<Seq<char>>::empty());
    reveal_with_fuel(with_pairs, 5);
}

/// A stored value that is no URI is a secret with the standard defaults.
pub proof fn law_bare_secret(value: Seq<char>)
    requires
        !text::begins_with(text::trimmed(value), "otpauth://"@),
    ensures
        resolved(value) == totp::configured(value, 6, 30, Algorithm::Sha1),
{
    secret::law_trimmed_secret(value);
}

/// A stored value that is a TOTP URI carries its own parameters.
pub proof fn law_stored_uri(uri: Seq<char>)
    requires
        text::begins_with(uri, "otpauth://totp/"@),
        !text::is_space(uri.last()),
    ensures
        resolved(uri) == uri_configured(uri),
{
    reveal_strlit("otpauth://totp/");
    reveal_strlit("otpauth://");
    assert(uri[0] == uri.take(15)[0]);
    text::lemma_trimmed_already(uri);
    assert forall|i: int| 0 <= i < 10 implies uri.take(10)[i] == "otpauth://"@[i] by {
        assert(uri.take(15)[i] == "otpauth://totp/"@[i]);
    }
    assert(uri.take(10) == "otpauth://"@);
}

/// White space around a stored value does not matter.
pub proof fn law_space_around_ignored(value: Seq<char>)
    ensures
        resolved(text::trimmed(value)) == resolved(value),
{
    text::law_trimmed_twice(value);
}

/// A stored value that resolves gives a valid configuration.
pub proof fn law_resolved_valid(value: Seq<char>)
    ensures
        resolved(value) matches Ok(params) ==> params.valid(),
{
    let v = text::trimmed(value);
    let prefix = "otpauth://totp/"@;
    totp::law_configured_valid(v, 6, 30, Algorithm::Sha1);
    match with_pairs(
        no_fields(),
        text::pieces(query_of(v.skip(prefix.len() as int)), '&'),
    ) {
        Ok(f) => match f.secret {
            Some(s) => {
                totp::law_configured_valid(s, f.digits, f.period, f.algorithm);
            },
            None => {},
        },
        Err(_) => {},
    }
}

/// What one parameter changes: its own field, by its decoded value, and nothing
/// else.  A key that is none of the four, in any case, changes nothing.
pub proof fn law_parameter(fields: Fields, key: Seq<char>, value: Seq<char>)
    requires
        !key.contains('='),
    ensures
        ({
            let (k, v) = (text::lowercase(key), percent::percent_decoded(value));
            let r = with_pair(fields, key + seq!['='] + value);
            let known = k == "secret"@ || k == "digits"@ || k == "period"@ || k == "algorithm"@;
            &&& !known ==> r == Ok::<Fields, Problem<Seq<char>>>(fields)
            &&& r matches Ok(f) ==> {
                &&& k != "secret"@ ==> f.secret == fields.secret
                &&& k != "digits"@ ==> f.digits == fields.digits
                &&& k != "period"@ ==> f.period == fields.period
                &&& k != "algorithm"@ ==> f.algorithm == fields.algorithm
                &&& k == "secret"@ ==> f.secret == Some(v)
                &&& k == "digits"@ ==> decimal::number(v, u32::MAX as nat) == Some(f.digits as nat)
                &&& k == "period"@ ==> decimal::number(v, u64::MAX as nat) == Some(f.period as nat)
                &&& k == "algorithm"@ ==> algorithm::named(v) == Ok::<
                    Algorithm,
                    Problem<Seq<char>>,
                >(f.algorithm)
            }
            &&& r matches Err(e) ==> {
                ||| k == "digits"@ && decimal::number(v, u32::MAX as nat) is None && e
                    == Problem::InvalidDigits(v)
                ||| k == "period"@ && decimal::number(v, u64::MAX as nat) is None && e
                    == Problem::InvalidPeriod(v)
                ||| k == "algorithm"@ && algorithm::named(v) == Err::<Algorithm, Problem<Seq<char>>>(
                    e,
                )
            }
        }),
{
    lemma_keys_differ();
    text::law_split_at_first(key, value, '=');
    assert((key + seq!['='] + value).len() > 0);
}

/// The four keys are different words.
proof fn lemma_keys_differ()
    ensures
        "secret"@ != "digits"@,
        "secret"@ != "period"@,
        "secret"@ != "algorithm"@,
        "digits"@ != "period"@,
        "digits"@ != "algorithm"@,
        "period"@ != "algorithm"@,
{
    reveal_strlit("secret");
    reveal_strlit("digits");
    reveal_strlit("period");
    reveal_strlit("algorithm");
    assert("secret"@[0] != "digits"@[0]);
    assert("secret"@[0] != "period"@[0]);
    assert("digits"@[0] != "period"@[0]);
    assert("algorithm"@.len() == 9);
}

/// A piece without an equals sign is a key with an empty value, and an empty
/// piece changes nothing.
pub proof fn law_parameter_without_value(fields: Fields, key: Seq<char>)
    requires
        !key.contains('='),
    ensures
        with_pair(fields, Seq::<char>::empty()) == Ok::<Fields, Problem<Seq<char>>>(fields),
        key.len() > 0 ==> with_pair(fields, key) == with_pair(fields, key.push('=')),
{
    text::law_split_at_first(key, seq![], '=');
    assert(key + seq!['='] + Seq::<char>::empty() == key.push('='));
}

/// The parameters of a query count one after the other, until one is wrong.
pub proof fn law_parameters_in_order(
    fields: Fields,
    a: Seq<Seq<char>>,
    b: Seq<Seq<char>>,
    pair: Seq<char>,
)
    ensures
        with_pairs(fields, Seq::<Seq<char>>::empty()) == Ok::<Fields, Problem<Seq<char>>>(fields),
        with_pairs(fields, seq![pair]) == with_pair(fields, pair),
        with_pairs(fields, a + b) == match with_pairs(fields, a) {
            Ok(next) => with_pairs(next, b),
            Err(e) => Err(e),
        },
    decreases a.len(),
{
    assert(seq![pair].skip(1) == Seq::<Seq<char>>::empty());
    reveal_with_fuel(with_pairs, 2);
    if a.len() == 0 {
        assert(a + b == b);
    } else {
        assert((a + b)[0] == a[0]);
        assert((a + b).skip(1) == a.skip(1) + b);
        match with_pair(fields, a[0]) {
            Ok(next) => {
                law_parameters_in_order(next, a.skip(1), b, pair);
            },
            Err(_) => {},
        }
    }
}

/// A parameter with an unknown key may stand anywhere in a query: without it the
/// URI has the same configuration, or the same problem.
pub proof fn law_unknown_parameter_ignored(
    label: Seq<char>,
    before: Seq<char>,
    key: Seq<char>,
    value: Seq<char>,
    after: Seq<char>,
)
    requires
        !label.contains('?'),
        !key.contains('='),
        !key.contains('&'),
        !value.contains('&'),
        text::lowercase(key) != "secret"@,
        text::lowercase(key) != "digits"@,
        text::lowercase(key) != "period"@,
        text::lowercase(key) != "algorithm"@,
    ensures
        ({
            let pair = key + seq!['='] + value;
            let start = "otpauth://totp/"@ + label + seq!['?'];
            &&& uri_configured(start + (before + seq!['&'] + (pair + seq!['&'] + after)))
                == uri_configured(start + (before + seq!['&'] + after))
            &&& uri_configured(start + (pair + seq!['&'] + after)) == uri_configured(start + after)
            &&& uri_configured(start + (before + seq!['&'] + pair)) == uri_configured(start + before)
        }),
{
    let pair = key + seq!['='] + value;
    let start = "otpauth://totp/"@ + label + seq!['?'];
    let (b, a) = (text::pieces(before, '&'), text::pieces(after, '&'));
    assert(!pair.contains('&')) by {
        if pair.contains('&') {
            let i = pair.index_of('&');
            if i < key.len() {
                assert(key.contains(key[i]));
            } else if i > key.len() {
                assert(value.contains(value[i - key.len() - 1]));
            }
        }
    }
    text::law_split_at_first(pair, after, '&');
    text::law_pieces_join(before, pair + seq!['&'] + after, '&');
    text::law_pieces_join(before, after, '&');
    text::law_pieces_join(before, pair, '&');
    law_label_ignored(label, before + seq!['&'] + (pair + seq!['&'] + after));
    law_label_ignored(label, before + seq!['&'] + after);
    law_label_ignored(label, pair + seq!['&'] + after);
    law_label_ignored(label, after);
    law_label_ignored(label, before + seq!['&'] + pair);
    law_label_ignored(label, before);
    let f0 = no_fields();
    law_parameter(f0, key, value);
    law_parameters_in_order(f0, b, seq![pair] + a, pair);
    law_parameters_in_order(f0, b, a, pair);
    law_parameters_in_order(f0, b, seq![pair], pair);
    law_parameters_in_order(f0, seq![pair], a, pair);
    match with_pairs(f0, b) {
        Ok(f) => {
            law_parameter(f, key, value);
            law_parameters_in_order(f, seq![pair], a, pair);
        },
        Err(_) => {},
    }
}

/// The last of several values for a parameter counts, wherever they stand; what
/// was given before for the same key does not matter.
pub proof fn law_last_value_counts(
    fields: Fields,
    key: Seq<char>,
    value: Seq<char>,
    again: Seq<char>,
)
    requires
        !key.contains('='),
        with_pair(fields, key + seq!['='] + value) is Ok,
    ensures
        with_pair(with_pair(fields, key + seq!['='] + value)->Ok_0, key + seq!['='] + again)
            == with_pair(fields, key + seq!['='] + again),
{
    lemma_keys_differ();
    text::law_split_at_first(key, value, '=');
    text::law_split_at_first(key, again, '=');
}

/// Without a query there is no secret, and without the scheme of a TOTP URI
/// there is no query.
pub proof fn law_no_query(rest: Seq<char>, other: Seq<char>)
    ensures
        !rest.contains('?') ==> uri_configured("otpauth://totp/"@ + rest) == Err::<
            totp::Params,
            Problem<Seq<char>>,
        >(Problem::MissingSecret),
        (forall|r: Seq<char>| other != #[trigger] ("otpauth://totp/"@ + r)) ==> uri_configured(other)
            == Err::<totp::Params, Problem<Seq<char>>>(Problem::NotTotpUri(other)),
{
    let prefix = "otpauth://totp/"@;
    text::law_begins(prefix, rest, other);
    if !rest.contains('?') {
        let uri = prefix + rest;
        assert(uri.skip(prefix.len() as int) == rest);
        text::law_split_at_first(rest, seq![], '?');
        let empty = Seq::<char>::empty();
        text::law_split_at_first(empty, empty, '&');
        law_parameters_in_order(no_fields(), seq![], seq![], empty);
        law_parameter_without_value(no_fields(), empty);
        assert(text::pieces(query_of(rest), '&') == seq![empty]);
    }
    if text::begins_with(other, prefix) {
        assert(other == prefix + other.skip(prefix.len() as int));
    }
}

/// A query without a secret is refused; one with a secret is configured by its
/// fields.
pub proof fn law_fields_configured(fields: Fields)
    ensures
        fields.secret is None ==> fields_configured(fields) == Err::<
            totp::Params,
            Problem<Seq<char>>,
        >(Problem::MissingSecret),
        fields.secret matches Some(s) ==> fields_configured(fields) == totp::configured(
            s,
            fields.digits,
            fields.period,
            fields.algorithm,
        ),
{
}

/// A stored value that begins with `otpauth://` after white space is a URI.
pub proof fn law_stored_value(value: Seq<char>, rest: Seq<char>)
    requires
        text::trimmed(value) == "otpauth://"@ + rest,
    ensures
        resolved(value) == uri_configured("otpauth://"@ + rest),
{
    text::law_begins("otpauth://"@, rest, value);
}

/// A URI is configured by its query alone: by the parameters there, on top of
/// six digits, thirty seconds and SHA-1.
pub proof fn law_uri_query(label: Seq<char>, query: Seq<char>)
    requires
        !label.contains('?'),
    ensures
        uri_configured("otpauth://totp/"@ + label + seq!['?'] + query) == match with_pairs(
            (Fields { secret: None, digits: 6, period: 30, algorithm: Algorithm::Sha1 }),
            text::pieces(query, '&'),
        ) {
            Ok(fields) => fields_configured(fields),
            Err(e) => Err(e),
        },
{
    law_label_ignored(label, query);
}

} // verus!
