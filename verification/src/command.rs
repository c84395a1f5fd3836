//! What the commands decide between reading and writing: which request is
//! refused and why, what the new store is, and what the user is shown.
use crate::decimal;
use crate::error;
use crate::error::{join, quoted, Error, Problem};
use crate::otpauth;
use crate::otpauth::resolve_secret;
use crate::store;
use crate::store::{
    append_entry, find_entry, parse_store, remove_entry, validate_service_name,
};
use crate::text;
use crate::totp;
use crate::totp::TotpParams;
use vstd::prelude::*;
use vstd::slice::slice_subrange;

verus! {

/// Why a command is refused.  `T` is `String` in executable code; the
/// specification speaks of the same reasons with `T` a sequence of characters.
#[derive(Debug, Clone, PartialEq, Eq)]
pub enum Refusal<T> {
    /// A code was asked for a service that has no entry.
    UnknownService(T),
    /// The value stored for the service gives no code.
    BadEntry(T, Problem<T>),
    /// Nothing but white space was given as a secret.
    NoSecret,
    /// The secret that was given would give no code.
    BadSecret(Problem<T>),
    /// The first line of the secret that was given, which is what is read back,
    /// would give no code.
    CutSecret(Problem<T>),
    /// The service to add has a name that is not allowed.
    BadName(Problem<T>),
    /// The service to add would be stored as a comment.
    CommentName(T),
    /// The service to add has an entry already.
    AlreadyExists(T),
    /// The service to remove has no entry.
    NothingToRemove(T),
    /// Nothing says where the secrets file is.
    NoHome,
}

impl View for Refusal<String> {
    type V = Refusal<Seq<char>>;

    open spec fn view(&self) -> Refusal<Seq<char>> {
        match *self {
            Refusal::UnknownService(s) => Refusal::UnknownService(s@),
            Refusal::BadEntry(s, e) => Refusal::BadEntry(s@, e@),
            Refusal::NoSecret => Refusal::NoSecret,
            Refusal::BadSecret(e) => Refusal::BadSecret(e@),
            Refusal::CutSecret(e) => Refusal::CutSecret(e@),
            Refusal::BadName(e) => Refusal::BadName(e@),
            Refusal::CommentName(s) => Refusal::CommentName(s@),
            Refusal::AlreadyExists(s) => Refusal::AlreadyExists(s@),
            Refusal::NothingToRemove(s) => Refusal::NothingToRemove(s@),
            Refusal::NoHome => Refusal::NoHome,
        }
    }
}

/// A result, with its value and its refusal taken by their views.
pub open spec fn answer<T: View>(r: Result<T, Refusal<String>>) -> Result<
    T::V,
    Refusal<Seq<char>>,
> {
    match r {
        Ok(v) => Ok(v@),
        Err(e) => Err(e@),
    }
}

// ---------------------------------------------------------------------------
// Messages
// ---------------------------------------------------------------------------

impl Refusal<Seq<char>> {
    /// The message for this refusal, without what caused it.
    pub open spec fn text(self) -> Seq<char> {
        match self {
            Refusal::UnknownService(s) => "service "@ + error::debug_text(s)
                + " not found (see: otp ls)"@,
            Refusal::BadEntry(s, _) => "invalid secret for service "@ + error::debug_text(s),
            Refusal::NoSecret => "no secret provided"@,
            Refusal::BadSecret(_) => "the provided secret is not valid"@,
            Refusal::CutSecret(_) => "the first line of the provided secret is not valid"@,
            Refusal::BadName(e) => e.text(),
            Refusal::CommentName(s) => "service name must not begin with #: "@
                + error::debug_text(s),
            Refusal::AlreadyExists(s) => "service "@ + error::debug_text(s)
                + " already exists (remove it first: otp rm "@ + s + ")"@,
            Refusal::NothingToRemove(s) => "service "@ + error::debug_text(s) + " not found"@,
            Refusal::NoHome => "cannot find home directory (set OTP_SECRETS_FILE)"@,
        }
    }

    /// What caused this refusal, if it has a cause of its own.
    pub open spec fn cause(self) -> Option<Problem<Seq<char>>> {
        match self {
            Refusal::BadEntry(_, e) => Some(e),
            Refusal::BadSecret(e) => Some(e),
            Refusal::CutSecret(e) => Some(e),
            _ => None,
        }
    }
}

impl Refusal<String> {
    /// The message for this refusal, without what caused it.
    pub fn message(&self) -> (r: String)
        ensures
            r@ == self@.text(),
    {
        proof {
            reveal_strlit("");
        }
        let r = match self {
            Refusal::UnknownService(s) => join(
                "service ",
                quoted(s.as_str()).as_str(),
                " not found (see: otp ls)",
            ),
            Refusal::BadEntry(s, _) => join(
                "invalid secret for service ",
                quoted(s.as_str()).as_str(),
                "",
            ),
            Refusal::NoSecret => join("no secret provided", "", ""),
            Refusal::BadSecret(_) => join("the provided secret is not valid", "", ""),
            Refusal::CutSecret(_) => join(
                "the first line of the provided secret is not valid",
                "",
                "",
            ),
            Refusal::BadName(e) => e.message(),
            Refusal::CommentName(s) => join(
                "service name must not begin with #: ",
                quoted(s.as_str()).as_str(),
                "",
            ),
            Refusal::AlreadyExists(s) => {
                let start = join(
                    "service ",
                    quoted(s.as_str()).as_str(),
                    " already exists (remove it first: otp rm ",
                );
                join(start.as_str(), s.as_str(), ")")
            },
            Refusal::NothingToRemove(s) => join(
                "service ",
                quoted(s.as_str()).as_str(),
                " not found",
            ),
            Refusal::NoHome => join("cannot find home directory (set OTP_SECRETS_FILE)", "", ""),
        };
        assert(r@ == self@.text());
        r
    }

    /// What caused this refusal, if it has a cause of its own.
    pub fn cause(&self) -> (r: Option<&Error>)
        ensures
            match r {
                Some(e) => self@.cause() == Some(e@),
                None => self@.cause() is None,
            },
    {
        match self {
            Refusal::BadEntry(_, e) => Some(e),
            Refusal::BadSecret(e) => Some(e),
            Refusal::CutSecret(e) => Some(e),
            _ => None,
        }
    }
}

// ---------------------------------------------------------------------------
// Adding, removing and looking up
// ---------------------------------------------------------------------------

/// The secret to store for the text `given`: without the white space around
/// it, and only if it gives codes and so does its first line, which is what the
/// store gives back.
pub open spec fn accepted(given: Seq<char>) -> Result<Seq<char>, Refusal<Seq<char>>> {
    let secret = text::trimmed(given);
    if secret.len() == 0 {
        Err(Refusal::NoSecret)
    } else {
        match otpauth::resolved(secret) {
            Ok(_) => match otpauth::resolved(text::first_line(secret)) {
                Ok(_) => Ok(secret),
                Err(e) => Err(Refusal::CutSecret(e)),
            },
            Err(e) => Err(Refusal::BadSecret(e)),
        }
    }
}

/// The store after `service` was added with an accepted secret.  A name that
/// would make the line a comment is refused.
pub open spec fn added(store: Seq<char>, service: Seq<char>, secret: Seq<char>) -> Result<
    Seq<char>,
    Refusal<Seq<char>>,
> {
    if service.len() > 0 && service[0] == '#' {
        Err(Refusal::CommentName(service))
    } else if store::found(store::store_items(store), service) is Some {
        Err(Refusal::AlreadyExists(service))
    } else {
        Ok(store::with_line(store, service, secret))
    }
}

/// The store after a request to add `service` with the secret `given`: the name
/// is looked at first, then the secret, then the store.
pub open spec fn add_answer(store: Seq<char>, service: Seq<char>, given: Seq<char>) -> Result<
    Seq<char>,
    Refusal<Seq<char>>,
> {
    match store::name_checked(service) {
        Ok(_) => match accepted(given) {
            Ok(secret) => added(store, service, secret),
            Err(e) => Err(e),
        },
        Err(e) => Err(Refusal::BadName(e)),
    }
}

/// The store after `service` was removed.
pub open spec fn removed(store: Seq<char>, service: Seq<char>) -> Result<
    Seq<char>,
    Refusal<Seq<char>>,
> {
    if store::found(store::store_items(store), service) is None {
        Err(Refusal::NothingToRemove(service))
    } else {
        Ok(store::without_lines(store, service))
    }
}

/// The configuration that codes for `service` are generated with.
pub open spec fn looked_up(store: Seq<char>, service: Seq<char>) -> Result<
    totp::Params,
    Refusal<Seq<char>>,
> {
    match store::found(store::store_items(store), service) {
        Some(item) => match otpauth::resolved(item.value) {
            Ok(params) => Ok(params),
            Err(e) => Err(Refusal::BadEntry(service, e)),
        },
        None => Err(Refusal::UnknownService(service)),
    }
}

/// Whether the secret is to be read from the standard input.
pub fn secret_from_input(argument: &str) -> (r: bool)
    ensures
        r == (argument@ == seq!['-']),
{
    let all = text::chars_of(argument);
    let r = all.len() == 1 && all[0] == '-';
    assert(r ==> argument@ == seq!['-']);
    r
}

/// The secret to store for the text `given`, checked up front so that nothing
/// is stored that cannot generate a code.
pub fn accept_secret(given: &str) -> (r: Result<String, Refusal<String>>)
    ensures
        answer(r) == accepted(given@),
{
    let all = text::chars_of(given);
    let secret = text::trim(all.as_slice());
    if secret.len() == 0 {
        return Err(Refusal::NoSecret);
    }
    let feed: usize = text::find(secret, '\n');
    let first = text::string_of(slice_subrange(secret, 0, feed));
    assert(first@ == text::first_line(secret@));
    let secret = text::string_of(secret);
    match resolve_secret(secret.as_str()) {
        Ok(_) => match resolve_secret(first.as_str()) {
            Ok(_) => Ok(secret),
            Err(e) => Err(Refusal::CutSecret(e)),
        },
        Err(e) => Err(Refusal::BadSecret(e)),
    }
}

/// The store's text after `service` was added with an accepted secret.
pub fn add_service(store: &str, service: &str, secret: &str) -> (r: Result<
    String,
    Refusal<String>,
>)
    ensures
        answer(r) == added(store@, service@, secret@),
{
    let name = text::chars_of(service);
    if name.len() > 0 && name[0] == '#' {
        return Err(Refusal::CommentName(service.to_owned()));
    }
    let entries = parse_store(store);
    match find_entry(entries.as_slice(), service) {
        Some(_) => Err(Refusal::AlreadyExists(service.to_owned())),
        None => Ok(append_entry(store, service, secret)),
    }
}

/// The store's text after a request to add `service` with the secret `given`.
pub fn add(store: &str, service: &str, given: &str) -> (r: Result<String, Refusal<String>>)
    ensures
        answer(r) == add_answer(store@, service@, given@),
{
    match validate_service_name(service) {
        Ok(_) => match accept_secret(given) {
            Ok(secret) => add_service(store, service, secret.as_str()),
            Err(e) => Err(e),
        },
        Err(e) => Err(Refusal::BadName(e)),
    }
}

/// The store's text after `service` was removed.
pub fn remove_service(store: &str, service: &str) -> (r: Result<String, Refusal<String>>)
    ensures
        answer(r) == removed(store@, service@),
{
    let entries = parse_store(store);
    match find_entry(entries.as_slice(), service) {
        Some(_) => Ok(remove_entry(store, service)),
        None => Err(Refusal::NothingToRemove(service.to_owned())),
    }
}

/// The configuration that codes for `service` are generated with.
pub fn look_up(store: &str, service: &str) -> (r: Result<TotpParams, Refusal<String>>)
    ensures
        answer(r) == looked_up(store@, service@),
        r matches Ok(params) ==> params@.valid(),
{
    let entries = parse_store(store);
    match find_entry(entries.as_slice(), service) {
        Some(entry) => match resolve_secret(entry.value.as_str()) {
            Ok(params) => Ok(params),
            Err(e) => Err(Refusal::BadEntry(service.to_owned(), e)),
        },
        None => Err(Refusal::UnknownService(service.to_owned())),
    }
}

// ---------------------------------------------------------------------------
// What the user is shown
// ---------------------------------------------------------------------------

/// What the strings `lines` hold.
pub open spec fn texts(lines: Seq<String>) -> Seq<Seq<char>> {
    lines.map_values(|line: String| line@)
}

/// The lines that list `items`.
pub open spec fn listed(items: Seq<store::Item>) -> Seq<Seq<char>> {
    if items.len() == 0 {
        seq!["No services yet. Add one with: otp add <service> <secret>"@]
    } else {
        seq!["Usage: otp <service>"@, "Available services:"@] + items.map_values(
            |item: store::Item| "  - "@ + item.service,
        )
    }
}

/// The line that reports a code: the code alone if that is asked for, else
/// with how long it lasts and whether it was copied.
pub open spec fn reported(
    quiet: bool,
    code: Seq<char>,
    remaining: u64,
    copied: bool,
) -> Seq<char> {
    let seconds = decimal::numeral(remaining as nat);
    if quiet {
        code
    } else if copied {
        "OTP: "@ + code + " (copied to clipboard, valid "@ + seconds + "s)"@
    } else {
        "OTP: "@ + code + " (valid "@ + seconds + "s)"@
    }
}

/// The lines that list the services of the store.
pub fn list_services(store: &str) -> (r: Vec<String>)
    ensures
        texts(r@) == listed(store::store_items(store@)),
{
    let entries = parse_store(store);
    let ghost all = store::items(entries@);
    let mut r: Vec<String> = Vec::new();
    if entries.len() == 0 {
        r.push("No services yet. Add one with: otp add <service> <secret>".to_owned());
        assert(texts(r@) == listed(all));
        return r;
    }
    r.push("Usage: otp <service>".to_owned());
    r.push("Available services:".to_owned());
    let ghost line = |item: store::Item| "  - "@ + item.service;
    let ghost head = seq!["Usage: otp <service>"@, "Available services:"@];
    let mut i: usize = 0;
    assert(texts(r@) == head + all.take(0).map_values(line));
    proof {
        reveal_strlit("");
    }
    while i < entries.len()
        invariant
            i <= entries.len(),
            ""@ == Seq::<char>::empty(),
            all == store::items(entries@),
            line == |item: store::Item| "  - "@ + item.service,
            texts(r@) == head + all.take(i as int).map_values(line),
        decreases entries.len() - i,
    {
        let ghost before = texts(r@);
        let next = join("  - ", entries[i].service.as_str(), "");
        assert(next@ == line(all[i as int]));
        r.push(next);
        assert(texts(r@) == before.push(next@));
        assert(all.take(i + 1).map_values(line) == all.take(i as int).map_values(line).push(
            line(all[i as int]),
        ));
        i += 1;
    }
    assert(all.take(all.len() as int) == all);
    r
}

/// Whether a code is to be copied to the clipboard.
pub fn wants_clipboard(quiet: bool, no_copy: bool) -> (r: bool)
    ensures
        r == (!quiet && !no_copy),
{
    !quiet && !no_copy
}

/// The line that reports a code.
pub fn report(quiet: bool, code: &str, remaining: u64, copied: bool) -> (r: String)
    ensures
        r@ == reported(quiet, code@, remaining, copied),
{
    if quiet {
        return code.to_owned();
    }
    let seconds = text::string_of(decimal::write_number(remaining).as_slice());
    let start = if copied {
        join("OTP: ", code, " (copied to clipboard, valid ")
    } else {
        join("OTP: ", code, " (valid ")
    };
    join(start.as_str(), seconds.as_str(), "s)")
}

// ---------------------------------------------------------------------------
// Where the secrets file is
// ---------------------------------------------------------------------------

/// A file, in a directory if one is given.
#[derive(Debug, Clone, PartialEq, Eq)]
pub struct Place<T> {
    pub directory: Option<T>,
    pub file: T,
}

impl View for Place<String> {
    type V = Place<Seq<char>>;

    open spec fn view(&self) -> Place<Seq<char>> {
        Place { directory: seen(self.directory), file: self.file@ }
    }
}

/// What an optional text holds.
pub open spec fn seen(s: Option<String>) -> Option<Seq<char>> {
    match s {
        Some(s) => Some(s@),
        None => None,
    }
}

/// Where the secrets file is: at the path that was configured, else in the home
/// directory.
pub open spec fn located(
    configured: Option<Seq<char>>,
    home: Option<Seq<char>>,
    profile: Option<Seq<char>>,
) -> Result<Place<Seq<char>>, Refusal<Seq<char>>> {
    if configured matches Some(path) && path.len() > 0 {
        Ok(Place { directory: None, file: configured->0 })
    } else if home is Some {
        Ok(Place { directory: home, file: ".otp_secrets"@ })
    } else if profile is Some {
        Ok(Place { directory: profile, file: ".otp_secrets"@ })
    } else {
        Err(Refusal::NoHome)
    }
}

/// The secrets file: `configured` (the variable `OTP_SECRETS_FILE`) unless it
/// is empty, else `.otp_secrets` in the directory `home` (the variable `HOME`)
/// or, without one, `profile` (the variable `USERPROFILE`).
pub fn locate(
    configured: Option<String>,
    home: Option<String>,
    profile: Option<String>,
) -> (r: Result<Place<String>, Refusal<String>>)
    ensures
        answer(r) == located(seen(configured), seen(home), seen(profile)),
{
    if let Some(path) = configured {
        if text::chars_of(path.as_str()).len() > 0 {
            return Ok(Place { directory: None, file: path });
        }
    }
    if home.is_some() {
        Ok(Place { directory: home, file: ".otp_secrets".to_owned() })
    } else if profile.is_some() {
        Ok(Place { directory: profile, file: ".otp_secrets".to_owned() })
    } else {
        Err(Refusal::NoHome)
    }
}

// ---------------------------------------------------------------------------
// Laws
// ---------------------------------------------------------------------------

/// What was added generates: after a request to add `service` with the secret
/// `given`, the old text is still there and looking the service up gives the
/// configuration that the first line of `given` stands for.  If that line is all
/// of it, the new entry follows the old ones, it gives what `given` stands for,
/// and what other services give stays.
pub proof fn law_added_service_generates(
    store: Seq<char>,
    service: Seq<char>,
    given: Seq<char>,
    other: Seq<char>,
)
    requires
        add_answer(store, service, given) is Ok,
        other != service,
    ensures
        ({
            let secret = text::trimmed(given);
            let after = add_answer(store, service, given)->Ok_0;
            &&& text::begins_with(after, store)
            &&& otpauth::resolved(text::first_line(secret)) is Ok
            &&& looked_up(after, service) == Ok::<totp::Params, Refusal<Seq<char>>>(
                otpauth::resolved(text::first_line(secret))->Ok_0,
            )
            &&& !secret.contains('\n') ==> {
                &&& store::store_items(after) == store::store_items(store).push(
                    store::Item { service, value: secret },
                )
                &&& otpauth::resolved(given) is Ok
                &&& looked_up(after, service) == Ok::<totp::Params, Refusal<Seq<char>>>(
                    otpauth::resolved(given)->Ok_0,
                )
                &&& looked_up(after, other) == looked_up(store, other)
            }
        }),
{
    let secret = text::trimmed(given);
    let after = store::with_line(store, service, secret);
    assert(after.take(store.len() as int) == store);
    store::law_added_value_found(store, service, secret);
    otpauth::law_space_around_ignored(text::first_line(secret));
    if !secret.contains('\n') {
        store::law_added_entry(store, service, secret);
        store::law_added_entry_found(store, service, secret, other);
        text::law_trimmed_twice(given);
        otpauth::law_space_around_ignored(given);
    }
}

/// A service that was added is not added again.
pub proof fn law_not_added_twice(
    store: Seq<char>,
    service: Seq<char>,
    given: Seq<char>,
    again: Seq<char>,
)
    requires
        add_answer(store, service, given) is Ok,
        accepted(again) is Ok,
    ensures
        add_answer(add_answer(store, service, given)->Ok_0, service, again) == Err::<
            Seq<char>,
            Refusal<Seq<char>>,
        >(Refusal::AlreadyExists(service)),
{
    store::law_added_value_found(store, service, text::trimmed(given));
}

/// A secret that was accepted is accepted again as it is.
pub proof fn law_accepted_twice(given: Seq<char>)
    ensures
        accepted(given) matches Ok(secret) ==> accepted(secret) == accepted(given),
{
    text::law_trimmed_twice(given);
}

/// What was removed is unknown: looking `service` up or removing it again is
/// refused, a name that does not begin with `#` may be added again, and what
/// other services give stays.
pub proof fn law_removed_service_unknown(
    store: Seq<char>,
    service: Seq<char>,
    other: Seq<char>,
    secret: Seq<char>,
)
    requires
        removed(store, service) is Ok,
        other != service,
    ensures
        ({
            let after = removed(store, service)->Ok_0;
            &&& looked_up(after, service) == Err::<totp::Params, Refusal<Seq<char>>>(
                Refusal::UnknownService(service),
            )
            &&& removed(after, service) == Err::<Seq<char>, Refusal<Seq<char>>>(
                Refusal::NothingToRemove(service),
            )
            &&& service.len() == 0 || service[0] != '#' ==> added(after, service, secret) is Ok
            &&& looked_up(after, other) == looked_up(store, other)
        }),
{
    store::law_removed_not_found(store, service, other);
}

/// Removing a service that was just added succeeds.  If its secret was a single
/// line, it gives the entries back that were there before, and the very text if
/// it was tidy.
pub proof fn law_added_then_removed(store: Seq<char>, service: Seq<char>, given: Seq<char>)
    requires
        add_answer(store, service, given) is Ok,
    ensures
        ({
            let after = removed(add_answer(store, service, given)->Ok_0, service);
            &&& after is Ok
            &&& !text::trimmed(given).contains('\n') ==> {
                &&& store::store_items(after->Ok_0) == store::store_items(store)
                &&& store::tidy(store) ==> after->Ok_0 == store
            }
        }),
{
    let secret = text::trimmed(given);
    store::law_added_value_found(store, service, secret);
    if !secret.contains('\n') {
        store::law_add_then_remove(store, service, secret);
        if store::tidy(store) {
            store::law_add_then_remove_text(store, service, secret);
        }
    }
}

/// A configuration that was looked up is valid, so a code can be generated.
pub proof fn law_looked_up_valid(store: Seq<char>, service: Seq<char>)
    ensures
        looked_up(store, service) matches Ok(params) ==> params.valid(),
{
    match store::found(store::store_items(store), service) {
        Some(item) => {
            otpauth::law_resolved_valid(item.value);
        },
        None => {},
    }
}

/// What is reported quietly for a service that was looked up is its code alone:
/// as many decimal digits as its configuration asks for.
pub proof fn law_quiet_report(
    store: Seq<char>,
    service: Seq<char>,
    unix_secs: u64,
    remaining: u64,
    copied: bool,
)
    ensures
        looked_up(store, service) matches Ok(params) ==> {
            let line = reported(true, params.code(unix_secs), remaining, copied);
            &&& line == params.code(unix_secs)
            &&& line.len() == params.digits
            &&& decimal::all_digits(line)
        },
{
    law_looked_up_valid(store, service);
    match looked_up(store, service) {
        Ok(params) => {
            totp::law_code_digits(params, unix_secs);
        },
        Err(_) => {},
    }
}

/// Every service is listed, and nothing else: a line for each entry of the
/// store, in the store's order.
pub proof fn law_listed_services(store: Seq<char>, i: int)
    requires
        0 <= i < store::store_items(store).len(),
    ensures
        listed(store::store_items(store)).len() == store::store_items(store).len() + 2,
        listed(store::store_items(store))[i + 2] == "  - "@ + store::store_items(store)[i].service,
{
}

// ---------------------------------------------------------------------------
// Laws of requests and answers
// ---------------------------------------------------------------------------

/// A secret is accepted if and only if it and its first line resolve, and is
/// then stored without the white space around it.
pub proof fn law_accepted(given: Seq<char>)
    ensures
        ({
            let secret = text::trimmed(given);
            let (whole, first) = (
                otpauth::resolved(secret),
                otpauth::resolved(text::first_line(secret)),
            );
            &&& accepted(given) is Ok <==> secret.len() > 0 && whole is Ok && first is Ok
            &&& accepted(given) matches Ok(s) ==> s == secret
            &&& secret.len() == 0 ==> accepted(given) == Err::<Seq<char>, Refusal<Seq<char>>>(
                Refusal::NoSecret,
            )
            &&& secret.len() > 0 && whole is Err ==> accepted(given) == Err::<
                Seq<char>,
                Refusal<Seq<char>>,
            >(Refusal::BadSecret(whole->Err_0))
            &&& secret.len() > 0 && whole is Ok && first is Err ==> accepted(given) == Err::<
                Seq<char>,
                Refusal<Seq<char>>,
            >(Refusal::CutSecret(first->Err_0))
        }),
{
}

/// A service is added whenever its name is allowed and does not begin with `#`,
/// its secret and the first line of it resolve, and no entry has that name; in
/// no other case.
pub proof fn law_added_when_allowed(store: Seq<char>, service: Seq<char>, given: Seq<char>)
    ensures
        add_answer(store, service, given) is Ok <==> {
            &&& service.len() > 0
            &&& forall|i: int|
                0 <= i < service.len() ==> #[trigger] service[i] != ':' && !text::is_space(
                    service[i],
                )
            &&& service[0] != '#'
            &&& text::trimmed(given).len() > 0
            &&& otpauth::resolved(given) is Ok
            &&& otpauth::resolved(text::first_line(text::trimmed(given))) is Ok
            &&& forall|i: int|
                0 <= i < store::store_items(store).len() ==> (#[trigger] store::store_items(
                    store,
                )[i]).service != service
        },
        add_answer(store, service, given) matches Ok(after) ==> after == store::with_line(
            store,
            service,
            text::trimmed(given),
        ),
{
    store::law_names(service);
    otpauth::law_space_around_ignored(given);
    store::law_not_found(store::store_items(store), service);
}

/// Why a service is not added: first its name, then its secret, then a name like
/// a comment, then an entry that is there already.
pub proof fn law_not_added(store: Seq<char>, service: Seq<char>, given: Seq<char>)
    ensures
        ({
            let r = add_answer(store, service, given);
            let (name, secret) = (store::name_checked(service), accepted(given));
            &&& name is Err ==> r == Err::<Seq<char>, Refusal<Seq<char>>>(
                Refusal::BadName(name->Err_0),
            )
            &&& name is Ok && secret is Err ==> r == Err::<Seq<char>, Refusal<Seq<char>>>(
                secret->Err_0,
            )
            &&& name is Ok && secret is Ok && service[0] == '#' ==> r == Err::<
                Seq<char>,
                Refusal<Seq<char>>,
            >(Refusal::CommentName(service))
            &&& name is Ok && secret is Ok && service[0] != '#' && r is Err ==> r == Err::<
                Seq<char>,
                Refusal<Seq<char>>,
            >(Refusal::AlreadyExists(service))
        }),
{
}

/// A store to which a service was added: what `add_service` does with a secret
/// that was accepted before.
pub proof fn law_added_line(store: Seq<char>, service: Seq<char>, secret: Seq<char>)
    ensures
        ({
            let there = exists|i: int|
                0 <= i < store::store_items(store).len() && (#[trigger] store::store_items(
                    store,
                )[i]).service == service;
            let comment = service.len() > 0 && service[0] == '#';
            added(store, service, secret) == if comment {
                Err::<Seq<char>, Refusal<Seq<char>>>(Refusal::CommentName(service))
            } else if there {
                Err(Refusal::AlreadyExists(service))
            } else {
                Ok(store::with_line(store, service, secret))
            }
        }),
{
    store::law_not_found(store::store_items(store), service);
}

/// A service is removed if and only if an entry has its name.
pub proof fn law_removed_when_there(store: Seq<char>, service: Seq<char>)
    ensures
        removed(store, service) is Ok <==> exists|i: int|
            0 <= i < store::store_items(store).len() && (#[trigger] store::store_items(
                store,
            )[i]).service == service,
        removed(store, service) matches Ok(after) ==> after == store::without_lines(store, service),
        removed(store, service) is Err ==> removed(store, service) == Err::<
            Seq<char>,
            Refusal<Seq<char>>,
        >(Refusal::NothingToRemove(service)),
{
    store::law_not_found(store::store_items(store), service);
}

/// Looking a service up resolves the value of the first entry with its name.
pub proof fn law_looked_up_first(store: Seq<char>, service: Seq<char>, n: int)
    requires
        0 <= n <= store::store_items(store).len(),
        forall|i: int| 0 <= i < n ==> (#[trigger] store::store_items(store)[i]).service != service,
        n < store::store_items(store).len() ==> store::store_items(store)[n].service == service,
    ensures
        looked_up(store, service) == if n == store::store_items(store).len() {
            Err::<totp::Params, Refusal<Seq<char>>>(Refusal::UnknownService(service))
        } else {
            match otpauth::resolved(store::store_items(store)[n].value) {
                Ok(params) => Ok(params),
                Err(e) => Err(Refusal::BadEntry(service, e)),
            }
        },
{
    let all = store::store_items(store);
    let before = all.take(n);
    assert forall|i: int| 0 <= i < before.len() implies (#[trigger] before[i]).service
        != service by {
        assert(before[i] == all[i]);
    }
    if n < all.len() {
        store::law_found_first(before, all[n], all.skip(n + 1), service);
        assert(before.push(all[n]) + all.skip(n + 1) == all);
    } else {
        assert(before == all);
        store::law_found_first(before, store::Item { service, value: seq![] }, seq![], service);
    }
}

/// The list of services begins with two lines of help, or is one line if there
/// are none.
pub proof fn law_listed(items: Seq<store::Item>, i: int)
    ensures
        items.len() == 0 ==> listed(items) == seq![
            "No services yet. Add one with: otp add <service> <secret>"@,
        ],
        items.len() > 0 ==> {
            &&& listed(items).len() == items.len() + 2
            &&& listed(items)[0] == "Usage: otp <service>"@
            &&& listed(items)[1] == "Available services:"@
            &&& 0 <= i < items.len() ==> listed(items)[i + 2] == "  - "@ + items[i].service
        },
{
}

/// A report shows the code as it is, and the seconds unless it is quiet.
pub proof fn law_reported(code: Seq<char>, remaining: u64, copied: bool)
    ensures
        reported(true, code, remaining, copied) == code,
        reported(false, code, remaining, true) == "OTP: "@ + code
            + " (copied to clipboard, valid "@ + decimal::numeral(remaining as nat) + "s)"@,
        reported(false, code, remaining, false) == "OTP: "@ + code + " (valid "@
            + decimal::numeral(remaining as nat) + "s)"@,
{
}

/// The configured path comes first unless it is empty, then the home directory,
/// then the profile; without any there is no secrets file.
pub proof fn law_located(
    configured: Option<Seq<char>>,
    home: Option<Seq<char>>,
    profile: Option<Seq<char>>,
)
    ensures
        ({
            let r = located(configured, home, profile);
            let unset = configured is None || configured == Some(Seq::<char>::empty());
            &&& r is Err <==> unset && home is None && profile is None
            &&& r matches Err(e) ==> e == Refusal::<Seq<char>>::NoHome
            &&& r matches Ok(place) ==> {
                &&& !unset ==> place.directory is None && configured == Some(place.file)
                &&& unset ==> place.file == ".otp_secrets"@
                &&& unset && home is Some ==> place.directory == home
                &&& unset && home is None ==> place.directory == profile
            }
        }),
{
    if let Some(path) = configured {
        if path.len() == 0 {
            assert(path == Seq::<char>::empty());
        }
    }
}

/// A refusal is seen as the same refusal with the same contents.
pub proof fn law_refusal_seen(s: String, e: Error)
    ensures
        Refusal::UnknownService(s)@ == Refusal::UnknownService(s@),
        Refusal::BadEntry(s, e)@ == Refusal::BadEntry(s@, e@),
        Refusal::<String>::NoSecret@ == Refusal::<Seq<char>>::NoSecret,
        Refusal::BadSecret(e)@ == Refusal::BadSecret(e@),
        Refusal::CutSecret(e)@ == Refusal::CutSecret(e@),
        Refusal::BadName(e)@ == Refusal::BadName(e@),
        Refusal::CommentName(s)@ == Refusal::CommentName(s@),
        Refusal::AlreadyExists(s)@ == Refusal::AlreadyExists(s@),
        Refusal::NothingToRemove(s)@ == Refusal::NothingToRemove(s@),
        Refusal::<String>::NoHome@ == Refusal::<Seq<char>>::NoHome,
{
}

/// An answer is seen as a success with the value, or a refusal.
pub proof fn law_answer<T: View>(v: T, e: Refusal<String>)
    ensures
        answer(Ok::<T, Refusal<String>>(v)) == Ok::<T::V, Refusal<Seq<char>>>(v@),
        answer(Err::<T, Refusal<String>>(e)) == Err::<T::V, Refusal<Seq<char>>>(e@),
{
}

/// Texts and places are seen as they are.
pub proof fn law_texts_seen(lines: Seq<String>, i: int, s: String, place: Place<String>)
    ensures
        texts(lines).len() == lines.len(),
        0 <= i < lines.len() ==> texts(lines)[i] == lines[i]@,
        seen(Some(s)) == Some(s@),
        seen(None) is None,
        place@.file == place.file@,
        place@.directory is Some <==> place.directory is Some,
        place.directory matches Some(d) ==> place@.directory == Some(d@),
{
}

/// Each refusal names the service that it is about, and those that come from a
/// problem have it as their cause.
pub proof fn law_refusal_messages(s: Seq<char>, e: Problem<Seq<char>>)
    ensures
        Refusal::UnknownService(s).text() == "service "@ + error::debug_text(s)
            + " not found (see: otp ls)"@,
        Refusal::BadEntry(s, e).text() == "invalid secret for service "@ + error::debug_text(s),
        Refusal::<Seq<char>>::NoSecret.text() == "no secret provided"@,
        Refusal::BadSecret(e).text() == "the provided secret is not valid"@,
        Refusal::CutSecret(e).text() == "the first line of the provided secret is not valid"@,
        Refusal::BadName(e).text() == e.text(),
        Refusal::CommentName(s).text() == "service name must not begin with #: "@
            + error::debug_text(s),
        Refusal::AlreadyExists(s).text() == "service "@ + error::debug_text(s)
            + " already exists (remove it first: otp rm "@ + s + ")"@,
        Refusal::NothingToRemove(s).text() == "service "@ + error::debug_text(s) + " not found"@,
        Refusal::<Seq<char>>::NoHome.text() == "cannot find home directory (set OTP_SECRETS_FILE)"@,
        Refusal::BadEntry(s, e).cause() == Some(e),
        Refusal::BadSecret(e).cause() == Some(e),
        Refusal::CutSecret(e).cause() == Some(e),
        Refusal::UnknownService(s).cause() is None,
        Refusal::<Seq<char>>::NoSecret.cause() is None,
        Refusal::BadName(e).cause() is None,
        Refusal::CommentName(s).cause() is None,
        Refusal::AlreadyExists(s).cause() is None,
        Refusal::NothingToRemove(s).cause() is None,
        Refusal::<Seq<char>>::NoHome.cause() is None,
{
}

} // verus!
