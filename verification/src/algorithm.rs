//! The hashes that a one-time password can be built on.
use crate::error;
use crate::error::{Error, Problem};
use crate::text;
use vstd::prelude::*;

verus! {

/// The HMAC hash used by a TOTP secret. SHA-1 is the near-universal default.
#[derive(Debug, Clone, Copy, PartialEq, Eq, Structural)]
pub enum Algorithm {
    Sha1,
    Sha256,
    Sha512,
}

impl View for Algorithm {
    type V = Algorithm;

    open spec fn view(&self) -> Algorithm {
        *self
    }
}

/// The name of `algorithm`, in upper case.
pub open spec fn name(algorithm: Algorithm) -> Seq<char> {
    match algorithm {
        Algorithm::Sha1 => "SHA1"@,
        Algorithm::Sha256 => "SHA256"@,
        Algorithm::Sha512 => "SHA512"@,
    }
}

/// The algorithm that `s` names, in any case and with white space around it.
pub open spec fn named(s: Seq<char>) -> Result<Algorithm, Problem<Seq<char>>> {
    let key = text::uppercase(text::trimmed(s));
    if key == name(Algorithm::Sha1) {
        Ok(Algorithm::Sha1)
    } else if key == name(Algorithm::Sha256) {
        Ok(Algorithm::Sha256)
    } else if key == name(Algorithm::Sha512) {
        Ok(Algorithm::Sha512)
    } else {
        Err(Problem::UnsupportedAlgorithm(key))
    }
}

impl Algorithm {
    /// Parse an algorithm name (`SHA1` / `SHA256` / `SHA512`, case-insensitive).
    pub fn parse(name: &str) -> (r: Result<Algorithm, Error>)
        ensures
            error::outcome(r) == named(name@),
            match r {
                Ok(a) => text::uppercase(text::trimmed(name@)) == self::name(a),
                Err(e) => {
                    let key = text::uppercase(text::trimmed(name@));
                    &&& e matches Problem::UnsupportedAlgorithm(s) && s@ == key
                    &&& key != "SHA1"@ && key != "SHA256"@ && key != "SHA512"@
                },
            },
    {
        let all = text::chars_of(name);
        let key = text::to_uppercase(text::trim(all.as_slice()));
        let key = key.as_slice();
        if text::spells(key, "SHA1") {
            Ok(Algorithm::Sha1)
        } else if text::spells(key, "SHA256") {
            Ok(Algorithm::Sha256)
        } else if text::spells(key, "SHA512") {
            Ok(Algorithm::Sha512)
        } else {
            Err(Problem::UnsupportedAlgorithm(text::string_of(key)))
        }
    }
}

/// An algorithm is named by its name, in upper or lower case.
pub proof fn law_named_by_name(algorithm: Algorithm)
    ensures
        named(name(algorithm)) == Ok::<Algorithm, Problem<Seq<char>>>(algorithm),
        named(text::lowercase(name(algorithm))) == Ok::<Algorithm, Problem<Seq<char>>>(algorithm),
{
    reveal_strlit("SHA1");
    reveal_strlit("SHA256");
    reveal_strlit("SHA512");
    let s = name(algorithm);
    let t = text::lowercase(s);
    assert(s[0] == 'S' && t[0] == 's');
    assert(!text::is_space(s.last()) && !text::is_space(t.last()));
    assert(text::trimmed(s) == s);
    assert(text::trimmed(t) == t);
    assert(text::uppercase(s) == s);
    assert(text::uppercase(t) == s);
    assert("SHA256"@[3] != "SHA512"@[3]);
}

/// A name stands for an algorithm if and only if it is that algorithm's name but
/// for case and the white space around it.
pub proof fn law_named(s: Seq<char>, algorithm: Algorithm)
    ensures
        ({
            let key = text::uppercase(text::trimmed(s));
            &&& name(Algorithm::Sha1) == "SHA1"@
            &&& name(Algorithm::Sha256) == "SHA256"@
            &&& name(Algorithm::Sha512) == "SHA512"@
            &&& named(s) == Ok::<Algorithm, Problem<Seq<char>>>(algorithm) <==> key == name(algorithm)
            &&& named(s) matches Err(e) ==> e == Problem::<Seq<char>>::UnsupportedAlgorithm(key)
        }),
{
    reveal_strlit("SHA1");
    reveal_strlit("SHA256");
    reveal_strlit("SHA512");
    assert("SHA1"@.len() == 4 && "SHA256"@.len() == 6 && "SHA512"@.len() == 6);
    assert("SHA256"@[3] != "SHA512"@[3]);
}

} // verus!
