use vstd::prelude::*;

use fastuuid::Generator;

use crate::records::{Token, SESSION_PREFIX};

verus! {

#[verifier::external_type_specification]
#[verifier::external_body]
pub struct ExGenerator(fastuuid::Generator);

/// Relies on fastuuid's `Generator::new`: a generator seeded from the thread's
/// random number generator. Its conversion of the seed's first eight bytes to
/// a `usize` cannot fail where `usize` has 64 bits, the targets this library
/// is built for.
#[verifier::external_body]
fn new_generator() -> Generator {
    Generator::new()
}

/// Relies on fastuuid's `Generator::hex128_as_string`: the next identifier of
/// the generator as an RFC 4122 text of 36 ASCII characters. Its only error
/// path is a UTF-8 check on hexadecimal digits and hyphens, which always
/// passes.
#[verifier::external_body]
fn hex128_text(g: &Generator) -> (r: String)
    ensures
        r@.len() == 36,
{
    g.hex128_as_string().unwrap()
}

impl Token {
    pub open spec fn is_session(&self) -> bool {
        self is SessionToken
    }

    /// The characters of the token, whatever its class.
    pub open spec fn text(&self) -> Seq<char> {
        match self {
            Token::SessionToken(s) => s@,
            Token::TransitionToken(s) => s@,
        }
    }
}

pub open spec fn prefix_view(prefix: Option<&str>) -> Option<Seq<char>> {
    match prefix {
        Some(p) => Some(p@),
        None => None,
    }
}

/// What a token factory owes for a prefix: with none, a transition token; with
/// the session prefix, a session token; with another, a transition token.
/// The token's text starts with the prefix.
pub open spec fn fits_prefix(prefix: Option<Seq<char>>, t: Token) -> bool {
    match prefix {
        None => !t.is_session(),
        Some(p) => t.is_session() == (p == SESSION_PREFIX@) && p.is_prefix_of(t.text()),
    }
}

/// A source of fresh tokens.
pub trait TokenMaker {
    /// Whether this factory may hand out `t` for `prefix`.
    spec fn makes(&self, prefix: Option<Seq<char>>, t: Token) -> bool;

    fn make_token(&self, prefix: Option<&str>) -> (t: Token)
        ensures
            fits_prefix(prefix_view(prefix), t),
            self.makes(prefix_view(prefix), t),
    ;
}

/// The length of a prefix, zero for none.
pub open spec fn prefix_len(prefix: Option<Seq<char>>) -> nat {
    match prefix {
        Some(p) => p.len(),
        None => 0,
    }
}

/// The token factory that draws each token from a fresh fastuuid generator.
pub struct DefaultTokenMaker;

impl TokenMaker for DefaultTokenMaker {
    /// The prefix followed by 36 random characters.
    open spec fn makes(&self, prefix: Option<Seq<char>>, t: Token) -> bool {
        fits_prefix(prefix, t) && t.text().len() == prefix_len(prefix) + 36
    }

    fn make_token(&self, prefix: Option<&str>) -> (t: Token) {
        default_token_maker(prefix)
    }
}

/// A fresh random text of 36 characters.
pub fn gen_random_str() -> (r: String)
    ensures
        r@.len() == 36,
{
    let g = new_generator();
    hex128_text(&g)
}

/// The token for a prefix and a random text: the prefix followed by the
/// random text, a session token exactly when the prefix is the session prefix.
pub fn token_from_parts(prefix: Option<&str>, random: String) -> (t: Token)
    ensures
        fits_prefix(prefix_view(prefix), t),
        t.text() == (match prefix {
            Some(p) => p@ + random@,
            None => random@,
        }),
{
    match prefix {
        Some(p) => {
            let stoken = p.to_owned().concat(random.as_str());
            assert(p@.is_prefix_of(stoken@)) by {
                assert(stoken@.subrange(0, p@.len() as int) =~= p@);
            }
            if p.to_owned() == SESSION_PREFIX.to_owned() {
                Token::SessionToken(stoken)
            } else {
                Token::TransitionToken(stoken)
            }
        },
        None => Token::TransitionToken(random),
    }
}

/// A fresh token for `prefix`: the prefix followed by a random text of 36
/// characters.
pub fn default_token_maker(prefix: Option<&str>) -> (t: Token)
    ensures
        fits_prefix(prefix_view(prefix), t),
        t.text().len() == prefix_len(prefix_view(prefix)) + 36,
{
    let rstr = gen_random_str();
    token_from_parts(prefix, rstr)
}

} // verus!
