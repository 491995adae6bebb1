//! Conversion of a domain name to its ASCII form, as the URL standard defines
//! it. The conversion itself is the `idna` crate's; this module states what the
//! operation hands back and turns a failure into a [`DomainEncodingError`].
//!
//! Names above a length are left out. The Punycode encoder of `idna` counts in
//! 32 bits, and on a label of several thousand characters its counter can pass
//! the end of that range, which stops the process where overflow is checked.
//! The counter stays in range while a label has fewer than 3,855 characters
//! when it reaches the encoder. Mapping and normalising, which come first,
//! make at most 18 characters of one (of U+FDFA, which takes three bytes), at
//! most 3 of a character of two or of four bytes, and one of an ASCII
//! character: at most 6 characters for each byte of the name. A name of at
//! most [`MAX_DOMAIN_BYTES`] bytes therefore never holds such a label.

use vstd::prelude::*;
use vstd::utf8::{encode_utf8, is_ascii_chars};
use crate::error::DomainEncodingError;

verus! {

/// The longest name, in bytes of its UTF-8 form, that is converted.
pub const MAX_DOMAIN_BYTES: usize = 600;

/// Whether `domain` is short enough to be converted: whether its UTF-8 form
/// has at most [`MAX_DOMAIN_BYTES`] bytes.
pub open spec fn convertible(domain: Seq<char>) -> bool {
    encode_utf8(domain).len() <= MAX_DOMAIN_BYTES
}

/// What `idna::domain_to_ascii` makes of `domain`: the ASCII form, or, where it
/// rejects the name, the text that its error shows with `{:?}`.
pub uninterp spec fn lenient_conversion(domain: Seq<char>) -> Result<Seq<char>, Seq<char>>;

/// What `idna::domain_to_ascii_strict` makes of `domain`: the ASCII form, or,
/// where it rejects the name, the text that its error shows with `{:?}`.
pub uninterp spec fn strict_conversion(domain: Seq<char>) -> Result<Seq<char>, Seq<char>>;

/// The outcome of converting `domain` under the chosen strictness: the ASCII
/// form, or the diagnostic where the name is not valid under it.
pub open spec fn conversion(domain: Seq<char>, be_strict: bool) -> Result<Seq<char>, Seq<char>> {
    if be_strict {
        strict_conversion(domain)
    } else {
        lenient_conversion(domain)
    }
}

/// Calls `idna::domain_to_ascii` and shows an error as text. Trusted: the
/// outcome is a function of the domain alone, named [`lenient_conversion`],
/// and an ASCII form holds ASCII characters only.
#[verifier::external_body]
fn to_ascii_lenient(domain: &str) -> (converted: Result<String, String>)
    requires
        convertible(domain@),
    ensures
        match converted {
            Ok(ascii) => lenient_conversion(domain@) == Ok::<Seq<char>, Seq<char>>(ascii@)
                && is_ascii_chars(ascii@),
            Err(diagnostic) => lenient_conversion(domain@) == Err::<Seq<char>, Seq<char>>(
                diagnostic@,
            ),
        },
{
    match idna::domain_to_ascii(domain) {
        Ok(ascii) => Ok(ascii),
        Err(errors) => Err(format!("{:?}", errors)),
    }
}

/// Calls `idna::domain_to_ascii_strict` and shows an error as text. Trusted:
/// the outcome is a function of the domain alone, named
/// [`strict_conversion`], and an ASCII form holds ASCII characters only.
#[verifier::external_body]
fn to_ascii_strict(domain: &str) -> (converted: Result<String, String>)
    requires
        convertible(domain@),
    ensures
        match converted {
            Ok(ascii) => strict_conversion(domain@) == Ok::<Seq<char>, Seq<char>>(ascii@)
                && is_ascii_chars(ascii@),
            Err(diagnostic) => strict_conversion(domain@) == Err::<Seq<char>, Seq<char>>(
                diagnostic@,
            ),
        },
{
    match idna::domain_to_ascii_strict(domain) {
        Ok(ascii) => Ok(ascii),
        Err(errors) => Err(format!("{:?}", errors)),
    }
}

/// Tells whether `domain` is short enough to be converted.
pub fn is_convertible(domain: &str) -> (short: bool)
    ensures
        short == convertible(domain@),
{
    domain.as_bytes().len() <= MAX_DOMAIN_BYTES
}

/// Turns the outcome of a conversion into the reply of the operation: the
/// ASCII form as it is, or the error that carries the diagnostic.
pub fn conversion_reply(converted: Result<String, String>) -> (reply: Result<
    String,
    DomainEncodingError,
>)
    ensures
        match converted {
            Ok(ascii) => reply is Ok && reply->Ok_0 == ascii,
            Err(diagnostic) => reply is Err && reply->Err_0.diagnostic == diagnostic,
        },
{
    match converted {
        Ok(ascii) => Ok(ascii),
        Err(diagnostic) => Err(DomainEncodingError { diagnostic }),
    }
}

/// Converts `domain` to its ASCII (Punycode) form, under the strict rules
/// where `be_strict` is set. Fails exactly where the name is not valid under
/// the chosen strictness; the error carries the diagnostic of the conversion.
/// Names that are not [`convertible`] are left out: see
/// [`try_domain_to_ascii`].
pub fn op_domain_to_ascii(domain: &str, be_strict: bool) -> (reply: Result<
    String,
    DomainEncodingError,
>)
    requires
        convertible(domain@),
    ensures
        match reply {
            Ok(ascii) => conversion(domain@, be_strict) == Ok::<Seq<char>, Seq<char>>(ascii@)
                && is_ascii_chars(ascii@),
            Err(error) => conversion(domain@, be_strict) == Err::<Seq<char>, Seq<char>>(
                error.diagnostic@,
            ),
        },
{
    let converted = if be_strict {
        to_ascii_strict(domain)
    } else {
        to_ascii_lenient(domain)
    };
    conversion_reply(converted)
}

/// Converts `domain` as [`op_domain_to_ascii`] does, if it is short enough:
/// `None` exactly where the name is not [`convertible`], and then nothing is
/// converted.
pub fn try_domain_to_ascii(domain: &str, be_strict: bool) -> (reply: Option<
    Result<String, DomainEncodingError>,
>)
    ensures
        reply is Some <==> convertible(domain@),
        match reply {
            Some(Ok(ascii)) => conversion(domain@, be_strict) == Ok::<Seq<char>, Seq<char>>(
                ascii@,
            ) && is_ascii_chars(ascii@),
            Some(Err(error)) => conversion(domain@, be_strict) == Err::<Seq<char>, Seq<char>>(
                error.diagnostic@,
            ),
            None => true,
        },
{
    if is_convertible(domain) {
        Some(op_domain_to_ascii(domain, be_strict))
    } else {
        None
    }
}

} // verus!
