//! Key material handling: decoding caller-supplied key text into a
//! fixed-length symmetric key, and encoding key bytes back to transport text.

use vstd::prelude::*;
use base64::Engine;
use crate::strutil::str_eq_chars;

verus! {

/// Number of bytes in a symmetric key of the version 4 local primitive.
pub const KEY_LEN: usize = 32;

/// Failure to turn caller-supplied key material into a symmetric key.
#[derive(Clone, Copy, Debug, PartialEq, Eq, Structural)]
pub enum KeyError {
    /// The key text did not decode, or the decoded bytes have the wrong length.
    MalformedKey,
}

impl KeyError {
    /// A short description of the failure, for reporting at the boundary.
    pub fn message(&self) -> String {
        String::from_str("malformed key: text must decode to exactly 32 bytes")
    }
}

/// The bytes that a text decodes to under the standard transport encoding,
/// or none when the text is not valid under it.
pub uninterp spec fn b64_decode_of(s: Seq<char>) -> Option<Seq<u8>>;

/// The transport-encoded text of a byte sequence.
pub uninterp spec fn b64_encode_of(b: Seq<u8>) -> Seq<char>;

/// Relies on base64's standard-alphabet engine with padding: decoding is a
/// function of the input text alone, and fails exactly on text that is not
/// valid under that encoding.
#[verifier::external_body]
fn b64_decode(s: &str) -> (r: Option<Vec<u8>>)
    ensures
        (match r {
            Some(v) => b64_decode_of(s@) == Some(v@),
            None => b64_decode_of(s@) is None,
        }),
{
    match base64::engine::general_purpose::STANDARD.decode(s) {
        Ok(v) => Some(v),
        Err(_) => None,
    }
}

/// Relies on base64's standard-alphabet engine with padding: encoding is a
/// function of the bytes alone, and decoding the produced text with the same
/// engine gives the original bytes back.
#[verifier::external_body]
fn b64_encode(b: &[u8]) -> (r: String)
    ensures
        r@ == b64_encode_of(b@),
        b64_decode_of(r@) == Some(b@),
{
    base64::engine::general_purpose::STANDARD.encode(b)
}

/// A fixed-length symmetric key for the version 4 local primitive.
///
/// Well-formed values hold exactly [`KEY_LEN`] bytes; both constructors
/// establish this.
#[derive(Clone)]
pub struct LocalKey {
    bytes: Vec<u8>,
}

impl View for LocalKey {
    type V = Seq<u8>;

    closed spec fn view(&self) -> Seq<u8> {
        self.bytes@
    }
}

impl LocalKey {
    /// Length invariant of a constructed key.
    pub open spec fn wf(&self) -> bool {
        self@.len() == KEY_LEN
    }

    /// Construct a key from raw bytes; rejects any length other than
    /// [`KEY_LEN`].
    pub fn from_bytes(bytes: Vec<u8>) -> (r: Result<LocalKey, KeyError>)
        ensures
            bytes@.len() == KEY_LEN ==> (r matches Ok(k) && k@ == bytes@ && k.wf()),
            bytes@.len() != KEY_LEN ==> r == Err::<LocalKey, KeyError>(KeyError::MalformedKey),
    {
        if bytes.len() == KEY_LEN {
            Ok(LocalKey { bytes })
        } else {
            Err(KeyError::MalformedKey)
        }
    }

    /// The raw key bytes.
    pub fn as_bytes(&self) -> (r: &Vec<u8>)
        ensures
            r@ == self@,
    {
        &self.bytes
    }

    /// The transport-encoded text of this key.
    pub fn encode(&self) -> (r: String)
        ensures
            r@ == b64_encode_of(self@),
            b64_decode_of(r@) == Some(self@),
    {
        b64_encode(self.bytes.as_slice())
    }
}

/// What resolving key text yields: the decoded bytes when they decode and
/// have the required length, and a malformed-key failure otherwise.
pub open spec fn resolve_key_spec(s: Seq<char>) -> Result<Seq<u8>, KeyError> {
    match b64_decode_of(s) {
        Some(b) => if b.len() == KEY_LEN {
            Ok(b)
        } else {
            Err(KeyError::MalformedKey)
        },
        None => Err(KeyError::MalformedKey),
    }
}

/// Decode caller-supplied key text into a symmetric key.
///
/// The text is decoded under the standard transport encoding; decoded bytes
/// of any length other than [`KEY_LEN`] are rejected, as is text that does
/// not decode at all.
pub fn resolve_key(encoded: &str) -> (r: Result<LocalKey, KeyError>)
    ensures
        (match r {
            Ok(k) => resolve_key_spec(encoded@) == Ok::<Seq<u8>, KeyError>(k@) && k.wf(),
            Err(e) => resolve_key_spec(encoded@) == Err::<Seq<u8>, KeyError>(e),
        }),
{
    match b64_decode(encoded) {
        Some(bytes) => match LocalKey::from_bytes(bytes) {
            Ok(k) => Ok(k),
            Err(e) => Err(e),
        },
        None => Err(KeyError::MalformedKey),
    }
}

/// Where key text is to be taken from: the standard input stream when the
/// argument is the sentinel `-`, the argument itself otherwise.
#[derive(Clone, Copy, Debug, PartialEq, Eq, Structural)]
pub enum KeySource {
    Stdin,
    Direct,
}

/// Decide the key source for a key argument.
pub fn key_source(arg: &str) -> (r: KeySource)
    ensures
        r == (if arg@ == "-"@ {
            KeySource::Stdin
        } else {
            KeySource::Direct
        }),
{
    if str_eq_chars(arg, "-") {
        KeySource::Stdin
    } else {
        KeySource::Direct
    }
}

/// Key round trip: any text that decodes to bytes of the required length
/// resolves to exactly those bytes.
pub proof fn lemma_key_round_trip(s: Seq<char>, b: Seq<u8>)
    requires
        b64_decode_of(s) == Some(b),
        b.len() == KEY_LEN,
    ensures
        resolve_key_spec(s) == Ok::<Seq<u8>, KeyError>(b),
{
}

/// Key text that does not decode, or decodes to bytes of any length other
/// than the required one, resolves to a malformed-key failure.
pub proof fn lemma_key_wrong_length(s: Seq<char>)
    requires
        !(b64_decode_of(s) matches Some(b) && b.len() == KEY_LEN),
    ensures
        resolve_key_spec(s) == Err::<Seq<u8>, KeyError>(KeyError::MalformedKey),
{
}

} // verus!
