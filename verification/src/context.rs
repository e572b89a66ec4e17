//! Cross-boundary session state: model path, wake-word list and current
//! transcript, together with its exact byte encoding.
//!
//! The host is the source of truth for a context between calls: it is
//! decoded from host bytes on every call and an updated copy is encoded
//! back. Decoding rejects malformed input and never reads past the given
//! bytes; decoding an encoded context always returns the original.

use vstd::prelude::*;

use crate::codec::MAX_WIRE_LEN;
use crate::codec::lemma_chars_bytes_len;
use crate::codec::lemma_parse_string_at;
use crate::codec::lemma_parse_strings_at;
use crate::codec::parse_string;
use crate::codec::parse_strings;
use crate::codec::read_string;
use crate::codec::read_strings;
use crate::codec::string_bytes;
use crate::codec::strings_bytes;
use crate::codec::strings_fit;
use crate::codec::strings_payload;
use crate::codec::write_string;
use crate::codec::write_strings;
use crate::errors::DeserializeError;

verus! {

/// The session state passed around on boundary calls.
#[derive(Debug)]
pub struct Context {
    /// Path to the speech model on the host filesystem.
    pub model_path: String,
    /// Wake words, in declaration order; matching is case-insensitive.
    pub wake_words: Vec<String>,
    /// The transcript produced so far; may be empty.
    pub transcript: String,
}

/// The mathematical content of a context.
pub struct ContextModel {
    /// Path to the speech model.
    pub model_path: Seq<char>,
    /// Wake words, in declaration order.
    pub wake_words: Seq<Seq<char>>,
    /// The transcript produced so far.
    pub transcript: Seq<char>,
}

impl View for Context {
    type V = ContextModel;

    open spec fn view(&self) -> ContextModel {
        ContextModel {
            model_path: self.model_path@,
            wake_words: self.wake_words.deep_view(),
            transcript: self.transcript@,
        }
    }
}

/// Whether a context's strings and wake-word list fit the 32-bit wire
/// lengths.
pub open spec fn context_fits(c: ContextModel) -> bool {
    &&& c.model_path.len() <= MAX_WIRE_LEN
    &&& c.wake_words.len() <= MAX_WIRE_LEN
    &&& strings_fit(c.wake_words)
    &&& c.transcript.len() <= MAX_WIRE_LEN
}

/// The bytes of a context: model path, wake-word list, transcript.
pub open spec fn context_bytes(c: ContextModel) -> Seq<u8> {
    string_bytes(c.model_path) + strings_bytes(c.wake_words) + string_bytes(c.transcript)
}

/// Reads a whole context: `Some` exactly when the bytes are a complete,
/// well-formed encoding with nothing left over.
pub open spec fn parse_context(b: Seq<u8>) -> Option<ContextModel> {
    match parse_string(b, 0) {
        None => None,
        Some((mp, p1)) => match parse_strings(b, p1) {
            None => None,
            Some((ws, p2)) => match parse_string(b, p2) {
                None => None,
                Some((tr, p3)) => if p3 == b.len() {
                    Some(ContextModel { model_path: mp, wake_words: ws, transcript: tr })
                } else {
                    None
                },
            },
        },
    }
}

impl Context {
    /// Builds a fresh context with an empty transcript.
    pub fn new(model_path: String, wake_words: Vec<String>) -> (c: Context)
        ensures
            c@.model_path == model_path@,
            c@.wake_words == wake_words.deep_view(),
            c@.transcript == Seq::<char>::empty(),
    {
        Context { model_path, wake_words, transcript: String::new() }
    }

    /// Replaces the configured wake words, keeping everything else.
    pub fn set_wake_words(&mut self, words: &Vec<String>) -> (r: Result<(), String>)
        ensures
            r is Ok,
            final(self)@.wake_words == words.deep_view(),
            final(self)@.model_path == old(self)@.model_path,
            final(self)@.transcript == old(self)@.transcript,
    {
        let cloned_words = words.clone();
        proof {
            assert(cloned_words.deep_view() =~~= words.deep_view()) by {
                assert forall|i: int| 0 <= i < words@.len() implies cloned_words@[i]@
                    == words@[i]@ by {
                    assert(cloned::<String>(words@[i], cloned_words@[i]));
                }
            }
        }
        self.wake_words = cloned_words;
        Ok(())
    }
}

/// Encodes a context into a freshly allocated buffer holding exactly its
/// encoding.
pub fn encode_context(c: &Context) -> (r: Vec<u8>)
    requires
        context_fits(c@),
    ensures
        r@ == context_bytes(c@),
{
    let mut out: Vec<u8> = Vec::new();
    write_string(&mut out, c.model_path.as_str());
    write_strings(&mut out, &c.wake_words);
    write_string(&mut out, c.transcript.as_str());
    proof {
        assert(out@ =~= context_bytes(c@));
    }
    out
}

/// Decodes a context from host bytes, rejecting malformed or trailing
/// input.
pub fn decode_context(b: &Vec<u8>) -> (r: Result<Context, DeserializeError>)
    ensures
        match parse_context(b@) {
            Some(c) => r matches Ok(ctx) && ctx@ == c,
            None => r is Err,
        },
{
    let (model_path, p1) = match read_string(b, 0) {
        Ok(p) => p,
        Err(e) => {
            return Err(e);
        },
    };
    let (wake_words, p2) = match read_strings(b, p1) {
        Ok(p) => p,
        Err(e) => {
            return Err(e);
        },
    };
    let (transcript, p3) = match read_string(b, p2) {
        Ok(p) => p,
        Err(e) => {
            return Err(e);
        },
    };
    if p3 != b.len() {
        return Err(DeserializeError::new("trailing bytes after context"));
    }
    Ok(Context { model_path, wake_words, transcript })
}

/// Decoding the encoding of any context that fits the wire limits yields
/// that context exactly.
pub proof fn lemma_context_round_trip(c: ContextModel)
    requires
        context_fits(c),
    ensures
        parse_context(context_bytes(c)) == Some(c),
{
    let b = context_bytes(c);
    let mp = string_bytes(c.model_path);
    let ws = strings_bytes(c.wake_words);
    let tr = string_bytes(c.transcript);
    lemma_chars_bytes_len(c.model_path);
    lemma_chars_bytes_len(c.transcript);
    let p1 = 4 + 4 * c.model_path.len();
    let p2 = p1 + 4 + strings_payload(c.wake_words).len();
    let p3 = p2 + 4 + 4 * c.transcript.len();
    assert(b.subrange(0, p1 as int) =~= mp);
    lemma_parse_string_at(b, 0, c.model_path);
    assert(b.subrange(p1 as int, p2 as int) =~= ws);
    lemma_parse_strings_at(b, p1 as int, c.wake_words);
    assert(b.subrange(p2 as int, p3 as int) =~= tr);
    lemma_parse_string_at(b, p2 as int, c.transcript);
    assert(p3 == b.len());
}

} // verus!
