//! The boundary calls, on plain bytes.
//!
//! These are the byte-level cores of the host-facing entry points: the
//! literal pointer/length marshaling, the microphone and the inference
//! engine live outside this crate, decode their inputs here, and encode
//! the results back through here.

use vstd::prelude::*;

use crate::codec::MAX_WIRE_LEN;
use crate::codec::lemma_parse_string_shape;
use crate::codec::lemma_parse_strings_shape;
use crate::codec::parse_string;
use crate::codec::parse_strings;
use crate::codec::read_string;
use crate::codec::read_strings;
use crate::context::Context;
use crate::context::ContextModel;
use crate::context::context_bytes;
use crate::context::decode_context;
use crate::context::encode_context;
use crate::context::parse_context;
use crate::errors::DeserializeError;

verus! {

/// Builds a session context from the host's encoded model path and
/// wake-word list and returns the context's encoding. Fails exactly when
/// either input is not a single complete encoding of its expected shape.
pub fn init_context(model_path_bytes: &Vec<u8>, wake_words_bytes: &Vec<u8>) -> (r: Result<
    Vec<u8>,
    DeserializeError,
>)
    ensures
        ({
            let mp = parse_string(model_path_bytes@, 0);
            let ww = parse_strings(wake_words_bytes@, 0);
            match (mp, ww) {
                (Some((path, p1)), Some((words, p2))) => if p1 == model_path_bytes@.len() && p2
                    == wake_words_bytes@.len() {
                    r matches Ok(out) && out@ == context_bytes(
                        ContextModel {
                            model_path: path,
                            wake_words: words,
                            transcript: Seq::empty(),
                        },
                    )
                } else {
                    r is Err
                },
                _ => r is Err,
            }
        }),
{
    let (model_path, p1) = match read_string(model_path_bytes, 0) {
        Ok(p) => p,
        Err(e) => {
            return Err(e);
        },
    };
    if p1 != model_path_bytes.len() {
        return Err(DeserializeError::new("trailing bytes after the model path"));
    }
    let (wake_words, p2) = match read_strings(wake_words_bytes, 0) {
        Ok(p) => p,
        Err(e) => {
            return Err(e);
        },
    };
    if p2 != wake_words_bytes.len() {
        return Err(DeserializeError::new("trailing bytes after the wake words"));
    }
    proof {
        lemma_parse_string_shape(model_path_bytes@, 0);
        lemma_parse_strings_shape(wake_words_bytes@, 0);
    }
    let ctx = Context::new(model_path, wake_words);
    Ok(encode_context(&ctx))
}

/// The concatenation, in order, of the texts of `segments`.
pub fn assemble_transcript(segments: &Vec<String>) -> (t: String)
    ensures
        t@ == segments.deep_view().flatten(),
{
    let ghost views = segments.deep_view();
    let mut t = String::new();
    let mut k: usize = 0;
    while k < segments.len()
        invariant
            k <= segments@.len(),
            views == segments.deep_view(),
            t@ == views.take(k as int).flatten(),
        decreases segments@.len() - k,
    {
        proof {
            assert(views[k as int] == segments@[k as int]@);
        }
        t.append(segments[k].as_str());
        proof {
            views.take(k as int).lemma_flatten_push(views[k as int]);
            assert(views.take(k as int).push(views[k as int]) =~~= views.take(k as int + 1));
        }
        k = k + 1;
    }
    proof {
        assert(views.take(segments@.len() as int) =~~= views);
    }
    t
}

/// Re-encodes a session context with the transcript replaced by the
/// concatenation of the texts delivered during the session. Fails exactly
/// when the context bytes are not a single complete encoding, or when the
/// combined transcript exceeds the wire length limit.
pub fn transcribe_speech(ctx_bytes: &Vec<u8>, delivered: &Vec<String>) -> (r: Result<
    Vec<u8>,
    DeserializeError,
>)
    ensures
        ({
            let t = delivered.deep_view().flatten();
            match parse_context(ctx_bytes@) {
                None => r is Err,
                Some(c) => if t.len() <= MAX_WIRE_LEN {
                    r matches Ok(out) && out@ == context_bytes(
                        ContextModel {
                            model_path: c.model_path,
                            wake_words: c.wake_words,
                            transcript: t,
                        },
                    )
                } else {
                    r is Err
                },
            }
        }),
{
    let ctx = match decode_context(ctx_bytes) {
        Ok(c) => c,
        Err(e) => {
            return Err(e);
        },
    };
    let transcript = assemble_transcript(delivered);
    if transcript.as_str().unicode_len() > MAX_WIRE_LEN {
        return Err(DeserializeError::new("transcript exceeds the wire length limit"));
    }
    proof {
        lemma_parse_string_shape(ctx_bytes@, 0);
        let p1 = parse_string(ctx_bytes@, 0)->Some_0.1;
        lemma_parse_strings_shape(ctx_bytes@, p1);
    }
    let updated = Context { model_path: ctx.model_path, wake_words: ctx.wake_words, transcript };
    Ok(encode_context(&updated))
}

} // verus!
