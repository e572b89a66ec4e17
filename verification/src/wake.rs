//! Wake-word detection over a window's transcript.
//!
//! A wake word is detected when it occurs as a contiguous substring of the
//! transcript, compared character by character with ASCII case folded.
//! Words are checked in declaration order and the first word that occurs
//! anywhere wins, even when a word later in the list appears earlier in
//! the transcript; the earliest occurrence of the winning word gives the
//! reported offsets, counted in characters.

use vstd::prelude::*;

use crate::text::lower_char;
use crate::text::to_lower_char;

verus! {

/// Result of one wake-word scan.
#[derive(Clone, Copy, Debug, PartialEq, Eq)]
pub struct WakeWordDetection {
    /// Whether any configured wake word was found.
    pub detected: bool,
    /// Character offset of the start of the match, when one was found.
    pub start_idx: Option<usize>,
    /// Character offset one past the end of the match, when one was found.
    pub end_idx: Option<usize>,
}

/// Whether wake word `w` matches transcript `t` at character position `i`,
/// ignoring ASCII case.
pub open spec fn matches_at(t: Seq<char>, w: Seq<char>, i: int) -> bool {
    &&& 0 <= i
    &&& i + w.len() <= t.len()
    &&& forall|j: int| 0 <= j < w.len() ==> lower_char(t[i + j]) == lower_char(#[trigger] w[j])
}

/// Whether `w` occurs anywhere in `t`, ignoring ASCII case.
pub open spec fn contains_word(t: Seq<char>, w: Seq<char>) -> bool {
    exists|i: int| matches_at(t, w, i)
}

/// Whether any of `words` occurs in `t`, ignoring ASCII case.
pub open spec fn word_detected(t: Seq<char>, words: Seq<Seq<char>>) -> bool {
    exists|n: int| 0 <= n < words.len() && contains_word(t, #[trigger] words[n])
}

/// Whether `d` reports, for transcript `t` and wake words `words`, the
/// earliest occurrence of the first word (in declaration order) that
/// occurs at all.
pub open spec fn first_detection(t: Seq<char>, words: Seq<Seq<char>>, d: WakeWordDetection) -> bool {
    exists|n: int|
        {
            &&& 0 <= n < words.len()
            &&& contains_word(t, #[trigger] words[n])
            &&& forall|m: int| 0 <= m < n ==> !contains_word(t, #[trigger] words[m])
            &&& d.start_idx matches Some(s) && matches_at(t, words[n], s as int) && (forall|
                k: int,
            |
                0 <= k < s ==> !matches_at(t, words[n], k))
            &&& d.end_idx == Some((d.start_idx->Some_0 + words[n].len()) as usize)
        }
}

/// Whether `w` matches `t` at position `i`, compared with ASCII case
/// folded.
fn match_at(t: &str, w: &str, i: usize) -> (b: bool)
    requires
        i + w@.len() <= t@.len(),
        t@.len() <= usize::MAX,
    ensures
        b == matches_at(t@, w@, i as int),
{
    let wl = w.unicode_len();
    let mut j: usize = 0;
    while j < wl
        invariant
            i + w@.len() <= t@.len(),
            t@.len() <= usize::MAX,
            wl == w@.len(),
            j <= wl,
            forall|x: int| 0 <= x < j ==> lower_char(t@[i + x]) == lower_char(#[trigger] w@[x]),
        decreases wl - j,
    {
        let tc = t.get_char(i + j);
        let wc = w.get_char(j);
        if to_lower_char(tc) != to_lower_char(wc) {
            proof {
                assert(lower_char(t@[i + j]) != lower_char(w@[j as int]));
            }
            return false;
        }
        j = j + 1;
    }
    true
}

/// Finds the earliest position where `w` matches `t`, ignoring ASCII case.
pub fn find_word(t: &str, w: &str) -> (r: Option<usize>)
    ensures
        r matches Some(i) ==> matches_at(t@, w@, i as int) && (forall|k: int|
            0 <= k < i ==> !matches_at(t@, w@, k)),
        r matches Some(i) ==> i + w@.len() <= usize::MAX,
        (r is Some) == contains_word(t@, w@),
{
    let tl = t.unicode_len();
    let wl = w.unicode_len();
    if wl > tl {
        proof {
            assert(forall|k: int| !matches_at(t@, w@, k));
        }
        return None;
    }
    let mut i: usize = 0;
    while i <= tl - wl
        invariant
            wl <= tl,
            tl == t@.len(),
            wl == w@.len(),
            i <= tl - wl + 1,
            forall|k: int| 0 <= k < i ==> !matches_at(t@, w@, k),
        decreases tl + 1 - i,
    {
        if match_at(t, w, i) {
            return Some(i);
        }
        i = i + 1;
    }
    proof {
        assert(forall|k: int| k > tl - wl ==> !matches_at(t@, w@, k));
    }
    None
}

/// Scans `transcript` for the configured wake words.
///
/// The result reports whether any wake word occurs (ASCII case folded) and
/// the character offsets of the earliest occurrence of the first word in
/// declaration order that occurs at all.
pub fn detect_wake_words(transcript: &str, wake_words: &Vec<String>) -> (d: WakeWordDetection)
    ensures
        d.detected == word_detected(transcript@, wake_words.deep_view()),
        d.detected ==> first_detection(transcript@, wake_words.deep_view(), d),
        !d.detected ==> d.start_idx is None && d.end_idx is None,
{
    let ghost words = wake_words.deep_view();
    let mut n: usize = 0;
    while n < wake_words.len()
        invariant
            words == wake_words.deep_view(),
            forall|m: int| 0 <= m < n ==> !contains_word(transcript@, #[trigger] words[m]),
            n <= wake_words@.len(),
        decreases wake_words@.len() - n,
    {
        proof {
            assert(words[n as int] == wake_words@[n as int]@);
        }
        let word: &String = &wake_words[n];
        if let Some(s) = find_word(transcript, word.as_str()) {
            let wl = word.as_str().unicode_len();
            return WakeWordDetection {
                detected: true,
                start_idx: Some(s),
                end_idx: Some(s + wl),
            };
        }
        n = n + 1;
    }
    WakeWordDetection { detected: false, start_idx: None, end_idx: None }
}

} // verus!
