//! The listening-session state machine.
//!
//! The orchestrator drives Listen, Detect and Transcribe cycles. It owns
//! the decisions; the speech-to-text engine itself is an external
//! collaborator, so the driver loop performs each requested inference
//! call and hands the resulting transcript back. At most one inference
//! call is dispatched at a time: a window is only handed out in the
//! passive phase, and the evaluating and active phases end with
//! [`Orchestrator::transcript_ready`] or [`Orchestrator::inference_failed`].
//! Windows that arrive meanwhile wait in a bounded queue, in arrival
//! order; when the queue is full the oldest window is dropped and
//! counted, never the stream stalled.

use vstd::prelude::*;

use crate::normalize::Sample;
use crate::wake::WakeWordDetection;
use crate::wake::detect_wake_words;
use crate::wake::first_detection;
use crate::wake::word_detected;

verus! {

/// The queue holds at most this many windows awaiting inference.
pub const WINDOW_QUEUE_CAPACITY: usize = 8;

/// The phases of a listening session.
#[derive(Clone, Copy, Debug, PartialEq, Eq)]
pub enum Phase {
    /// No session is running yet.
    Idle,
    /// Waiting for accumulated windows; no inference call is out.
    PassiveListening,
    /// A window is out for detection-level inference.
    EvaluatingWakeWord,
    /// A wake word was found; its window is out for full inference.
    ActiveTranscribing,
    /// The session ended; terminal.
    Stopped,
}

/// The decoding detail requested from the inference service.
#[derive(Clone, Copy, Debug, PartialEq, Eq)]
pub enum InferMode {
    /// Short, detection-only decoding.
    Passive,
    /// Full decoding for the final transcript.
    Active,
}

/// What the driver must do after handing a transcript back.
#[derive(Debug)]
pub enum AfterTranscript {
    /// No wake word was found: resume passive listening.
    Resume,
    /// A wake word was found: run the same window again in active mode.
    ReinferActive {
        /// Where the wake word was found.
        detection: WakeWordDetection,
    },
    /// The active transcription finished: deliver this text to the host.
    Deliver {
        /// The text to post to the host notification channel.
        text: String,
    },
}

/// Drives Listen, Detect and Transcribe cycles for one session.
pub struct Orchestrator {
    phase: Phase,
    wake_words: Vec<String>,
    queue: Vec<Vec<Sample>>,
    transcript: String,
    dropped: usize,
}

impl Orchestrator {
    /// The session's current phase.
    pub closed spec fn spec_phase(&self) -> Phase {
        self.phase
    }

    /// The configured wake words, immutable for the session.
    pub closed spec fn spec_wake_words(&self) -> Seq<Seq<char>> {
        self.wake_words.deep_view()
    }

    /// The windows queued for inference, oldest first.
    pub closed spec fn pending(&self) -> Seq<Seq<Sample>> {
        self.queue.deep_view()
    }

    /// The transcript delivered so far in this session.
    pub closed spec fn spec_transcript(&self) -> Seq<char> {
        self.transcript@
    }

    /// How many windows were dropped under backpressure or outside a
    /// session.
    pub closed spec fn spec_dropped(&self) -> int {
        self.dropped as int
    }

    /// The queue never exceeds its capacity.
    pub closed spec fn wf(&self) -> bool {
        self.queue@.len() <= WINDOW_QUEUE_CAPACITY
    }

    /// Creates an orchestrator for one session with the given wake words.
    pub fn new(wake_words: Vec<String>) -> (o: Orchestrator)
        ensures
            o.wf(),
            o.spec_phase() is Idle,
            o.spec_wake_words() == wake_words.deep_view(),
            o.pending() == Seq::<Seq<Sample>>::empty(),
            o.spec_transcript() == Seq::<char>::empty(),
            o.spec_dropped() == 0,
    {
        let o = Orchestrator {
            phase: Phase::Idle,
            wake_words,
            queue: Vec::new(),
            transcript: String::new(),
            dropped: 0,
        };
        proof {
            assert(o.queue.deep_view() =~~= Seq::<Seq<Sample>>::empty());
        }
        o
    }

    /// The session's current phase.
    pub fn phase(&self) -> (p: Phase)
        ensures
            p == self.spec_phase(),
    {
        self.phase
    }

    /// How many windows wait in the queue.
    pub fn queued(&self) -> (n: usize)
        ensures
            n == self.pending().len(),
    {
        self.queue.len()
    }

    /// How many windows were dropped so far.
    pub fn dropped_windows(&self) -> (n: usize)
        ensures
            n == self.spec_dropped(),
    {
        self.dropped
    }

    /// The transcript delivered so far in this session.
    pub fn transcript_so_far(&self) -> (t: &String)
        ensures
            t@ == self.spec_transcript(),
    {
        &self.transcript
    }

    /// Starts passive listening. Only an idle session can start; the
    /// caller must have loaded a model and decoded a valid context first.
    pub fn start_listening(&mut self)
        requires
            old(self).spec_phase() is Idle,
        ensures
            final(self).spec_phase() is PassiveListening,
            final(self).wf() == old(self).wf(),
            final(self).spec_wake_words() == old(self).spec_wake_words(),
            final(self).pending() == old(self).pending(),
            final(self).spec_transcript() == old(self).spec_transcript(),
            final(self).spec_dropped() == old(self).spec_dropped(),
    {
        self.phase = Phase::PassiveListening;
    }

    /// Accepts one accumulated window. During a session the window joins
    /// the queue in arrival order, displacing the oldest queued window
    /// when the queue is full; outside a session it is dropped and
    /// counted. Returns whether the window was queued.
    pub fn window_ready(&mut self, window: Vec<Sample>) -> (queued: bool)
        requires
            old(self).wf(),
            old(self).spec_dropped() + 1 <= usize::MAX,
        ensures
            final(self).wf(),
            final(self).spec_phase() == old(self).spec_phase(),
            final(self).spec_wake_words() == old(self).spec_wake_words(),
            final(self).spec_transcript() == old(self).spec_transcript(),
            (old(self).spec_phase() is Idle || old(self).spec_phase() is Stopped) ==> {
                &&& !queued
                &&& final(self).pending() == old(self).pending()
                &&& final(self).spec_dropped() == old(self).spec_dropped() + 1
            },
            !(old(self).spec_phase() is Idle || old(self).spec_phase() is Stopped) ==> {
                &&& queued
                &&& if old(self).pending().len() < WINDOW_QUEUE_CAPACITY {
                    &&& final(self).pending() == old(self).pending().push(window@)
                    &&& final(self).spec_dropped() == old(self).spec_dropped()
                } else {
                    &&& final(self).pending() == old(self).pending().drop_first().push(window@)
                    &&& final(self).spec_dropped() == old(self).spec_dropped() + 1
                }
            },
    {
        match self.phase {
            Phase::Idle | Phase::Stopped => {
                self.dropped = self.dropped + 1;
                false
            },
            _ => {
                let ghost pre = self.queue.deep_view();
                if self.queue.len() >= WINDOW_QUEUE_CAPACITY {
                    self.queue.remove(0);
                    self.dropped = self.dropped + 1;
                    proof {
                        assert(self.queue.deep_view() =~~= pre.drop_first());
                    }
                }
                let ghost mid = self.queue.deep_view();
                let ghost wv = window@;
                self.queue.push(window);
                proof {
                    assert(self.queue.deep_view() =~~= mid.push(wv));
                }
                true
            },
        }
    }

    /// Hands out the oldest queued window for detection-level inference.
    /// A window goes out only in the passive phase, so at most one
    /// inference call is ever in flight.
    pub fn poll_queue(&mut self) -> (w: Option<(Vec<Sample>, InferMode)>)
        requires
            old(self).wf(),
        ensures
            final(self).wf(),
            final(self).spec_wake_words() == old(self).spec_wake_words(),
            final(self).spec_transcript() == old(self).spec_transcript(),
            final(self).spec_dropped() == old(self).spec_dropped(),
            (old(self).spec_phase() is PassiveListening && old(self).pending().len() > 0) ==> {
                &&& w matches Some((win, mode)) && win@ == old(self).pending()[0] && mode
                    is Passive
                &&& final(self).pending() == old(self).pending().drop_first()
                &&& final(self).spec_phase() is EvaluatingWakeWord
            },
            !(old(self).spec_phase() is PassiveListening && old(self).pending().len() > 0) ==> {
                &&& w is None
                &&& final(self).pending() == old(self).pending()
                &&& final(self).spec_phase() == old(self).spec_phase()
            },
    {
        match self.phase {
            Phase::PassiveListening => {
                if self.queue.len() > 0 {
                    let ghost pre = self.queue.deep_view();
                    let win = self.queue.remove(0);
                    proof {
                        assert(self.queue.deep_view() =~~= pre.drop_first());
                    }
                    self.phase = Phase::EvaluatingWakeWord;
                    Some((win, InferMode::Passive))
                } else {
                    None
                }
            },
            _ => None,
        }
    }

    /// Takes the transcript of the window that was out for inference.
    ///
    /// After a detection-level result, the transcript is scanned for the
    /// wake words: on a match the session turns active and the driver
    /// must run the same window again in active mode; otherwise passive
    /// listening resumes. After an active result, the text joins the
    /// session transcript, must be delivered to the host, and passive
    /// listening resumes.
    pub fn transcript_ready(&mut self, text: &str) -> (a: AfterTranscript)
        requires
            old(self).wf(),
            old(self).spec_phase() is EvaluatingWakeWord || old(self).spec_phase()
                is ActiveTranscribing,
            old(self).spec_transcript().len() + text@.len() <= usize::MAX,
        ensures
            final(self).wf(),
            final(self).spec_wake_words() == old(self).spec_wake_words(),
            final(self).pending() == old(self).pending(),
            final(self).spec_dropped() == old(self).spec_dropped(),
            old(self).spec_phase() is EvaluatingWakeWord ==> {
                &&& final(self).spec_transcript() == old(self).spec_transcript()
                &&& if word_detected(text@, old(self).spec_wake_words()) {
                    &&& final(self).spec_phase() is ActiveTranscribing
                    &&& a matches AfterTranscript::ReinferActive { detection }
                        && detection.detected && first_detection(
                        text@,
                        old(self).spec_wake_words(),
                        detection,
                    )
                } else {
                    &&& final(self).spec_phase() is PassiveListening
                    &&& a is Resume
                }
            },
            old(self).spec_phase() is ActiveTranscribing ==> {
                &&& final(self).spec_phase() is PassiveListening
                &&& final(self).spec_transcript() == old(self).spec_transcript() + text@
                &&& a matches AfterTranscript::Deliver { text: t } && t@ == text@
            },
    {
        match self.phase {
            Phase::EvaluatingWakeWord => {
                let detection = detect_wake_words(text, &self.wake_words);
                if detection.detected {
                    self.phase = Phase::ActiveTranscribing;
                    AfterTranscript::ReinferActive { detection }
                } else {
                    self.phase = Phase::PassiveListening;
                    AfterTranscript::Resume
                }
            },
            _ => {
                self.phase = Phase::PassiveListening;
                self.transcript.append(text);
                AfterTranscript::Deliver { text: String::from_str(text) }
            },
        }
    }

    /// Records that the inference call for the outstanding window failed.
    /// A per-window failure skips that window and resumes passive
    /// listening; a fatal failure (the model or context is invalid) ends
    /// the session.
    pub fn inference_failed(&mut self, fatal: bool)
        requires
            old(self).wf(),
            old(self).spec_phase() is EvaluatingWakeWord || old(self).spec_phase()
                is ActiveTranscribing,
        ensures
            final(self).wf(),
            final(self).spec_wake_words() == old(self).spec_wake_words(),
            final(self).spec_transcript() == old(self).spec_transcript(),
            final(self).spec_dropped() == old(self).spec_dropped(),
            fatal ==> final(self).spec_phase() is Stopped && final(self).pending()
                == Seq::<Seq<Sample>>::empty(),
            !fatal ==> final(self).spec_phase() is PassiveListening && final(self).pending()
                == old(self).pending(),
    {
        if fatal {
            self.phase = Phase::Stopped;
            self.queue.clear();
            proof {
                assert(self.queue.deep_view() =~~= Seq::<Seq<Sample>>::empty());
            }
        } else {
            self.phase = Phase::PassiveListening;
        }
    }

    /// Forces the active phase to give up its window and return to
    /// passive listening; the session timeout is authoritative there.
    pub fn active_timeout(&mut self)
        requires
            old(self).wf(),
            old(self).spec_phase() is ActiveTranscribing,
        ensures
            final(self).wf(),
            final(self).spec_phase() is PassiveListening,
            final(self).spec_wake_words() == old(self).spec_wake_words(),
            final(self).pending() == old(self).pending(),
            final(self).spec_transcript() == old(self).spec_transcript(),
            final(self).spec_dropped() == old(self).spec_dropped(),
    {
        self.phase = Phase::PassiveListening;
    }

    /// Ends the session, on an explicit stop request or an unrecoverable
    /// device error. Terminal: queued windows are discarded.
    pub fn stop(&mut self)
        requires
            old(self).wf(),
        ensures
            final(self).wf(),
            final(self).spec_phase() is Stopped,
            final(self).spec_wake_words() == old(self).spec_wake_words(),
            final(self).pending() == Seq::<Seq<Sample>>::empty(),
            final(self).spec_transcript() == old(self).spec_transcript(),
            final(self).spec_dropped() == old(self).spec_dropped(),
    {
        self.phase = Phase::Stopped;
        self.queue.clear();
        proof {
            assert(self.queue.deep_view() =~~= Seq::<Seq<Sample>>::empty());
        }
    }
}

} // verus!
