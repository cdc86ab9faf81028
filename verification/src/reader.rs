//! The validated-prompt-retry loop.
//!
//! The loop is modelled as a pure function over the sequence of read
//! events an input source yields: each event is either one line of text
//! or a failed read with its error description, and the end of the
//! sequence is the end of the stream. The loop prompts before every
//! attempt, trims and converts each line, retries on every failure with a
//! diagnostic and an observer notification, and returns the first value
//! that converts. A source that ends before any line converts is fatal:
//! the loop reports no value rather than retrying forever.

use vstd::prelude::*;

use crate::convert::{ConvError, Target};
use crate::text::{trim, trim_spec};

verus! {

/// One read attempt's outcome at the input boundary: a line of text, or a
/// read failure with the error's description.
#[derive(Debug)]
pub enum ReadEvent {
    /// The source yielded one line.
    Line(String),
    /// The read failed; the text describes the error.
    Failure(String),
}

/// One notification handed to the error observer: the read error or the
/// conversion error of one failed attempt.
#[derive(Debug)]
pub enum Observed {
    /// A read failure's description.
    Read(String),
    /// A conversion failure.
    Conversion(ConvError),
}

/// What one prompt-read-convert attempt decided.
pub enum Step<T> {
    /// The line converted; the loop returns this value.
    Done(T),
    /// The line did not convert; write the diagnostic, notify the
    /// observer with the error, and retry.
    RetryConversion { diagnostic: String, error: ConvError },
    /// The read failed; write the diagnostic, notify the observer with
    /// the error's description, and retry.
    RetryRead { diagnostic: String, message: String },
}

/// Everything one call of the loop did: the returned value (`None` when
/// the source ended before a line converted, the fatal end-of-input
/// case), the number of read attempts, every write to the output sink in
/// order, and every observer notification in order.
pub struct ReadReport<T> {
    /// The converted value, or `None` when the source ended.
    pub value: Option<T>,
    /// How many events the loop consumed.
    pub attempts: usize,
    /// The prompt and diagnostic writes, in order.
    pub transcript: Vec<String>,
    /// The observer notifications, one per failed attempt, in order.
    pub observed: Vec<Observed>,
}

/// The prompt written before each read attempt: the label and the target
/// type's display name.
pub open spec fn prompt_spec<T: Target>(label: Seq<char>) -> Seq<char> {
    label + " ("@ + T::name_spec() + "): "@
}

/// The diagnostic written after a failed conversion; it carries the
/// offending text verbatim, the target type's display name, and the
/// conversion error's description.
pub open spec fn conv_diag_spec(text: Seq<char>, name: Seq<char>, msg: Seq<char>) -> Seq<char> {
    "Invalid input '"@ + text + "'. Expected type: "@ + name + ". Error: "@ + msg
}

/// The diagnostic written after a failed read.
pub open spec fn read_diag_spec(msg: Seq<char>) -> Seq<char> {
    "Failed to read line: "@ + msg
}

/// Whether this event ends the loop: a line whose trimmed text converts.
pub open spec fn event_accepted<T: Target>(e: ReadEvent) -> bool {
    e matches ReadEvent::Line(s) && T::accepts(trim_spec(s@))
}

/// The diagnostic a rejected event produces.
pub open spec fn event_diag_spec<T: Target>(e: ReadEvent) -> Seq<char> {
    match e {
        ReadEvent::Line(s) => conv_diag_spec(
            trim_spec(s@),
            T::name_spec(),
            T::err_spec(trim_spec(s@)).message_spec(),
        ),
        ReadEvent::Failure(m) => read_diag_spec(m@),
    }
}

/// The notification a rejected event sends to the observer.
pub open spec fn observed_matches<T: Target>(e: ReadEvent, o: Observed) -> bool {
    match e {
        ReadEvent::Line(s) => o matches Observed::Conversion(err) && err == T::err_spec(
            trim_spec(s@),
        ),
        ReadEvent::Failure(m) => o matches Observed::Read(msg) && msg@ == m@,
    }
}

/// The position of the first event the loop accepts, or the number of
/// events when it accepts none.
pub open spec fn first_ok<T: Target>(events: Seq<ReadEvent>) -> int
    decreases events.len(),
{
    if events.len() == 0 {
        0
    } else if event_accepted::<T>(events[0]) {
        0
    } else {
        1 + first_ok::<T>(events.drop_first())
    }
}

/// How many events the loop consumes: one past the first accepted event,
/// or all of them when none is accepted.
pub open spec fn attempts_spec<T: Target>(events: Seq<ReadEvent>) -> int {
    if first_ok::<T>(events) < events.len() {
        first_ok::<T>(events) + 1
    } else {
        events.len() as int
    }
}

/// The abstract value the loop returns, meaningful when some event is
/// accepted: the conversion of the first accepted line's trimmed text.
pub open spec fn value_view_spec<T: Target>(events: Seq<ReadEvent>) -> T::V {
    T::value_spec(trim_spec(events[first_ok::<T>(events)]->Line_0@))
}

/// Every write the loop makes, in order: a prompt before each attempt, a
/// diagnostic after each rejected one, and the prompt of the attempt the
/// source no longer answers when it ends.
pub open spec fn transcript_spec<T: Target>(label: Seq<char>, events: Seq<ReadEvent>) -> Seq<
    Seq<char>,
>
    decreases events.len(),
{
    if events.len() == 0 || event_accepted::<T>(events[0]) {
        seq![prompt_spec::<T>(label)]
    } else {
        seq![prompt_spec::<T>(label), event_diag_spec::<T>(events[0])] + transcript_spec::<T>(
            label,
            events.drop_first(),
        )
    }
}

/// What one attempt decides, given the event the read produced.
pub open spec fn step_matches<T: Target>(event: ReadEvent, step: Step<T>) -> bool {
    match event {
        ReadEvent::Line(s) => if T::accepts(trim_spec(s@)) {
            step matches Step::Done(v) && v@ == T::value_spec(trim_spec(s@))
        } else {
            step matches Step::RetryConversion { diagnostic, error }
                && diagnostic@ == event_diag_spec::<T>(ReadEvent::Line(s))
                && error == T::err_spec(trim_spec(s@))
        },
        ReadEvent::Failure(m) => step matches Step::RetryRead { diagnostic, message }
            && diagnostic@ == read_diag_spec(m@) && message@ == m@,
    }
}

/// The loop's whole contract: whether `r` is what the loop does with
/// these events under this label. The value is present exactly when some
/// event is accepted and is the conversion of the first accepted line;
/// the attempt count, the transcript, and the observer notifications are
/// pinned down entry by entry.
pub open spec fn report_matches<T: Target>(
    label: Seq<char>,
    events: Seq<ReadEvent>,
    r: ReadReport<T>,
) -> bool {
    &&& (r.value is Some <==> first_ok::<T>(events) < events.len())
    &&& (r.value matches Some(v) ==> v@ == value_view_spec::<T>(events))
    &&& r.attempts == attempts_spec::<T>(events)
    &&& r.transcript.deep_view() == transcript_spec::<T>(label, events)
    &&& r.observed@.len() == first_ok::<T>(events)
    &&& (forall|j: int|
        0 <= j < r.observed@.len() ==> observed_matches::<T>(events[j], #[trigger] r.observed@[j]))
}

/// `first_ok` is the first accepted position: everything before it is
/// rejected, and it is in range exactly when some event is accepted.
pub proof fn lemma_first_ok_bounds<T: Target>(events: Seq<ReadEvent>)
    ensures
        0 <= first_ok::<T>(events) <= events.len(),
        first_ok::<T>(events) < events.len() ==> event_accepted::<T>(
            events[first_ok::<T>(events)],
        ),
        forall|j: int| 0 <= j < first_ok::<T>(events) ==> !event_accepted::<T>(#[trigger] events[j]),
    decreases events.len(),
{
    if events.len() > 0 && !event_accepted::<T>(events[0]) {
        lemma_first_ok_bounds::<T>(events.drop_first());
        assert forall|j: int|
            0 <= j < first_ok::<T>(events) implies !event_accepted::<T>(
            #[trigger] events[j],
        ) by {
            if j >= 1 {
                assert(events[j] == events.drop_first()[j - 1]);
            }
        }
    }
}

/// A position with only rejected events before it, and an accepted event
/// at it (or no event at all), is `first_ok`.
pub proof fn lemma_first_ok_is<T: Target>(events: Seq<ReadEvent>, k: int)
    requires
        0 <= k <= events.len(),
        forall|j: int| 0 <= j < k ==> !event_accepted::<T>(#[trigger] events[j]),
        k == events.len() || event_accepted::<T>(events[k]),
    ensures
        first_ok::<T>(events) == k,
    decreases events.len(),
{
    if events.len() > 0 && k > 0 {
        assert(!event_accepted::<T>(events[0]));
        assert(forall|j: int|
            0 <= j < k - 1 ==> !event_accepted::<T>(#[trigger] events.drop_first()[j]));
        lemma_first_ok_is::<T>(events.drop_first(), k - 1);
    }
}

/// The prompt written before each read attempt.
pub fn prompt_message<T: Target>(label: &str) -> (r: String)
    ensures
        r@ == prompt_spec::<T>(label@),
{
    let mut r = String::from_str(label);
    r.append(" (");
    let name = T::display_name();
    r.append(name.as_str());
    r.append("): ");
    proof {
        assert(r@ =~= prompt_spec::<T>(label@));
    }
    r
}

/// The diagnostic written after a failed conversion.
pub fn conv_diagnostic(text: &str, name: &str, msg: &str) -> (r: String)
    ensures
        r@ == conv_diag_spec(text@, name@, msg@),
{
    let mut r = String::from_str("Invalid input '");
    r.append(text);
    r.append("'. Expected type: ");
    r.append(name);
    r.append(". Error: ");
    r.append(msg);
    proof {
        assert(r@ =~= conv_diag_spec(text@, name@, msg@));
    }
    r
}

/// The diagnostic written after a failed read.
pub fn read_diagnostic(msg: &str) -> (r: String)
    ensures
        r@ == read_diag_spec(msg@),
{
    let mut r = String::from_str("Failed to read line: ");
    r.append(msg);
    proof {
        assert(r@ =~= read_diag_spec(msg@));
    }
    r
}

/// One attempt of the loop, after the read: trim the line, try the
/// conversion, and decide whether to return the value or to retry with a
/// diagnostic and an observer notification.
pub fn process_event<T: Target>(event: &ReadEvent) -> (step: Step<T>)
    ensures
        step_matches::<T>(*event, step),
{
    match event {
        ReadEvent::Line(s) => {
            let trimmed = trim(s.as_str());
            match T::parse_text(trimmed.as_str()) {
                Ok(v) => Step::Done(v),
                Err(e) => {
                    let name = T::display_name();
                    let msg = e.message();
                    let diagnostic = conv_diagnostic(
                        trimmed.as_str(),
                        name.as_str(),
                        msg.as_str(),
                    );
                    Step::RetryConversion { diagnostic, error: e }
                },
            }
        },
        ReadEvent::Failure(m) => {
            let diagnostic = read_diagnostic(m.as_str());
            Step::RetryRead { diagnostic, message: m.clone() }
        },
    }
}

/// The validated-prompt-retry loop over the events an input source
/// yields. Before every attempt the prompt is written; each line is
/// trimmed and converted; every failure writes a diagnostic, notifies the
/// observer, and retries; the first line that converts is returned. When
/// the source ends first, the final prompt stands in the transcript and
/// no value is returned: end of input is fatal, never retried.
#[verifier::loop_isolation(false)]
pub fn read_input<T: Target>(label: &str, events: Vec<ReadEvent>) -> (report: ReadReport<T>)
    ensures
        report_matches::<T>(label@, events@, report),
{
    let n: usize = events.len();
    let mut transcript: Vec<String> = Vec::new();
    let mut observed: Vec<Observed> = Vec::new();
    let mut idx: usize = 0;
    proof {
        assert(events@.subrange(0, n as int) =~= events@);
        assert(transcript.deep_view() + transcript_spec::<T>(
            label@,
            events@.subrange(0, n as int),
        ) =~= transcript_spec::<T>(label@, events@));
    }
    while idx < n
        invariant
            idx <= n,
            forall|j: int| 0 <= j < idx ==> !event_accepted::<T>(#[trigger] events@[j]),
            transcript.deep_view() + transcript_spec::<T>(
                label@,
                events@.subrange(idx as int, n as int),
            ) == transcript_spec::<T>(label@, events@),
            observed@.len() == idx,
            forall|j: int|
                0 <= j < idx ==> observed_matches::<T>(events@[j], #[trigger] observed@[j]),
        decreases n - idx,
    {
        let ghost rest = events@.subrange(idx as int, n as int);
        let ghost transcript_before = transcript.deep_view();
        let prompt = prompt_message::<T>(label);
        transcript.push(prompt);
        let step = process_event::<T>(&events[idx]);
        proof {
            assert(rest[0] == events@[idx as int]);
            assert(rest.drop_first() =~= events@.subrange(idx as int + 1, n as int));
        }
        match step {
            Step::Done(value) => {
                proof {
                    lemma_first_ok_is::<T>(events@, idx as int);
                    assert(transcript.deep_view() =~= transcript_before + seq![
                        prompt_spec::<T>(label@),
                    ]);
                    assert(transcript.deep_view() =~= transcript_spec::<T>(label@, events@));
                }
                return ReadReport { value: Some(value), attempts: idx + 1, transcript, observed };
            },
            Step::RetryConversion { diagnostic, error } => {
                transcript.push(diagnostic);
                observed.push(Observed::Conversion(error));
            },
            Step::RetryRead { diagnostic, message } => {
                transcript.push(diagnostic);
                observed.push(Observed::Read(message));
            },
        }
        proof {
            assert(!event_accepted::<T>(events@[idx as int]));
            assert(transcript.deep_view() =~= transcript_before + seq![
                prompt_spec::<T>(label@),
                event_diag_spec::<T>(events@[idx as int]),
            ]);
            assert(transcript_before + transcript_spec::<T>(label@, rest)
                == transcript_spec::<T>(label@, events@));
            assert(transcript.deep_view() + transcript_spec::<T>(
                label@,
                events@.subrange(idx as int + 1, n as int),
            ) =~= transcript_before + transcript_spec::<T>(label@, rest));
        }
        idx = idx + 1;
    }
    proof {
        lemma_first_ok_is::<T>(events@, n as int);
        assert(events@.subrange(n as int, n as int) =~= Seq::<ReadEvent>::empty());
    }
    let ghost transcript_before = transcript.deep_view();
    let prompt = prompt_message::<T>(label);
    transcript.push(prompt);
    proof {
        assert(transcript.deep_view() =~= transcript_before + seq![prompt_spec::<T>(label@)]);
        assert(transcript.deep_view() =~= transcript_spec::<T>(label@, events@));
    }
    ReadReport { value: None, attempts: n, transcript, observed }
}

/// Law: well-formed text as the only input line yields the canonical
/// conversion of that text after exactly one attempt, with no observer
/// notification.
pub proof fn lemma_valid_first_line<T: Target>(label: Seq<char>, s: String, r: ReadReport<T>)
    requires
        T::accepts(trim_spec(s@)),
        report_matches::<T>(label, seq![ReadEvent::Line(s)], r),
    ensures
        r.value matches Some(v) && v@ == T::value_spec(trim_spec(s@)),
        r.attempts == 1,
        r.observed@.len() == 0,
{
    let events = seq![ReadEvent::Line(s)];
    assert(event_accepted::<T>(events[0]));
    assert(first_ok::<T>(events) == 0);
}

/// Law: a conversion diagnostic carries the offending text verbatim; it
/// stands right after the opening quote of the message.
pub proof fn lemma_diag_carries_text(text: Seq<char>, name: Seq<char>, msg: Seq<char>)
    ensures
        conv_diag_spec(text, name, msg).subrange(15, 15 + text.len() as int) == text,
{
    reveal_strlit("Invalid input '");
    assert(("Invalid input '"@).len() == 15);
    assert(conv_diag_spec(text, name, msg).subrange(15, 15 + text.len() as int) =~= text);
}

/// Law: the transcript holds one prompt before every attempt and ends in
/// a prompt — that of the accepted attempt, or of the read the source no
/// longer answers.
pub proof fn lemma_transcript_shape<T: Target>(label: Seq<char>, events: Seq<ReadEvent>)
    ensures
        transcript_spec::<T>(label, events).len() == 2 * first_ok::<T>(events) + 1,
        transcript_spec::<T>(label, events).last() == prompt_spec::<T>(label),
    decreases events.len(),
{
    if !(events.len() == 0 || event_accepted::<T>(events[0])) {
        lemma_transcript_shape::<T>(label, events.drop_first());
    }
}

/// Law: each rejected attempt writes its prompt and then its diagnostic;
/// the two stand side by side in the transcript, at the attempt's
/// position.
pub proof fn lemma_transcript_entry<T: Target>(label: Seq<char>, events: Seq<ReadEvent>, j: int)
    requires
        0 <= j < first_ok::<T>(events),
    ensures
        transcript_spec::<T>(label, events)[2 * j] == prompt_spec::<T>(label),
        transcript_spec::<T>(label, events)[2 * j + 1] == event_diag_spec::<T>(events[j]),
    decreases j,
{
    lemma_first_ok_bounds::<T>(events);
    assert(!event_accepted::<T>(events[0]));
    let ts = transcript_spec::<T>(label, events);
    let ts_rest = transcript_spec::<T>(label, events.drop_first());
    lemma_transcript_shape::<T>(label, events.drop_first());
    if j == 0 {
        assert(ts[0] == prompt_spec::<T>(label));
        assert(ts[1] == event_diag_spec::<T>(events[0]));
    } else {
        lemma_transcript_entry::<T>(label, events.drop_first(), j - 1);
        assert(events.drop_first()[j - 1] == events[j]);
        assert(ts[2 * j] == ts_rest[2 * j - 2]);
        assert(ts[2 * j + 1] == ts_rest[2 * j - 1]);
    }
}

/// Law: when every input line is malformed the loop never returns a
/// value; every attempt is consumed, and the observer is notified exactly
/// once per attempt, each notification carrying that attempt's error.
pub proof fn lemma_malformed_never_returns<T: Target>(
    label: Seq<char>,
    events: Seq<ReadEvent>,
    r: ReadReport<T>,
)
    requires
        forall|j: int| 0 <= j < events.len() ==> !event_accepted::<T>(#[trigger] events[j]),
        report_matches::<T>(label, events, r),
    ensures
        r.value is None,
        r.attempts == events.len(),
        r.observed@.len() == events.len(),
        forall|j: int|
            0 <= j < events.len() ==> observed_matches::<T>(events[j], #[trigger] r.observed@[j]),
{
    lemma_first_ok_is::<T>(events, events.len() as int);
}

/// Law: presenting the same events after any run of rejected attempts
/// yields an identical final value; only the attempt count and the number
/// of observer notifications grow, by the length of the rejected run.
pub proof fn lemma_retry_idempotent<T: Target>(
    label: Seq<char>,
    bad: Seq<ReadEvent>,
    rest: Seq<ReadEvent>,
    direct: ReadReport<T>,
    retried: ReadReport<T>,
)
    requires
        forall|j: int| 0 <= j < bad.len() ==> !event_accepted::<T>(#[trigger] bad[j]),
        first_ok::<T>(rest) < rest.len(),
        report_matches::<T>(label, rest, direct),
        report_matches::<T>(label, bad + rest, retried),
    ensures
        direct.value is Some && retried.value is Some,
        (direct.value matches Some(v1) && retried.value matches Some(v2) && v1@ == v2@),
        retried.attempts == bad.len() + direct.attempts,
        retried.observed@.len() == bad.len() + direct.observed@.len(),
{
    lemma_first_ok_concat::<T>(bad, rest);
    lemma_first_ok_bounds::<T>(rest);
    assert((bad + rest)[bad.len() + first_ok::<T>(rest)] == rest[first_ok::<T>(rest)]);
}

/// After a run of rejected events, the first accepted position shifts by
/// the run's length.
proof fn lemma_first_ok_concat<T: Target>(bad: Seq<ReadEvent>, rest: Seq<ReadEvent>)
    requires
        forall|j: int| 0 <= j < bad.len() ==> !event_accepted::<T>(#[trigger] bad[j]),
    ensures
        first_ok::<T>(bad + rest) == bad.len() + first_ok::<T>(rest),
    decreases bad.len(),
{
    if bad.len() == 0 {
        assert(bad + rest =~= rest);
    } else {
        assert(!event_accepted::<T>((bad + rest)[0]));
        assert((bad + rest).drop_first() =~= bad.drop_first() + rest);
        assert forall|j: int| 0 <= j < bad.drop_first().len() implies !event_accepted::<T>(
            #[trigger] bad.drop_first()[j],
        ) by {
            assert(bad.drop_first()[j] == bad[j + 1]);
        }
        lemma_first_ok_concat::<T>(bad.drop_first(), rest);
    }
}

/// Law: with the text target, conversion is the identity, so any line
/// whose trimmed text is non-empty — indeed any line at all — is accepted
/// on the first attempt, and the returned value is the trimmed line.
pub proof fn lemma_text_identity(label: Seq<char>, s: String, r: ReadReport<String>)
    requires
        trim_spec(s@).len() > 0,
        report_matches::<String>(label, seq![ReadEvent::Line(s)], r),
    ensures
        r.value matches Some(v) && v@ == trim_spec(s@),
        r.attempts == 1,
{
    lemma_valid_first_line::<String>(label, s, r);
}

} // verus!
