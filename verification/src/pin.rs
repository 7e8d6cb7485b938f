//! Asking for a code.
//!
//! Whoever asks for a code leaves a callback. It is taken out of its slot when it
//! is called or dropped, so that a code is handed over once at most, and no copy
//! of a code is kept.
use vstd::prelude::*;

verus! {

/// What a code is made of.
#[derive(Clone, Copy, Debug, PartialEq, Eq, Structural)]
pub enum CodeFormat {
    Number,
    Any,
}

/// The callback that waits for a code, until it is taken.
pub struct PinSubmitSlot<F> {
    pub waiting: Option<F>,
}

/// What is recorded of an entry. The code is not part of it.
#[derive(Clone, Copy, Debug, PartialEq, Eq, Structural)]
pub enum PinAudit {
    Submitted,
    Cancelled,
}

/// A step of closing the entry window.
pub enum PinEffect<F> {
    /// Clear the digits that were typed.
    ResetDigits,
    /// Call the callback with the code.
    Deliver { callback: F, code: String },
    /// Hide the window.
    Hide,
    /// Record what happened.
    Audit(PinAudit),
}

/// An answer of the user.
pub enum PinAnswer {
    Submit(String),
    Cancel,
}

/// The steps that answer the user. A code for which no callback waits is passed
/// over; a cancelled entry is cleared and hidden in any case.
pub open spec fn effects_of<F>(waiting: Option<F>, answer: PinAnswer) -> Seq<PinEffect<F>> {
    match answer {
        PinAnswer::Submit(code) => match waiting {
            Some(callback) => seq![
                PinEffect::ResetDigits,
                PinEffect::Deliver { callback, code },
                PinEffect::Hide,
                PinEffect::Audit(PinAudit::Submitted),
            ],
            None => Seq::empty(),
        },
        PinAnswer::Cancel => seq![
            PinEffect::ResetDigits,
            PinEffect::Hide,
            PinEffect::Audit(PinAudit::Cancelled),
        ],
    }
}

/// The steps that answer a submitted code: the digits are cleared before the code
/// is handed over. Where no callback waits, nothing is done.
pub fn pin_submit_handler<F>(slot: &mut PinSubmitSlot<F>, code: String) -> (r: Vec<PinEffect<F>>)
    ensures
        final(slot).waiting is None,
        r@ == effects_of(old(slot).waiting, PinAnswer::Submit(code)),
        old(slot).waiting is None ==> r@.len() == 0,
        old(slot).waiting matches Some(callback) ==> {
            &&& r@.len() == 4
            &&& r@[0] is ResetDigits
            &&& r@[1] == (PinEffect::Deliver { callback, code })
            &&& r@[2] is Hide
            &&& r@[3] == PinEffect::<F>::Audit(PinAudit::Submitted)
        },
{
    let mut steps: Vec<PinEffect<F>> = Vec::new();
    match slot.waiting.take() {
        Some(callback) => {
            steps.push(PinEffect::ResetDigits);
            steps.push(PinEffect::Deliver { callback, code });
            steps.push(PinEffect::Hide);
            steps.push(PinEffect::Audit(PinAudit::Submitted));
        },
        None => {},
    }
    assert(steps@ =~= effects_of(old(slot).waiting, PinAnswer::Submit(code)));
    steps
}

/// The steps that answer a cancelled entry. The callback is dropped; the window is
/// cleared and hidden whether or not one waited.
pub fn pin_cancel_handler<F>(slot: &mut PinSubmitSlot<F>) -> (r: Vec<PinEffect<F>>)
    ensures
        final(slot).waiting is None,
        r@ == effects_of(old(slot).waiting, PinAnswer::Cancel),
        r@.len() == 3,
        r@[0] is ResetDigits,
        r@[1] is Hide,
        r@[2] == PinEffect::<F>::Audit(PinAudit::Cancelled),
{
    slot.waiting = None;
    let mut steps: Vec<PinEffect<F>> = Vec::new();
    steps.push(PinEffect::ResetDigits);
    steps.push(PinEffect::Hide);
    steps.push(PinEffect::Audit(PinAudit::Cancelled));
    assert(steps@ =~= effects_of(old(slot).waiting, PinAnswer::Cancel));
    steps
}

/// A step of opening the entry window.
#[derive(Clone, Copy, Debug, PartialEq, Eq, Structural)]
pub enum PinSetup {
    SetNumericOnly(bool),
    ResetDigits,
    ConnectSubmit,
    ConnectCancel,
    Show,
}

/// The steps that open the entry window: it is cleared and connected before it is
/// shown.
pub fn setup_pin_window(numeric_only: bool) -> (r: Vec<PinSetup>)
    ensures
        r@ == seq![
            PinSetup::SetNumericOnly(numeric_only),
            PinSetup::ResetDigits,
            PinSetup::ConnectSubmit,
            PinSetup::ConnectCancel,
            PinSetup::Show,
        ],
        r@.no_duplicates(),
        r@.last() == PinSetup::Show,
        r@.contains(PinSetup::SetNumericOnly(numeric_only)),
        r@.contains(PinSetup::ResetDigits),
        r@.contains(PinSetup::ConnectSubmit),
        r@.contains(PinSetup::ConnectCancel),
{
    let mut steps: Vec<PinSetup> = Vec::new();
    steps.push(PinSetup::SetNumericOnly(numeric_only));
    steps.push(PinSetup::ResetDigits);
    steps.push(PinSetup::ConnectSubmit);
    steps.push(PinSetup::ConnectCancel);
    steps.push(PinSetup::Show);
    assert(steps@ =~= seq![
        PinSetup::SetNumericOnly(numeric_only),
        PinSetup::ResetDigits,
        PinSetup::ConnectSubmit,
        PinSetup::ConnectCancel,
        PinSetup::Show,
    ]);
    proof {
        assert(steps@[0] == PinSetup::SetNumericOnly(numeric_only));
        assert(steps@[1] == PinSetup::ResetDigits);
        assert(steps@[2] == PinSetup::ConnectSubmit);
        assert(steps@[3] == PinSetup::ConnectCancel);
    }
    steps
}

/// A request for a code: the slot with its callback, and the keys to offer.
pub struct PinRequest<F> {
    pub slot: PinSubmitSlot<F>,
    pub numeric_only: bool,
}

/// Opens the entry window for whoever needs a code. It keeps nothing itself.
#[derive(Clone, Copy, Debug, PartialEq, Eq, Structural)]
pub struct SlintPinHost;

impl SlintPinHost {
    pub fn new() -> (r: SlintPinHost)
        ensures
            r == SlintPinHost,
    {
        SlintPinHost
    }

    /// A request for a code of this format.
    pub fn request_pin<F>(&self, code_format: CodeFormat, on_submit: F) -> (r: PinRequest<F>)
        ensures
            r.slot.waiting == Some(on_submit),
            r.numeric_only == (code_format == CodeFormat::Number),
    {
        PinRequest {
            slot: PinSubmitSlot { waiting: Some(on_submit) },
            numeric_only: match code_format {
                CodeFormat::Number => true,
                CodeFormat::Any => false,
            },
        }
    }
}

impl Default for SlintPinHost {
    fn default() -> (r: SlintPinHost)
        ensures
            r == SlintPinHost,
    {
        SlintPinHost
    }
}

/// The steps that answer the user again and again. The first answer takes the
/// callback away.
pub open spec fn effects_of_all<F>(waiting: Option<F>, answers: Seq<PinAnswer>) -> Seq<PinEffect<F>>
    decreases answers.len(),
{
    if answers.len() == 0 {
        Seq::empty()
    } else {
        effects_of_all(waiting, answers.drop_last()) + effects_of(
            if answers.len() == 1 {
                waiting
            } else {
                None
            },
            answers.last(),
        )
    }
}

/// How often a code is handed over.
pub open spec fn deliveries<F>(effects: Seq<PinEffect<F>>) -> nat
    decreases effects.len(),
{
    if effects.len() == 0 {
        0
    } else {
        deliveries(effects.drop_last()) + if effects.last() is Deliver {
            1nat
        } else {
            0
        }
    }
}

proof fn lemma_deliveries_concat<F>(a: Seq<PinEffect<F>>, b: Seq<PinEffect<F>>)
    ensures
        deliveries(a + b) == deliveries(a) + deliveries(b),
    decreases b.len(),
{
    if b.len() == 0 {
        assert(a + b =~= a);
    } else {
        assert((a + b).drop_last() =~= a + b.drop_last());
        lemma_deliveries_concat(a, b.drop_last());
    }
}

proof fn lemma_no_delivery<F>(effects: Seq<PinEffect<F>>)
    requires
        forall|i: int| 0 <= i < effects.len() ==> !(#[trigger] effects[i] is Deliver),
    ensures
        deliveries(effects) == 0,
    decreases effects.len(),
{
    if effects.len() > 0 {
        lemma_no_delivery(effects.drop_last());
    }
}

proof fn lemma_deliveries_of<F>(waiting: Option<F>, answer: PinAnswer)
    ensures
        deliveries(effects_of(waiting, answer)) == if waiting is Some && answer is Submit {
            1nat
        } else {
            0
        },
{
    let all = effects_of(waiting, answer);
    match answer {
        PinAnswer::Submit(code) => match waiting {
            Some(callback) => {
                let head = all.take(1);
                let middle = seq![PinEffect::Deliver { callback, code }];
                let tail = all.skip(2);
                assert(all =~= head + middle + tail);
                lemma_deliveries_concat(head + middle, tail);
                lemma_deliveries_concat(head, middle);
                lemma_no_delivery(head);
                lemma_no_delivery(tail);
                assert(middle.drop_last() =~= Seq::empty());
                assert(deliveries(middle.drop_last()) == 0);
            },
            None => {},
        },
        PinAnswer::Cancel => {
            lemma_no_delivery(all);
        },
    }
}

/// However often the user answers, a code is handed over once at most: where a
/// callback waits and the first answer is a code.
pub proof fn one_code_is_delivered_at_most<F>(waiting: Option<F>, answers: Seq<PinAnswer>)
    ensures
        deliveries(effects_of_all(waiting, answers)) == if waiting is Some && answers.len() > 0
            && answers[0] is Submit {
            1nat
        } else {
            0
        },
    decreases answers.len(),
{
    if answers.len() > 0 {
        let rest = answers.drop_last();
        one_code_is_delivered_at_most(waiting, rest);
        let held = if answers.len() == 1 {
            waiting
        } else {
            None
        };
        lemma_deliveries_concat(effects_of_all(waiting, rest), effects_of(held, answers.last()));
        lemma_deliveries_of(held, answers.last());
    }
}

/// A code that is handed over is the one that was typed, goes to the callback that
/// waited, and does so when the digits are cleared already.
pub proof fn code_is_delivered_as_typed<F>(waiting: Option<F>, answer: PinAnswer, i: int)
    requires
        0 <= i < effects_of(waiting, answer).len(),
    ensures
        effects_of(waiting, answer)[i] matches PinEffect::Deliver { callback, code } ==> {
            &&& waiting == Some(callback)
            &&& answer == PinAnswer::Submit(code)
            &&& exists|j: int|
                0 <= j < i && (#[trigger] effects_of(waiting, answer)[j]) is ResetDigits
        },
{
    if effects_of(waiting, answer)[i] is Deliver {
        assert(effects_of(waiting, answer)[0] is ResetDigits);
    }
}

/// An answer that is acted on clears the digits first, hides the window, and is
/// recorded last and as what it was.
pub proof fn answer_clears_hides_and_records<F>(waiting: Option<F>, answer: PinAnswer)
    requires
        answer is Cancel || waiting is Some,
    ensures
        ({
            let e = effects_of(waiting, answer);
            &&& e.len() > 0
            &&& e[0] is ResetDigits
            &&& exists|i: int| 0 < i < e.len() - 1 && (#[trigger] e[i]) is Hide
            &&& answer is Submit ==> e.last() == PinEffect::<F>::Audit(PinAudit::Submitted)
            &&& answer is Cancel ==> e.last() == PinEffect::<F>::Audit(PinAudit::Cancelled)
        }),
{
    let e = effects_of(waiting, answer);
    assert(e[e.len() - 2] is Hide);
}

/// A code for which nobody waits has no effect.
pub proof fn unawaited_code_is_passed_over<F>(code: String)
    ensures
        effects_of::<F>(None, PinAnswer::Submit(code)).len() == 0,
{
}

} // verus!
