//! The USB transfers an operation asks for, the answers it gets, and how an
//! operation goes on after each answer.
//!
//! An operation is stated as a [`Script`]: it is done, or it asks for one
//! [`Action`] and goes on with a script for every [`Answer`].  [`Request`] and
//! [`Reply`] are the executable counterparts of the two.

use vstd::prelude::*;

use crate::cmd::{PicobootStatusCmd, StatusView};
use crate::connection::ConnectionState;
use crate::error::{Error, TransferError, UsbError};
use crate::target::Direction;
use crate::timeouts::Duration;

verus! {

/// Who defines a control request.
#[derive(Debug, Clone, Copy, PartialEq, Eq, Structural)]
pub enum ControlType {
    /// The USB standard
    Standard,
    /// The maker of the device
    Vendor,
}

/// What a control request is about.
#[derive(Debug, Clone, Copy, PartialEq, Eq, Structural)]
pub enum Recipient {
    /// An interface
    Interface,
    /// An endpoint
    Endpoint,
}

/// A control request.
#[derive(Debug, Clone, Copy, PartialEq, Eq, Structural)]
pub struct Control {
    pub control_type: ControlType,
    pub recipient: Recipient,
    pub request: u8,
    pub value: u16,
    pub index: u16,
    /// Bytes of data that go with the request
    pub length: u16,
}

/// What an operation needs done next.
#[derive(Debug, PartialEq, Eq)]
pub enum Request {
    /// Open the device.
    Open,
    /// Detach the kernel's driver from an interface.
    DetachKernelDriver { if_num: u8 },
    /// Claim an interface.
    ClaimInterface { if_num: u8 },
    /// Send a control request that the device answers with data.
    ControlIn { control: Control, timeout: Duration },
    /// Send a control request without data.
    ControlOut { control: Control, timeout: Duration },
    /// Clear the halt of a bulk endpoint.
    ClearHalt { endpoint: u8, direction: Direction },
    /// Send data to a bulk endpoint.
    BulkOut { endpoint: u8, data: Vec<u8>, timeout: Duration },
    /// Receive up to `len` bytes from a bulk endpoint.
    BulkIn { endpoint: u8, len: usize, timeout: Duration },
    /// Close the device, giving the interface back to the kernel's driver first
    /// if there is one.
    Release { reattach: Option<u8> },
}

/// What [`Request`] asks for.
pub enum Action {
    Open,
    DetachKernelDriver { if_num: u8 },
    ClaimInterface { if_num: u8 },
    ControlIn { control: Control, timeout: Duration },
    ControlOut { control: Control, timeout: Duration },
    ClearHalt { endpoint: u8, direction: Direction },
    BulkOut { endpoint: u8, data: Seq<u8>, timeout: Duration },
    BulkIn { endpoint: u8, len: usize, timeout: Duration },
    Release { reattach: Option<u8> },
}

impl View for Request {
    type V = Action;

    open spec fn view(&self) -> Action {
        match *self {
            Request::Open => Action::Open,
            Request::DetachKernelDriver { if_num } => Action::DetachKernelDriver { if_num },
            Request::ClaimInterface { if_num } => Action::ClaimInterface { if_num },
            Request::ControlIn { control, timeout } => Action::ControlIn { control, timeout },
            Request::ControlOut { control, timeout } => Action::ControlOut { control, timeout },
            Request::ClearHalt { endpoint, direction } => Action::ClearHalt { endpoint, direction },
            Request::BulkOut { endpoint, data, timeout } => Action::BulkOut {
                endpoint,
                data: data@,
                timeout,
            },
            Request::BulkIn { endpoint, len, timeout } => Action::BulkIn { endpoint, len, timeout },
            Request::Release { reattach } => Action::Release { reattach },
        }
    }
}

/// Whether the kernel's driver was in the way.
#[derive(Debug, PartialEq, Eq)]
pub enum Detached {
    /// It was, and is detached now.
    Yes,
    /// There was none.
    NotActive,
    /// It could not be detached.
    Failed(UsbError),
}

/// Why a halt was not cleared.
#[derive(Debug, PartialEq, Eq)]
pub enum ClearHaltError {
    /// The endpoint could not be used.
    Endpoint(UsbError),
    /// The device did not clear the halt.
    Clear(UsbError),
}

/// Why a bulk transfer failed.
#[derive(Debug, PartialEq, Eq)]
pub enum BulkError {
    /// The endpoint could not be used.
    Endpoint(UsbError),
    /// The transfer failed.
    Transfer(TransferError),
}

/// What a bulk endpoint sent.
#[derive(Debug, PartialEq, Eq)]
pub struct Received {
    /// The data
    pub data: Vec<u8>,
    /// Bytes the transfer moved
    pub actual_len: usize,
}

/// Outcome of a [`Request`].
#[derive(Debug, PartialEq, Eq)]
pub enum Reply {
    /// To [`Request::Open`]
    Open(Result<(), UsbError>),
    /// To [`Request::DetachKernelDriver`]
    DetachKernelDriver(Detached),
    /// To [`Request::ClaimInterface`]
    ClaimInterface(Result<(), UsbError>),
    /// To [`Request::ControlIn`]: the data
    ControlIn(Result<Vec<u8>, TransferError>),
    /// To [`Request::ControlOut`]
    ControlOut(Result<(), TransferError>),
    /// To [`Request::ClearHalt`]
    ClearHalt(Result<(), ClearHaltError>),
    /// To [`Request::BulkOut`]: bytes sent
    BulkOut(Result<usize, BulkError>),
    /// To [`Request::BulkIn`]
    BulkIn(Result<Received, BulkError>),
    /// To [`Request::Release`]
    Release,
}

/// What [`Reply`] says.
pub enum Answer {
    Open(Result<(), UsbError>),
    DetachKernelDriver(Detached),
    ClaimInterface(Result<(), UsbError>),
    ControlIn(Result<Seq<u8>, TransferError>),
    ControlOut(Result<(), TransferError>),
    ClearHalt(Result<(), ClearHaltError>),
    BulkOut(Result<usize, BulkError>),
    BulkIn(Result<(Seq<u8>, usize), BulkError>),
    Release,
}

impl View for Reply {
    type V = Answer;

    open spec fn view(&self) -> Answer {
        match *self {
            Reply::Open(r) => Answer::Open(r),
            Reply::DetachKernelDriver(r) => Answer::DetachKernelDriver(r),
            Reply::ClaimInterface(r) => Answer::ClaimInterface(r),
            Reply::ControlIn(Ok(data)) => Answer::ControlIn(Ok(data@)),
            Reply::ControlIn(Err(e)) => Answer::ControlIn(Err(e)),
            Reply::ControlOut(r) => Answer::ControlOut(r),
            Reply::ClearHalt(r) => Answer::ClearHalt(r),
            Reply::BulkOut(r) => Answer::BulkOut(r),
            Reply::BulkIn(Ok(r)) => Answer::BulkIn(Ok((r.data@, r.actual_len))),
            Reply::BulkIn(Err(e)) => Answer::BulkIn(Err(e)),
            Reply::Release => Answer::Release,
        }
    }
}

/// Whether an answer is one to an action.
pub open spec fn answers(answer: Answer, action: Action) -> bool {
    match action {
        Action::Open => answer is Open,
        Action::DetachKernelDriver { .. } => answer is DetachKernelDriver,
        Action::ClaimInterface { .. } => answer is ClaimInterface,
        Action::ControlIn { .. } => answer is ControlIn,
        Action::ControlOut { .. } => answer is ControlOut,
        Action::ClearHalt { .. } => answer is ClearHalt,
        Action::BulkOut { .. } => answer is BulkOut,
        Action::BulkIn { .. } => answer is BulkIn,
        Action::Release { .. } => answer is Release,
    }
}

/// What an operation gives back.
#[derive(Debug)]
pub enum Value {
    /// Nothing but that it succeeded
    Unit,
    /// Data from the device
    Bytes(Vec<u8>),
    /// The status of the last command
    Status(PicobootStatusCmd),
}

/// What [`Value`] stands for.
pub enum Output {
    Unit,
    Bytes(Seq<u8>),
    Status(StatusView),
}

impl View for Value {
    type V = Output;

    open spec fn view(&self) -> Output {
        match *self {
            Value::Unit => Output::Unit,
            Value::Bytes(data) => Output::Bytes(data@),
            Value::Status(status) => Output::Status(status@),
        }
    }
}

/// Where an operation stands.
#[derive(Debug)]
pub enum Step {
    /// It needs a transfer.
    Ask(Request),
    /// It is done.
    Done(Result<Value, Error>),
}

impl Step {
    /// Whether the operation asks for `action` here.
    pub open spec fn asks(self, action: Action) -> bool {
        self matches Step::Ask(request) && request@ == action
    }

    /// Whether the operation is done here, with `result`.
    pub open spec fn ends(self, result: Result<Output, Error>) -> bool {
        match self {
            Step::Ask(_) => false,
            Step::Done(Ok(value)) => result == Ok::<Output, Error>(value@),
            Step::Done(Err(e)) => result == Err::<Output, Error>(e),
        }
    }
}

/// The course of an operation under every sequence of answers.
#[verifier::reject_recursive_types(R)]
pub enum Script<R> {
    /// It is done.
    Done(R),
    /// It asks for an action, and goes on according to the answer.  The connection
    /// is open or not meanwhile, in the state given last.
    Ask(Action, spec_fn(Answer) -> Script<R>, Option<ConnectionState>),
}

impl<R> Script<R> {
    /// The script after an answer.
    pub open spec fn after(self, answer: Answer) -> Script<R> {
        (self->Ask_1)(answer)
    }
}

/// `s`, and after it what `f` makes of its result.
pub open spec fn bind<A, B>(s: Script<A>, f: spec_fn(A) -> Script<B>) -> Script<B>
    decreases s,
{
    match s {
        Script::Done(a) => f(a),
        Script::Ask(action, k, now) => Script::Ask(
            action,
            |answer: Answer| bind(k(answer), f),
            now,
        ),
    }
}

/// An answer to a script in two parts goes to the first part.
pub proof fn lemma_bind_after<A, B>(s: Script<A>, f: spec_fn(A) -> Script<B>, answer: Answer)
    requires
        s is Ask,
    ensures
        bind(s, f) is Ask,
        bind(s, f)->Ask_0 == s->Ask_0,
        bind(s, f)->Ask_2 == s->Ask_2,
        bind(s, f).after(answer) == bind(s.after(answer), f),
{
}

/// What changes nothing after any answer changes nothing.
pub proof fn lemma_bind_unchanged<R>(
    action: Action,
    k: spec_fn(Answer) -> Script<R>,
    now: Option<ConnectionState>,
    f: spec_fn(R) -> Script<R>,
)
    requires
        forall|answer: Answer| bind(#[trigger] k(answer), f) == k(answer),
    ensures
        bind(Script::Ask(action, k, now), f) == Script::Ask(action, k, now),
{
    let s = Script::Ask(action, k, now);
    let g = bind(s, f)->Ask_1;
    assert forall|answer: Answer| #![trigger g(answer)] g(answer) == k(answer) by {
        lemma_bind_after(s, f, answer);
    }
    assert(g =~= k);
}

/// What is done after the second of two parts may as well be part of it.
pub proof fn lemma_bind_assoc<A, B, C>(
    s: Script<A>,
    f: spec_fn(A) -> Script<B>,
    g: spec_fn(B) -> Script<C>,
    h: spec_fn(A) -> Script<C>,
)
    requires
        forall|a: A| #[trigger] h(a) == bind(f(a), g),
    ensures
        bind(bind(s, f), g) == bind(s, h),
    decreases s,
{
    if let Script::Ask(action, k, now) = s {
        lemma_bind_after(s, f, Answer::Release);
        lemma_bind_after(s, h, Answer::Release);
        lemma_bind_after(bind(s, f), g, Answer::Release);
        let left = bind(bind(s, f), g)->Ask_1;
        let right = bind(s, h)->Ask_1;
        assert forall|answer: Answer|
            #![trigger left(answer)]
            #![trigger right(answer)]
            left(answer) == right(answer) by {
            lemma_bind_after(s, f, answer);
            lemma_bind_after(s, h, answer);
            lemma_bind_after(bind(s, f), g, answer);
            lemma_bind_assoc(k(answer), f, g, h);
        }
        assert(left =~= right);
    } else {
        assert(h(s->Done_0) == bind(f(s->Done_0), g));
    }
}

// ----- what holds of every course of an operation -----

/// Whether `s` ends well, whatever the answers.
pub open spec fn ends_in<R>(s: Script<R>, good: spec_fn(R) -> bool) -> bool
    decreases s,
{
    match s {
        Script::Done(r) => good(r),
        Script::Ask(action, k, now) => forall|answer: Answer|
            answers(answer, action) ==> ends_in(#[trigger] k(answer), good),
    }
}

/// A rule about the actions and answers of an operation, in the order they come.
/// A rule keeps a note of what happened so far.
#[verifier::reject_recursive_types(M)]
#[verifier::reject_recursive_types(R)]
pub struct Rule<M, R> {
    /// Whether an action may come now
    pub allows: spec_fn(M, Action) -> bool,
    /// The note after an action and its answer
    pub note: spec_fn(M, Action, Answer) -> M,
    /// Whether the operation may end now, with this result
    pub ends: spec_fn(M, R) -> bool,
}

/// Whether `s` keeps to a rule, whatever the answers, given the note so far.
pub open spec fn keeps<M, R>(s: Script<R>, m: M, rule: Rule<M, R>) -> bool
    decreases s,
{
    match s {
        Script::Done(r) => (rule.ends)(m, r),
        Script::Ask(action, k, now) => {
            &&& (rule.allows)(m, action)
            &&& forall|answer: Answer|
                answers(answer, action) ==> keeps(
                    #[trigger] k(answer),
                    (rule.note)(m, action, answer),
                    rule,
                )
        },
    }
}

/// A script in two parts ends well if the second part does, however the first
/// part ends.
pub proof fn lemma_bind_ends<A, B>(
    s: Script<A>,
    f: spec_fn(A) -> Script<B>,
    between: spec_fn(A) -> bool,
    good: spec_fn(B) -> bool,
)
    requires
        ends_in(s, between),
        forall|a: A| between(a) ==> ends_in(#[trigger] f(a), good),
    ensures
        ends_in(bind(s, f), good),
    decreases s,
{
    if let Script::Ask(action, k, now) = s {
        let after = bind(s, f)->Ask_1;
        assert forall|answer: Answer| answers(answer, action) implies ends_in(
            #[trigger] after(answer),
            good,
        ) by {
            lemma_bind_after(s, f, answer);
            assert(ends_in(k(answer), between));
            lemma_bind_ends(k(answer), f, between, good);
        }
    }
}

/// A script that ends well ends no worse.
pub proof fn lemma_ends_weaker<R>(
    s: Script<R>,
    strong: spec_fn(R) -> bool,
    weak: spec_fn(R) -> bool,
)
    requires
        ends_in(s, strong),
        forall|r: R| #[trigger] strong(r) ==> weak(r),
    ensures
        ends_in(s, weak),
    decreases s,
{
    if let Script::Ask(action, k, now) = s {
        assert forall|answer: Answer| answers(answer, action) implies ends_in(
            #[trigger] k(answer),
            weak,
        ) by {
            lemma_ends_weaker(k(answer), strong, weak);
        }
    } else {
        assert(strong(s->Done_0));
    }
}

/// A script in two parts keeps to a rule if the second part does, however the
/// first part ends.
pub proof fn lemma_bind_keeps<M, A, B>(
    s: Script<A>,
    f: spec_fn(A) -> Script<B>,
    m: M,
    first: Rule<M, A>,
    rule: Rule<M, B>,
)
    requires
        keeps(s, m, first),
        first.allows == rule.allows,
        first.note == rule.note,
        forall|n: M, a: A| #[trigger] (first.ends)(n, a) ==> keeps(f(a), n, rule),
    ensures
        keeps(bind(s, f), m, rule),
    decreases s,
{
    if let Script::Ask(action, k, now) = s {
        let after = bind(s, f)->Ask_1;
        assert forall|answer: Answer| answers(answer, action) implies keeps(
            #[trigger] after(answer),
            (rule.note)(m, action, answer),
            rule,
        ) by {
            lemma_bind_after(s, f, answer);
            assert(keeps(k(answer), (first.note)(m, action, answer), first));
            lemma_bind_keeps(k(answer), f, (first.note)(m, action, answer), first, rule);
        }
    } else {
        assert((first.ends)(m, s->Done_0));
    }
}

/// A rule may ask less of the end.
pub proof fn lemma_keeps_weaker<M, R>(s: Script<R>, m: M, strong: Rule<M, R>, weak: Rule<M, R>)
    requires
        keeps(s, m, strong),
        strong.allows == weak.allows,
        strong.note == weak.note,
        forall|n: M, r: R| #[trigger] (strong.ends)(n, r) ==> (weak.ends)(n, r),
    ensures
        keeps(s, m, weak),
    decreases s,
{
    if let Script::Ask(action, k, now) = s {
        assert forall|answer: Answer| answers(answer, action) implies keeps(
            #[trigger] k(answer),
            (weak.note)(m, action, answer),
            weak,
        ) by {
            lemma_keeps_weaker(k(answer), (strong.note)(m, action, answer), strong, weak);
        }
    } else {
        assert((strong.ends)(m, s->Done_0));
    }
}

} // verus!
