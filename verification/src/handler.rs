use vstd::prelude::*;

verus! {

/// What a handler is called with: who asked, the decoded payload and its
/// schema tag.
#[derive(Clone, Debug, PartialEq, Eq)]
pub struct HandlerInput {
    pub source: u32,
    pub data: Vec<u8>,
    pub schema: String,
}

/// What a handler answers with: the raw payload of the reply and its schema tag.
#[derive(Clone, Debug, PartialEq, Eq)]
pub struct HandlerOutput {
    pub data: Vec<u8>,
    pub schema: String,
}

/// Why a handler could not answer.
#[derive(Clone, Debug, PartialEq, Eq)]
pub struct HandlerError {
    pub message: String,
}

/// The mathematical content of a [`HandlerInput`].
pub struct HandlerInputView {
    pub source: u32,
    pub data: Seq<u8>,
    pub schema: Seq<char>,
}

/// The mathematical content of a [`HandlerOutput`].
pub struct HandlerOutputView {
    pub data: Seq<u8>,
    pub schema: Seq<char>,
}

impl View for HandlerInput {
    type V = HandlerInputView;

    open spec fn view(&self) -> HandlerInputView {
        HandlerInputView { source: self.source, data: self.data@, schema: self.schema@ }
    }
}

impl View for HandlerOutput {
    type V = HandlerOutputView;

    open spec fn view(&self) -> HandlerOutputView {
        HandlerOutputView { data: self.data@, schema: self.schema@ }
    }
}

impl View for HandlerError {
    type V = Seq<char>;

    open spec fn view(&self) -> Seq<char> {
        self.message@
    }
}

impl HandlerError {
    /// A failure with the given text.
    pub fn new(message: String) -> (error: HandlerError)
        ensures
            error@ == message@,
    {
        HandlerError { message }
    }
}

/// The mathematical content of what a call of a handler returned.
pub open spec fn outcome_view(outcome: Result<HandlerOutput, HandlerError>) -> Result<
    HandlerOutputView,
    Seq<char>,
> {
    match outcome {
        Ok(output) => Ok(output@),
        Err(error) => Err(error@),
    }
}

/// One registered operation. It holds no state of its own: what it works on
/// arrives as `state`, a fresh copy of the shared application state, and as
/// `input`.
pub trait Handler<D> {
    /// Whether `call` on `state` and `input` may return `outcome`. An
    /// implementation that does not say allows every outcome.
    open spec fn may_return(
        &self,
        state: D,
        input: HandlerInput,
        outcome: Result<HandlerOutput, HandlerError>,
    ) -> bool {
        true
    }

    /// Runs the operation. A failure is an ordinary result.
    fn call(&self, state: D, input: HandlerInput) -> (outcome: Result<HandlerOutput, HandlerError>)
        ensures
            self.may_return(state, input, outcome),
    ;
}

/// A boxed handler is a handler, so that one routing table can hold
/// operations of different types as `Box<dyn Handler<D>>`.
impl<D, T: Handler<D> + ?Sized> Handler<D> for Box<T> {
    open spec fn may_return(
        &self,
        state: D,
        input: HandlerInput,
        outcome: Result<HandlerOutput, HandlerError>,
    ) -> bool {
        (**self).may_return(state, input, outcome)
    }

    fn call(&self, state: D, input: HandlerInput) -> (outcome: Result<HandlerOutput, HandlerError>) {
        (**self).call(state, input)
    }
}

/// A function taken as a handler.
pub struct FnHandler<D, F: Fn(D, HandlerInput) -> Result<HandlerOutput, HandlerError>> {
    operation: F,
    state: core::marker::PhantomData<D>,
}

impl<D, F: Fn(D, HandlerInput) -> Result<HandlerOutput, HandlerError>> FnHandler<D, F> {
    /// The function accepts every state and input.
    #[verifier::type_invariant]
    spec fn accepts_all(self) -> bool {
        forall|state: D, input: HandlerInput| call_requires(self.operation, (state, input))
    }

    /// The function that this handler calls.
    pub closed spec fn operation(self) -> F {
        self.operation
    }
}

impl<D, F: Fn(D, HandlerInput) -> Result<HandlerOutput, HandlerError>> Handler<D> for FnHandler<
    D,
    F,
> {
    open spec fn may_return(
        &self,
        state: D,
        input: HandlerInput,
        outcome: Result<HandlerOutput, HandlerError>,
    ) -> bool {
        call_ensures(self.operation(), (state, input), outcome)
    }

    fn call(&self, state: D, input: HandlerInput) -> (outcome: Result<HandlerOutput, HandlerError>) {
        proof {
            use_type_invariant(self);
        }
        (self.operation)(state, input)
    }
}

/// Makes a handler of an operation: a function from the application state and
/// a request to a result. The operation has to accept every state and request.
pub fn handler<D, F: Fn(D, HandlerInput) -> Result<HandlerOutput, HandlerError>>(operation: F) -> (made:
    FnHandler<D, F>)
    requires
        forall|state: D, input: HandlerInput| call_requires(operation, (state, input)),
    ensures
        made.operation() == operation,
        forall|state: D, input: HandlerInput, outcome: Result<HandlerOutput, HandlerError>|
            #[trigger] made.may_return(state, input, outcome) == call_ensures(
                operation,
                (state, input),
                outcome,
            ),
{
    FnHandler { operation, state: core::marker::PhantomData }
}

} // verus!
