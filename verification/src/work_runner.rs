use crate::codec::{base64_bytes, base64_text, decode, encode, max_encodable_len};
use crate::handler::{
    outcome_view, Handler, HandlerError, HandlerInput, HandlerInputView, HandlerOutput,
    HandlerOutputView,
};
use crate::protocol::{Message, MessageView};
use crate::routing::{resolve, Module};
use vstd::prelude::*;

verus! {

/// Why a work item was answered without a handler's result.
#[derive(Clone, Copy, Debug, PartialEq, Eq)]
pub enum DispatchError {
    /// The payload of the request is not validly encoded.
    MalformedPayload,
    /// No handler is registered under the command.
    HandlerNotFound,
    /// The handler's output is too long to be encoded.
    OversizedOutput,
}

impl DispatchError {
    /// The failure text that the reply carries.
    pub open spec fn text(self) -> Seq<char> {
        match self {
            DispatchError::MalformedPayload => "unable to decode the message payload"@,
            DispatchError::HandlerNotFound => "handler not found"@,
            DispatchError::OversizedOutput => "handler output too large to encode"@,
        }
    }

    /// The failure text that the reply carries.
    pub fn message(&self) -> (message: String)
        ensures
            message@ == self.text(),
    {
        match self {
            DispatchError::MalformedPayload => "unable to decode the message payload".to_owned(),
            DispatchError::HandlerNotFound => "handler not found".to_owned(),
            DispatchError::OversizedOutput => "handler output too large to encode".to_owned(),
        }
    }
}

/// The reply to `request` once the handler returned `outcome`: the result or
/// the failure is stored, then the addressing is turned round. A failure
/// leaves the schema tag of the request in place. An output too long to encode
/// is answered as a failure.
pub open spec fn reply_to(
    request: MessageView,
    outcome: Result<HandlerOutputView, Seq<char>>,
) -> MessageView {
    match outcome {
        Ok(output) => if output.data.len() <= max_encodable_len() {
            request.succeeded(base64_text(output.data), output.schema).rotated()
        } else {
            request.failed(DispatchError::OversizedOutput.text()).rotated()
        },
        Err(reason) => request.failed(reason).rotated(),
    }
}

/// What a work item asks for, given what its payload decoded to: the handler
/// to call and what to call it with, or why nothing is called. A payload
/// that did not decode is refused before the command is looked at.
pub open spec fn routed<H>(
    table: Map<Seq<char>, H>,
    command: Seq<char>,
    request: MessageView,
    payload: Option<Seq<u8>>,
) -> Result<(H, HandlerInputView), DispatchError> {
    match payload {
        None => Err(DispatchError::MalformedPayload),
        Some(bytes) => match resolve(table, command) {
            None => Err(DispatchError::HandlerNotFound),
            Some(handler) => Ok(
                (
                    handler,
                    HandlerInputView { source: request.source, data: bytes, schema: request.schema },
                ),
            ),
        },
    }
}

/// What a work item asks for.
pub open spec fn target<H>(
    table: Map<Seq<char>, H>,
    command: Seq<char>,
    request: MessageView,
) -> Result<(H, HandlerInputView), DispatchError> {
    routed(table, command, request, base64_bytes(request.data))
}

/// Whether `reply` answers `request` with something that `handler` may
/// return when called with a copy of `shared` and with `asked`.
pub open spec fn answers<D: Clone, H: Handler<D>>(
    handler: H,
    shared: D,
    asked: HandlerInputView,
    request: MessageView,
    reply: MessageView,
) -> bool {
    exists|state: D, given: HandlerInput, outcome: Result<HandlerOutput, HandlerError>|
        #![trigger handler.may_return(state, given, outcome)]
        cloned(shared, state) && given@ == asked && handler.may_return(state, given, outcome)
            && reply == reply_to(request, outcome_view(outcome))
}

/// A request whose handler is being called. It can only be turned into its
/// reply, once, by [`WorkRunner::finish`].
pub struct Pending {
    request: Message,
}

impl Pending {
    /// The request that waits for its reply.
    pub closed spec fn request(&self) -> MessageView {
        self.request@
    }
}

/// What is to be done next for a work item.
pub enum Step<'a, D, H> {
    /// Call `handler` with `state` and `input`, then hand what it returns
    /// and `pending` to [`WorkRunner::finish`].
    Call { handler: &'a H, state: D, input: HandlerInput, pending: Pending },
    /// Nothing is called: push `message`, the reply that reports why.
    Reply { message: Message },
}

/// The dispatcher: the routing table and the application state that every
/// handler is called with. `H` is what the table holds for a command; left
/// out, it is a boxed [`Handler`].
pub struct WorkRunner<D, H = Box<dyn Handler<D>>> {
    root: Module<H>,
    data: D,
}

impl<D, H> WorkRunner<D, H> {
    /// The commands that this dispatcher serves.
    pub closed spec fn table(&self) -> Map<Seq<char>, H> {
        self.root@
    }

    /// The application state that handlers get a copy of.
    pub closed spec fn state(&self) -> D {
        self.data
    }

    /// A dispatcher over `root` that hands copies of `data` to the handlers.
    pub fn new(data: D, root: Module<H>) -> (runner: Self)
        ensures
            runner.table() == root@,
            runner.state() == data,
    {
        WorkRunner { root, data }
    }

    /// The routing table.
    pub fn root(&self) -> (root: &Module<H>)
        ensures
            root@ == self.table(),
    {
        &self.root
    }

    /// The shared application state.
    pub fn data(&self) -> (data: &D)
        ensures
            *data == self.state(),
    {
        &self.data
    }

    /// Decides what to call for a request whose payload decoded to `payload`
    /// (`None` where it did not decode).
    pub fn route<'a>(&'a self, command: &str, request: &Message, payload: Option<Vec<u8>>) -> (found:
        Result<(&'a H, HandlerInput), DispatchError>)
        ensures
            match found {
                Ok((handler, input)) => routed(
                    self.table(),
                    command@,
                    request@,
                    match payload {
                        Some(bytes) => Some(bytes@),
                        None => None,
                    },
                ) == Ok::<(H, HandlerInputView), DispatchError>((*handler, input@)),
                Err(error) => routed(
                    self.table(),
                    command@,
                    request@,
                    match payload {
                        Some(bytes) => Some(bytes@),
                        None => None,
                    },
                ) == Err::<(H, HandlerInputView), DispatchError>(error),
            },
    {
        match payload {
            None => Err(DispatchError::MalformedPayload),
            Some(bytes) => match self.root.lookup(command) {
                None => Err(DispatchError::HandlerNotFound),
                Some(handler) => Ok(
                    (
                        handler,
                        HandlerInput {
                            source: request.source,
                            data: bytes,
                            schema: request.schema.clone(),
                        },
                    ),
                ),
            },
        }
    }

    /// Decodes the payload of `request` and decides what to call for it.
    pub fn resolve<'a>(&'a self, command: &str, request: &Message) -> (found: Result<
        (&'a H, HandlerInput),
        DispatchError,
    >)
        ensures
            match found {
                Ok((handler, input)) => target(self.table(), command@, request@) == Ok::<
                    (H, HandlerInputView),
                    DispatchError,
                >((*handler, input@)),
                Err(error) => target(self.table(), command@, request@) == Err::<
                    (H, HandlerInputView),
                    DispatchError,
                >(error),
            },
    {
        let payload = decode(request.data.as_str());
        self.route(command, request, payload)
    }

    /// Rewrites `msg` into the reply for `result`: the encoded output with its
    /// schema tag and no failure text, or the failure text over an empty
    /// payload and the schema tag that `msg` had; either way addressed back to
    /// the sender. An output too long to encode is reported as a failure.
    pub fn prepare(msg: &mut Message, result: Result<HandlerOutput, HandlerError>)
        ensures
            final(msg)@ == reply_to(old(msg)@, outcome_view(result)),
            final(msg)@.destination == seq![old(msg)@.source],
            final(msg)@.source == if old(msg)@.destination.len() > 0 {
                old(msg)@.destination[0]
            } else {
                old(msg)@.source
            },
    {
        match result {
            Ok(output) => match encode(&output.data) {
                Some(text) => msg.succeed(text, output.schema),
                None => msg.fail(DispatchError::OversizedOutput.message()),
            },
            Err(error) => msg.fail(error.message),
        }
        msg.rotate();
    }

    /// Rewrites `msg` into the reply that reports `error`.
    pub fn reject(msg: &mut Message, error: DispatchError)
        ensures
            final(msg)@ == reply_to(old(msg)@, Err(error.text())),
    {
        msg.fail(error.message());
        msg.rotate();
    }

    /// Ends a work item whose handler returned `outcome`: the reply to push.
    pub fn finish(pending: Pending, outcome: Result<HandlerOutput, HandlerError>) -> (reply:
        Message)
        ensures
            reply@ == reply_to(pending.request(), outcome_view(outcome)),
    {
        let mut msg = pending.request;
        Self::prepare(&mut msg, outcome);
        msg
    }
}

impl<D: Clone, H> WorkRunner<D, H> {
    /// Starts a work item, a command with its request. Where the payload
    /// decodes and the command is known, the handler is to be called with a
    /// fresh copy of the application state; else the reply that reports the
    /// error is ready to be pushed.
    pub fn begin<'a>(&'a self, input: (String, Message)) -> (step: Step<'a, D, H>)
        ensures
            match step {
                Step::Call { handler, state, input: given, pending } => {
                    &&& target(self.table(), input.0@, input.1@) == Ok::<
                        (H, HandlerInputView),
                        DispatchError,
                    >((*handler, given@))
                    &&& cloned(self.state(), state)
                    &&& pending.request() == input.1@
                },
                Step::Reply { message } => {
                    &&& target(self.table(), input.0@, input.1@) matches Err(error)
                    &&& message@ == reply_to(input.1@, Err(error.text()))
                },
            },
    {
        let (command, mut msg) = input;
        match self.resolve(command.as_str(), &msg) {
            Ok((handler, given)) => Step::Call {
                handler,
                state: self.data.clone(),
                input: given,
                pending: Pending { request: msg },
            },
            Err(error) => {
                Self::reject(&mut msg, error);
                Step::Reply { message: msg }
            },
        }
    }
}

impl<D: Clone, H: Handler<D>> WorkRunner<D, H> {
    /// Serves one work item, a command with its request, and returns the reply
    /// to push: the handler's result, the handler's failure, or the report that
    /// the payload did not decode or that the command is unknown.
    pub fn run(&self, input: (String, Message)) -> (reply: Message)
        ensures
            match target(self.table(), input.0@, input.1@) {
                Ok((handler, asked)) => answers(handler, self.state(), asked, input.1@, reply@),
                Err(error) => reply@ == reply_to(input.1@, Err(error.text())),
            },
    {
        match self.begin(input) {
            Step::Call { handler, state, input: given, pending } => {
                let ghost handed = state;
                let ghost asked = given;
                let outcome = handler.call(state, given);
                proof {
                    assert(handler.may_return(handed, asked, outcome));
                }
                Self::finish(pending, outcome)
            },
            Step::Reply { message } => message,
        }
    }
}

/// Whatever the handler returned, the reply goes to the old source alone. It
/// comes from the first hop of the old chain, or from the old source where
/// the chain was empty.
pub proof fn lemma_reply_unwinds_one_hop(
    request: MessageView,
    outcome: Result<HandlerOutputView, Seq<char>>,
)
    ensures
        reply_to(request, outcome).destination == seq![request.source],
        request.destination.len() > 0 ==> reply_to(request, outcome).source
            == request.destination[0],
        request.destination.len() == 0 ==> reply_to(request, outcome).source == request.source,
{
}

/// The reply to a call that succeeded carries the encoded output under the
/// output's schema tag and no failure text.
pub proof fn lemma_success_is_encoded(request: MessageView, output: HandlerOutputView)
    requires
        output.data.len() <= max_encodable_len(),
    ensures
        reply_to(request, Ok(output)).data == base64_text(output.data),
        reply_to(request, Ok(output)).schema == output.schema,
        reply_to(request, Ok(output)).error is None,
{
}

/// The reply to a call that failed carries the failure text over an empty
/// payload, under the schema tag of the request.
pub proof fn lemma_failure_is_reported(request: MessageView, reason: Seq<char>)
    ensures
        reply_to(request, Err(reason)).error == Some(reason),
        reply_to(request, Err(reason)).data == Seq::<char>::empty(),
        reply_to(request, Err(reason)).schema == request.schema,
{
}

/// A command that the table does not hold is answered, not dropped: nothing
/// is called and the reply carries a failure text, which says that no handler
/// was found wherever the payload decodes.
pub proof fn lemma_unknown_command_is_answered<H>(
    table: Map<Seq<char>, H>,
    command: Seq<char>,
    request: MessageView,
)
    requires
        !table.contains_key(command),
    ensures
        target(table, command, request) matches Err(error) && reply_to(
            request,
            Err(error.text()),
        ).error == Some(error.text()),
        base64_bytes(request.data) is Some ==> target(table, command, request) == Err::<
            (H, HandlerInputView),
            DispatchError,
        >(DispatchError::HandlerNotFound),
        DispatchError::HandlerNotFound.text() == "handler not found"@,
{
}

/// A payload that does not decode is answered, not dropped, whatever the
/// command: nothing is called and the reply says that the payload could not be
/// decoded.
pub proof fn lemma_malformed_payload_is_answered<H>(
    table: Map<Seq<char>, H>,
    command: Seq<char>,
    request: MessageView,
)
    ensures
        base64_bytes(request.data) is None ==> target(table, command, request) == Err::<
            (H, HandlerInputView),
            DispatchError,
        >(DispatchError::MalformedPayload),
        reply_to(request, Err(DispatchError::MalformedPayload.text())).error == Some(
            DispatchError::MalformedPayload.text(),
        ),
        reply_to(request, Err(DispatchError::MalformedPayload.text())).data == Seq::<
            char,
        >::empty(),
{
}

} // verus!
