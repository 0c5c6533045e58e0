use vstd::prelude::*;

verus! {

/// The envelope exchanged over the queue: who sent it, where it still has to
/// go, the text-encoded payload, an optional failure text and the schema tag
/// of the payload.
#[derive(Clone, Debug, PartialEq, Eq)]
pub struct Message {
    /// Address of the node that sent the message.
    pub source: u32,
    /// The hops that remain; an empty chain is valid.
    pub destination: Vec<u32>,
    /// The payload in its text encoding.
    pub data: String,
    /// Why the request failed, if it did.
    pub error: Option<String>,
    /// How `data` is to be read by the next consumer.
    pub schema: String,
}

/// The mathematical content of a [`Message`].
pub struct MessageView {
    pub source: u32,
    pub destination: Seq<u32>,
    pub data: Seq<char>,
    pub error: Option<Seq<char>>,
    pub schema: Seq<char>,
}

impl View for Message {
    type V = MessageView;

    open spec fn view(&self) -> MessageView {
        MessageView {
            source: self.source,
            destination: self.destination@,
            data: self.data@,
            error: match self.error {
                Some(reason) => Some(reason@),
                None => None,
            },
            schema: self.schema@,
        }
    }
}

impl MessageView {
    /// The envelope carrying a successful result: the encoded payload and its
    /// schema tag, with no failure text.
    pub open spec fn succeeded(self, text: Seq<char>, schema: Seq<char>) -> MessageView {
        MessageView { data: text, error: None, schema: schema, ..self }
    }

    /// The envelope carrying a failure: the failure text and an empty payload.
    /// The schema tag stays what the request had.
    pub open spec fn failed(self, reason: Seq<char>) -> MessageView {
        MessageView { data: Seq::empty(), error: Some(reason), ..self }
    }

    /// The envelope addressed back to its sender: the reply goes to the old
    /// source alone, and comes from the first hop of the old chain, or from the
    /// old source where the chain was empty.
    pub open spec fn rotated(self) -> MessageView {
        MessageView {
            source: if self.destination.len() > 0 {
                self.destination[0]
            } else {
                self.source
            },
            destination: seq![self.source],
            ..self
        }
    }
}

impl Message {
    /// Stores a successful result: `text` is the encoded payload, `schema` its tag.
    pub fn succeed(&mut self, text: String, schema: String)
        ensures
            final(self)@ == old(self)@.succeeded(text@, schema@),
    {
        self.data = text;
        self.error = None;
        self.schema = schema;
    }

    /// Stores a failure: the payload is emptied, the schema tag is kept.
    pub fn fail(&mut self, reason: String)
        ensures
            final(self)@ == old(self)@.failed(reason@),
    {
        self.error = Some(reason);
        self.data = String::new();
    }

    /// Turns the addressing round for the reply.
    pub fn rotate(&mut self)
        ensures
            final(self)@ == old(self)@.rotated(),
    {
        let sender: u32 = self.source;
        if self.destination.len() > 0 {
            self.source = self.destination[0];
        }
        let mut back: Vec<u32> = Vec::new();
        back.push(sender);
        self.destination = back;
    }
}

/// Turning the addressing round leaves exactly one hop, the old source, and
/// takes the new source from the head of the old chain where there is one.
pub proof fn lemma_rotation_unwinds_one_hop(request: MessageView)
    ensures
        request.rotated().destination == seq![request.source],
        request.destination.len() > 0 ==> request.rotated().source == request.destination[0],
        request.destination.len() == 0 ==> request.rotated().source == request.source,
        request.rotated().data == request.data,
        request.rotated().error == request.error,
        request.rotated().schema == request.schema,
{
}

} // verus!
