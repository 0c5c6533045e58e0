use rpc_dispatch::{
    handler, DispatchError, Handler, HandlerError, HandlerInput, HandlerOutput, Message, Module,
    Step, WorkRunner,
};

type Boxed = Box<dyn Handler<String>>;

struct Echo;

impl Handler<String> for Echo {
    fn call(&self, _state: String, input: HandlerInput) -> Result<HandlerOutput, HandlerError> {
        Ok(HandlerOutput { data: input.data, schema: input.schema })
    }
}

struct Describe;

impl Handler<String> for Describe {
    fn call(&self, state: String, input: HandlerInput) -> Result<HandlerOutput, HandlerError> {
        let text = format!("{}:{}:{}:{:?}", state, input.source, input.schema, input.data);
        Ok(HandlerOutput { data: text.into_bytes(), schema: "S".to_string() })
    }
}

struct Refuse;

impl Handler<String> for Refuse {
    fn call(&self, _state: String, _input: HandlerInput) -> Result<HandlerOutput, HandlerError> {
        Err(HandlerError::new("boom".to_string()))
    }
}

fn runner() -> WorkRunner<String> {
    let mut root: Module<Boxed> = Module::new();
    root.handler("echo", Box::new(Echo)).unwrap();
    root.handler("describe", Box::new(Describe)).unwrap();
    root.handler("refuse", Box::new(Refuse)).unwrap();
    WorkRunner::new("app".to_string(), root)
}

fn request(data: &str) -> Message {
    Message {
        source: 3,
        destination: vec![7, 9],
        data: data.to_string(),
        error: None,
        schema: "in".to_string(),
    }
}

#[test]
fn handler_output_comes_back_encoded() {
    let reply = runner().run(("echo".to_string(), request("AQI=")));
    assert_eq!(
        reply,
        Message {
            source: 7,
            destination: vec![3],
            data: "AQI=".to_string(),
            error: None,
            schema: "in".to_string(),
        }
    );
}

#[test]
fn handler_gets_state_sender_schema_and_decoded_payload() {
    let reply = runner().run(("describe".to_string(), request("AQI=")));
    assert_eq!(reply.error, None);
    assert_eq!(reply.schema, "S");
    let said = rpc_dispatch::codec::decode(&reply.data).unwrap();
    assert_eq!(String::from_utf8(said).unwrap(), "app:3:in:[1, 2]");
}

#[test]
fn handler_failure_becomes_an_error_reply() {
    let reply = runner().run(("refuse".to_string(), request("AQI=")));
    assert_eq!(
        reply,
        Message {
            source: 7,
            destination: vec![3],
            data: String::new(),
            error: Some("boom".to_string()),
            schema: "in".to_string(),
        }
    );
}

#[test]
fn unknown_command_is_answered() {
    let reply = runner().run(("nope".to_string(), request("AQI=")));
    let error = reply.error.clone().unwrap();
    assert!(error.contains("not found"));
    assert_eq!(error, "handler not found");
    assert_eq!(reply.data, "");
    assert_eq!(reply.destination, vec![3]);
    assert_eq!(reply.source, 7);
}

#[test]
fn malformed_payload_is_answered() {
    let reply = runner().run(("echo".to_string(), request("%%% not base64 %%%")));
    assert_eq!(reply.error, Some("unable to decode the message payload".to_string()));
    assert_eq!(reply.data, "");
    assert_eq!(reply.destination, vec![3]);
    assert_eq!(reply.source, 7);
}

#[test]
fn malformed_payload_is_reported_before_an_unknown_command() {
    let reply = runner().run(("nope".to_string(), request("%%%")));
    assert_eq!(reply.error, Some(DispatchError::MalformedPayload.message()));
}

#[test]
fn one_runner_serves_many_items() {
    let runner = runner();
    let first = runner.run(("echo".to_string(), request("AQ==")));
    let second = runner.run(("nope".to_string(), request("AQ==")));
    let third = runner.run(("echo".to_string(), request("AQ==")));
    assert_eq!(first, third);
    assert_eq!(first.data, "AQ==");
    assert!(second.error.is_some());
}

#[test]
fn resolve_names_the_handler_and_its_input() {
    let mut root: Module<u32> = Module::new();
    root.handler("echo", 17).unwrap();
    let runner = WorkRunner::new((), root);

    let (found, input) = runner.resolve("echo", &request("AQI=")).unwrap();
    assert_eq!(*found, 17);
    assert_eq!(
        input,
        HandlerInput { source: 3, data: vec![1, 2], schema: "in".to_string() }
    );

    assert_eq!(runner.resolve("nope", &request("AQI=")), Err(DispatchError::HandlerNotFound));
    assert_eq!(runner.resolve("echo", &request("AQI=\n")), Err(DispatchError::MalformedPayload));
}

#[test]
fn route_takes_the_decoded_payload_as_it_is() {
    let mut root: Module<u32> = Module::new();
    root.handler("echo", 17).unwrap();
    let runner = WorkRunner::new((), root);
    let msg = request("ignored here");

    let (found, input) = runner.route("echo", &msg, Some(vec![9, 8])).unwrap();
    assert_eq!(*found, 17);
    assert_eq!(input.data, vec![9, 8]);
    assert_eq!(input.source, 3);
    assert_eq!(input.schema, "in");

    assert_eq!(runner.route("echo", &msg, None), Err(DispatchError::MalformedPayload));
    assert_eq!(runner.route("nope", &msg, None), Err(DispatchError::MalformedPayload));
    assert_eq!(runner.route("nope", &msg, Some(vec![])), Err(DispatchError::HandlerNotFound));
}

#[test]
fn reject_writes_the_error_reply() {
    let mut msg = request("AQI=");
    WorkRunner::<(), u32>::reject(&mut msg, DispatchError::HandlerNotFound);
    assert_eq!(
        msg,
        Message {
            source: 7,
            destination: vec![3],
            data: String::new(),
            error: Some("handler not found".to_string()),
            schema: "in".to_string(),
        }
    );
}

#[test]
fn each_dispatch_error_has_its_text() {
    assert_eq!(DispatchError::MalformedPayload.message(), "unable to decode the message payload");
    assert_eq!(DispatchError::HandlerNotFound.message(), "handler not found");
    assert_eq!(DispatchError::OversizedOutput.message(), "handler output too large to encode");
}

#[test]
fn a_function_serves_as_a_handler() {
    let double = handler(|state: u8, input: HandlerInput| -> Result<HandlerOutput, HandlerError> {
        if input.data.is_empty() {
            Err(HandlerError::new("nothing to double".to_string()))
        } else {
            Ok(HandlerOutput {
                data: input.data.iter().map(|byte| byte.wrapping_mul(state)).collect(),
                schema: input.schema,
            })
        }
    });
    let mut root = Module::new();
    root.handler("double", double).unwrap();
    let runner = WorkRunner::new(2u8, root);

    let reply = runner.run(("double".to_string(), request("AQI=")));
    assert_eq!(reply.data, "AgQ=");
    assert_eq!(reply.error, None);

    let empty = runner.run(("double".to_string(), request("")));
    assert_eq!(empty.error, Some("nothing to double".to_string()));
    assert_eq!(empty.data, "");
}

#[test]
fn nested_commands_are_dispatched_by_their_full_name() {
    let mut inner: Module<Boxed> = Module::new();
    inner.handler("echo", Box::new(Echo)).unwrap();
    let mut root: Module<Boxed> = Module::new();
    root.module("util", inner).unwrap();
    let runner = WorkRunner::new("app".to_string(), root);

    let reply = runner.run(("util.echo".to_string(), request("AQI=")));
    assert_eq!(reply.data, "AQI=");
    let missed = runner.run(("echo".to_string(), request("AQI=")));
    assert_eq!(missed.error, Some("handler not found".to_string()));
}

#[test]
fn runner_gives_access_to_what_it_holds() {
    let mut root: Module<u32> = Module::new();
    root.handler("echo", 17).unwrap();
    let runner = WorkRunner::new(5u64, root);
    assert_eq!(*runner.data(), 5);
    assert_eq!(runner.root().lookup("echo"), Some(&17));
}

#[test]
fn begin_names_the_call_to_make() {
    let mut root: Module<u32> = Module::new();
    root.handler("echo", 17).unwrap();
    let runner = WorkRunner::new("app".to_string(), root);

    match runner.begin(("echo".to_string(), request("AQI="))) {
        Step::Call { handler, state, input, pending } => {
            assert_eq!(*handler, 17);
            assert_eq!(state, "app");
            assert_eq!(
                input,
                HandlerInput { source: 3, data: vec![1, 2], schema: "in".to_string() }
            );
            let output = HandlerOutput { data: vec![3], schema: "out".to_string() };
            let reply = WorkRunner::<String, u32>::finish(pending, Ok(output));
            assert_eq!(
                reply,
                Message {
                    source: 7,
                    destination: vec![3],
                    data: "Aw==".to_string(),
                    error: None,
                    schema: "out".to_string(),
                }
            );
        }
        Step::Reply { .. } => panic!("the command is registered and the payload decodes"),
    }
}

#[test]
fn begin_answers_at_once_what_cannot_be_called() {
    let mut root: Module<u32> = Module::new();
    root.handler("echo", 17).unwrap();
    let runner = WorkRunner::new((), root);

    match runner.begin(("nope".to_string(), request("AQI="))) {
        Step::Reply { message } => {
            assert_eq!(message.error, Some("handler not found".to_string()));
            assert_eq!(message.data, "");
            assert_eq!((message.source, message.destination), (7, vec![3]));
        }
        Step::Call { .. } => panic!("the command is not registered"),
    }
    match runner.begin(("echo".to_string(), request("?"))) {
        Step::Reply { message } => {
            assert_eq!(message.error, Some("unable to decode the message payload".to_string()));
            assert_eq!(message.data, "");
            assert_eq!((message.source, message.destination), (7, vec![3]));
        }
        Step::Call { .. } => panic!("the payload does not decode"),
    }
}

#[test]
fn finish_reports_a_failed_call() {
    let mut root: Module<u32> = Module::new();
    root.handler("echo", 17).unwrap();
    let runner = WorkRunner::new((), root);

    match runner.begin(("echo".to_string(), request("AQI="))) {
        Step::Call { pending, .. } => {
            let reply =
                WorkRunner::<(), u32>::finish(pending, Err(HandlerError::new("boom".to_string())));
            assert_eq!(reply.error, Some("boom".to_string()));
            assert_eq!(reply.data, "");
            assert_eq!(reply.schema, "in");
            assert_eq!((reply.source, reply.destination), (7, vec![3]));
        }
        Step::Reply { .. } => panic!("the command is registered and the payload decodes"),
    }
}

#[test]
fn shareable_boxed_handlers_are_handlers() {
    let mut root: Module<Box<dyn Handler<String> + Send + Sync>> = Module::new();
    root.handler("echo", Box::new(Echo)).unwrap();
    root.handler("refuse", Box::new(Refuse)).unwrap();
    let runner = WorkRunner::new("app".to_string(), root);

    assert_eq!(runner.run(("echo".to_string(), request("AQI="))).data, "AQI=");
    assert_eq!(
        runner.run(("refuse".to_string(), request("AQI="))).error,
        Some("boom".to_string())
    );
}
