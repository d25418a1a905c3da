use ninoverse::api::forward_incoming_request;
use ninoverse::api::get_404_handler;
use ninoverse::api::get_configuration;
use ninoverse::body::ProjectPayload;
use ninoverse::body::TextBody;
use ninoverse::errors::NinoverseHttpHandlerError;
use ninoverse::errors::ParsePhase;
use ninoverse::http_handler::parse_request;
use ninoverse::http_handler::Request;
use ninoverse::links::MemorySink;
use ninoverse::links::MemoryStore;
use ninoverse::links::MemoryStream;
use ninoverse::links::RefusingStore;

const INSERT_PROJECT: &str =
    "INSERT INTO projects (name, description) VALUES ('New Project', 'Project Description')";

fn dispatch<B: ninoverse::body::HttpBody>(
    request: &Request<B>,
) -> (Result<(), ninoverse::errors::NinoverseApiError>, MemoryStore, MemoryStream, MemorySink) {
    let mut store = MemoryStore::new();
    let mut stream = MemoryStream::new();
    let mut sink = MemorySink::new();
    let tree = get_configuration();
    let r = forward_incoming_request(request, &mut store, &mut stream, &mut sink, &tree);
    (r, store, stream, sink)
}

#[test]
fn scenario_root_request_gets_greeting_and_no_descent() {
    let req: Request<TextBody> = parse_request("GET / HTTP/1.1\r\n\r\n").unwrap();
    let (r, store, stream, sink) = dispatch(&req);
    assert!(r.is_ok());
    assert_eq!(stream.data, "HTTP/1.1 200\r\n\r\n\"Hello world!\"");
    assert!(store.statements.is_empty());
    assert_eq!(
        sink.messages,
        vec![("base_endpoint".to_string(), "Received a message!".to_string())]
    );
}

#[test]
fn scenario_project_add_writes_store_and_succeeds() {
    let req: Request<ProjectPayload> =
        parse_request("POST /project/add HTTP/1.1\r\n\r\n{}").unwrap();
    assert_eq!(req.body, ProjectPayload {});
    let (r, store, stream, sink) = dispatch(&req);
    assert!(r.is_ok());
    assert_eq!(store.statements, vec![INSERT_PROJECT.to_string()]);
    assert_eq!(stream.data, "HTTP/1.1 200\r\n\r\n\"Project added.\"");
    assert_eq!(sink.messages.len(), 1);
}

#[test]
fn scenario_unknown_segment_reaches_the_not_found_leaf() {
    let req: Request<TextBody> = parse_request("GET /bogus HTTP/1.1\r\n\r\n").unwrap();
    let (r, store, stream, sink) = dispatch(&req);
    assert!(r.is_ok());
    assert_eq!(stream.data, "HTTP/1.1 404\r\n\r\n\"No endpoint available.\"");
    assert!(store.statements.is_empty());
    assert_eq!(sink.messages.len(), 1);
}

#[test]
fn scenario_http_2_request_fails_parsing_without_a_crash() {
    let e = match parse_request::<TextBody>("GET / HTTP/2.0\r\nHost: x\r\n\r\n") {
        Err(e) => e,
        Ok(_) => panic!("expected a parse failure"),
    };
    assert!(matches!(
        e,
        NinoverseHttpHandlerError::ParsingError { phase: ParsePhase::Version, .. }
    ));
}

#[test]
fn mismatch_before_the_last_segment_runs_strictly_fewer_actions() {
    // A fully matching walk over /project/add issues the store write; a
    // mismatch at the first of the two segments stops early: the leaf
    // action never runs and the not-found leaf answers instead.
    let req: Request<ProjectPayload> =
        parse_request("POST /wrong/add HTTP/1.1\r\n\r\n{}").unwrap();
    let (r, store, stream, sink) = dispatch(&req);
    assert!(r.is_ok());
    assert!(store.statements.is_empty());
    assert_eq!(stream.data, "HTTP/1.1 404\r\n\r\n\"No endpoint available.\"");
    assert_eq!(sink.messages.len(), 1);
}

#[test]
fn extra_segments_after_the_leaf_leave_it_terminal() {
    // The add-project leaf has no branches, so its resolver yields no
    // further node: the walk ends successfully after the leaf's own
    // action, and no second response follows the success response.
    let req: Request<ProjectPayload> =
        parse_request("POST /project/add/extra HTTP/1.1\r\n\r\n{}").unwrap();
    let (r, store, stream, sink) = dispatch(&req);
    assert!(r.is_ok());
    assert_eq!(store.statements, vec![INSERT_PROJECT.to_string()]);
    assert_eq!(stream.data, "HTTP/1.1 200\r\n\r\n\"Project added.\"");
    assert_eq!(sink.messages.len(), 1);
}

#[test]
fn mismatch_below_project_also_reaches_the_not_found_leaf() {
    let req: Request<ProjectPayload> =
        parse_request("POST /project/remove HTTP/1.1\r\n\r\n{}").unwrap();
    let (r, store, stream, _sink) = dispatch(&req);
    assert!(r.is_ok());
    assert!(store.statements.is_empty());
    assert_eq!(stream.data, "HTTP/1.1 404\r\n\r\n\"No endpoint available.\"");
}

#[test]
fn empty_segment_ends_the_walk_without_a_not_found_answer() {
    // `//x` keeps an empty first segment after the leading separator is
    // stripped; the empty token is the wildcard root case and terminates
    // the walk after the root action alone.
    let req: Request<TextBody> = parse_request("GET //x HTTP/1.1\r\n\r\n").unwrap();
    let (r, store, stream, sink) = dispatch(&req);
    assert!(r.is_ok());
    assert_eq!(stream.data, "");
    assert!(store.statements.is_empty());
    assert_eq!(sink.messages.len(), 1);
}

#[test]
fn walking_the_same_request_twice_resolves_identically() {
    let req: Request<ProjectPayload> =
        parse_request("POST /project/add HTTP/1.1\r\n\r\n{}").unwrap();
    let (r1, store1, stream1, sink1) = dispatch(&req);
    let (r2, store2, stream2, sink2) = dispatch(&req);
    assert!(r1.is_ok() && r2.is_ok());
    assert_eq!(store1.statements, store2.statements);
    assert_eq!(stream1.data, stream2.data);
    assert_eq!(sink1.messages, sink2.messages);
}

#[test]
fn refused_store_write_aborts_the_walk_without_a_response() {
    let req: Request<ProjectPayload> =
        parse_request("POST /project/add HTTP/1.1\r\n\r\n{}").unwrap();
    let mut store = RefusingStore {};
    let mut stream = MemoryStream::new();
    let mut sink = MemorySink::new();
    let tree = get_configuration();
    let r = forward_incoming_request(&req, &mut store, &mut stream, &mut sink, &tree);
    assert!(r.is_err());
    // At-most-once: nothing was written to the client, and the earlier
    // sink attempt stands.
    assert_eq!(stream.data, "");
    assert_eq!(sink.messages.len(), 1);
}

#[test]
fn the_not_found_leaf_answers_any_remaining_segments_once() {
    let req: Request<TextBody> = parse_request("GET /a/b/c HTTP/1.1\r\n\r\n").unwrap();
    let mut store = MemoryStore::new();
    let mut stream = MemoryStream::new();
    let mut sink = MemorySink::new();
    let leaf = get_404_handler();
    let parts = vec!["a".to_string(), "b".to_string(), "c".to_string()];
    let r = leaf.next(&req, &mut store, &mut stream, &mut sink, &parts, 0);
    assert!(r.is_ok());
    assert_eq!(stream.data, "HTTP/1.1 404\r\n\r\n\"No endpoint available.\"");
}
