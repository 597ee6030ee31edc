use kvs::cli::{get_outcome, list_line, rm_outcome, Outcome};
use kvs::client::{get_request, get_result, set_request, set_result, CONNECT_TIMEOUT_MILLIS};
use kvs::cursor::Cursor;
use kvs::protocol::{Request, Response};
use kvs::server::config::{Engine, EngineOpt};
use kvs::engine::removal_result;
use kvs::server::connection::{invalid_request_frame, Connection, ConnectionState, Step};
use kvs::server::handler::{get_response, remove_response, set_response, HandleRequest};
use kvs::server::poll::{plan_batch, Batch, PollId, EPOLL_MAXEVENTS, EPOLL_TIMEOUT};
use kvs::store::{DataDir, KvStore};
use kvs::{KvStoreError, KvsEngine, KvsEngineError, DEFAULT_ADDR, DEFAULT_ENGINE};

fn engine() -> KvStore {
    KvStore::open(DataDir::Directory { log: Vec::new() }).unwrap()
}

fn written(step: Result<Step, KvsEngineError>) -> Response {
    match step.unwrap() {
        Step::Write(bytes) => {
            let mut reader = Cursor::new(&bytes);
            let response = Response::from_reader(&mut reader).unwrap().unwrap();
            assert!(reader.is_at_end());
            response
        }
        other => panic!("expected a response to write, got {:?}", other),
    }
}

/// An engine whose every operation fails.
struct Broken;

impl KvsEngine for Broken {
    fn set(&mut self, _key: String, _value: String) -> Result<(), KvsEngineError> {
        Err(KvsEngineError::Other("disk full".to_owned()))
    }

    fn get(&mut self, _key: &str) -> Result<Option<String>, KvsEngineError> {
        Err(KvsEngineError::Other("disk gone".to_owned()))
    }

    fn remove(&mut self, key: &str) -> Result<(), KvsEngineError> {
        Err(KvsEngineError::Other(format!("cannot remove {}", key)))
    }
}

// Basic request <-> response exchange over one connection.
#[test]
fn test_handle_requests() {
    let mut engine = engine();
    let mut connection = Connection::new();
    assert_eq!(connection.state(), ConnectionState::ReadingRequest);

    // Nothing has arrived: the server is to read.
    assert_eq!(connection.step(&mut engine).unwrap(), Step::Read);

    connection.received(&set_request("key1".to_owned(), "value1".to_owned()));
    let response = written(connection.step(&mut engine));
    assert_eq!(response, Response::Success(None));
    assert!(set_result(Ok(Some(response))).is_ok());
    assert_eq!(connection.step(&mut engine).unwrap(), Step::Read);

    connection.received(&get_request("key1".to_owned()));
    let response = written(connection.step(&mut engine));
    assert_eq!(response, Response::Success(Some("value1".to_owned())));
    assert_eq!(get_result(Ok(Some(response))).unwrap(), Some("value1".to_owned()));

    // Disconnect.
    connection.received(&[]);
    assert_eq!(connection.state(), ConnectionState::Closing);
    assert_eq!(connection.step(&mut engine).unwrap(), Step::Close);

    // The shutdown request ends the loop.
    let plan = plan_batch(&[PollId::Signal.to_u64()]).unwrap();
    assert_eq!(plan, Batch { accepts: 0, shutdown: true });
}

#[test]
fn test_can_be_shutdown() {
    // No client is connected: the wake descriptor alone is ready.
    let plan = plan_batch(&[1]).unwrap();
    assert!(plan.shutdown);
    assert_eq!(plan.accepts, 0);
}

#[test]
fn batch_serves_connections_before_it_stops() {
    assert_eq!(EPOLL_MAXEVENTS, 2);
    assert_eq!(EPOLL_TIMEOUT, -1);
    assert_eq!(CONNECT_TIMEOUT_MILLIS, 100);
    assert_eq!(plan_batch(&[]), Some(Batch { accepts: 0, shutdown: false }));
    assert_eq!(plan_batch(&[0]), Some(Batch { accepts: 1, shutdown: false }));
    assert_eq!(plan_batch(&[1, 0]), Some(Batch { accepts: 1, shutdown: true }));
    assert_eq!(plan_batch(&[0, 1]), Some(Batch { accepts: 1, shutdown: true }));
    assert_eq!(plan_batch(&[0, 0]), Some(Batch { accepts: 2, shutdown: false }));
    assert_eq!(plan_batch(&[0, 2]), None);
    assert_eq!(PollId::from_u64(0), Some(PollId::Listener));
    assert_eq!(PollId::from_u64(1), Some(PollId::Signal));
    assert_eq!(PollId::from_u64(2), None);
    assert_eq!(PollId::from_u64(u64::MAX), None);
    assert_eq!(PollId::Listener.to_u64(), 0);
    assert_eq!(PollId::Signal.to_u64(), 1);
}

#[test]
fn requests_arrive_in_pieces_and_in_bunches() {
    let mut engine = engine();
    let mut connection = Connection::new();
    let mut bytes = set_request("a".to_owned(), "1".to_owned());
    bytes.extend(get_request("a".to_owned()));
    bytes.extend(get_request("b".to_owned()));
    // One byte at a time: no response before a frame is whole.
    let mut responses = Vec::new();
    for byte in bytes.iter() {
        connection.received(std::slice::from_ref(byte));
        loop {
            match connection.step(&mut engine).unwrap() {
                Step::Write(reply) => responses.push(reply),
                Step::Read => break,
                Step::Close => panic!("the peer has not closed"),
            }
        }
    }
    assert_eq!(responses.len(), 3);
    let decoded: Vec<Response> = responses
        .iter()
        .map(|reply| Response::from_reader(&mut Cursor::new(reply)).unwrap().unwrap())
        .collect();
    assert_eq!(
        decoded,
        vec![
            Response::Success(None),
            Response::Success(Some("1".to_owned())),
            Response::Success(None)
        ]
    );
    // All at once, then the peer closes in the middle of a frame.
    let mut connection = Connection::new();
    bytes.extend_from_slice(&[0, 0, 0]);
    connection.received(&bytes);
    connection.received(&[]);
    for _ in 0..3 {
        assert!(matches!(connection.step(&mut engine).unwrap(), Step::Write(_)));
    }
    assert_eq!(connection.step(&mut engine).unwrap(), Step::Close);
}

#[test]
fn an_invalid_request_is_answered_and_reading_goes_on() {
    let mut engine = engine();
    let mut connection = Connection::new();
    let mut bytes = vec![7, 0, 0, 0];
    bytes.extend(set_request("a".to_owned(), "1".to_owned()));
    connection.received(&bytes);
    assert_eq!(
        written(connection.step(&mut engine)),
        Response::Failure("invalid request".to_owned())
    );
    assert_eq!(connection.state(), ConnectionState::ReadingRequest);
    assert_eq!(written(connection.step(&mut engine)), Response::Success(None));
    assert_eq!(connection.step(&mut engine).unwrap(), Step::Read);
    assert_eq!(engine.get("a".to_owned()).unwrap(), Some("1".to_owned()));
}

#[test]
fn handler_answers_each_kind_of_request() {
    let mut engine = engine();
    let put = Request::Put { key: "k".to_owned(), value: "v".to_owned() };
    assert_eq!(engine.handle(put).unwrap(), Response::Success(None));
    let get = Request::Get { key: "k".to_owned() };
    assert_eq!(engine.handle(get).unwrap(), Response::Success(Some("v".to_owned())));
    let rm = Request::Rm { key: "k".to_owned() };
    assert_eq!(engine.handle(rm.clone()).unwrap(), Response::Success(None));
    assert_eq!(engine.handle(rm).unwrap(), Response::Failure("Key not found".to_owned()));
    let miss = Request::Get { key: "k".to_owned() };
    assert_eq!(engine.handle(miss).unwrap(), Response::Success(None));
}

#[test]
fn handler_turns_engine_errors_into_failures() {
    let mut broken = Broken;
    let put = Request::Put { key: "k".to_owned(), value: "v".to_owned() };
    assert_eq!(broken.handle(put).unwrap(), Response::Failure("disk full".to_owned()));
    let get = Request::Get { key: "k".to_owned() };
    assert_eq!(broken.handle(get).unwrap(), Response::Failure("disk gone".to_owned()));
    let rm = Request::Rm { key: "k".to_owned() };
    assert_eq!(broken.handle(rm).unwrap(), Response::Failure("cannot remove k".to_owned()));

    assert_eq!(set_response(Ok(())), Response::Success(None));
    assert_eq!(get_response(Ok(None)), Response::Success(None));
    assert_eq!(
        remove_response(Err(KvsEngineError::EntryNotFound { key: "k".to_owned() })),
        Response::Failure("Key not found".to_owned())
    );
    assert_eq!(
        set_response(Err(KvsEngineError::EntryNotFound { key: "k".to_owned() })),
        Response::Failure("entry with key `k` not found".to_owned())
    );
}

#[test]
fn store_errors_become_engine_errors() {
    match KvsEngineError::from(KvStoreError::KeyNotFound { key: "k".to_owned() }) {
        KvsEngineError::EntryNotFound { key } => assert_eq!(key, "k"),
        _ => panic!("a missing key stays a missing key"),
    }
    match KvsEngineError::from(KvStoreError::IndexDesynced) {
        KvsEngineError::Other(cause) => assert_eq!(cause, "Index is desynced/corrupted"),
        _ => panic!("any other failure keeps its text"),
    }
    let mut engine = engine();
    assert!(KvsEngine::set(&mut engine, "k".to_owned(), "v".to_owned()).is_ok());
    assert_eq!(KvsEngine::get(&mut engine, "k").unwrap(), Some("v".to_owned()));
    assert!(KvsEngine::remove(&mut engine, "k").is_ok());
    match KvsEngine::remove(&mut engine, "k") {
        Err(e) => assert_eq!(e.to_string(), "entry with key `k` not found"),
        Ok(_) => panic!("the key was removed before"),
    }
}

#[test]
fn engines_are_named_in_any_case() {
    assert_eq!(DEFAULT_ADDR, "127.0.0.1:4000");
    assert_eq!(DEFAULT_ENGINE, "kvs");
    assert!(matches!(DEFAULT_ENGINE.parse::<EngineOpt>(), Ok(EngineOpt::KVS)));
    assert!(matches!("KVS".parse::<EngineOpt>(), Ok(EngineOpt::KVS)));
    assert_eq!("sled".parse::<EngineOpt>().unwrap_err(), "unknown engine `sled`");
    assert_eq!(EngineOpt::default().to_string(), "kvs");

    assert!(matches!("kvs".parse::<Engine>(), Ok(Engine::KVS)));
    assert!(matches!("Sled".parse::<Engine>(), Ok(Engine::Sled)));
    assert_eq!("RocksDB".parse::<Engine>().unwrap_err(), "unknown engine `rocksdb`");
    assert!(matches!(Engine::default(), Engine::KVS));
    assert_eq!(Engine::Sled.to_string(), "sled");
    assert_eq!(Engine::from_lowercase("KVS").unwrap_err(), "unknown engine `KVS`");
}

#[test]
fn a_boxed_engine_is_the_engine() {
    let mut boxed = Box::new(engine());
    let put = Request::Put { key: "k".to_owned(), value: "v".to_owned() };
    assert_eq!(boxed.handle(put).unwrap(), Response::Success(None));
    assert_eq!(KvsEngine::get(&mut boxed, "k").unwrap(), Some("v".to_owned()));
    assert!(KvsEngine::remove(&mut boxed, "k").is_ok());
    assert_eq!(KvStore::get(&boxed, "k".to_owned()).unwrap(), None);
}

#[test]
fn a_removal_that_found_nothing_is_an_error() {
    assert!(removal_result(true, "k").is_ok());
    match removal_result(false, "k") {
        Err(KvsEngineError::EntryNotFound { key }) => assert_eq!(key, "k"),
        _ => panic!("nothing was removed"),
    }
}

#[test]
fn the_invalid_request_frame_is_a_failure() {
    let frame = invalid_request_frame();
    let mut reader = Cursor::new(&frame);
    assert_eq!(
        Response::from_reader(&mut reader).unwrap(),
        Some(Response::Failure("invalid request".to_owned()))
    );
    assert!(reader.is_at_end());
}

// `kvs get <KEY>` should print "Key not found" for a non-existent key and exit with zero.
#[test]
fn cli_get_non_existent_key() {
    let mut store = engine();
    let outcome = get_outcome(store.get("key1".to_owned()).unwrap());
    assert_eq!(outcome, Outcome { output: Some("Key not found".to_owned()), exit_code: 0 });
    store.set("key1".to_owned(), "value1".to_owned()).unwrap();
}

// `kvs rm <KEY>` should print "Key not found" for an empty database and exit with non-zero code.
#[test]
fn cli_rm_non_existent_key() {
    let mut store = engine();
    let outcome = rm_outcome(store.remove("key1".to_owned()).map(|_| ())).unwrap();
    assert_eq!(outcome.output, Some("Key not found".to_owned()));
    assert_ne!(outcome.exit_code, 0);
    assert!(matches!(
        rm_outcome(Err(KvStoreError::IndexDesynced)),
        Err(KvStoreError::IndexDesynced)
    ));
}

#[test]
fn cli_get_stored() {
    let mut store = engine();
    store.set("key1".to_owned(), "value1".to_owned()).unwrap();
    store.set("key2".to_owned(), "value2".to_owned()).unwrap();
    let store = KvStore::open(DataDir::Directory { log: store.into_log() }).unwrap();

    let outcome = get_outcome(store.get("key1".to_owned()).unwrap());
    assert_eq!(outcome, Outcome { output: Some("value1".to_owned()), exit_code: 0 });

    let outcome = get_outcome(store.get("key2".to_owned()).unwrap());
    assert_eq!(outcome, Outcome { output: Some("value2".to_owned()), exit_code: 0 });
}

// `kvs rm <KEY>` should print nothing and exit with zero.
#[test]
fn cli_rm_stored() {
    let mut store = engine();
    store.set("key1".to_owned(), "value1".to_owned()).unwrap();
    let mut store = KvStore::open(DataDir::Directory { log: store.into_log() }).unwrap();

    let outcome = rm_outcome(store.remove("key1".to_owned()).map(|_| ())).unwrap();
    assert_eq!(outcome, Outcome { output: None, exit_code: 0 });

    let outcome = get_outcome(store.get("key1".to_owned()).unwrap());
    assert_eq!(outcome, Outcome { output: Some("Key not found".to_owned()), exit_code: 0 });
}

#[test]
fn list_prints_an_entry_per_line() {
    assert_eq!(list_line("key1", "value1"), "key1 -> value1");
    assert_eq!(list_line("", ""), " -> ");
}
