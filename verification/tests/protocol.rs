use kvs::client::{get_request, get_result, rm_request, rm_result, set_request, set_result};
use kvs::cursor::Cursor;
use kvs::encoding::{ErrorKind, SerializationError};
use kvs::protocol::{Request, Response};
use kvs::ClientError;

fn requests() -> Vec<Request> {
    vec![
        Request::Put { key: "key1".to_owned(), value: "value1".to_owned() },
        Request::Put { key: "".to_owned(), value: "".to_owned() },
        Request::Get { key: "key1".to_owned() },
        Request::Get { key: "\u{0}\u{7f}\u{80}\u{10ffff}".to_owned() },
        Request::Rm { key: "ключ".to_owned() },
    ]
}

fn responses() -> Vec<Response> {
    vec![
        Response::Success(None),
        Response::Success(Some("value1".to_owned())),
        Response::Success(Some("".to_owned())),
        Response::Failure("Key not found".to_owned()),
        Response::Failure("".to_owned()),
    ]
}

#[test]
fn request_ser_de_is_identical() {
    for request in requests() {
        let mut buf = Vec::new();
        request.to_writer(&mut buf).unwrap();
        let mut reader = Cursor::new(&buf);
        assert_eq!(request, Request::from_reader(&mut reader).unwrap().unwrap());
        assert!(reader.is_at_end());
    }
}

#[test]
fn response_ser_de_is_identical() {
    for response in responses() {
        let mut buf = Vec::new();
        response.to_writer(&mut buf).unwrap();
        let mut reader = Cursor::new(&buf);
        assert_eq!(response, Response::from_reader(&mut reader).unwrap().unwrap());
        assert!(reader.is_at_end());
    }
}

#[test]
fn frames_follow_one_another_without_separator() {
    let mut buf = Vec::new();
    for request in requests() {
        request.to_writer(&mut buf).unwrap();
    }
    let mut reader = Cursor::new(&buf);
    for request in requests() {
        assert_eq!(Some(request), Request::from_reader(&mut reader).unwrap());
    }
    assert_eq!(None, Request::from_reader(&mut reader).unwrap());
}

#[test]
fn frame_layout_is_that_of_bincode() {
    let frame = |request: &Request| {
        let mut buf = Vec::new();
        request.to_writer(&mut buf).unwrap();
        buf
    };
    let reply = |response: &Response| {
        let mut buf = Vec::new();
        response.to_writer(&mut buf).unwrap();
        buf
    };
    assert_eq!(
        frame(&Request::Put { key: "k".to_owned(), value: "v".to_owned() }),
        bincode::serialize(&(0u32, "k", "v")).unwrap()
    );
    assert_eq!(
        frame(&Request::Get { key: "key1".to_owned() }),
        bincode::serialize(&(1u32, "key1")).unwrap()
    );
    assert_eq!(
        frame(&Request::Rm { key: "key1".to_owned() }),
        bincode::serialize(&(2u32, "key1")).unwrap()
    );
    assert_eq!(
        reply(&Response::Success(None)),
        bincode::serialize(&(0u32, None::<String>)).unwrap()
    );
    assert_eq!(reply(&Response::Success(None)), vec![0, 0, 0, 0, 0]);
    assert_eq!(
        reply(&Response::Success(Some("value1".to_owned()))),
        bincode::serialize(&(0u32, Some("value1"))).unwrap()
    );
    assert_eq!(
        reply(&Response::Failure("no".to_owned())),
        bincode::serialize(&(1u32, "no")).unwrap()
    );
    assert_eq!(
        reply(&Response::Failure("no".to_owned())),
        vec![1, 0, 0, 0, 2, 0, 0, 0, 0, 0, 0, 0, b'n', b'o']
    );
}

#[test]
fn an_incomplete_frame_is_no_frame_yet() {
    let mut buf = Vec::new();
    Request::Put { key: "key1".to_owned(), value: "value1".to_owned() }
        .to_writer(&mut buf)
        .unwrap();
    for cut in 0..buf.len() {
        let mut reader = Cursor::new(&buf[..cut]);
        assert_eq!(None, Request::from_reader(&mut reader).unwrap());
        assert_eq!(reader.position(), 0);
    }
    let mut buf = Vec::new();
    Response::Success(Some("value1".to_owned())).to_writer(&mut buf).unwrap();
    for cut in 0..buf.len() {
        let mut reader = Cursor::new(&buf[..cut]);
        assert_eq!(None, Response::from_reader(&mut reader).unwrap());
        assert_eq!(reader.position(), 0);
    }
}

#[test]
fn bytes_that_are_no_frame_are_an_error() {
    let mut reader = Cursor::new(&[3, 0, 0, 0, 0]);
    let err = Request::from_reader(&mut reader).unwrap_err();
    assert_eq!(err, SerializationError { kind: ErrorKind::InvalidVariant });
    assert_eq!(err.to_string(), "invalid variant index");
    assert_eq!(reader.position(), 4);

    let bytes = [1, 0, 0, 0, 1, 0, 0, 0, 0, 0, 0, 0, 0xff];
    let mut reader = Cursor::new(&bytes);
    let err = Request::from_reader(&mut reader).unwrap_err();
    assert_eq!(err.kind, ErrorKind::InvalidUtf8);
    assert_eq!(reader.position(), 13);

    let mut reader = Cursor::new(&[2, 0, 0, 0, 0]);
    assert_eq!(
        Response::from_reader(&mut reader).unwrap_err().kind,
        ErrorKind::InvalidVariant
    );

    let mut reader = Cursor::new(&[0, 0, 0, 0, 2]);
    let err = Response::from_reader(&mut reader).unwrap_err();
    assert_eq!(err.kind, ErrorKind::InvalidOptionTag);
    assert_eq!(err.to_string(), "invalid option tag");
    assert_eq!(reader.position(), 5);

    assert_eq!(
        SerializationError::new(ErrorKind::UnexpectedEof).to_string(),
        "unexpected end of input"
    );
}

#[test]
fn response_shows_as_its_debug_form() {
    assert_eq!(Response::Success(None).to_string(), "Success(None)");
    assert_eq!(
        Response::Success(Some("value1".to_owned())).to_string(),
        "Success(Some(\"value1\"))"
    );
    assert_eq!(Response::Failure("no".to_owned()).to_string(), "Failure(\"no\")");
}

#[test]
fn client_frames_are_the_requests() {
    let frame = |request: Request| {
        let mut buf = Vec::new();
        request.to_writer(&mut buf).unwrap();
        buf
    };
    assert_eq!(get_request("k".to_owned()), frame(Request::Get { key: "k".to_owned() }));
    assert_eq!(
        set_request("k".to_owned(), "v".to_owned()),
        frame(Request::Put { key: "k".to_owned(), value: "v".to_owned() })
    );
    assert_eq!(rm_request("k".to_owned()), frame(Request::Rm { key: "k".to_owned() }));
}

#[test]
fn client_reads_the_answer_to_a_get() {
    assert_eq!(
        get_result(Ok(Some(Response::Success(Some("v".to_owned()))))).unwrap(),
        Some("v".to_owned())
    );
    assert_eq!(get_result(Ok(Some(Response::Success(None)))).unwrap(), None);
    match get_result(Ok(Some(Response::Failure("broken".to_owned())))) {
        Err(ClientError::ErrorResponse(text)) => assert_eq!(text, "broken"),
        _ => panic!("a failure is an error response"),
    }
    assert!(matches!(get_result(Ok(None)), Err(ClientError::NoResponse)));
    match get_result(Err(SerializationError::new(ErrorKind::InvalidVariant))) {
        Err(ClientError::ResponseError(cause)) => assert_eq!(cause, "invalid variant index"),
        _ => panic!("bytes that are no response are a response error"),
    }
}

#[test]
fn client_reads_the_answer_to_a_set_or_rm() {
    assert!(set_result(Ok(Some(Response::Success(None)))).is_ok());
    assert!(rm_result(Ok(Some(Response::Success(None)))).is_ok());
    match set_result(Ok(Some(Response::Success(Some("v".to_owned()))))) {
        Err(ClientError::UnexpectedResponse(response)) => {
            assert_eq!(response, Response::Success(Some("v".to_owned())))
        }
        _ => panic!("a value does not answer a set"),
    }
    match rm_result(Ok(Some(Response::Failure("Key not found".to_owned())))) {
        Err(ClientError::ErrorResponse(text)) => assert_eq!(text, "Key not found"),
        _ => panic!("a failure is an error response"),
    }
    assert!(matches!(rm_result(Ok(None)), Err(ClientError::NoResponse)));
    assert!(matches!(
        set_result(Err(SerializationError::new(ErrorKind::InvalidUtf8))),
        Err(ClientError::ResponseError(_))
    ));
}

#[test]
fn client_errors_show_their_text() {
    assert_eq!(ClientError::ErrorResponse("Key not found".to_owned()).to_string(), "Key not found");
    assert_eq!(
        ClientError::RequestError("broken pipe".to_owned()).to_string(),
        "failed to write request, caused by broken pipe"
    );
    assert_eq!(
        ClientError::ResponseError("reset".to_owned()).to_string(),
        "failed to read response, caused by reset"
    );
    assert_eq!(ClientError::NoResponse.to_string(), "no response");
    assert_eq!(
        ClientError::UnexpectedResponse(Response::Success(Some("v".to_owned()))).to_string(),
        "unexpected response, response was Success(Some(\"v\"))"
    );
}

#[test]
fn frames_are_written_and_read_as_bincode_does() {
    let alphabet = ['a', ' ', '\0', 'é', '中', '😀'];
    let mut state = 88172645463325252u64;
    for len in 0..30 {
        let mut text = String::new();
        for _ in 0..len {
            state ^= state << 13;
            state ^= state >> 7;
            state ^= state << 17;
            text.push(alphabet[state as usize % alphabet.len()]);
        }
        let cases: Vec<(Request, Vec<u8>)> = vec![
            (
                Request::Put { key: text.clone(), value: text.clone() },
                bincode::serialize(&(0u32, &text, &text)).unwrap(),
            ),
            (Request::Get { key: text.clone() }, bincode::serialize(&(1u32, &text)).unwrap()),
            (Request::Rm { key: text.clone() }, bincode::serialize(&(2u32, &text)).unwrap()),
        ];
        for (request, theirs) in cases {
            let mut ours = Vec::new();
            request.to_writer(&mut ours).unwrap();
            assert_eq!(ours, theirs);
            assert_eq!(Request::from_reader(&mut Cursor::new(&theirs)).unwrap(), Some(request));
        }
        let cases: Vec<(Response, Vec<u8>)> = vec![
            (
                Response::Success(Some(text.clone())),
                bincode::serialize(&(0u32, Some(&text))).unwrap(),
            ),
            (Response::Failure(text.clone()), bincode::serialize(&(1u32, &text)).unwrap()),
        ];
        for (response, theirs) in cases {
            let mut ours = Vec::new();
            response.to_writer(&mut ours).unwrap();
            assert_eq!(ours, theirs);
            assert_eq!(Response::from_reader(&mut Cursor::new(&theirs)).unwrap(), Some(response));
        }
    }
}
