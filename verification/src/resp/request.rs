//! The requests of the `PING` and `SHUTDOWN` service.

use crate::cursor::{lemma_remaining_after, string_from_utf8, Cursor};
use crate::resp::deserialize::{
    parse_string_array, read_strings, texts, Error, ErrorView, Parsed,
};
use crate::resp::serialize;
use crate::resp::serialize::{crlf, encode_variant, to_writer, Type, TypeIdent};
use vstd::prelude::*;
use vstd::slice::slice_to_vec;
use vstd::string::StringExecFns;
use vstd::utf8::{decode_utf8, encode_utf8, valid_utf8};

verus! {

/// The upper-case form of a string, as `str::to_uppercase` gives it.
pub uninterp spec fn uppercase(s: Seq<char>) -> Seq<char>;

/// `str::to_uppercase`: the string with each character in upper case.
#[verifier::external_body]
fn to_uppercase(s: &str) -> (upper: String)
    ensures
        upper@ == uppercase(s@),
{
    s.to_uppercase()
}

/// What a client asks of the service.
#[derive(Eq, PartialEq, Debug)]
pub enum Request {
    /// Asks for an answer: `PONG`, or the argument when one is given.
    Ping { arg: Option<String> },
    /// Asks the server to stop.
    Shutdown,
}

/// What a [`Request`] stands for.
pub enum RequestView {
    Ping { arg: Option<Seq<char>> },
    Shutdown,
}

impl View for Request {
    type V = RequestView;

    open spec fn view(&self) -> RequestView {
        match self {
            Request::Ping { arg: Some(arg) } => RequestView::Ping { arg: Some(arg@) },
            Request::Ping { arg: None } => RequestView::Ping { arg: None },
            Request::Shutdown => RequestView::Shutdown,
        }
    }
}

/// The text that refuses a command that is none of the service's.
pub open spec fn unknown_command(command: Seq<char>) -> Seq<char> {
    "unknown command `"@ + command + "`"@
}

/// The request that a command in upper case and its argument make.
pub open spec fn request_of(command: Option<Seq<char>>, arg: Option<Seq<char>>) -> Result<
    RequestView,
    ErrorView,
> {
    match command {
        None => Err(ErrorView::Other("expected command"@)),
        Some(command) => if command == "PING"@ {
            Ok(RequestView::Ping { arg })
        } else if command == "SHUTDOWN"@ {
            Ok(RequestView::Shutdown)
        } else {
            Err(ErrorView::Other(unknown_command(command)))
        },
    }
}

/// The request that a list of strings makes: the first, in upper case, is
/// the command, the second its argument.
pub open spec fn request_of_strings(strings: Seq<Seq<char>>) -> Result<RequestView, ErrorView> {
    request_of(
        if strings.len() > 0 {
            Some(uppercase(strings[0]))
        } else {
            None
        },
        if strings.len() > 1 {
            Some(strings[1])
        } else {
            None
        },
    )
}

/// What the written form of a request is.
pub open spec fn encode_request(request: RequestView) -> Seq<u8> {
    match request {
        RequestView::Ping { arg: None } => encode_utf8("PING"@) + crlf(),
        RequestView::Ping { arg: Some(arg) } => encode_utf8("PING"@) + encode_utf8(" "@)
            + encode_utf8(arg) + crlf(),
        RequestView::Shutdown => Seq::empty(),
    }
}

fn same_text(a: &str, b: &str) -> (same: bool)
    ensures
        same == (a@ == b@),
{
    a.to_owned() == b.to_owned()
}

fn write_text(writer: &mut Vec<u8>, text: &str)
    ensures
        final(writer)@ == old(writer)@ + encode_utf8(text@),
{
    let mut bytes = slice_to_vec(text.as_bytes());
    writer.append(&mut bytes);
}

impl Request {
    /// The request that a command, already in upper case, and its argument
    /// make.  Fails if there is no command or if it is neither `PING` nor
    /// `SHUTDOWN`.
    pub fn from_command(command: Option<String>, arg: Option<String>) -> (r: Result<
        Request,
        Error,
    >)
        ensures
            match request_of(
                match command {
                    Some(c) => Some(c@),
                    None => None,
                },
                match arg {
                    Some(a) => Some(a@),
                    None => None,
                },
            ) {
                Ok(request) => r matches Ok(made) && made@ == request,
                Err(error) => r matches Err(e) && e@ == error,
            },
    {
        match command {
            None => Err(Error::Other("expected command".to_owned())),
            Some(command) => {
                if same_text(command.as_str(), "PING") {
                    Ok(Request::Ping { arg })
                } else if same_text(command.as_str(), "SHUTDOWN") {
                    Ok(Request::Shutdown)
                } else {
                    let mut text = "unknown command `".to_owned();
                    text.append(command.as_str());
                    text.append("`");
                    Err(Error::Other(text))
                }
            },
        }
    }

    /// Reads a request: an array of strings, of which the first is the
    /// command, in whatever case, and the second its argument.
    pub fn from_reader(reader: &mut Cursor) -> (r: Result<Request, Error>)
        ensures
            final(reader)@ == old(reader)@.advance(
                parse_string_array(old(reader)@.remaining()).len(),
            ),
            match parse_string_array(old(reader)@.remaining()) {
                Parsed::Value { value: strings, len: _ } => match request_of_strings(strings) {
                    Ok(request) => r matches Ok(made) && made@ == request,
                    Err(error) => r matches Err(e) && e@ == error,
                },
                Parsed::Failed { error, len: _ } => r matches Err(e) && e@ == error,
            },
    {
        let mut strings = read_strings(reader)?;
        let ghost read = strings@;
        let ghost all = texts(read);
        let command = if strings.len() > 0 {
            let first = strings.remove(0);
            Some(to_uppercase(first.as_str()))
        } else {
            None
        };
        let arg = if strings.len() > 0 {
            Some(strings.remove(0))
        } else {
            None
        };
        proof {
            if all.len() > 0 {
                assert(all[0] == read[0]@);
            }
            if all.len() > 1 {
                assert(all[1] == read[1]@);
            }
        }
        Self::from_command(command, arg)
    }

    /// Writes a `Ping` as a line: `PING`, a space and the argument if there
    /// is one, and a CRLF.  A `Shutdown` has no written form.
    pub fn to_writer(&self, writer: &mut Vec<u8>) -> (r: Result<(), serialize::Error>)
        requires
            self is Ping,
        ensures
            r is Ok,
            final(writer)@ == old(writer)@ + encode_request(self@),
    {
        match self {
            Request::Ping { arg } => {
                write_text(writer, "PING");
                if let Some(arg) = arg {
                    write_text(writer, " ");
                    write_text(writer, arg.as_str());
                }
                writer.push(13);
                writer.push(10);
                assert(writer@ =~= old(writer)@ + encode_request(self@));
            },
            Request::Shutdown => {},
        }
        Ok(())
    }
}

/// The answer to a `Ping`: the argument as a bulk string, or `PONG` as a
/// simple string.
pub open spec fn ping_answer(arg: Option<String>) -> Seq<u8> {
    match arg {
        Some(arg) => encode_variant(TypeIdent::BulkString, arg@),
        None => encode_variant(TypeIdent::SimpleString, "PONG"@),
    }
}

/// Writes the answer to a `Ping`.
pub fn respond_ping(stream: &mut Vec<u8>, arg: Option<String>)
    ensures
        final(stream)@ == old(stream)@ + ping_answer(arg),
{
    let value = match arg {
        Some(arg) => Type::BulkString(arg),
        None => Type::SimpleString("PONG".to_owned()),
    };
    let _ = to_writer(stream, &value);
}

/// Writes a `Ping` request with the argument.
pub fn request_ping(writer: &mut Vec<u8>, arg: Option<String>)
    ensures
        final(writer)@ == old(writer)@ + encode_request(
            (Request::Ping { arg })@,
        ),
{
    let request = Request::Ping { arg };
    let _ = request.to_writer(writer);
}

/// How far a read that stops after the first line feed goes, given that
/// it has found none in the first `n` bytes.
pub open spec fn feed_end(s: Seq<u8>, n: int) -> int
    decreases s.len() - n,
{
    if n >= s.len() {
        s.len() as int
    } else if s[n] == 10 {
        n + 1
    } else {
        feed_end(s, n + 1)
    }
}

/// Reads a response as the client shows it: the text up to and including
/// the next line feed, or to the end of the input.
pub fn read_response(reader: &mut Cursor) -> (r: Result<String, Error>)
    ensures
        final(reader)@ == old(reader)@.advance(feed_end(old(reader)@.remaining(), 0) as nat),
        0 <= feed_end(old(reader)@.remaining(), 0) <= old(reader)@.remaining().len(),
        ({
            let line = old(reader)@.remaining().take(feed_end(old(reader)@.remaining(), 0));
            match r {
                Ok(text) => valid_utf8(line) && text@ == decode_utf8(line),
                Err(e) => !valid_utf8(line) && e@ == ErrorView::ExpectedUtf8Encoded,
            }
        }),
{
    let ghost s = reader@.remaining();
    let mut buf: Vec<u8> = Vec::new();
    proof {
        assert(buf@ =~= s.take(0));
    }
    loop
        invariant_except_break
            reader@ == old(reader)@.advance(buf@.len()),
            buf@ == s.take(buf@.len() as int),
            feed_end(s, buf@.len() as int) == feed_end(s, 0),
        invariant
            s == old(reader)@.remaining(),
            buf@.len() <= s.len(),
        ensures
            reader@ == old(reader)@.advance(buf@.len()),
            buf@ == s.take(buf@.len() as int),
            buf@.len() == feed_end(s, 0),
        decreases s.len() - buf@.len(),
    {
        let ghost n = buf@.len() as int;
        proof {
            lemma_remaining_after(old(reader)@, n as nat);
        }
        match reader.read_byte() {
            Some(byte) => {
                buf.push(byte);
                assert(buf@ =~= s.take(n + 1));
                if byte == 10 {
                    break ;
                }
            },
            None => {
                break ;
            },
        }
    }
    match string_from_utf8(buf) {
        Some(text) => Ok(text),
        None => Err(Error::ExpectedUtf8Encoded),
    }
}

/// Serves one request: a `Ping` is answered into `stream`; a `Shutdown`
/// writes nothing and tells the server, by `true`, to close the connection
/// and stop.
pub fn serve(stream: &mut Vec<u8>, request: Request) -> (shutdown: bool)
    ensures
        shutdown == (request is Shutdown),
        match request {
            Request::Ping { arg } => final(stream)@ == old(stream)@ + ping_answer(arg),
            Request::Shutdown => final(stream)@ == old(stream)@,
        },
{
    match request {
        Request::Ping { arg } => {
            respond_ping(stream, arg);
            false
        },
        Request::Shutdown => true,
    }
}

} // verus!
