//! From a request to the engine and back to a response.

use crate::encoding::option_view;
use crate::engine::{KvsEngine, KvsEngineError};
use crate::protocol::request::{Request, RequestView};
use crate::protocol::response::{Response, ResponseView};
use vstd::prelude::*;

verus! {

/// The answer to a `Put`, given what the engine returned.
pub open spec fn set_reply(result: Result<(), KvsEngineError>) -> ResponseView {
    match result {
        Ok(_) => ResponseView::Success(None),
        Err(e) => ResponseView::Failure(e.message()),
    }
}

/// The answer to a `Get`, given what the engine returned.
pub open spec fn get_reply(result: Result<Option<String>, KvsEngineError>) -> ResponseView {
    match result {
        Ok(found) => ResponseView::Success(option_view(found)),
        Err(e) => ResponseView::Failure(e.message()),
    }
}

/// The answer to an `Rm`, given what the engine returned.
pub open spec fn remove_reply(result: Result<(), KvsEngineError>) -> ResponseView {
    match result {
        Ok(_) => ResponseView::Success(None),
        Err(KvsEngineError::EntryNotFound { key: _ }) => ResponseView::Failure("Key not found"@),
        Err(e) => ResponseView::Failure(e.message()),
    }
}

/// Answers a `Put`: an acknowledgement, or the engine's failure as text.
pub fn set_response(result: Result<(), KvsEngineError>) -> (response: Response)
    ensures
        response@ == set_reply(result),
{
    match result {
        Ok(_) => Response::Success(None),
        Err(e) => Response::Failure(e.to_string()),
    }
}

/// Answers a `Get`: the value that was found, nothing for a key without
/// value, or the engine's failure as text.
pub fn get_response(result: Result<Option<String>, KvsEngineError>) -> (response: Response)
    ensures
        response@ == get_reply(result),
{
    match result {
        Ok(found) => Response::Success(found),
        Err(e) => Response::Failure(e.to_string()),
    }
}

/// Answers an `Rm`: an acknowledgement, `Key not found` for a key without
/// value, or the engine's failure as text.
pub fn remove_response(result: Result<(), KvsEngineError>) -> (response: Response)
    ensures
        response@ == remove_reply(result),
{
    match result {
        Ok(_) => Response::Success(None),
        Err(KvsEngineError::EntryNotFound { key: _ }) => Response::Failure(
            "Key not found".to_owned(),
        ),
        Err(e) => Response::Failure(e.to_string()),
    }
}

/// Carries out requests.
pub trait HandleRequest {
    /// What the handler needs to hold before a request and keeps.
    open spec fn ready(&self) -> bool {
        true
    }

    /// What carrying out `request` does: the relation between the handler
    /// before, the handler after and the response.
    open spec fn handled(
        &self,
        after: &Self,
        request: RequestView,
        response: ResponseView,
    ) -> bool {
        true
    }

    /// Carries out one request and says what to answer.  A failure of the
    /// engine becomes a `Failure` response: the handler itself never fails.
    fn handle(&mut self, request: Request) -> (r: Result<Response, KvsEngineError>)
        requires
            old(self).ready(),
        ensures
            final(self).ready(),
            r matches Ok(response) && old(self).handled(final(self), request@, response@),
    ;
}

/// Every engine handles requests: the request's key, and value, go to the
/// engine's operation of the request's kind, and the response is the answer
/// to what the operation returned.
impl<T: KvsEngine> HandleRequest for T {
    open spec fn ready(&self) -> bool {
        self.valid()
    }

    open spec fn handled(
        &self,
        after: &Self,
        request: RequestView,
        response: ResponseView,
    ) -> bool {
        match request {
            RequestView::Put { key, value } => exists|result: Result<(), KvsEngineError>|
                #![trigger set_reply(result)]
                self.did_set(after, key, value, result) && response == set_reply(result),
            RequestView::Get { key } => exists|result: Result<Option<String>, KvsEngineError>|
                #![trigger get_reply(result)]
                self.did_get(after, key, result) && response == get_reply(result),
            RequestView::Rm { key } => exists|result: Result<(), KvsEngineError>|
                #![trigger remove_reply(result)]
                self.did_remove(after, key, result) && response == remove_reply(result),
        }
    }

    fn handle(&mut self, request: Request) -> (r: Result<Response, KvsEngineError>) {
        match request {
            Request::Put { key, value } => {
                let result = self.set(key, value);
                Ok(set_response(result))
            },
            Request::Get { key } => {
                let result = self.get(key.as_str());
                Ok(get_response(result))
            },
            Request::Rm { key } => {
                let result = self.remove(key.as_str());
                Ok(remove_response(result))
            },
        }
    }
}

} // verus!
