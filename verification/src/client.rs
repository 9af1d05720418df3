//! The request executor's verified half: holding the credential and
//! classifying a decoded response envelope into a typed payload or an error.
//!
//! The network transport itself (one HTTPS round-trip per call) is performed
//! by the surrounding application; it hands the decoded envelope to
//! [`classify`], which applies the error-priority rules and never panics.

use vstd::prelude::*;

verus! {

/// A classified failure of one executed request.
#[derive(Clone, Debug, PartialEq, Eq)]
pub enum RequestError {
    /// Network, connection, timeout or malformed-body failure; carries the
    /// transport's own description.
    Transport(String),
    /// The service executed the request but reported application-level
    /// errors; carries the message of the last error in the list.
    Application(String),
    /// The envelope decoded with neither errors nor a payload: a violation
    /// of the response contract.
    NoData,
}

/// A decoded response envelope: an optional typed payload and an optional
/// list of application-level error messages.
pub struct Envelope<D> {
    pub data: Option<D>,
    pub errors: Option<Vec<String>>,
}

/// True when the envelope carries at least one application-level error.
pub open spec fn has_app_errors<D>(env: Envelope<D>) -> bool {
    env.errors matches Some(errs) && errs.len() > 0
}

/// Classify a decoded envelope, in priority order: application errors first
/// (the last message is surfaced, every message is appended to `log`), then
/// a missing payload, then success.
pub fn classify<D>(env: Envelope<D>, log: &mut Vec<String>) -> (r: Result<D, RequestError>)
    ensures
        has_app_errors(env) ==> {
            let errs = env.errors->Some_0;
            &&& r matches Err(e) && e matches RequestError::Application(m)
                && m@ == errs[errs.len() - 1]@
            &&& final(log)@ == old(log)@ + errs@
        },
        !has_app_errors(env) ==> {
            &&& final(log)@ == old(log)@
            &&& match env.data {
                Some(d) => r matches Ok(p) && p == d,
                None => r matches Err(e) && e is NoData,
            }
        },
{
    let Envelope { data, errors } = env;
    match errors {
        Some(errs) => {
            if errs.len() > 0 {
                let mut i: usize = 0;
                while i < errs.len()
                    invariant
                        i <= errs.len(),
                        log@ == old(log)@ + errs@.take(i as int),
                    decreases errs.len() - i,
                {
                    log.push(errs[i].clone());
                    proof {
                        assert(log@ =~= old(log)@ + errs@.take(i + 1));
                    }
                    i += 1;
                }
                proof {
                    assert(errs@.take(errs.len() as int) =~= errs@);
                }
                let last = errs[errs.len() - 1].clone();
                Err(RequestError::Application(last))
            } else {
                match data {
                    Some(d) => Ok(d),
                    None => Err(RequestError::NoData),
                }
            }
        }
        None => match data {
            Some(d) => Ok(d),
            None => Err(RequestError::NoData),
        },
    }
}

/// Holds the bearer credential that the transport attaches to each request.
pub struct Client {
    api_key: String,
}

impl Client {
    /// The credential this client was built with.
    pub closed spec fn spec_api_key(&self) -> Seq<char> {
        self.api_key@
    }

    pub fn new(api_key: String) -> (r: Self)
        ensures
            r.spec_api_key() == api_key@,
    {
        Self { api_key }
    }

    /// The credential, for the transport to place in the authorization header.
    pub fn api_key(&self) -> (r: &String)
        ensures
            r@ == self.spec_api_key(),
    {
        &self.api_key
    }
}

} // verus!
