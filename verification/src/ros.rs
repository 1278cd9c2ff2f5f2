use vstd::prelude::*;
use crate::errors::MasterError;

verus! {

/// The status code with which the directory service reports success.
pub const MASTER_SUCCESS: i32 = 1;

/// One node's view of itself: its registered name, the host it runs on, and
/// the address under which its own server is reachable. The directory and
/// RPC traffic itself happens outside the library; these functions build and
/// interpret the plain values that traffic carries.
pub struct Ros {
    pub name: String,
    pub hostname: String,
    pub uri: String,
}

/// The directory address to use: the configured one, or the conventional
/// local default when none is configured.
pub fn master_uri_or_default(configured: Option<String>) -> (r: String)
    ensures
        (configured matches Some(u) ==> r@ == u@),
        (configured is None ==> r@ == "http://localhost:11311/"@),
{
    match configured {
        Some(u) => u,
        None => "http://localhost:11311/".to_owned(),
    }
}

/// What the facade does once the directory has answered a subscription
/// registration: connect to every reported publisher, or roll the local
/// subscription back and surface the failure.
pub enum SubscribeStep {
    Connect(Vec<String>),
    Rollback(MasterError),
}

/// Decides the step after a subscription registration: a successful answer
/// lists the publishers to connect to; a failure undoes the subscription.
pub fn subscribe_step(registration: Result<Vec<String>, MasterError>) -> (r: SubscribeStep)
    ensures
        (registration matches Ok(p) ==> r matches SubscribeStep::Connect(q) && q == p),
        (registration matches Err(e) ==> r matches SubscribeStep::Rollback(f) && f == e),
{
    match registration {
        Ok(publishers) => SubscribeStep::Connect(publishers),
        Err(e) => SubscribeStep::Rollback(e),
    }
}

/// What the facade does once the directory has answered a publisher
/// registration: keep the stream, or retract the local publication and
/// surface the failure.
pub enum PublishStep {
    Keep,
    Retract(MasterError),
}

/// Decides the step after a publisher registration.
pub fn publish_step(registration: Result<(), MasterError>) -> (r: PublishStep)
    ensures
        (registration is Ok ==> r is Keep),
        (registration matches Err(e) ==> r matches PublishStep::Retract(f) && f == e),
{
    match registration {
        Ok(_) => PublishStep::Keep,
        Err(e) => PublishStep::Retract(e),
    }
}

impl Ros {
    /// A node from its resolved identity.
    pub fn new(name: String, hostname: String, uri: String) -> (r: Ros)
        ensures
            r.name@ == name@,
            r.hostname@ == hostname@,
            r.uri@ == uri@,
    {
        Ros { name, hostname, uri }
    }

    /// The address under which this node's own server is reachable.
    pub fn node_uri(&self) -> (r: &str)
        ensures
            r@ == self.uri@,
    {
        self.uri.as_str()
    }

    /// Interprets the directory's reply to a parameter-existence query. The
    /// remote call happens outside the library; its decoded reply (status
    /// code, status message, value) is handed in as plain values.
    pub fn has_param(&self, code: i32, message: String, value: bool) -> (r: Result<
        bool,
        MasterError,
    >)
        ensures
            code == MASTER_SUCCESS ==> r == Ok::<bool, MasterError>(value),
            code != MASTER_SUCCESS ==> (r matches Err(MasterError::Failure(m)) && m@
                == message@),
    {
        if code == MASTER_SUCCESS {
            Ok(value)
        } else {
            Err(MasterError::Failure(message))
        }
    }

    /// Interprets the directory's reply to a parameter-name listing, the
    /// same way.
    pub fn get_param_names(&self, code: i32, message: String, names: Vec<String>) -> (r: Result<
        Vec<String>,
        MasterError,
    >)
        ensures
            code == MASTER_SUCCESS ==> (r matches Ok(ns) && ns == names),
            code != MASTER_SUCCESS ==> (r matches Err(MasterError::Failure(m)) && m@
                == message@),
    {
        if code == MASTER_SUCCESS {
            Ok(names)
        } else {
            Err(MasterError::Failure(message))
        }
    }
}

} // verus!
