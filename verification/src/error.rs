use vstd::prelude::*;

verus! {

/// The failure classes the gateway distinguishes.
#[derive(Clone, Copy, Debug, PartialEq, Eq, Structural)]
pub enum GatewayError {
    /// The request body or a payload inside it is malformed.
    Format,
    /// The backend rejected the credentials.
    Auth,
    /// The backend was unreachable or answered with an unexpected status.
    Backend,
    /// The backend refused a write.
    Conflict,
    /// A recurrence rule could not be understood.
    Rule,
}

/// The HTTP status a terminal failure is reported with.
pub open spec fn status_of(e: GatewayError) -> u16 {
    match e {
        GatewayError::Format => 400,
        GatewayError::Auth => 401,
        GatewayError::Backend => 502,
        GatewayError::Conflict => 409,
        GatewayError::Rule => 422,
    }
}

/// The short name of a failure class.
pub open spec fn name_of_failure(e: GatewayError) -> Seq<char> {
    match e {
        GatewayError::Format => "malformed input"@,
        GatewayError::Auth => "credentials rejected"@,
        GatewayError::Backend => "backend failure"@,
        GatewayError::Conflict => "write conflict"@,
        GatewayError::Rule => "unparsable recurrence rule"@,
    }
}

impl GatewayError {
    /// Maps a failure to the HTTP status the transport should answer with.
    pub fn http_status(&self) -> (code: u16)
        ensures
            code == status_of(*self),
    {
        match self {
            GatewayError::Format => 400,
            GatewayError::Auth => 401,
            GatewayError::Backend => 502,
            GatewayError::Conflict => 409,
            GatewayError::Rule => 422,
        }
    }

    /// A short human-readable name of the failure class.
    pub fn describe(&self) -> (s: String)
        ensures
            s@ == name_of_failure(*self),
    {
        match self {
            GatewayError::Format => "malformed input".to_owned(),
            GatewayError::Auth => "credentials rejected".to_owned(),
            GatewayError::Backend => "backend failure".to_owned(),
            GatewayError::Conflict => "write conflict".to_owned(),
            GatewayError::Rule => "unparsable recurrence rule".to_owned(),
        }
    }
}

} // verus!
