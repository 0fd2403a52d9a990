use vstd::prelude::*;

verus! {

/// The error kinds that the gateway's services report.
#[derive(Debug)]
pub enum GatewayError {
    Parse(String),
    Internal(String),
    InvalidState(String),
    NotSupported(String),
    Network(String),
    B2bua(String),
    Protocol(String),
}

impl GatewayError {
    /// The category of the error, by the order of the variants above.
    pub open spec fn kind(&self) -> int {
        match self {
            GatewayError::Parse(_) => 0,
            GatewayError::Internal(_) => 1,
            GatewayError::InvalidState(_) => 2,
            GatewayError::NotSupported(_) => 3,
            GatewayError::Network(_) => 4,
            GatewayError::B2bua(_) => 5,
            GatewayError::Protocol(_) => 6,
        }
    }

    /// The text carried by the error.
    pub open spec fn message(&self) -> Seq<char> {
        match self {
            GatewayError::Parse(m) => m@,
            GatewayError::Internal(m) => m@,
            GatewayError::InvalidState(m) => m@,
            GatewayError::NotSupported(m) => m@,
            GatewayError::Network(m) => m@,
            GatewayError::B2bua(m) => m@,
            GatewayError::Protocol(m) => m@,
        }
    }

    /// Whether this is a parse error.
    pub fn is_parse(&self) -> (r: bool)
        ensures
            r == (self.kind() == 0),
    {
        match self {
            GatewayError::Parse(_) => true,
            _ => false,
        }
    }

    /// The text of the error, for display by callers.
    pub fn describe(&self) -> (r: String)
        ensures
            r@ == self.message(),
    {
        match self {
            GatewayError::Parse(m) => m.clone(),
            GatewayError::Internal(m) => m.clone(),
            GatewayError::InvalidState(m) => m.clone(),
            GatewayError::NotSupported(m) => m.clone(),
            GatewayError::Network(m) => m.clone(),
            GatewayError::B2bua(m) => m.clone(),
            GatewayError::Protocol(m) => m.clone(),
        }
    }
}

/// Results of the gateway's services.
pub type GatewayResult<T> = Result<T, GatewayError>;

} // verus!
