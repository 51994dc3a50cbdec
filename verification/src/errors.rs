//! The errors of the exchange and what the edge answers for each.

use vstd::prelude::*;

verus! {

/// Why the engine refuses a command. A refused command changes nothing.
#[derive(Clone, Copy, Debug, PartialEq, Eq, Structural)]
pub enum RejectReason {
    /// The price is not above zero, not within the symbol's bounds, or not
    /// a multiple of its tick size.
    InvalidPrice,
    /// The quantity is not above zero, above the symbol's largest, or not
    /// a multiple of its lot size.
    InvalidQuantity,
    /// No engine is configured for the symbol.
    UnknownSymbol,
    /// The engine runs market and limit orders only.
    UnsupportedOrderType,
    /// A fill-or-kill order that cannot be filled whole.
    TifUnfillable,
    /// No such order.
    NotFound,
    /// The order has reached a final state.
    NotCancellable,
    /// The inbox is over its high-water mark.
    Overloaded,
    /// The sequence counter cannot cover the events of the command.
    SequenceExhausted,
    /// The engine has stopped after a fatal fault.
    EngineHalted,
}

/// An error, as the edge reports it.
#[derive(Clone, Debug)]
pub enum AppError {
    Authentication(String),
    Authorization(String),
    Validation(String),
    OrderBook(String),
    Trade(String),
    User(String),
    Internal(String),
    NotFound(String),
    BadRequest(String),
    /// The request conflicts with the state of what it names.
    Conflict(String),
    /// The service cannot take the request now.
    Unavailable(String),
}

/// What the edge answers for an error: the HTTP status and the message.
#[derive(Clone, Debug)]
pub struct ErrorResponse {
    pub status: u16,
    pub message: String,
}

impl RejectReason {
    /// The HTTP status the edge answers: 400 for a command that is not
    /// valid, 404 and 409 for the lookup faults, 503 where the engine cannot
    /// take the command.
    pub open spec fn spec_status_code(self) -> u16 {
        match self {
            RejectReason::InvalidPrice | RejectReason::InvalidQuantity
            | RejectReason::UnknownSymbol | RejectReason::UnsupportedOrderType
            | RejectReason::TifUnfillable => 400,
            RejectReason::NotFound => 404,
            RejectReason::NotCancellable => 409,
            RejectReason::Overloaded | RejectReason::SequenceExhausted
            | RejectReason::EngineHalted => 503,
        }
    }

    #[verifier::when_used_as_spec(spec_status_code)]
    pub fn status_code(self) -> (code: u16)
        ensures
            code == self.spec_status_code(),
    {
        match self {
            RejectReason::InvalidPrice | RejectReason::InvalidQuantity
            | RejectReason::UnknownSymbol | RejectReason::UnsupportedOrderType
            | RejectReason::TifUnfillable => 400,
            RejectReason::NotFound => 404,
            RejectReason::NotCancellable => 409,
            RejectReason::Overloaded | RejectReason::SequenceExhausted
            | RejectReason::EngineHalted => 503,
        }
    }

    /// The reason in words.
    pub open spec fn spec_message(self) -> Seq<char> {
        match self {
            RejectReason::InvalidPrice => "Invalid price"@,
            RejectReason::InvalidQuantity => "Invalid quantity"@,
            RejectReason::UnknownSymbol => "Unknown symbol"@,
            RejectReason::UnsupportedOrderType => "Unsupported order type"@,
            RejectReason::TifUnfillable => "Order cannot be filled in full"@,
            RejectReason::NotFound => "Order not found"@,
            RejectReason::NotCancellable => "Order not found or cannot be cancelled"@,
            RejectReason::Overloaded => "Engine overloaded"@,
            RejectReason::SequenceExhausted => "Sequence numbers exhausted"@,
            RejectReason::EngineHalted => "Engine halted"@,
        }
    }

    pub fn message(self) -> (m: String)
        ensures
            m@ == self.spec_message(),
    {
        match self {
            RejectReason::InvalidPrice => "Invalid price".to_owned(),
            RejectReason::InvalidQuantity => "Invalid quantity".to_owned(),
            RejectReason::UnknownSymbol => "Unknown symbol".to_owned(),
            RejectReason::UnsupportedOrderType => "Unsupported order type".to_owned(),
            RejectReason::TifUnfillable => "Order cannot be filled in full".to_owned(),
            RejectReason::NotFound => "Order not found".to_owned(),
            RejectReason::NotCancellable => "Order not found or cannot be cancelled".to_owned(),
            RejectReason::Overloaded => "Engine overloaded".to_owned(),
            RejectReason::SequenceExhausted => "Sequence numbers exhausted".to_owned(),
            RejectReason::EngineHalted => "Engine halted".to_owned(),
        }
    }
}

impl AppError {
    /// The message the error carries.
    pub open spec fn spec_message(&self) -> Seq<char> {
        match self {
            AppError::Authentication(m) => m@,
            AppError::Authorization(m) => m@,
            AppError::Validation(m) => m@,
            AppError::OrderBook(m) => m@,
            AppError::Trade(m) => m@,
            AppError::User(m) => m@,
            AppError::Internal(m) => m@,
            AppError::NotFound(m) => m@,
            AppError::BadRequest(m) => m@,
            AppError::Conflict(m) => m@,
            AppError::Unavailable(m) => m@,
        }
    }

    /// The HTTP status of each kind of error.
    pub open spec fn spec_status_code(&self) -> u16 {
        match self {
            AppError::Authentication(_) => 401,
            AppError::Authorization(_) => 403,
            AppError::Validation(_) => 400,
            AppError::OrderBook(_) => 400,
            AppError::Trade(_) => 400,
            AppError::User(_) => 400,
            AppError::Internal(_) => 500,
            AppError::NotFound(_) => 404,
            AppError::BadRequest(_) => 400,
            AppError::Conflict(_) => 409,
            AppError::Unavailable(_) => 503,
        }
    }

    #[verifier::when_used_as_spec(spec_status_code)]
    pub fn status_code(&self) -> (code: u16)
        ensures
            code == self.spec_status_code(),
    {
        match self {
            AppError::Authentication(_) => 401,
            AppError::Authorization(_) => 403,
            AppError::Validation(_) => 400,
            AppError::OrderBook(_) => 400,
            AppError::Trade(_) => 400,
            AppError::User(_) => 400,
            AppError::Internal(_) => 500,
            AppError::NotFound(_) => 404,
            AppError::BadRequest(_) => 400,
            AppError::Conflict(_) => 409,
            AppError::Unavailable(_) => 503,
        }
    }

    pub fn message(&self) -> (m: String)
        ensures
            m@ == self.spec_message(),
    {
        match self {
            AppError::Authentication(m) => m.clone(),
            AppError::Authorization(m) => m.clone(),
            AppError::Validation(m) => m.clone(),
            AppError::OrderBook(m) => m.clone(),
            AppError::Trade(m) => m.clone(),
            AppError::User(m) => m.clone(),
            AppError::Internal(m) => m.clone(),
            AppError::NotFound(m) => m.clone(),
            AppError::BadRequest(m) => m.clone(),
            AppError::Conflict(m) => m.clone(),
            AppError::Unavailable(m) => m.clone(),
        }
    }

    /// What the edge answers: the status of the error's kind and the
    /// error's own message.
    pub fn error_response(&self) -> (r: ErrorResponse)
        ensures
            r.status == self.spec_status_code(),
            r.message@ == self.spec_message(),
    {
        ErrorResponse { status: self.status_code(), message: self.message() }
    }

    /// The error for a command the engine refused: of the kind that
    /// answers the reason's status, with the reason in words.
    pub fn from_reject(reason: RejectReason) -> (e: AppError)
        ensures
            e.spec_status_code() == reason.spec_status_code(),
            e.spec_message() == reason.spec_message(),
            match reason {
                RejectReason::NotFound => e is NotFound,
                RejectReason::NotCancellable => e is Conflict,
                RejectReason::Overloaded | RejectReason::SequenceExhausted
                | RejectReason::EngineHalted => e is Unavailable,
                _ => e is Validation,
            },
    {
        let message = reason.message();
        match reason {
            RejectReason::NotFound => AppError::NotFound(message),
            RejectReason::NotCancellable => AppError::Conflict(message),
            RejectReason::Overloaded | RejectReason::SequenceExhausted
            | RejectReason::EngineHalted => AppError::Unavailable(message),
            _ => AppError::Validation(message),
        }
    }
}

} // verus!
