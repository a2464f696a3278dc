//! The errors of the server's operations.

use vstd::prelude::*;

use crate::frc_type::FrcType;

verus! {

/// Why a server operation failed; each carries a description.
#[derive(Debug)]
pub enum NTServerError {
    ClientDoesNotExist(String),
    ClientAlreadyExists(String),
    TopicDoesNotExist(String),
    SubscriptionDoesNotExist(String),
    WrongValueType(FrcType, FrcType),
    NotMetaTopic(String),
    NotNormalTopic(String),
}

/// The kind of an error, without its description.
pub enum ErrorKind {
    ClientDoesNotExist,
    ClientAlreadyExists,
    TopicDoesNotExist,
    SubscriptionDoesNotExist,
    WrongValueType,
    NotMetaTopic,
    NotNormalTopic,
}

/// The kind of an error.
pub open spec fn kind(e: NTServerError) -> ErrorKind {
    match e {
        NTServerError::ClientDoesNotExist(_) => ErrorKind::ClientDoesNotExist,
        NTServerError::ClientAlreadyExists(_) => ErrorKind::ClientAlreadyExists,
        NTServerError::TopicDoesNotExist(_) => ErrorKind::TopicDoesNotExist,
        NTServerError::SubscriptionDoesNotExist(_) => ErrorKind::SubscriptionDoesNotExist,
        NTServerError::WrongValueType(_, _) => ErrorKind::WrongValueType,
        NTServerError::NotMetaTopic(_) => ErrorKind::NotMetaTopic,
        NTServerError::NotNormalTopic(_) => ErrorKind::NotNormalTopic,
    }
}

/// The outcome of an operation: its value, or the kind of its error.
pub open spec fn outcome<T>(r: Result<T, NTServerError>) -> Result<T, ErrorKind> {
    match r {
        Ok(v) => Ok(v),
        Err(e) => Err(kind(e)),
    }
}

} // verus!
