//! Driver status codes and the server's error taxonomy.

use vstd::prelude::*;
use vstd::string::StringExecFns;

verus! {

/// Status carried by a GAP (advertising / connection management) event.
///
/// The driver reports many distinct failure reasons; the server only
/// distinguishes success from failure and keeps the raw code for logging.
#[derive(Clone, Copy, Debug, PartialEq, Eq, Structural)]
pub enum BtStatus {
    Success,
    Fail(u8),
}

/// Status carried by a GATT confirmation event.
#[derive(Clone, Copy, Debug, PartialEq, Eq, Structural)]
pub enum GattStatus {
    Success,
    Fail(u8),
}

/// Errors surfaced by the attribute server core.
///
/// Configuration errors (`DuplicateService`, `DuplicateCharacteristic`,
/// `ServiceLimit`, `CharacteristicLimit`, `AlreadyStarted`) are detected when
/// services are registered or started.  `ProtocolStatus` records a
/// non-success status carried by a driver confirmation; it is scoped to the
/// one service instance affected.  `InvalidHandle` records a runtime handle
/// that clashes with one already owned by a live service, and
/// `UnknownService` a runtime handle with no owning service.
#[derive(Clone, Copy, Debug, PartialEq, Eq, Structural)]
pub enum BtError {
    /// Too many services registered with one server.
    ServiceLimit,
    /// A service declared more characteristics than the handle budget allows.
    CharacteristicLimit,
    /// A runtime handle is already owned by a live service, or a
    /// characteristic identifier is not bound to a handle.
    InvalidHandle,
    /// A service identifier is already registered.
    DuplicateService,
    /// A characteristic identifier appears twice in one service.
    DuplicateCharacteristic,
    /// A service handle has no prior `record_service` entry.
    UnknownService,
    /// `register` was called after `start`.
    AlreadyStarted,
    /// A driver confirmation carried this non-success status code.
    ProtocolStatus(u8),
}

impl BtError {
    /// A short description for callers that log errors.
    pub fn message(&self) -> (r: String)
        ensures
            match self {
                BtError::ServiceLimit => r@ == "service limit reached"@,
                BtError::CharacteristicLimit => r@ == "characteristic limit reached"@,
                BtError::InvalidHandle => r@ == "invalid handle"@,
                BtError::DuplicateService => r@ == "service already registered"@,
                BtError::DuplicateCharacteristic => r@ == "characteristic declared twice"@,
                BtError::UnknownService => r@ == "service not registered"@,
                BtError::AlreadyStarted => r@ == "server already started"@,
                BtError::ProtocolStatus(_) => r@ == "driver reported a failure status"@,
            },
    {
        match self {
            BtError::ServiceLimit => String::from_str("service limit reached"),
            BtError::CharacteristicLimit => String::from_str("characteristic limit reached"),
            BtError::InvalidHandle => String::from_str("invalid handle"),
            BtError::DuplicateService => String::from_str("service already registered"),
            BtError::DuplicateCharacteristic => String::from_str("characteristic declared twice"),
            BtError::UnknownService => String::from_str("service not registered"),
            BtError::AlreadyStarted => String::from_str("server already started"),
            BtError::ProtocolStatus(_) => String::from_str("driver reported a failure status"),
        }
    }
}

/// Checks a GAP status: failure becomes a `ProtocolStatus` error carrying
/// the driver's raw code.
pub fn check_bt_status(status: BtStatus) -> (r: Result<(), BtError>)
    ensures
        match status {
            BtStatus::Success => r is Ok,
            BtStatus::Fail(code) => r == Err::<(), BtError>(BtError::ProtocolStatus(code)),
        },
{
    match status {
        BtStatus::Success => Ok(()),
        BtStatus::Fail(code) => Err(BtError::ProtocolStatus(code)),
    }
}

/// Checks a GATT confirmation status: failure becomes a `ProtocolStatus`
/// error carrying the driver's raw code.
pub fn check_gatt_status(status: GattStatus) -> (r: Result<(), BtError>)
    ensures
        match status {
            GattStatus::Success => r is Ok,
            GattStatus::Fail(code) => r == Err::<(), BtError>(BtError::ProtocolStatus(code)),
        },
{
    match status {
        GattStatus::Success => Ok(()),
        GattStatus::Fail(code) => Err(BtError::ProtocolStatus(code)),
    }
}

/// Extracts the error of a fallible operation, discarding the success value;
/// the caller decides how to report it.
pub fn check_result<T>(status: Result<T, BtError>) -> (r: Option<BtError>)
    ensures
        match status {
            Ok(_) => r is None,
            Err(e) => r == Some(e),
        },
{
    match status {
        Ok(_) => None,
        Err(e) => Some(e),
    }
}

} // verus!
