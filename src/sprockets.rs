use vstd::prelude::*;

verus! {

/// Errors of the root-of-trust sprocket server API.
#[derive(Copy, Clone, Debug, PartialEq, Eq, Structural)]
pub enum SprocketsError {
    FailedToReadSource,
    FailedToHandleRequest,
    FailedToWriteResponse,
}

/// The wire code of each error.
pub open spec fn sprockets_code(e: SprocketsError) -> u32 {
    match e {
        SprocketsError::FailedToReadSource => 1,
        SprocketsError::FailedToHandleRequest => 2,
        SprocketsError::FailedToWriteResponse => 3,
    }
}

impl SprocketsError {
    /// The wire code of this error.
    pub fn code(&self) -> (r: u32)
        ensures
            r == sprockets_code(*self),
    {
        match self {
            SprocketsError::FailedToReadSource => 1,
            SprocketsError::FailedToHandleRequest => 2,
            SprocketsError::FailedToWriteResponse => 3,
        }
    }

    /// The error with wire code `e`, if there is one.
    pub fn from_code(e: u32) -> (r: Option<SprocketsError>)
        ensures
            r matches Some(k) ==> sprockets_code(k) == e,
            r is None <==> !(1 <= e <= 3),
    {
        match e {
            1 => Some(SprocketsError::FailedToReadSource),
            2 => Some(SprocketsError::FailedToHandleRequest),
            3 => Some(SprocketsError::FailedToWriteResponse),
            _ => None,
        }
    }
}

impl From<SprocketsError> for u16 {
    fn from(rc: SprocketsError) -> (r: u16)
        ensures
            r == sprockets_code(rc),
    {
        rc.code() as u16
    }
}

impl vstd::std_specs::convert::FromSpecImpl<SprocketsError> for u16 {
    open spec fn obeys_from_spec() -> bool {
        true
    }

    open spec fn from_spec(rc: SprocketsError) -> u16 {
        sprockets_code(rc) as u16
    }
}

impl From<SprocketsError> for u32 {
    fn from(rc: SprocketsError) -> (r: u32)
        ensures
            r == sprockets_code(rc),
    {
        rc.code()
    }
}

impl vstd::std_specs::convert::FromSpecImpl<SprocketsError> for u32 {
    open spec fn obeys_from_spec() -> bool {
        true
    }

    open spec fn from_spec(rc: SprocketsError) -> u32 {
        sprockets_code(rc)
    }
}

} // verus!
