//! The fork-listing request and the classification of what the hosting
//! service answered.
use vstd::prelude::*;

verus! {

/// The HTTP status of a successful answer.
pub const STATUS_OK: u16 = 200;

/// Why a request to the hosting service gave no usable answer.
#[derive(Debug, Clone, PartialEq, Eq)]
pub enum FetchError {
    /// The service answered with this status instead of `STATUS_OK`.
    BadStatus(u16),
    /// The request failed before an answer came, for the reason given.
    Transport(String),
}

/// Which page of forks to list, and how many forks a page holds.
pub struct PageCursor {
    page_size: u16,
    page_number: u16,
}

impl PageCursor {
    pub closed spec fn spec_page_size(&self) -> u16 {
        self.page_size
    }

    pub closed spec fn spec_page_number(&self) -> u16 {
        self.page_number
    }

    #[verifier::type_invariant]
    closed spec fn inv(self) -> bool {
        self.page_size >= 1 && self.page_number >= 1
    }

    /// A cursor for page `page_number` (counted from 1) of `page_size` forks;
    /// `None` where either is 0.
    pub fn new(page_size: u16, page_number: u16) -> (r: Option<PageCursor>)
        ensures
            r is Some <==> page_size >= 1 && page_number >= 1,
            r matches Some(c) ==> c.spec_page_size() == page_size && c.spec_page_number()
                == page_number,
    {
        if page_size >= 1 && page_number >= 1 {
            Some(PageCursor { page_size, page_number })
        } else {
            None
        }
    }

    /// How many forks a page holds: at least one.
    pub fn page_size(&self) -> (r: u16)
        ensures
            r == self.spec_page_size(),
            r >= 1,
    {
        proof {
            use_type_invariant(self);
        }
        self.page_size
    }

    /// The page to list, counted from 1.
    pub fn page_number(&self) -> (r: u16)
        ensures
            r == self.spec_page_number(),
            r >= 1,
    {
        proof {
            use_type_invariant(self);
        }
        self.page_number
    }
}

/// Classifies an answer of the hosting service, given as its status and body,
/// or the reason the request failed: the body where the status is
/// `STATUS_OK`, `BadStatus` for any other status, `Transport` for a failed
/// request.
pub fn check_response<T>(response: Result<(u16, T), String>) -> (r: Result<T, FetchError>)
    ensures
        response matches Err(m) ==> (r matches Err(FetchError::Transport(e)) && e@ == m@),
        response matches Ok((s, b)) ==> (s == STATUS_OK ==> r == Ok::<T, FetchError>(b)),
        response matches Ok((s, b)) ==> (s != STATUS_OK ==> r == Err::<T, FetchError>(
            FetchError::BadStatus(s),
        )),
{
    match response {
        Ok((status, body)) => {
            if status == STATUS_OK {
                Ok(body)
            } else {
                Err(FetchError::BadStatus(status))
            }
        },
        Err(message) => Err(FetchError::Transport(message)),
    }
}

} // verus!
