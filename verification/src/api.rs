//! What the calls of the provider APIs have in common.

use vstd::prelude::*;

verus! {

/// The method of an HTTP request.
#[derive(Debug, Clone, Copy, PartialEq, Eq, Structural)]
pub enum ApiMethod {
    Get,
    Post,
    Put,
    Patch,
    Delete,
}

impl ApiMethod {
    /// The name of the method.
    pub open spec fn name(self) -> Seq<char> {
        match self {
            ApiMethod::Get => "GET"@,
            ApiMethod::Post => "POST"@,
            ApiMethod::Put => "PUT"@,
            ApiMethod::Patch => "PATCH"@,
            ApiMethod::Delete => "DELETE"@,
        }
    }

    /// The name of the method.
    pub fn as_name(&self) -> (r: &'static str)
        ensures
            r@ == self.name(),
    {
        match self {
            ApiMethod::Get => "GET",
            ApiMethod::Post => "POST",
            ApiMethod::Put => "PUT",
            ApiMethod::Patch => "PATCH",
            ApiMethod::Delete => "DELETE",
        }
    }
}

} // verus!
