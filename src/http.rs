use vstd::prelude::*;

use crate::domain::{is_blank, DomainError, Environment, FeatureFlag, FlagModel};
use crate::repository::FlagRepository;
use crate::service::{with_flag_set, FlagService};

verus! {

/// The body of a request that sets a flag.
#[derive(Debug)]
pub struct CreateFlagRequest {
    pub key: String,
    pub enabled: bool,
    pub environment: Environment,
}

/// The body of an error response.
#[derive(Debug)]
pub struct ErrorResponse {
    pub message: String,
}

/// The HTTP status for an error.
pub open spec fn status_of(err: DomainError) -> u16 {
    match err {
        DomainError::EmptyKey => 400,
        DomainError::DuplicateKey { .. } => 409,
    }
}

/// The status and body of the response to an error: Bad Request for an empty
/// key, Conflict for a duplicate one; the body carries the error's text.
pub fn map_domain_error(err: DomainError) -> (r: (u16, ErrorResponse))
    ensures
        r.0 == status_of(err),
        r.1.message@ == err.text(),
{
    let status: u16 = match err {
        DomainError::EmptyKey => 400,
        DomainError::DuplicateKey { .. } => 409,
    };
    (status, ErrorResponse { message: err.message() })
}

/// Serves a request to set a flag: the flag that was set, or the status and
/// body of the error.
pub fn create_flag<R: FlagRepository>(service: &mut FlagService<R>, request: CreateFlagRequest) -> (r: Result<FeatureFlag, (u16, ErrorResponse)>)
    requires
        old(service).well_formed(),
    ensures
        final(service).well_formed(),
        is_blank(request.key@) <==> r is Err,
        is_blank(request.key@) ==> final(service).stored() == old(service).stored(),
        !is_blank(request.key@) ==> final(service).stored() == with_flag_set(
            old(service).stored(),
            request.key@,
            request.enabled,
            request.environment,
        ),
        r matches Err(e) ==> e.0 == 400 && e.1.message@ == DomainError::EmptyKey.text(),
        r matches Ok(f) ==> f@ == (FlagModel { key: request.key@, enabled: request.enabled, environment: request.environment }),
{
    match service.set_flag(request.key, request.enabled, request.environment) {
        Ok(flag) => Ok(flag),
        Err(err) => Err(map_domain_error(err)),
    }
}

} // verus!
