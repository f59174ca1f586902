//! A stand-in for a StatsD collector in tests: the address of the endpoint,
//! the decisions of the background receive loop, and the shaping of what was
//! captured into text.
use vstd::prelude::*;

pub mod capture;
pub mod endpoint;
pub mod text;

use crate::endpoint::{CaptureConfig, EndpointError, LocalAddr, StatsDServer};

verus! {

/// The endpoint of a socket bound at `bound`, with the standard timing.
pub fn start(bound: LocalAddr) -> (r: Result<StatsDServer, EndpointError>)
    ensures
        r is Ok <==> bound.is_loopback() && bound.port != 0,
        !bound.is_loopback() ==> r == Err::<StatsDServer, EndpointError>(
            EndpointError::NotLoopback,
        ),
        bound.is_loopback() && bound.port == 0 ==> r == Err::<StatsDServer, EndpointError>(
            EndpointError::NoPort,
        ),
        r matches Ok(s) ==> s.wf() && s.bound() == bound && s.timing().recv_timeout_ms()
            == endpoint::RECV_TIMEOUT_MS && s.timing().drain_ms() == endpoint::DRAIN_MS,
{
    StatsDServer::new(bound, CaptureConfig::standard())
}

} // verus!
