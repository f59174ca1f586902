//! The mock endpoint: where it listens, and the timing of a capture.
use vstd::prelude::*;

use crate::text::{decimal, push_decimal};

verus! {

/// The receive timeout of the endpoint's socket, in milliseconds, unless
/// another is chosen.
pub const RECV_TIMEOUT_MS: u64 = 100;

/// How long a capture waits after the action returns before it tells the
/// receive loop to stop, in milliseconds, unless another is chosen.
pub const DRAIN_MS: u64 = 200;

/// The timing of a capture.
#[derive(Clone, Copy, Debug, PartialEq, Eq, Structural)]
pub struct CaptureConfig {
    recv_timeout_ms: u64,
    drain_ms: u64,
}

impl CaptureConfig {
    /// A socket timeout is never zero, and the drain outlasts one receive
    /// attempt, so the loop makes a full attempt after the action returned.
    pub open spec fn wf(&self) -> bool {
        0 < self.recv_timeout_ms() < self.drain_ms()
    }

    pub closed spec fn recv_timeout_ms(&self) -> u64 {
        self.recv_timeout_ms
    }

    pub closed spec fn drain_ms(&self) -> u64 {
        self.drain_ms
    }

    /// The timing of the endpoint unless another is chosen.
    pub fn standard() -> (r: CaptureConfig)
        ensures
            r.wf(),
            r.recv_timeout_ms() == RECV_TIMEOUT_MS,
            r.drain_ms() == DRAIN_MS,
    {
        CaptureConfig { recv_timeout_ms: RECV_TIMEOUT_MS, drain_ms: DRAIN_MS }
    }

    /// A timing of one's own; there is none where the timeout is zero or the
    /// drain does not outlast it.
    pub fn new(recv_timeout_ms: u64, drain_ms: u64) -> (r: Option<CaptureConfig>)
        ensures
            r is Some <==> 0 < recv_timeout_ms < drain_ms,
            r matches Some(c) ==> c.wf() && c.recv_timeout_ms() == recv_timeout_ms && c.drain_ms()
                == drain_ms,
    {
        if 0 < recv_timeout_ms && recv_timeout_ms < drain_ms {
            Some(CaptureConfig { recv_timeout_ms, drain_ms })
        } else {
            None
        }
    }

    pub fn recv_timeout(&self) -> (r: u64)
        ensures
            r == self.recv_timeout_ms(),
    {
        self.recv_timeout_ms
    }

    pub fn drain(&self) -> (r: u64)
        ensures
            r == self.drain_ms(),
    {
        self.drain_ms
    }
}

/// An IPv4 socket address.
#[derive(Clone, Copy, Debug)]
pub struct LocalAddr {
    pub ip: [u8; 4],
    pub port: u16,
}

/// The loopback address as written in text, with the colon before the port.
pub open spec fn loopback_prefix() -> Seq<char> {
    seq!['1', '2', '7', '.', '0', '.', '0', '.', '1', ':']
}

/// The canonical `a.b.c.d:port` form of an address.
pub open spec fn addr_text(a: LocalAddr) -> Seq<char> {
    decimal(a.ip@[0] as nat) + seq!['.'] + decimal(a.ip@[1] as nat) + seq!['.'] + decimal(
        a.ip@[2] as nat,
    ) + seq!['.'] + decimal(a.ip@[3] as nat) + seq![':'] + decimal(a.port as nat)
}

impl LocalAddr {
    pub open spec fn is_loopback(&self) -> bool {
        self.ip@ == seq![127u8, 0u8, 0u8, 1u8]
    }

    /// The address in its canonical `a.b.c.d:port` form.
    pub fn text(&self) -> (r: String)
        ensures
            r@ == addr_text(*self),
    {
        let mut out = String::new();
        push_decimal(&mut out, self.ip[0] as u32);
        out.append(".");
        push_decimal(&mut out, self.ip[1] as u32);
        out.append(".");
        push_decimal(&mut out, self.ip[2] as u32);
        out.append(".");
        push_decimal(&mut out, self.ip[3] as u32);
        out.append(":");
        push_decimal(&mut out, self.port as u32);
        proof {
            reveal_strlit(".");
            reveal_strlit(":");
        }
        assert(out@ =~= addr_text(*self));
        out
    }
}

/// Why a bound socket cannot serve as the endpoint.
#[derive(Clone, Copy, Debug, PartialEq, Eq, Structural)]
pub enum EndpointError {
    /// The socket is not bound to the loopback address.
    NotLoopback,
    /// The socket has no port of its own.
    NoPort,
}

/// The mock endpoint: the address its socket was bound to, and the timing of
/// its capture.
pub struct StatsDServer {
    local_addr: LocalAddr,
    config: CaptureConfig,
}

impl StatsDServer {
    /// Bound to a port of the loopback address, with a timing that lets the
    /// loop make a full attempt after the action.
    pub closed spec fn wf(&self) -> bool {
        self.local_addr.is_loopback() && self.local_addr.port != 0 && self.config.wf()
    }

    pub closed spec fn bound(&self) -> LocalAddr {
        self.local_addr
    }

    pub closed spec fn timing(&self) -> CaptureConfig {
        self.config
    }

    /// The endpoint of a socket bound at `bound`; refused where that is not
    /// a port of the loopback address.
    pub fn new(bound: LocalAddr, config: CaptureConfig) -> (r: Result<StatsDServer, EndpointError>)
        requires
            config.wf(),
        ensures
            r is Ok <==> bound.is_loopback() && bound.port != 0,
            !bound.is_loopback() ==> r == Err::<StatsDServer, EndpointError>(
                EndpointError::NotLoopback,
            ),
            bound.is_loopback() && bound.port == 0 ==> r == Err::<StatsDServer, EndpointError>(
                EndpointError::NoPort,
            ),
            r matches Ok(s) ==> s.wf() && s.bound() == bound && s.timing() == config,
    {
        if !(bound.ip[0] == 127 && bound.ip[1] == 0 && bound.ip[2] == 0 && bound.ip[3] == 1) {
            assert(!bound.is_loopback()) by {
                if bound.is_loopback() {
                    assert(bound.ip@[0] == 127u8);
                }
            }
            return Err(EndpointError::NotLoopback);
        }
        assert(bound.ip@ =~= seq![127u8, 0u8, 0u8, 1u8]);
        if bound.port == 0 {
            return Err(EndpointError::NoPort);
        }
        Ok(StatsDServer { local_addr: bound, config })
    }

    /// The address of the endpoint, `127.0.0.1:<port>`, for a client under
    /// test to send to.
    pub fn addr(&self) -> (r: String)
        ensures
            r@ == addr_text(self.bound()),
    {
        self.local_addr.text()
    }

    pub fn local_addr(&self) -> (r: LocalAddr)
        ensures
            r == self.bound(),
    {
        self.local_addr
    }

    pub fn config(&self) -> (r: CaptureConfig)
        ensures
            r == self.timing(),
    {
        self.config
    }
}

proof fn lemma_decimal_nonempty(n: nat)
    ensures
        decimal(n).len() >= 1,
    decreases n,
{
    if n >= 10 {
        lemma_decimal_nonempty(n / 10);
    }
}

proof fn lemma_decimal_positive(n: nat)
    requires
        n > 0,
    ensures
        decimal(n) != seq!['0'],
{
    if n < 10 {
        assert(decimal(n)[0] != '0');
    } else {
        lemma_decimal_nonempty(n / 10);
        assert(decimal(n).len() > 1);
    }
}

/// The address of an endpoint is the loopback address followed by the
/// decimal form of a port that is not zero.
pub proof fn lemma_addr_is_loopback(s: StatsDServer)
    requires
        s.wf(),
    ensures
        s.bound().port != 0,
        addr_text(s.bound()) == loopback_prefix() + decimal(s.bound().port as nat),
        decimal(s.bound().port as nat) != seq!['0'],
        addr_text(s.bound()).take(10) == loopback_prefix(),
{
    let a = s.bound();
    assert(decimal(127) =~= seq!['1', '2', '7']) by {
        assert(decimal(1) =~= seq!['1']);
        assert(decimal(12) =~= seq!['1', '2']);
    }
    assert(decimal(0) =~= seq!['0']);
    assert(decimal(1) =~= seq!['1']);
    assert(addr_text(a) =~= loopback_prefix() + decimal(a.port as nat));
    lemma_decimal_positive(a.port as nat);
    assert((loopback_prefix() + decimal(a.port as nat)).take(10) =~= loopback_prefix());
}

} // verus!
