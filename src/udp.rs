//! How the datagram socket behind a UDP source is set up, as a list of steps that
//! the caller carries out in order on one socket.
use vstd::prelude::*;

use crate::addr::{wildcard, Ipv4};
use crate::source::Source;

verus! {

#[derive(Clone, Copy, Debug, PartialEq, Eq, Structural)]
pub enum SocketStep {
    /// Create an IPv4 UDP datagram socket.
    CreateDatagram,
    /// Read the receive-buffer size that the system gave the socket and set it
    /// to twice that (see `doubled_recv_buffer_size`).
    DoubleRecvBuffer,
    /// Allow other sockets to bind the same port.
    ReusePort,
    /// Join the multicast `group` on the local `interface`.
    JoinMulticast { group: Ipv4, interface: Ipv4 },
    /// Bind the socket to `addr:port`.
    Bind { addr: Ipv4, port: u16 },
}

/// The steps that every UDP source's socket begins with.
pub open spec fn common_steps() -> Seq<SocketStep> {
    seq![SocketStep::CreateDatagram, SocketStep::DoubleRecvBuffer, SocketStep::ReusePort]
}

/// A multicast receiver joins the group on the wildcard interface, then binds the
/// wildcard address (not the group's) so that group traffic reaches it whichever
/// interface it arrives on.
pub open spec fn multicast_plan(group: Ipv4, port: u16) -> Seq<SocketStep> {
    common_steps().push(SocketStep::JoinMulticast { group, interface: wildcard() }).push(
        SocketStep::Bind { addr: wildcard(), port },
    )
}

/// A unicast receiver binds `host:port` and joins no group.
pub open spec fn unicast_plan(host: Ipv4, port: u16) -> Seq<SocketStep> {
    common_steps().push(SocketStep::Bind { addr: host, port })
}

fn common_step_vec() -> (r: Vec<SocketStep>)
    ensures
        r@ == common_steps(),
{
    let mut v: Vec<SocketStep> = Vec::new();
    v.push(SocketStep::CreateDatagram);
    v.push(SocketStep::DoubleRecvBuffer);
    v.push(SocketStep::ReusePort);
    assert(v@ =~= common_steps());
    v
}

pub fn multicast_steps(group: Ipv4, port: u16) -> (r: Vec<SocketStep>)
    ensures
        r@ == multicast_plan(group, port),
{
    let any = Ipv4::unspecified();
    let mut v = common_step_vec();
    v.push(SocketStep::JoinMulticast { group, interface: any });
    v.push(SocketStep::Bind { addr: any, port });
    v
}

pub fn unicast_steps(host: Ipv4, port: u16) -> (r: Vec<SocketStep>)
    ensures
        r@ == unicast_plan(host, port),
{
    let mut v = common_step_vec();
    v.push(SocketStep::Bind { addr: host, port });
    v
}

/// The socket set-up for a UDP source; `None` for the other sources, which read
/// from no socket.
pub fn socket_plan(src: &Source) -> (r: Option<Vec<SocketStep>>)
    ensures
        match *src {
            Source::Multicast { group, port } => r matches Some(v) && v@ == multicast_plan(
                group,
                port,
            ),
            Source::Unicast { host, port } => r matches Some(v) && v@ == unicast_plan(host, port),
            _ => r is None,
        },
{
    match src {
        Source::Multicast { group, port } => Some(multicast_steps(*group, *port)),
        Source::Unicast { host, port } => Some(unicast_steps(*host, *port)),
        _ => None,
    }
}

/// The receive-buffer size to set on a socket whose system-given size is `n`:
/// twice `n`, or `None` where that does not fit in a `usize`.
pub fn doubled_recv_buffer_size(n: usize) -> (r: Option<usize>)
    ensures
        2 * n <= usize::MAX ==> r == Some((2 * n) as usize),
        2 * n > usize::MAX ==> r is None,
{
    n.checked_mul(2)
}

} // verus!
