//! Address filters and ephemeral ports.

use vstd::prelude::*;

use crate::rand::Rand;
use crate::wire::endpoint::IpListenEndpoint;
use crate::wire::ip::IpAddress;

verus! {

/// How well an address matches a bind's address filter: `None` if it does not
/// match, else how specific the filter that matched it is. No address matches
/// anything (0), an unspecified one matches its own IP version (1), and a concrete
/// one matches only itself (2).
pub open spec fn filter_score(filter: IpListenEndpoint, addr: IpAddress) -> Option<u8> {
    match filter.addr {
        None => Some(0),
        Some(a) => if a.unspecified_view() {
            if a.version_view() == addr.version_view() {
                Some(1)
            } else {
                None
            }
        } else if a == addr {
            Some(2)
        } else {
            None
        },
    }
}

/// Score `addr` against a bind's address filter, the way ingress demux ranks
/// candidate sockets.
pub fn addr_score(filter: &IpListenEndpoint, addr: &IpAddress) -> (r: Option<u8>)
    ensures
        r == filter_score(*filter, *addr),
{
    match filter.addr {
        None => Some(0),
        Some(a) => {
            if a.is_unspecified() {
                if a.version() == addr.version() {
                    Some(1)
                } else {
                    None
                }
            } else if a == *addr {
                Some(2)
            } else {
                None
            }
        },
    }
}

/// The bottom of the ephemeral (dynamic) local port range, per IANA. The range
/// runs to the top of the port space, 65535.
pub const EPHEMERAL_PORT_MIN: u16 = 49152;

/// The number of ephemeral ports.
pub const EPHEMERAL_PORT_COUNT: u32 = 16384;

/// The port tried in step `i` of a search that starts at the random number `seed`.
pub open spec fn probed_port(seed: u32, i: int) -> u16 {
    (EPHEMERAL_PORT_MIN + (seed % EPHEMERAL_PORT_COUNT + i) % (EPHEMERAL_PORT_COUNT as int)) as u16
}

/// The first port from step `i` on that is not taken.
pub open spec fn first_free_port(seed: u32, taken: spec_fn(u16) -> bool, i: int) -> Option<u16>
    decreases EPHEMERAL_PORT_COUNT - i,
{
    if i < 0 || i >= EPHEMERAL_PORT_COUNT {
        None
    } else if !taken(probed_port(seed, i)) {
        Some(probed_port(seed, i))
    } else {
        first_free_port(seed, taken, i + 1)
    }
}

/// An ephemeral port that was allocated is in the range and was free.
pub proof fn law_allocated_port_is_free(seed: u32, taken: spec_fn(u16) -> bool, i: int)
    requires
        0 <= i,
    ensures
        first_free_port(seed, taken, i) matches Some(port) ==> port >= EPHEMERAL_PORT_MIN && !taken(port),
    decreases EPHEMERAL_PORT_COUNT - i,
{
    if i < EPHEMERAL_PORT_COUNT && taken(probed_port(seed, i)) {
        law_allocated_port_is_free(seed, taken, i + 1);
    }
}

/// Allocation fails only when every port of the range is taken.
pub proof fn law_allocation_fails_only_when_full(seed: u32, taken: spec_fn(u16) -> bool, port: u16)
    requires
        first_free_port(seed, taken, 0) is None,
        port >= EPHEMERAL_PORT_MIN,
    ensures
        taken(port),
{
    let start = (seed % EPHEMERAL_PORT_COUNT) as int;
    let offset = port - EPHEMERAL_PORT_MIN;
    let i = if offset >= start {
        offset - start
    } else {
        offset - start + EPHEMERAL_PORT_COUNT
    };
    assert((start + i) % (EPHEMERAL_PORT_COUNT as int) == offset);
    assert(probed_port(seed, i) == port);
    lemma_none_free(seed, taken, 0, i);
}

proof fn lemma_none_free(seed: u32, taken: spec_fn(u16) -> bool, from: int, i: int)
    requires
        0 <= from <= i < EPHEMERAL_PORT_COUNT,
        first_free_port(seed, taken, from) is None,
    ensures
        taken(probed_port(seed, i)),
    decreases i - from,
{
    if from < i {
        lemma_none_free(seed, taken, from + 1, i);
    }
}

/// Allocate an ephemeral local port: start at a random point in the range and
/// linearly probe upward (wrapping) for the first port `in_use` doesn't claim.
///
/// The random start makes local ports hard to predict (RFC 6056 §3.3). `None` is
/// returned only when every port in the range is in use.
pub fn alloc_ephemeral_port<F: Fn(u16) -> bool>(rand: &mut Rand, in_use: F) -> (r: Option<u16>)
    requires
        forall|port: u16| call_requires(in_use, (port,)),
    ensures
        *final(rand) == old(rand).next(),
        forall|taken: spec_fn(u16) -> bool|
            #![trigger first_free_port(old(rand).value(), taken, 0)]
            (forall|port: u16, b: bool| #[trigger] call_ensures(in_use, (port,), b) ==> b == taken(port)) ==> r
                == first_free_port(old(rand).value(), taken, 0),
        r matches Some(port) ==> port >= EPHEMERAL_PORT_MIN && call_ensures(in_use, (port,), false),
        r is None ==> forall|i: int|
            0 <= i < EPHEMERAL_PORT_COUNT ==> call_ensures(
                in_use,
                (#[trigger] probed_port(old(rand).value(), i),),
                true,
            ),
{
    let seed: u32 = rand.rand_u32();
    let start: u32 = seed % EPHEMERAL_PORT_COUNT;
    let mut i: u32 = 0;
    while i < EPHEMERAL_PORT_COUNT
        invariant
            i <= EPHEMERAL_PORT_COUNT,
            start == seed % EPHEMERAL_PORT_COUNT,
            seed == old(rand).value(),
            *rand == old(rand).next(),
            forall|port: u16| call_requires(in_use, (port,)),
            forall|k: int|
                0 <= k < i ==> call_ensures(in_use, (#[trigger] probed_port(seed, k),), true),
            forall|taken: spec_fn(u16) -> bool|
                #![trigger first_free_port(seed, taken, 0)]
                (forall|port: u16, b: bool| #[trigger] call_ensures(in_use, (port,), b) ==> b == taken(port))
                    ==> first_free_port(seed, taken, i as int) == first_free_port(seed, taken, 0),
        decreases EPHEMERAL_PORT_COUNT - i,
    {
        let port: u16 = EPHEMERAL_PORT_MIN + ((start + i) % EPHEMERAL_PORT_COUNT) as u16;
        assert(port == probed_port(seed, i as int));
        if !in_use(port) {
            return Some(port);
        }
        i += 1;
    }
    None
}

} // verus!
