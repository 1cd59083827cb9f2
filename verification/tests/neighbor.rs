use xarxa::buf::PacketBuf;
use xarxa::iface::IfaceHandle;
use xarxa::neighbor::{
    pending_queue_lifetime, retrans_timer, Answer, Cache, Key, ProbeEvent, NEIGHBOR_CACHE_COUNT, PENDING_QUEUE_COUNT,
};
use xarxa::pending::PendingQueue;
use xarxa::time::Instant;
use xarxa::wire::ethernet::EthernetAddress;
use xarxa::wire::ip::Ipv6Address;

const IF_0: IfaceHandle = IfaceHandle(0);
const IF_1: IfaceHandle = IfaceHandle(1);

const HADDR_A: EthernetAddress = EthernetAddress([0, 0, 0, 0, 0, 1]);
const HADDR_B: EthernetAddress = EthernetAddress([0, 0, 0, 0, 0, 2]);
const HADDR_C: EthernetAddress = EthernetAddress([0, 0, 0, 0, 0, 3]);
const HADDR_D: EthernetAddress = EthernetAddress([0, 0, 0, 0, 0, 4]);

const MOCK_IP_ADDR_1: Ipv6Address = Ipv6Address([0xfe, 0x80, 0, 0, 0, 0, 0, 0, 0, 0, 0, 0, 0, 0, 0, 1]);
const MOCK_IP_ADDR_2: Ipv6Address = Ipv6Address([0xfe, 0x80, 0, 0, 0, 0, 0, 0, 0, 0, 0, 0, 0, 0, 0, 2]);
const MOCK_IP_ADDR_3: Ipv6Address = Ipv6Address([0xfe, 0x80, 0, 0, 0, 0, 0, 0, 0, 0, 0, 0, 0, 0, 0, 3]);
const MOCK_IP_ADDR_4: Ipv6Address = Ipv6Address([0xfe, 0x80, 0, 0, 0, 0, 0, 0, 0, 0, 0, 0, 0, 0, 0, 4]);

fn key(addr: Ipv6Address) -> Key {
    (IF_0, addr.into())
}

fn ms(millis: i64) -> Instant {
    Instant::from_millis(millis)
}

#[test]
fn test_fill() {
    let mut cache = Cache::new();

    assert!(!cache.lookup(&key(MOCK_IP_ADDR_1), ms(0)).found());
    assert!(!cache.lookup(&key(MOCK_IP_ADDR_2), ms(0)).found());

    cache.fill(key(MOCK_IP_ADDR_1), HADDR_A, ms(0));
    assert_eq!(cache.lookup(&key(MOCK_IP_ADDR_1), ms(0)), Answer::Found(HADDR_A));
    assert!(!cache.lookup(&key(MOCK_IP_ADDR_2), ms(0)).found());
}

#[test]
fn test_expire() {
    let mut cache = Cache::new();

    cache.fill(key(MOCK_IP_ADDR_1), HADDR_A, ms(0));
    assert_eq!(cache.lookup(&key(MOCK_IP_ADDR_1), ms(0)), Answer::Found(HADDR_A));
    assert!(!cache
        .lookup(&key(MOCK_IP_ADDR_1), ms(0).after(Cache::entry_lifetime().times(2)))
        .found());
}

#[test]
fn test_replace() {
    let mut cache = Cache::new();

    cache.fill(key(MOCK_IP_ADDR_1), HADDR_A, ms(0));
    assert_eq!(cache.lookup(&key(MOCK_IP_ADDR_1), ms(0)), Answer::Found(HADDR_A));
    cache.fill(key(MOCK_IP_ADDR_1), HADDR_B, ms(0));
    assert_eq!(cache.lookup(&key(MOCK_IP_ADDR_1), ms(0)), Answer::Found(HADDR_B));
}

#[test]
fn test_per_iface() {
    let mut cache = Cache::new();
    let zero = Instant::zero();

    // The same protocol address resolves independently on different interfaces.
    cache.fill((IF_0, MOCK_IP_ADDR_1.into()), HADDR_A, zero);
    cache.fill((IF_1, MOCK_IP_ADDR_1.into()), HADDR_B, zero);
    assert_eq!(cache.lookup(&(IF_0, MOCK_IP_ADDR_1.into()), zero), Answer::Found(HADDR_A));
    assert_eq!(cache.lookup(&(IF_1, MOCK_IP_ADDR_1.into()), zero), Answer::Found(HADDR_B));

    cache.purge_iface(IF_0);
    assert!(!cache.lookup(&(IF_0, MOCK_IP_ADDR_1.into()), zero).found());
    assert_eq!(cache.lookup(&(IF_1, MOCK_IP_ADDR_1.into()), zero), Answer::Found(HADDR_B));
}

#[test]
fn test_evict() {
    let mut cache = Cache::new();

    // Fill the cache to capacity, with the entry for MOCK_IP_ADDR_2 being the
    // one that expires soonest.
    cache.fill(key(MOCK_IP_ADDR_1), HADDR_A, ms(100));
    cache.fill(key(MOCK_IP_ADDR_2), HADDR_B, ms(50));
    for i in 0..(NEIGHBOR_CACHE_COUNT - 2) {
        let mut addr = MOCK_IP_ADDR_3.octets();
        addr[14] = 1;
        addr[15] = i as u8;
        cache.fill(key(Ipv6Address(addr)), HADDR_C, ms(200));
    }
    assert_eq!(cache.lookup(&key(MOCK_IP_ADDR_2), ms(1000)), Answer::Found(HADDR_B));
    assert!(!cache.lookup(&key(MOCK_IP_ADDR_4), ms(1000)).found());

    cache.fill(key(MOCK_IP_ADDR_4), HADDR_D, ms(300));
    assert!(!cache.lookup(&key(MOCK_IP_ADDR_2), ms(1000)).found());
    assert_eq!(cache.lookup(&key(MOCK_IP_ADDR_4), ms(1000)), Answer::Found(HADDR_D));
}

#[test]
fn test_resolution_failure() {
    let mut cache = Cache::new();
    let t0 = Instant::zero();

    cache.start_resolution(key(MOCK_IP_ADDR_1), t0);
    assert_eq!(cache.lookup(&key(MOCK_IP_ADDR_1), t0), Answer::Pending);

    // First probe was sent at t0; nothing to do before the retransmission timer.
    assert_eq!(cache.poll_retransmit(IF_0, t0, &mut 0), None);
    assert_eq!(cache.poll_at(), Some(t0.after(retrans_timer())));

    // Second and third probes.
    assert_eq!(
        cache.poll_retransmit(IF_0, t0.after(retrans_timer()), &mut 0),
        Some(ProbeEvent::Retransmit(MOCK_IP_ADDR_1.into()))
    );
    assert_eq!(
        cache.poll_retransmit(IF_0, t0.after(retrans_timer().times(2)), &mut 0),
        Some(ProbeEvent::Retransmit(MOCK_IP_ADDR_1.into()))
    );

    // Probe limit reached: resolution fails, the entry is removed.
    assert_eq!(
        cache.poll_retransmit(IF_0, t0.after(retrans_timer().times(3)), &mut 0),
        Some(ProbeEvent::Failed(MOCK_IP_ADDR_1.into()))
    );
    assert_eq!(cache.lookup(&key(MOCK_IP_ADDR_1), t0), Answer::NotFound);
    assert_eq!(cache.poll_at(), None);
}

#[test]
fn test_resolution_success() {
    let mut cache = Cache::new();
    let t0 = Instant::zero();

    cache.start_resolution(key(MOCK_IP_ADDR_1), t0);
    assert_eq!(cache.lookup(&key(MOCK_IP_ADDR_1), t0), Answer::Pending);

    cache.fill(key(MOCK_IP_ADDR_1), HADDR_A, t0);
    assert_eq!(cache.lookup(&key(MOCK_IP_ADDR_1), t0), Answer::Found(HADDR_A));

    // The resolved entry has no retransmission timer anymore.
    assert_eq!(cache.poll_retransmit(IF_0, t0.after(retrans_timer()), &mut 0), None);
    assert_eq!(cache.poll_at(), None);
}

#[test]
fn test_retransmit_other_iface() {
    let mut cache = Cache::new();
    let t0 = Instant::zero();

    cache.start_resolution((IF_1, MOCK_IP_ADDR_1.into()), t0);
    // Polling one interface's timers doesn't touch another's entries.
    assert_eq!(cache.poll_retransmit(IF_0, t0.after(retrans_timer()), &mut 0), None);
    assert_eq!(
        cache.poll_retransmit(IF_1, t0.after(retrans_timer()), &mut 0),
        Some(ProbeEvent::Retransmit(MOCK_IP_ADDR_1.into()))
    );
}

#[test]
fn test_pending_queue() {
    let mut queue = PendingQueue::new();
    let zero = Instant::zero();

    queue.push(key(MOCK_IP_ADDR_1), PacketBuf::new(), zero);
    queue.push(key(MOCK_IP_ADDR_2), PacketBuf::new(), zero);
    queue.push(key(MOCK_IP_ADDR_1), PacketBuf::new(), zero);
    // Same address, different interface: distinct key.
    queue.push((IF_1, MOCK_IP_ADDR_1.into()), PacketBuf::new(), zero);

    let taken = queue.take_matching(&key(MOCK_IP_ADDR_1));
    assert_eq!(taken.len(), 2);
    assert!(queue.take_matching(&key(MOCK_IP_ADDR_1)).is_empty());
    assert_eq!(queue.take_matching(&key(MOCK_IP_ADDR_2)).len(), 1);
    assert_eq!(queue.take_matching(&(IF_1, MOCK_IP_ADDR_1.into())).len(), 1);
}

#[test]
fn test_pending_queue_full() {
    let mut queue = PendingQueue::new();
    let zero = Instant::zero();

    for _ in 0..PENDING_QUEUE_COUNT {
        queue.push(key(MOCK_IP_ADDR_1), PacketBuf::new(), zero);
    }
    // This push drops the oldest packet to make room.
    queue.push(key(MOCK_IP_ADDR_2), PacketBuf::new(), zero);

    assert_eq!(queue.take_matching(&key(MOCK_IP_ADDR_1)).len(), PENDING_QUEUE_COUNT - 1);
    assert_eq!(queue.take_matching(&key(MOCK_IP_ADDR_2)).len(), 1);
}

#[test]
fn pending_queue_is_shared_out_by_interface() {
    let mut queue = PendingQueue::new();
    let zero = Instant::zero();
    let other = (IF_1, MOCK_IP_ADDR_1.into());

    for _ in 0..PENDING_QUEUE_COUNT {
        queue.push(key(MOCK_IP_ADDR_1), PacketBuf::new(), zero);
    }
    // Another interface has its own share: nothing is dropped.
    queue.push(other, PacketBuf::new(), zero);

    assert_eq!(queue.take_matching(&key(MOCK_IP_ADDR_1)).len(), PENDING_QUEUE_COUNT);
    assert_eq!(queue.take_matching(&other).len(), 1);
}

#[test]
fn test_pending_queue_expire() {
    let mut queue = PendingQueue::new();
    let zero = Instant::zero();

    queue.push(key(MOCK_IP_ADDR_1), PacketBuf::new(), zero);
    assert_eq!(queue.poll_at(), Some(zero.after(pending_queue_lifetime())));
    queue.purge_expired(zero.after(pending_queue_lifetime()));
    assert!(queue.take_matching(&key(MOCK_IP_ADDR_1)).is_empty());
    assert_eq!(queue.poll_at(), None);
}

#[test]
fn test_pending_queue_purge_iface() {
    let mut queue = PendingQueue::new();
    let zero = Instant::zero();

    queue.push((IF_0, MOCK_IP_ADDR_1.into()), PacketBuf::new(), zero);
    queue.push((IF_1, MOCK_IP_ADDR_1.into()), PacketBuf::new(), zero);

    queue.purge_iface(IF_0);
    assert!(queue.take_matching(&(IF_0, MOCK_IP_ADDR_1.into())).is_empty());
    assert_eq!(queue.take_matching(&(IF_1, MOCK_IP_ADDR_1.into())).len(), 1);
}

#[test]
fn entry_is_found_until_it_expires() {
    let mut cache = Cache::new();
    cache.fill(key(MOCK_IP_ADDR_1), HADDR_A, ms(0));
    assert_eq!(cache.lookup(&key(MOCK_IP_ADDR_1), ms(59_999)), Answer::Found(HADDR_A));
    assert!(!cache.lookup(&key(MOCK_IP_ADDR_1), ms(60_000)).found());
}

#[test]
fn hearing_from_a_neighbor_extends_its_entry() {
    let mut cache = Cache::new();
    cache.fill(key(MOCK_IP_ADDR_1), HADDR_A, ms(0));
    // Another hardware address does not count.
    cache.reset_expiry_if_existing(key(MOCK_IP_ADDR_1), HADDR_B, ms(30_000));
    assert!(!cache.lookup(&key(MOCK_IP_ADDR_1), ms(60_000)).found());
    cache.reset_expiry_if_existing(key(MOCK_IP_ADDR_1), HADDR_A, ms(30_000));
    assert!(cache.lookup(&key(MOCK_IP_ADDR_1), ms(60_000)).found());
    // And neither does an address that is not in the cache.
    cache.reset_expiry_if_existing(key(MOCK_IP_ADDR_2), HADDR_A, ms(30_000));
    assert_eq!(cache.lookup(&key(MOCK_IP_ADDR_2), ms(30_000)), Answer::NotFound);
}

#[test]
fn flush_forgets_everything() {
    let mut cache = Cache::new();
    cache.fill(key(MOCK_IP_ADDR_1), HADDR_A, ms(0));
    cache.start_resolution(key(MOCK_IP_ADDR_2), ms(0));
    cache.flush();
    assert_eq!(cache.lookup(&key(MOCK_IP_ADDR_1), ms(0)), Answer::NotFound);
    assert_eq!(cache.lookup(&key(MOCK_IP_ADDR_2), ms(0)), Answer::NotFound);
    assert_eq!(cache.poll_at(), None);
}

#[test]
fn pending_packets_leave_in_order() {
    let mut queue = PendingQueue::new();
    queue.push(key(MOCK_IP_ADDR_1), PacketBuf::with_data(0, b"one"), ms(0));
    queue.push(key(MOCK_IP_ADDR_2), PacketBuf::with_data(0, b"other"), ms(0));
    queue.push(key(MOCK_IP_ADDR_1), PacketBuf::with_data(0, b"two"), ms(1));
    let taken = queue.take_matching(&key(MOCK_IP_ADDR_1));
    assert_eq!(taken[0].buf.as_slice(), b"one");
    assert_eq!(taken[1].buf.as_slice(), b"two");
}

#[test]
fn the_oldest_matching_packet_is_popped_first() {
    let mut queue = PendingQueue::new();
    queue.push(key(MOCK_IP_ADDR_2), PacketBuf::with_data(0, b"other"), ms(0));
    queue.push(key(MOCK_IP_ADDR_1), PacketBuf::with_data(0, b"one"), ms(0));
    queue.push(key(MOCK_IP_ADDR_1), PacketBuf::with_data(0, b"two"), ms(1));
    assert_eq!(queue.pop_matching(&key(MOCK_IP_ADDR_1)).unwrap().buf.as_slice(), b"one");
    assert_eq!(queue.pop_matching(&key(MOCK_IP_ADDR_1)).unwrap().buf.as_slice(), b"two");
    assert!(queue.pop_matching(&key(MOCK_IP_ADDR_1)).is_none());
    assert_eq!(queue.pop_matching(&key(MOCK_IP_ADDR_2)).unwrap().buf.as_slice(), b"other");
}
