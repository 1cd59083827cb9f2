use std::mem::size_of;

use xarxa::config::{IFACE_COUNT, RAW_SOCKET_COUNT, TCP_LISTENER_COUNT, TCP_SOCKET_COUNT, UDP_SOCKET_COUNT};
use xarxa::iface::IfaceHandle;
use xarxa::raw::RawHandle;
use xarxa::slab::Slab as GrowingSlab;
use xarxa::storage::{Full, Slab};
use xarxa::tcp::{TcpHandle, TcpListenerHandle};
use xarxa::udp::UdpHandle;

#[test]
fn test_add_remove_reuse() {
    let mut slab: GrowingSlab<usize> = GrowingSlab::new();
    assert_eq!(slab.add_with(|i| i * 10), 0);
    assert_eq!(slab.add_with(|i| i * 10), 1);
    assert_eq!(slab.add_with(|i| i * 10), 2);

    assert_eq!(slab.remove(1), 10);

    // The freed slot is reused.
    assert_eq!(slab.add_with(|i| i * 10), 1);
    assert_eq!(slab.add_with(|i| i * 10), 3);

    let mut items: Vec<(usize, usize)> = Vec::new();
    let mut walk = slab.iter_mut();
    while let Some((i, item)) = walk.next() {
        items.push((i, *item));
    }
    assert_eq!(items, vec![(0, 0), (1, 10), (2, 20), (3, 30)]);
}

#[test]
#[should_panic]
fn test_remove_empty_slot() {
    let mut slab: GrowingSlab<u32> = GrowingSlab::new();
    slab.add_with(|_| 1u32);
    slab.remove(0);
    slab.remove(0);
}

#[test]
fn test_slab_add_remove_reuse() {
    let mut slab: Slab<usize, 8> = Slab::new();
    assert_eq!(slab.add_with(|i| i * 10), Ok(0));
    assert_eq!(slab.add_with(|i| i * 10), Ok(1));
    assert_eq!(slab.add_with(|i| i * 10), Ok(2));

    assert_eq!(slab.remove(1), 10);

    // The freed slot is reused.
    assert_eq!(slab.add_with(|i| i * 10), Ok(1));
    assert_eq!(slab.add_with(|i| i * 10), Ok(3));

    let mut items: Vec<(usize, usize)> = Vec::new();
    let mut walk = slab.iter_mut();
    while let Some((i, item)) = walk.next() {
        items.push((i, *item));
    }
    assert_eq!(items, vec![(0, 0), (1, 10), (2, 20), (3, 30)]);
}

#[test]
#[should_panic]
fn test_slab_remove_empty_slot() {
    let mut slab: Slab<u32, 8> = Slab::new();
    slab.add_with(|_| 1u32).unwrap();
    slab.remove(0);
    slab.remove(0);
}

#[test]
fn test_slab_full() {
    let mut slab: Slab<usize, 2> = Slab::new();
    assert_eq!(slab.add_with(|i| i), Ok(0));
    assert!(!slab.is_full());
    assert_eq!(slab.add_with(|i| i), Ok(1));
    assert!(slab.is_full());
    assert_eq!(slab.add_with(|i| i), Err(Full));
    slab.remove(0);
    assert!(!slab.is_full());
    assert_eq!(slab.add_with(|i| i), Ok(0));
}

#[test]
fn handle_sizes() {
    assert_eq!(size_of::<IfaceHandle>(), size_of::<usize>());
    for i in 0..IFACE_COUNT {
        let h = IfaceHandle::new(i);
        assert_eq!(h.index(), i);
        assert_eq!(h, IfaceHandle::new(i));
    }
    assert_eq!(size_of::<UdpHandle>(), size_of::<usize>());
    for i in 0..UDP_SOCKET_COUNT {
        let h = UdpHandle::new(i);
        assert_eq!(h.index(), i);
        assert_eq!(h, UdpHandle::new(i));
    }
    assert_eq!(size_of::<RawHandle>(), size_of::<usize>());
    for i in 0..RAW_SOCKET_COUNT {
        let h = RawHandle::new(i);
        assert_eq!(h.index(), i);
        assert_eq!(h, RawHandle::new(i));
    }
    assert_eq!(size_of::<TcpHandle>(), size_of::<usize>());
    for i in 0..TCP_SOCKET_COUNT {
        let h = TcpHandle::new(i);
        assert_eq!(h.index(), i);
        assert_eq!(h, TcpHandle::new(i));
    }
    assert_eq!(size_of::<TcpListenerHandle>(), size_of::<usize>());
    for i in 0..TCP_LISTENER_COUNT {
        let h = TcpListenerHandle::new(i);
        assert_eq!(h.index(), i);
        assert_eq!(h, TcpListenerHandle::new(i));
    }
}

#[test]
fn added_item_is_found_and_others_stay() {
    let mut slab: Slab<&str, 4> = Slab::new();
    slab.add_with(|_| "a").unwrap();
    slab.add_with(|_| "b").unwrap();
    assert_eq!(*slab.get(0), "a");
    assert_eq!(*slab.get(1), "b");
    *slab.get_mut(0) = "c";
    assert_eq!(*slab.get(0), "c");
    assert_eq!(*slab.get(1), "b");
}

#[test]
fn walks_pass_over_free_slots() {
    let mut slab: Slab<usize, 8> = Slab::new();
    for _ in 0..5 {
        slab.add_with(|i| i).unwrap();
    }
    slab.remove(0);
    slab.remove(3);
    assert_eq!(slab.next_occupied(0), Some(1));
    assert_eq!(slab.next_occupied(3), Some(4));
    assert_eq!(slab.next_occupied(5), None);
    assert_eq!(slab.slot_count(), 5);
    assert!(!slab.is_occupied(3));
    assert_eq!(slab.iter(), vec![(1, &1), (2, &2), (4, &4)]);

    let mut grown: GrowingSlab<usize> = GrowingSlab::new();
    for _ in 0..4 {
        grown.add_with(|i| i);
    }
    grown.remove(1);
    assert_eq!(grown.iter(), vec![(0, &0), (2, &2), (3, &3)]);
    let mut walk = grown.iter_mut();
    while let Some((_, item)) = walk.next() {
        *item += 100;
    }
    assert_eq!(*grown.get(3), 103);
}

#[test]
fn removing_undoes_adding() {
    let mut slab: Slab<usize, 8> = Slab::default();
    slab.add_with(|i| i).unwrap();
    slab.add_with(|i| i).unwrap();
    slab.remove(0);
    // The freed slot is the next one, and taking it back leaves the rest alone.
    assert_eq!(slab.add_with(|_| 7), Ok(0));
    assert_eq!(slab.remove(0), 7);
    assert_eq!(slab.iter(), vec![(1, &1)]);
}
