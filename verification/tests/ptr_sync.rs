use shmseg::allocator::Alloc;
use shmseg::allocator::Allocator;
use shmseg::container::slist::SinglyLinkedList;
use shmseg::container::Data;
use shmseg::intrusive::ptr::MutPtr;
use shmseg::intrusive::ptr::RefPtr;
use shmseg::ptr::from_ptr;
use shmseg::ptr::OffsetPtr;
use shmseg::ptr::Pointer;
use shmseg::sync::lock_guard;
use shmseg::sync::Mutex;
use shmseg::sync::NullMutex;
use shmseg::sync::PrivateMutex;
use shmseg::sync::SharedMutex;

#[test]
fn offset_ptr_resolves_relative_to_its_address() {
    let mut p = OffsetPtr::null();
    assert!(p.is_null());
    p.set(1000, 1016);
    assert!(!p.is_null());
    assert_eq!(p.get(1000), 1016);
    // the same stored value read at another address aims elsewhere:
    // that is exactly why copying by value invalidates it
    assert_eq!(p.get(2000), 2016);
}

#[test]
fn offset_ptr_points_backwards_too() {
    let mut p = OffsetPtr::null();
    p.set(5000, 4096);
    assert_eq!(p.get(5000), 4096);
}

#[test]
fn offset_ptr_equality_is_of_resolved_addresses() {
    let mut a = OffsetPtr::null();
    let mut b = OffsetPtr::null();
    a.set(1000, 4096);
    b.set(2000, 4096);
    assert_ne!(a.offset, b.offset);
    assert!(a.eq_at(1000, &b, 2000));
    assert!(!a.eq_at(1000, &b, 2016));
}

#[test]
fn clone_from_at_rederives_the_displacement() {
    let mut a = OffsetPtr::null();
    a.set(1000, 4096);
    let mut b = OffsetPtr::null();
    b.clone_from_at(3000, &a, 1000);
    assert_eq!(b.get(3000), 4096);
    let n = OffsetPtr::null();
    let mut c = OffsetPtr::null();
    c.set(10, 20);
    c.clone_from_at(10, &n, 99);
    assert!(c.is_null());
}

#[test]
fn from_ptr_stores_the_displacement() {
    let mut p = OffsetPtr::null();
    from_ptr(&mut p, 64, 128);
    assert_eq!(p.get(64), 128);
}

#[test]
fn shared_mutex_excludes_a_second_taker() {
    let mut m = SharedMutex::new();
    assert!(m.try_lock());
    assert!(!m.try_lock());
    m.unlock();
    assert!(m.try_lock());
    m.unlock();
}

#[test]
fn private_mutex_excludes_a_second_taker() {
    let mut m = PrivateMutex::new();
    assert!(m.try_lock());
    assert!(!m.try_lock());
    m.unlock();
}

#[test]
fn null_mutex_always_admits() {
    let mut m = NullMutex::new();
    assert!(m.try_lock());
    assert!(m.try_lock());
    m.unlock();
}

#[test]
fn lock_guard_takes_and_releases() {
    let mut m = SharedMutex::new();
    let guard = lock_guard(&mut m);
    assert!(!m.try_lock());
    guard.release(&mut m);
    assert!(m.try_lock());
    m.unlock();
}

#[test]
fn heap_allocator_round_trips_values() {
    let mut a = Alloc::new();
    let b = a.allocate(41i32);
    assert_eq!(*b, 41);
    let b = a.realloc(b, 42i32);
    assert_eq!(*b, 42);
    a.dealloc(b);
}

#[test]
fn container_list_is_last_in_first_out() {
    let mut list: SinglyLinkedList<i32, Alloc> = SinglyLinkedList::new(Alloc::new());
    assert_eq!(list.pop_front(), None);
    list.push_front(1);
    list.push_front(2);
    assert_eq!(list.pop_front(), Some(2));
    assert_eq!(list.pop_front(), Some(1));
    assert_eq!(list.pop_front(), None);
}

#[test]
fn data_move_copies_the_value() {
    let mut a = 1i64;
    let mut b = 2i64;
    a.data_move(&mut b);
    assert_eq!(a, 2);
}

#[test]
fn cursor_types_hold_their_links() {
    let mut r: RefPtr<u32> = RefPtr::new(Some(5));
    assert_eq!(*r.get(), Some(5));
    r.set(None);
    assert_eq!(*r.get(), None);
    let mut m: MutPtr<u32> = MutPtr::new(None);
    m.set(Some(9));
    *m.get() = Some(10);
    assert_eq!(m.ptr, Some(10));
}

#[test]
fn chain_links_stay_inside_the_segment() {
    // a segment of 4096 bytes mapped at some base: the link from a block
    // record to the sentinel in the header resolves inside the mapping
    let base: usize = 0x10000;
    let block_addr: usize = 64;
    let sentinel: usize = 48;
    let mut link = OffsetPtr::null();
    link.set(base + block_addr, base + sentinel);
    let target = link.get(base + block_addr);
    assert!(base <= target && target < base + 4096);
    assert_eq!(target, base + sentinel);
}
