use shmseg::mem_algo::simple_seq_fit::align;
use shmseg::mem_algo::simple_seq_fit::OffsetCell;
use shmseg::mem_algo::simple_seq_fit::SimpleSeqFit;
use shmseg::err::ErrorKind;
use shmseg::sync::NullMutex;

fn fresh(bytes: usize) -> SimpleSeqFit<NullMutex> {
    SimpleSeqFit::new(NullMutex::new(), bytes)
}

#[test]
fn init_leaves_one_free_block() {
    let fit = fresh(4096);
    assert_eq!(fit.allocated_bytes, 0);
    assert_eq!(fit.segment_bytes, 4096);
    assert_eq!(fit.free.len(), 1);
    assert_eq!(fit.free[0].addr, 64);
    assert_eq!(fit.free[0].size, 4032);
    assert!(fit.sanity_check());
}

#[test]
fn first_allocation_lands_after_the_header() {
    let mut fit = fresh(4096);
    let p = fit.allocate(1024, 1, 1).unwrap();
    assert_eq!(p, 80);
    // one control record plus 1024 bytes, rounded to 16
    assert_eq!(fit.allocated_bytes, 1040);
    assert_eq!(fit.free.len(), 1);
    assert_eq!(fit.free[0].addr, 64 + 1040);
    assert_eq!(fit.free[0].size, 4032 - 1040);
    assert!(fit.sanity_check());
}

#[test]
fn coalescing_reassembles_the_segment() {
    // two small allocations, freed in reverse order, must coalesce far
    // enough that one large allocation succeeds again
    let mut fit = fresh(4096);
    let x = fit.allocate(1, 4, 4).unwrap();
    let y = fit.allocate(1, 4, 4).unwrap();
    assert_eq!(x, 80);
    assert_eq!(y, 112);
    fit.deallocate(y, 1, 4);
    fit.deallocate(x, 1, 4);
    assert_eq!(fit.free.len(), 1);
    assert_eq!(fit.free[0].addr, 64);
    assert_eq!(fit.free[0].size, 4032);
    assert_eq!(fit.allocated_bytes, 0);
    let a = fit.allocate(1000, 4, 4).unwrap();
    assert_eq!(a, 80);
    assert!(fit.sanity_check());
}

#[test]
fn alloc_free_round_trip_restores_the_free_list() {
    let mut fit = fresh(4096);
    let _ = fit.allocate(3, 8, 8).unwrap();
    let before = fit.free.clone();
    let allocated_before = fit.allocated_bytes;
    let p = fit.allocate(10, 4, 4).unwrap();
    fit.deallocate(p, 10, 4);
    assert_eq!(fit.free, before);
    assert_eq!(fit.allocated_bytes, allocated_before);
}

#[test]
fn strict_alignment_fails_and_leaves_the_segment_untouched() {
    let mut fit = fresh(4096);
    let before = fit.free.clone();
    let r = fit.allocate(1, 4, 32);
    assert_eq!(r, Err(ErrorKind::InvalidArgument));
    assert_eq!(fit.free, before);
    assert_eq!(fit.allocated_bytes, 0);
}

#[test]
fn exhaustion_reports_out_of_memory() {
    let mut fit = fresh(4096);
    let r = fit.allocate(4096, 1, 1);
    assert_eq!(r, Err(ErrorKind::OutOfMemory));
    assert_eq!(fit.free.len(), 1);
}

#[test]
fn conservation_holds_across_operations() {
    let mut fit = fresh(4096);
    let check = |f: &SimpleSeqFit<NullMutex>| {
        let free_total: usize = f.free.iter().map(|b| b.size).sum();
        assert_eq!(f.allocated_bytes + free_total + 64, f.segment_bytes);
    };
    check(&fit);
    let a = fit.allocate(5, 8, 8).unwrap();
    check(&fit);
    let b = fit.allocate(100, 1, 1).unwrap();
    check(&fit);
    fit.deallocate(a, 5, 8);
    check(&fit);
    fit.deallocate(b, 100, 1);
    check(&fit);
}

#[test]
fn reallocate_moves_the_allocation() {
    let mut fit = fresh(4096);
    let p = fit.allocate(4, 4, 4).unwrap();
    let q = fit.reallocate(p, 4, 100, 4, 4).unwrap();
    assert!(fit.sanity_check());
    assert_ne!(p, q);
    fit.deallocate(q, 100, 4);
    assert_eq!(fit.free.len(), 1);
    assert_eq!(fit.allocated_bytes, 0);
}

#[test]
fn place_new_resets_a_used_segment() {
    let mut fit = fresh(4096);
    let _ = fit.allocate(10, 4, 4).unwrap();
    fit.place_new(8192);
    assert_eq!(fit.segment_bytes, 8192);
    assert_eq!(fit.allocated_bytes, 0);
    assert_eq!(fit.free.len(), 1);
    assert_eq!(fit.free[0].addr, 64);
    assert_eq!(fit.free[0].size, 8192 - 64);
}

#[test]
fn align_rounds_up() {
    assert_eq!(align(1, 4), 4);
    assert_eq!(align(4, 4), 4);
    assert_eq!(align(100, 8), 104);
    assert_eq!(align(101, 8), 104);
    assert_eq!(align(101, 1), 101);
}

#[test]
fn offset_cell_round_trips() {
    let mut cell = OffsetCell { offset: 0 };
    cell.set(1000, 1048);
    assert_eq!(cell.offset, 48);
    assert_eq!(cell.get(1000), 1048);
}

#[test]
fn free_list_stays_address_ordered() {
    let mut fit = fresh(4096);
    let a = fit.allocate(10, 4, 4).unwrap();
    let b = fit.allocate(10, 4, 4).unwrap();
    let c = fit.allocate(10, 4, 4).unwrap();
    // free the outer two: three free blocks remain, strictly ascending
    fit.deallocate(a, 10, 4);
    fit.deallocate(c, 10, 4);
    assert!(fit.sanity_check());
    for i in 1..fit.free.len() {
        assert!(fit.free[i - 1].addr + fit.free[i - 1].size <= fit.free[i].addr);
        assert!(fit.free[i - 1].addr < fit.free[i].addr);
    }
    let _ = b;
}
