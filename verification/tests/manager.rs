use shmseg::err::ErrorKind;
use shmseg::mem_algo::simple_seq_fit::SimpleSeqFit;
use shmseg::sync::PrivateMutex;
use shmseg::sync::SharedMutex;
use shmseg::SegmentManager;

fn fresh(bytes: usize) -> SegmentManager<SimpleSeqFit<SharedMutex>> {
    SegmentManager::new(SimpleSeqFit::new(SharedMutex::new(), bytes))
}

#[test]
fn construct_then_find_then_destroy() {
    let mut mgr = fresh(4096);
    let tag = 7u64;
    let payload = mgr.construct("buf", 1024, 1, 1, tag).unwrap();
    assert_eq!(payload, 80);
    assert_eq!(mgr.find("buf", tag), Ok(Some(80)));
    mgr.destroy("buf").unwrap();
    assert_eq!(mgr.find("buf", tag), Ok(None));
}

#[test]
fn construct_twice_reports_already_exists() {
    let mut mgr = fresh(4096);
    mgr.construct("obj", 4, 4, 4, 1).unwrap();
    let r = mgr.construct("obj", 4, 4, 4, 1);
    assert_eq!(r, Err(ErrorKind::AlreadyExists));
}

#[test]
fn find_under_the_wrong_type_is_a_mismatch() {
    let mut mgr = fresh(4096);
    let bar_tag = 11u64;
    let foo_tag = 22u64;
    mgr.construct("bar", 1, 8, 8, bar_tag).unwrap();
    assert_eq!(mgr.find("bar", foo_tag), Err(ErrorKind::TypeMismatch));
    assert_eq!(mgr.find("bar", bar_tag), Ok(Some(80)));
}

#[test]
fn destroy_of_a_missing_name_is_not_found() {
    let mut mgr = fresh(4096);
    assert_eq!(mgr.destroy("nobody"), Err(ErrorKind::NotFound));
}

#[test]
fn construct_with_strict_alignment_is_rejected() {
    let mut mgr = fresh(4096);
    let r = mgr.construct("x", 1, 4, 32, 1);
    assert_eq!(r, Err(ErrorKind::InvalidArgument));
    assert_eq!(mgr.find("x", 1), Ok(None));
}

#[test]
fn construct_without_room_is_out_of_memory() {
    let mut mgr = fresh(4096);
    let r = mgr.construct("big", 8192, 1, 1, 1);
    assert_eq!(r, Err(ErrorKind::OutOfMemory));
}

#[test]
fn find_or_construct_finds_or_makes() {
    let mut mgr = fresh(4096);
    let tag = 3u64;
    let p1 = mgr.find_or_construct("shared", 16, 4, 4, tag).unwrap();
    let p2 = mgr.find_or_construct("shared", 16, 4, 4, tag).unwrap();
    assert_eq!(p1, p2);
    assert_eq!(mgr.find_or_construct("shared", 16, 4, 4, 99), Err(ErrorKind::TypeMismatch));
}

#[test]
fn find_mut_sees_the_same_directory() {
    let mut mgr: SegmentManager<SimpleSeqFit<PrivateMutex>> = SegmentManager::new(
        SimpleSeqFit::new(PrivateMutex::new(), 4096),
    );
    mgr.construct("k", 2, 8, 8, 5).unwrap();
    assert_eq!(mgr.find_mut("k", 5), Ok(Some(80)));
    assert_eq!(mgr.find_mut("absent", 5), Ok(None));
}

#[test]
fn destroyed_bytes_can_be_reused() {
    let mut mgr = fresh(4096);
    let p1 = mgr.construct("a", 1000, 1, 1, 1).unwrap();
    mgr.destroy("a").unwrap();
    let p2 = mgr.construct("b", 1000, 1, 1, 1).unwrap();
    assert_eq!(p1, p2);
}
