use shmseg::err::ErrCode;
use shmseg::err::ErrorKind;
use shmseg::err::FILE_EXISTS;
use shmseg::err::NO_SUCH_FILE_OR_DIRECTORY;
use shmseg::err::PERMISSION_DENIED;
use shmseg::mapped_region::adjust_page_offset;
use shmseg::mapped_region::advise_code;
use shmseg::mapped_region::posix::file_mapping;
use shmseg::mapped_region::posix::map_plan;
use shmseg::mapped_region::posix::open_or_create_step;
use shmseg::mapped_region::posix::required_backing_size;
use shmseg::mapped_region::posix::needs_truncate;
use shmseg::mapped_region::posix::shared_memory;
use shmseg::mapped_region::posix::xsi_shared_memory;
use shmseg::mapped_region::posix::FlushAction;
use shmseg::mapped_region::posix::MappedRegion;
use shmseg::mapped_region::posix::ShrinkAction;
use shmseg::mapped_region::posix::Step;
use shmseg::mapped_region::posix::Verb;
use shmseg::mapped_region::posix::XsiKey;
use shmseg::mapped_region::Advise;
use shmseg::mapped_region::Perm;
use shmseg::mapped_region::Privilege;
use shmseg::mapped_region::ReadOnly;
use shmseg::mapped_region::ReadPrivate;
use shmseg::mapped_region::CopyOnWrite;
use shmseg::mapped_region::ReadWrite;
use shmseg::mapped_region::MAP_PRIVATE;
use shmseg::mapped_region::MAP_SHARED;
use shmseg::mapped_region::O_RDONLY;
use shmseg::mapped_region::O_RDWR;
use shmseg::mapped_region::PROT_READ;
use shmseg::mapped_region::PROT_WRITE;

#[test]
fn test_adjust_page_offset() {
    let ps: usize = 4096;
    assert_eq!(adjust_page_offset(0, ps), 0);
    assert_eq!(adjust_page_offset(1, ps), 1);
    assert_eq!(adjust_page_offset(ps - 1, ps), ps - 1);
    assert_eq!(adjust_page_offset(ps, ps), 0);
    assert_eq!(adjust_page_offset(ps + 1, ps), 1);
}

#[test]
fn page_fixup_is_periodic() {
    let ps: usize = 4096;
    for k in 0..4 {
        assert_eq!(adjust_page_offset(37 + ps * k, ps), adjust_page_offset(37, ps));
    }
}

#[test]
fn privilege_table_is_consistent() {
    assert_eq!(ReadOnly.open_flag(), O_RDONLY);
    assert_eq!(ReadOnly.prot(), PROT_READ);
    assert_eq!(ReadOnly.map_flag(), MAP_SHARED);
    assert!(!ReadOnly.writable());

    assert_eq!(ReadWrite.open_flag(), O_RDWR);
    assert_eq!(ReadWrite.prot(), PROT_READ | PROT_WRITE);
    assert_eq!(ReadWrite.map_flag(), MAP_SHARED);
    assert!(ReadWrite.writable());

    assert_eq!(ReadPrivate.open_flag(), O_RDONLY);
    assert_eq!(ReadPrivate.prot(), PROT_READ);
    assert_eq!(ReadPrivate.map_flag(), MAP_PRIVATE);

    assert_eq!(CopyOnWrite.open_flag(), O_RDWR);
    assert_eq!(CopyOnWrite.prot(), PROT_READ | PROT_WRITE);
    assert_eq!(CopyOnWrite.map_flag(), MAP_PRIVATE);
}

#[test]
fn map_plan_covers_the_fixup() {
    let plan = map_plan(4096, 4097, 0, 4096).unwrap();
    assert_eq!(plan.page_offset, 1);
    assert_eq!(plan.file_offset, 4096);
    assert_eq!(plan.map_len, 4097);
    assert_eq!(plan.logical_size, 4096);
}

#[test]
fn map_plan_with_zero_size_takes_the_backing_size() {
    let plan = map_plan(0, 0, 8192, 4096).unwrap();
    assert_eq!(plan.logical_size, 8192);
    assert_eq!(plan.map_len, 8192);
    let r = map_plan(0, 8193, 8192, 4096);
    assert_eq!(r, Err(ErrorKind::PermissionDenied));
}

#[test]
fn flush_checks_bounds_and_skips_xsi() {
    let region = MappedRegion { base: 1 << 20, size: 4096, page_offset: 0, is_xsi: false };
    assert_eq!(
        region.flush(0, 0, false),
        Ok(FlushAction::Sync { addr: 1 << 20, len: 4096, async_flag: false })
    );
    assert_eq!(
        region.flush(100, 16, true),
        Ok(FlushAction::Sync { addr: (1 << 20) + 100, len: 16, async_flag: true })
    );
    assert_eq!(region.flush(4000, 200, false), Err(ErrorKind::InvalidArgument));
    let xsi = MappedRegion { base: 1 << 20, size: 4096, page_offset: 0, is_xsi: true };
    assert_eq!(xsi.flush(0, 0, false), Ok(FlushAction::Skip));
}

#[test]
fn shrink_trims_either_end_and_skips_xsi() {
    let mut region = MappedRegion { base: 1 << 20, size: 3 * 4096, page_offset: 0, is_xsi: false };
    let r = region.shrink_by(4096, true, 4096).unwrap();
    assert_eq!(r, ShrinkAction::Unmap { addr: (1 << 20) + 2 * 4096, len: 4096 });
    assert_eq!(region.size(), 2 * 4096);
    let r = region.shrink_by(4096, false, 4096).unwrap();
    assert_eq!(r, ShrinkAction::Unmap { addr: 1 << 20, len: 4096 });
    assert_eq!(region.base(), (1 << 20) + 4096);
    assert_eq!(region.shrink_by(100, true, 4096), Err(ErrorKind::InvalidArgument));
    assert_eq!(region.shrink_by(4096, true, 4096), Err(ErrorKind::InvalidArgument));
    let mut xsi = MappedRegion { base: 1 << 20, size: 4096, page_offset: 0, is_xsi: true };
    assert_eq!(xsi.shrink_by(4096, true, 4096), Ok(ShrinkAction::Skip));
}

#[test]
fn advise_maps_codes_and_skips_xsi() {
    let region = MappedRegion { base: 0, size: 4096, page_offset: 0, is_xsi: false };
    assert_eq!(region.advise(&Advise::Normal), Some(0));
    assert_eq!(region.advise(&Advise::Random), Some(1));
    assert_eq!(region.advise(&Advise::Sequential), Some(2));
    assert_eq!(region.advise(&Advise::WillNeed), Some(3));
    assert_eq!(region.advise(&Advise::DontNeed), Some(4));
    assert_eq!(advise_code(&Advise::WillNeed), 3);
    let xsi = MappedRegion { base: 0, size: 4096, page_offset: 0, is_xsi: true };
    assert_eq!(xsi.advise(&Advise::Normal), None);
}

#[test]
fn two_processes_converge_through_the_retry_loop() {
    // the winner's create succeeds at once
    assert_eq!(open_or_create_step(Verb::Create, Ok(())), Step::Done);
    // the loser's create sees the name taken and falls through to open
    assert_eq!(
        open_or_create_step(Verb::Create, Err(ErrCode(FILE_EXISTS))),
        Step::Retry(Verb::Open)
    );
    assert_eq!(open_or_create_step(Verb::Open, Ok(())), Step::Done);
}

#[test]
fn retry_loop_recovers_only_from_races() {
    assert_eq!(
        open_or_create_step(Verb::Open, Err(ErrCode(NO_SUCH_FILE_OR_DIRECTORY))),
        Step::Retry(Verb::Create)
    );
    assert_eq!(
        open_or_create_step(Verb::Create, Err(ErrCode(PERMISSION_DENIED))),
        Step::Fail(ErrCode(PERMISSION_DENIED))
    );
    assert_eq!(
        open_or_create_step(Verb::Open, Err(ErrCode(FILE_EXISTS))),
        Step::Fail(ErrCode(FILE_EXISTS))
    );
}

#[test]
fn builders_fix_the_flag_tables() {
    let fm = file_mapping("/tmp/data").size(4096).offset(8192).permission(Perm(0o600));
    assert_eq!(fm.size, 4096);
    assert_eq!(fm.offset, 8192);
    assert_eq!(fm.perm, 0o600);
    assert_eq!(fm.file_flag, O_RDWR);
    let ro = fm.read_only();
    assert_eq!(ro.file_flag, O_RDONLY);
    assert_eq!(ro.mmap_flag, MAP_SHARED);
    assert_eq!(ro.mmap_prot, PROT_READ);
    let cow = ro.copy_on_write();
    assert_eq!(cow.file_flag, O_RDWR);
    assert_eq!(cow.mmap_flag, MAP_PRIVATE);
    assert_eq!(cow.mmap_prot, PROT_READ | PROT_WRITE);

    let shm = shared_memory("/seg").size(1024).read_private();
    assert_eq!(shm.shm_flag, O_RDONLY);
    assert_eq!(shm.mmap_flag, MAP_PRIVATE);
    assert_eq!(shm.name, "/seg".to_string());
}

#[test]
fn xsi_builder_and_key_checks() {
    assert_eq!(XsiKey::check_id(0), Err(ErrorKind::InvalidArgument));
    assert_eq!(XsiKey::check_id(3), Ok(()));
    assert_eq!(XsiKey::private().0, 0);
    let x = xsi_shared_memory(XsiKey::from_raw(42)).size(4096).read_only();
    assert_eq!(x.key.0, 42);
    assert_eq!(x.shm_flag, 0x1000);
    let w = xsi_shared_memory(XsiKey::from_raw(42)).read_write();
    assert_eq!(w.shm_flag, 0);
}

#[test]
fn required_size_and_truncate_decision() {
    assert_eq!(required_backing_size(4096, 512), Ok(4608));
    assert_eq!(required_backing_size(usize::MAX, 1), Err(ErrorKind::InvalidArgument));
    assert!(needs_truncate(100, 200));
    assert!(!needs_truncate(200, 200));
}
