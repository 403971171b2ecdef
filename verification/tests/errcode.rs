use shmseg::err::ErrCode;
use shmseg::err::ErrorKind;
use shmseg::err::FILE_EXISTS;
use shmseg::err::INVALID_ARGUMENT;
use shmseg::err::NO_SUCH_FILE_OR_DIRECTORY;
use shmseg::err::PERMISSION_DENIED;
use shmseg::err::SUCCESS;

#[test]
fn test_errcode() {
    assert_eq!(ErrCode(SUCCESS), ErrCode(SUCCESS));
}

#[test]
fn kind_of_exists_is_already_exists() {
    assert_eq!(ErrCode(FILE_EXISTS).kind(), ErrorKind::AlreadyExists);
}

#[test]
fn kind_of_noent_is_not_found() {
    assert_eq!(ErrCode(NO_SUCH_FILE_OR_DIRECTORY).kind(), ErrorKind::NotFound);
}

#[test]
fn kind_of_acces_is_permission_denied() {
    assert_eq!(ErrCode(PERMISSION_DENIED).kind(), ErrorKind::PermissionDenied);
}

#[test]
fn kind_of_inval_is_invalid_argument() {
    assert_eq!(ErrCode(INVALID_ARGUMENT).kind(), ErrorKind::InvalidArgument);
}

#[test]
fn kind_of_other_keeps_the_code() {
    assert_eq!(ErrCode(5).kind(), ErrorKind::Io(5));
    assert_eq!(ErrCode(0).kind(), ErrorKind::Io(0));
}
