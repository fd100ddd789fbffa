use ahfs::error::ErrorKind;

#[test]
fn error_kinds_have_codes() {
    assert_eq!("F001", ErrorKind::NotFound.code());
    assert_eq!("F010", ErrorKind::AlreadyExists.code());
    assert_eq!("F017", ErrorKind::UnexpectedEof.code());
    assert_eq!("F0XX", ErrorKind::Other.code());
}
