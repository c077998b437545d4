use punpun::result::{PunpunError, WSUrlErrorKind};

#[test]
fn error_descriptions() {
    assert_eq!(PunpunError::ProtocolError("x".to_string()).description(), "Punpun protocol error");
    assert_eq!(PunpunError::RequestError("x".to_string()).description(), "Punpun request error");
    assert_eq!(PunpunError::ResponseError("x".to_string()).description(), "Punpun response error");
    assert_eq!(PunpunError::DataFrameError("x".to_string()).description(), "Punpun data frame error");
    assert_eq!(PunpunError::NoDataAvailable.to_string(), "PunpunError: No data available");
    assert_eq!(WSUrlErrorKind::InvalidScheme.description(), "Punpun URL invalid scheme");
    assert_eq!(WSUrlErrorKind::CannotSetFragment.to_string(), "Punpun Url Error: Punpun URL cannot set fragment");
}

#[test]
fn error_conversions() {
    let e: PunpunError = std::io::Error::new(std::io::ErrorKind::Other, "boom").into();
    assert_eq!(e.description(), "I/O failure");
    assert_eq!(e.cause().unwrap().to_string(), "boom");
    assert!(PunpunError::NoDataAvailable.cause().is_none());
    let eof: PunpunError = byteorder::Error::UnexpectedEOF.into();
    assert!(matches!(eof, PunpunError::NoDataAvailable));
    let io: PunpunError = byteorder::Error::Io(std::io::Error::new(std::io::ErrorKind::UnexpectedEof, "short")).into();
    assert_eq!(io.cause().unwrap().kind(), std::io::ErrorKind::UnexpectedEof);
}
