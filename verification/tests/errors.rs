//! The two error types and the conversion between them, plus the small
//! engine-facing data types.

use yage_runtime::component::RenderContext;
use yage_runtime::error::ErrorKind as SysErrorKind;
use yage_runtime::error::GlfwError;
use yage_runtime::errors::Error;
use yage_runtime::errors::ErrorKind;
use yage_runtime::net::Interest;
use yage_runtime::net::Token;
use yage_runtime::Dimensions;

#[test]
fn test_glfw_error() {
    let e = GlfwError::simple(SysErrorKind::FailedInit);
    assert_eq!(e.kind(), SysErrorKind::FailedInit);
    let e = GlfwError::with_payload(SysErrorKind::WindowNull, String::from("no display"));
    assert_eq!(e.kind(), SysErrorKind::WindowNull);
}

#[test]
fn test_engine_error() {
    let e = Error::new(ErrorKind::DisabledRt);
    assert_eq!(e.kind, ErrorKind::DisabledRt);
    assert!(e.details.is_none());
    let e = e.with_details(String::from("spawn needs the runtime"));
    assert_eq!(e.kind, ErrorKind::DisabledRt);
    assert_eq!(e.details.as_deref(), Some("spawn needs the runtime"));
}

#[test]
fn test_error_from_glfw() {
    let sys = GlfwError::with_payload(SysErrorKind::FailedGettingDims, String::from("hidden"));
    let e = Error::from(sys);
    assert_eq!(e.kind, ErrorKind::System(SysErrorKind::FailedGettingDims));
    assert!(e.details.is_none());
}

#[test]
fn test_plain_data() {
    let d = Dimensions { width: 640, height: 480 };
    assert_eq!(d, Dimensions { width: 640, height: 480 });
    let ctx = RenderContext::new(5u32);
    assert_eq!(ctx.state, 5);
    let t = Token(7);
    assert_eq!(t.0, 7);
    let i = Interest(1);
    assert_eq!(i.0, 1);
}
