//! What the library answers where a service exists on Android only: the
//! HTTP fetch through the Java runtime and the request for access to all
//! files. Elsewhere both are refused with a fixed message.

use vstd::prelude::*;
use crate::maintenance::{int_decimal, push_i64};
use crate::text::{chars_of, string_from_chars};

verus! {

/// Why a platform service failed.
#[derive(Debug, Clone)]
pub struct PlatformError {
    pub message: String,
}

/// The message of a fetch on a platform without the Java runtime.
pub open spec fn http_unavailable() -> Seq<char> {
    "Android JNI HTTP only available on Android"@
}

/// The message of an access request on a platform without the Storage
/// Access Framework.
pub open spec fn saf_unavailable() -> Seq<char> {
    "SAF är bara tillgängligt på Android"@
}

/// Fetches a URL through the Java runtime; without it (any platform but
/// Android) the fetch is refused.
pub fn http_get(url: &str) -> (r: Result<String, PlatformError>)
    ensures
        r matches Err(e) && e.message@ == http_unavailable(),
{
    Err(PlatformError { message: "Android JNI HTTP only available on Android".to_string() })
}

/// Asks the system for access to all files; outside Android the request is
/// refused.
pub fn request_all_files_access() -> (r: Result<(), PlatformError>)
    ensures
        r matches Err(e) && e.message@ == saf_unavailable(),
{
    Err(PlatformError { message: "SAF är bara tillgängligt på Android".to_string() })
}

/// What the fetch makes of the status code the server answered: only 200
/// lets the body be read.
pub fn check_response_code(code: i32) -> (r: Result<(), PlatformError>)
    ensures
        code == 200 ==> r is Ok,
        code != 200 ==> (r matches Err(e) && e.message@ == "HTTP error "@ + int_decimal(code as int)),
{
    if code == 200 {
        Ok(())
    } else {
        let mut v = chars_of("HTTP error ");
        push_i64(&mut v, code as i64);
        Err(PlatformError { message: string_from_chars(v.as_slice()) })
    }
}

} // verus!
