//! Decisions of the logger.
use vstd::prelude::*;

use crate::server::opt_str_view;
use crate::text::{self, ascii_lower_seq, trim_spec};

verus! {

/// Whether HTTP requests and responses are logged, given the value of the
/// `UNIPOTATO_LOG_HTTP` variable (`None` when it is unset): logging is on
/// unless the value is `0`, `false`, `off` or `no` (in any ASCII case,
/// around whitespace).
pub open spec fn http_logging_spec(value: Option<Seq<char>>) -> bool {
    match value {
        Some(v) => {
            let t = ascii_lower_seq(trim_spec(v));
            !(t == "0"@ || t == "false"@ || t == "off"@ || t == "no"@)
        },
        None => true,
    }
}

/// Whether HTTP traffic is logged for a given value of `UNIPOTATO_LOG_HTTP`.
pub fn should_log_http(value: Option<&str>) -> (r: bool)
    ensures
        r == http_logging_spec(opt_str_view(value)),
{
    match value {
        Some(v) => {
            let lowered = text::to_ascii_lowercase(text::trim(v).as_str());
            let t = lowered.as_str();
            !(text::str_eq(t, "0") || text::str_eq(t, "false") || text::str_eq(t, "off")
                || text::str_eq(t, "no"))
        },
        None => true,
    }
}

/// The three classes of status codes that the response log colours.
#[derive(Debug, Clone, Copy, PartialEq, Eq, Structural)]
pub enum StatusClass {
    /// 2xx.
    Success,
    /// 4xx.
    ClientError,
    /// 5xx and above.
    ServerError,
    /// Anything else.
    Other,
}

/// The class of a status code, as the response log colours it.
pub fn status_class(status: u16) -> (r: StatusClass)
    ensures
        r == if 200 <= status < 300 {
            StatusClass::Success
        } else if 400 <= status < 500 {
            StatusClass::ClientError
        } else if status >= 500 {
            StatusClass::ServerError
        } else {
            StatusClass::Other
        },
{
    if status >= 200 && status < 300 {
        StatusClass::Success
    } else if status >= 400 && status < 500 {
        StatusClass::ClientError
    } else if status >= 500 {
        StatusClass::ServerError
    } else {
        StatusClass::Other
    }
}

} // verus!
