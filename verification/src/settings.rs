//! The service's settings: each read from the environment, with a default.
use crate::text::{parse_u16, parse_usize, setting_or};
use vstd::prelude::*;

verus! {

/// The resolved settings.
pub struct Settings {
    /// Timeout announced to the backend, in milliseconds.
    pub ws_timeout: u16,
    /// Most pages that a pushed message may span.
    pub max_page: usize,
    /// Port of the WebSocket listener.
    pub ws_port: String,
    /// Port of the HTTP listener.
    pub http_port: String,
    /// Where the backend can reach this service.
    pub local_address: String,
    /// Where this service reaches the backend.
    pub target_address: String,
}

/// A setting that does not spell a number of its type.
#[derive(PartialEq, Eq, Structural, Clone, Copy, Debug)]
pub enum SettingsError {
    /// `WS_TIMEOUT` is not a `u16`.
    BadTimeout,
    /// `MAX_PAGE` is not a `usize`.
    BadMaxPage,
}

/// The text of a setting: the value given, or else the default.
pub open spec fn chosen(value: Option<String>, default: Seq<char>) -> Seq<char> {
    match value {
        Some(v) => v@,
        None => default,
    }
}

/// A setting given in the environment wins over its default; an unset one
/// takes the default.
pub proof fn law_given_setting_wins(value: String, default: Seq<char>)
    ensures
        chosen(Some(value), default) == value@,
        chosen(None, default) == default,
{
}

/// Resolves the settings from the values found in the environment (`None`
/// where a variable is unset). The timeout is read first, then the page limit.
pub fn resolve_settings(
    ws_timeout: Option<String>,
    max_page: Option<String>,
    ws_port: Option<String>,
    http_port: Option<String>,
    local_address: Option<String>,
    target_address: Option<String>,
) -> (r: Result<Settings, SettingsError>)
    ensures
        ({
            let t = crate::text::parse_unsigned(chosen(ws_timeout, "30000"@), u16::MAX as nat);
            let m = crate::text::parse_unsigned(chosen(max_page, "4"@), usize::MAX as nat);
            match r {
                Err(SettingsError::BadTimeout) => t is None,
                Err(SettingsError::BadMaxPage) => t is Some && m is None,
                Ok(s) => {
                    &&& t == Some(s.ws_timeout as nat)
                    &&& m == Some(s.max_page as nat)
                    &&& s.ws_port@ == chosen(ws_port, "8080"@)
                    &&& s.http_port@ == chosen(http_port, "8081"@)
                    &&& s.local_address@ == chosen(local_address, "http://localhost:8081"@)
                    &&& s.target_address@ == chosen(
                        target_address,
                        "http://localhost:3000/websocket"@,
                    )
                },
            }
        }),
{
    let timeout_text = setting_or(ws_timeout, "30000");
    let max_page_text = setting_or(max_page, "4");
    let ws_port = setting_or(ws_port, "8080");
    let http_port = setting_or(http_port, "8081");
    let local_address = setting_or(local_address, "http://localhost:8081");
    let target_address = setting_or(target_address, "http://localhost:3000/websocket");
    let ws_timeout = match parse_u16(timeout_text.as_str()) {
        Some(t) => t,
        None => return Err(SettingsError::BadTimeout),
    };
    let max_page = match parse_usize(max_page_text.as_str()) {
        Some(m) => m,
        None => return Err(SettingsError::BadMaxPage),
    };
    Ok(Settings { ws_timeout, max_page, ws_port, http_port, local_address, target_address })
}

} // verus!
