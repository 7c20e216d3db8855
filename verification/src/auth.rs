//! The authentication check at admission.
//!
//! A client key is taken from `x-proxy-key` first, then from `Authorization`
//! (with a `Bearer ` prefix stripped). When a global key is configured, the
//! candidate must equal it verbatim.

use vstd::prelude::*;

use crate::config::ProxyConfig;
use crate::headers::{get_header, header_lookup, Header, HeaderModel};
use crate::text::{str_starts_with, trim_spec, trim_str};

verus! {

/// The candidate key a request supplies: a non-blank `x-proxy-key` wins;
/// otherwise the trimmed `Authorization` value, with a non-empty remainder
/// after `Bearer ` preferred over the raw value.
pub open spec fn extract_key_spec(hs: Seq<HeaderModel>) -> Option<Seq<char>> {
    let proxy_key = header_lookup(hs, "x-proxy-key"@);
    if proxy_key matches Some(v) && trim_spec(v).len() > 0 {
        Some(trim_spec(proxy_key.unwrap()))
    } else {
        match header_lookup(hs, "authorization"@) {
            Some(v) => {
                let t = trim_spec(v);
                if "Bearer "@.is_prefix_of(t) {
                    let rest = t.skip("Bearer "@.len() as int);
                    if rest.len() > 0 {
                        Some(rest)
                    } else {
                        None
                    }
                } else if t.len() > 0 {
                    Some(t)
                } else {
                    None
                }
            },
            None => None,
        }
    }
}

/// Extract the client-supplied proxy key from a request's headers; see
/// [`extract_key_spec`].
pub fn extract_proxy_key(headers: &Vec<Header>) -> (r: Option<String>)
    ensures
        r.deep_view() == extract_key_spec(headers.deep_view()),
{
    match get_header(headers, "x-proxy-key") {
        Some(v) => {
            let t = trim_str(v.as_str());
            if t.unicode_len() > 0 {
                return Some(t.to_owned());
            }
        },
        None => {},
    }
    match get_header(headers, "authorization") {
        Some(v) => {
            let t = trim_str(v.as_str());
            if str_starts_with(t, "Bearer ") {
                let rest = t.substring_char("Bearer ".unicode_len(), t.unicode_len());
                if rest.unicode_len() > 0 {
                    Some(rest.to_owned())
                } else {
                    None
                }
            } else if t.unicode_len() > 0 {
                Some(t.to_owned())
            } else {
                None
            }
        },
        None => None,
    }
}

/// The admission rejection: the configured global key was not supplied.
#[derive(Debug, Clone, Copy, PartialEq, Eq, Structural)]
pub struct AuthError;

/// Whether a request is admitted: no global key is configured, or the
/// candidate key equals it verbatim.
pub open spec fn auth_ok(global_key: Option<Seq<char>>, hs: Seq<HeaderModel>) -> bool {
    match global_key {
        None => true,
        Some(k) => extract_key_spec(hs) == Some(k),
    }
}

/// Admit or reject a request at admission; see [`auth_ok`].
pub fn check_auth(config: &ProxyConfig, headers: &Vec<Header>) -> (r: Result<(), AuthError>)
    ensures
        r is Ok <==> auth_ok(config@.global_key, headers.deep_view()),
{
    match &config.global_key {
        None => Ok(()),
        Some(k) => {
            let provided = extract_proxy_key(headers);
            match provided {
                Some(p) => {
                    if p == *k {
                        Ok(())
                    } else {
                        Err(AuthError)
                    }
                },
                None => Err(AuthError),
            }
        },
    }
}

} // verus!
