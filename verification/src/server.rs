//! The server's verified half: its handle on the configuration, the
//! report request it answers, and the response headers it computes.
//!
//! The routing, listening and serving around these stay with the
//! host; everything here is a function from plain values to plain
//! values.

use vstd::prelude::*;

use crate::config::ServerConfig;
use crate::json::dec_digits;
use crate::json::dec_string;
use crate::store::ConfigStore;
use vstd::string::StringSliceAdditionalSpecFns;

verus! {

/// A request for one rendered report.
#[derive(Debug)]
pub struct ReportRequest {
    pub name: String,
    pub content: String,
    pub theme: Option<String>,
}

/// The server: its own settings, and the store of the dynamic client
/// configuration it serves.
pub struct Server {
    pub config: ServerConfig,
    pub client_config: ConfigStore,
}

impl Server {
    /// Builds a server around its settings and a seeded store.
    pub fn new(config: ServerConfig, client_config: ConfigStore) -> (s: Server)
        ensures
            s.config@ == config@,
            s.client_config@ == client_config@,
    {
        Server { config, client_config }
    }

    /// The address the server listens on: its host and port, joined
    /// by a colon.
    pub fn addr(&self) -> (r: String)
        ensures
            r@ == self.config.host@ + seq![':'] + dec_digits(self.config.port as nat),
    {
        listen_addr(&self.config)
    }
}

/// The address a configuration asks the server to listen on: its
/// host and port, joined by a colon.
pub fn listen_addr(config: &ServerConfig) -> (r: String)
    ensures
        r@ == config.host@ + seq![':'] + dec_digits(config.port as nat),
{
    proof {
        reveal_strlit(":");
        assert(":"@ =~= seq![':']);
    }
    let mut out = config.host.clone();
    out.append(":");
    let port_text = dec_string(config.port as u64);
    out.append(port_text.as_str());
    out
}

/// The theme a request asks for: the named one, or the default.
pub fn effective_theme(theme: &Option<String>) -> (r: String)
    ensures
        match theme {
            Some(t) => r@ == t@,
            None => r@ == "default"@,
        },
{
    match theme {
        Some(t) => t.clone(),
        None => String::from_str("default"),
    }
}

/// An ASCII letter or digit, which percent-encoding keeps as it is.
pub open spec fn is_alnum_byte(b: u8) -> bool {
    (48 <= b <= 57) || (65 <= b <= 90) || (97 <= b <= 122)
}

/// The character of one uppercase hexadecimal digit.
pub open spec fn hex_char(d: int) -> char {
    if d < 10 {
        crate::json::digit_char(d)
    } else if d == 10 {
        'A'
    } else if d == 11 {
        'B'
    } else if d == 12 {
        'C'
    } else if d == 13 {
        'D'
    } else if d == 14 {
        'E'
    } else {
        'F'
    }
}

/// The percent-encoding of a byte string that keeps only ASCII
/// letters and digits: every other byte becomes a percent sign and
/// two uppercase hexadecimal digits.
pub open spec fn percent_bytes(bs: Seq<u8>) -> Seq<char>
    decreases bs.len(),
{
    if bs.len() == 0 {
        Seq::empty()
    } else {
        let b = bs[0];
        let head: Seq<char> = if is_alnum_byte(b) {
            seq![b as char]
        } else {
            seq!['%', hex_char(b as int / 16), hex_char(b as int % 16)]
        };
        head + percent_bytes(bs.drop_first())
    }
}

/// Relies on `percent_encoding::utf8_percent_encode` with the
/// `NON_ALPHANUMERIC` set: each UTF-8 byte of the input that is not
/// an ASCII letter or digit comes out as `%` and two uppercase hex
/// digits, and every other byte as itself, in order.
#[verifier::external_body]
fn percent_encode_non_alnum(s: &str) -> (r: String)
    ensures
        r@ == percent_bytes(s.spec_bytes()),
{
    percent_encoding::utf8_percent_encode(s, percent_encoding::NON_ALPHANUMERIC).to_string()
}

/// The attachment header value under which a report is sent back:
/// the fixed fallback name, then the requested name percent-encoded
/// so that any character survives the header, with the report's file
/// extension on both.
pub fn content_disposition(name: &str) -> (r: String)
    ensures
        r@ == "attachment; filename=\"export.pdf\"; filename*=UTF-8''"@ + percent_bytes(
            name.spec_bytes(),
        ) + ".pdf"@,
{
    let encoded = percent_encode_non_alnum(name);
    let mut out = String::from_str("attachment; filename=\"export.pdf\"; filename*=UTF-8''");
    out.append(encoded.as_str());
    out.append(".pdf");
    out
}

} // verus!
