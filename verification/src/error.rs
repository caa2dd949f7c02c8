//! The error taxonomy of the routing client.
//!
//! Every variant is a recoverable, per-call condition; none aborts the
//! process.  Transport failures arrive as their message text, so the type
//! holds plain values only.

use crate::text::ascii_chars;
use crate::text::ascii_string;
use crate::text::dec_bytes;
use crate::text::lemma_dec_bytes_ascii;
use crate::text::u64_dec_bytes;
use vstd::prelude::*;
use vstd::string::StringExecFns;

verus! {

/// An error that can occur when using the BRouter client.
#[derive(Debug)]
pub enum Error {
    /// An error that occurs when the GPX file is invalid.
    InvalidGpx(String),
    /// An error that occurs when the HTTP request fails.
    Http(String),
    /// An error that occurs when the data file is missing.
    MissingDataFile(String),
    /// An error that occurs when no route is found.
    NoRouteFound(isize),
    /// An error that occurs when the pass times out.
    PassTimeout {
        /// The pass number.
        pass: String,
        /// The timeout in seconds.
        timeout: String,
    },
    /// Error uploading profile.
    UploadProfileError(String),
    /// Another error.
    Other(String),
}

/// The decimal rendering of an integer, with a leading minus sign when it
/// is negative.
pub open spec fn int_dec_chars(v: int) -> Seq<char> {
    if v < 0 {
        seq!['-'] + ascii_chars(dec_bytes((-v) as nat))
    } else {
        ascii_chars(dec_bytes(v as nat))
    }
}

/// The decimal rendering of an `isize` as a `String`.
pub fn isize_dec_string(v: isize) -> (r: String)
    ensures
        r@ == int_dec_chars(v as int),
{
    if v < 0 {
        let magnitude: u64 = (-(v as i128)) as u64;
        proof {
            assert(magnitude as int == -(v as int));
        }
        let digits = u64_dec_bytes(magnitude);
        proof {
            lemma_dec_bytes_ascii(magnitude as nat);
        }
        let mut r = String::from_str("-");
        r.append(ascii_string(digits).as_str());
        proof {
            reveal_strlit("-");
            assert(r@ =~= int_dec_chars(v as int));
        }
        r
    } else {
        let digits = u64_dec_bytes(v as u64);
        proof {
            lemma_dec_bytes_ascii((v as u64) as nat);
        }
        ascii_string(digits)
    }
}

impl Error {
    /// The diagnostic text of the error.
    pub open spec fn spec_message(&self) -> Seq<char> {
        match self {
            Error::InvalidGpx(s) => "Invalid GPX: "@ + s@,
            Error::Http(s) => "HTTP error: "@ + s@,
            Error::MissingDataFile(s) => "Missing data file: "@ + s@,
            Error::NoRouteFound(i) => "No route found: "@ + int_dec_chars(*i as int),
            Error::PassTimeout { pass, timeout } => "Pass "@ + pass@ + " timeout after "@
                + timeout@ + " seconds"@,
            Error::UploadProfileError(s) => "Error uploading profile: "@ + s@,
            Error::Other(s) => "Error: "@ + s@,
        }
    }

    /// Render the error as one diagnostic line.
    pub fn message(&self) -> (r: String)
        ensures
            r@ == self.spec_message(),
    {
        match self {
            Error::InvalidGpx(s) => {
                let mut r = String::from_str("Invalid GPX: ");
                r.append(s.as_str());
                r
            },
            Error::Http(s) => {
                let mut r = String::from_str("HTTP error: ");
                r.append(s.as_str());
                r
            },
            Error::MissingDataFile(s) => {
                let mut r = String::from_str("Missing data file: ");
                r.append(s.as_str());
                r
            },
            Error::NoRouteFound(i) => {
                let mut r = String::from_str("No route found: ");
                let num = isize_dec_string(*i);
                r.append(num.as_str());
                r
            },
            Error::PassTimeout { pass, timeout } => {
                let mut r = String::from_str("Pass ");
                r.append(pass.as_str());
                r.append(" timeout after ");
                r.append(timeout.as_str());
                r.append(" seconds");
                r
            },
            Error::UploadProfileError(s) => {
                let mut r = String::from_str("Error uploading profile: ");
                r.append(s.as_str());
                r
            },
            Error::Other(s) => {
                let mut r = String::from_str("Error: ");
                r.append(s.as_str());
                r
            },
        }
    }
}

} // verus!
