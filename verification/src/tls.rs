//! Errors met while loading TLS material.

use vstd::prelude::*;
use vstd::string::StringExecFns;

verus! {

broadcast use vstd::string::group_string_axioms;

/// A failure to load TLS material.
#[derive(Debug)]
pub enum TlsError {
    /// Reading a file failed.
    Io(std::io::Error),
    /// A certificate did not parse.
    CertificateParse(String),
    /// A private key did not parse.
    KeyParse(String),
    /// The certificate file held no certificate.
    NoCertificate,
    /// The key file held no private key.
    NoPrivateKey,
}

/// Formats an I/O error with its `Display`. Trusted only to return some
/// text: what the text says is the operating system's.
#[verifier::external_body]
fn io_error_text(e: &std::io::Error) -> (r: String) {
    e.to_string()
}

impl TlsError {
    /// The message of the error.
    pub fn to_string(&self) -> (r: String)
        ensures
            match self {
                TlsError::Io(_) => r@.len() >= 10 && r@.subrange(0, 10) == "IO error: "@,
                TlsError::CertificateParse(m) => r@ == "Certificate parse error: "@ + m@,
                TlsError::KeyParse(m) => r@ == "Private key parse error: "@ + m@,
                TlsError::NoCertificate => r@ == "No valid certificate found"@,
                TlsError::NoPrivateKey => r@ == "No valid private key found"@,
            },
    {
        match self {
            TlsError::Io(e) => {
                let mut s = "IO error: ".to_owned();
                proof {
                    reveal_strlit("IO error: ");
                }
                let t = io_error_text(e);
                s.append(t.as_str());
                assert(s@.subrange(0, 10) =~= "IO error: "@);
                s
            },
            TlsError::CertificateParse(m) => {
                let mut s = "Certificate parse error: ".to_owned();
                s.append(m.as_str());
                s
            },
            TlsError::KeyParse(m) => {
                let mut s = "Private key parse error: ".to_owned();
                s.append(m.as_str());
                s
            },
            TlsError::NoCertificate => "No valid certificate found".to_owned(),
            TlsError::NoPrivateKey => "No valid private key found".to_owned(),
        }
    }
}

} // verus!
