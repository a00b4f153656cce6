//! The self-signed certificate: what it says, and whether what was made of it can be used.

use crate::text::{decimal, law_decimal_reads_back, push_decimal};
use vstd::prelude::*;

verus! {

/// How long a certificate is valid.
pub const VALIDITY_YEARS: u16 = 10;

/// Length of the key.
pub const RSA_KEY_BITS: u32 = 2048;

/// The subject of a host's certificate.
pub fn subject_cn(hostname: &str) -> (r: String)
    ensures
        r@ == "CN="@ + hostname@,
{
    let mut out = "CN=".to_owned();
    out.append(hostname);
    out
}

/// The name of a key container.
pub open spec fn container_text(hostname: Seq<char>, nanos: nat) -> Seq<char> {
    "flvproxy_cert_"@ + hostname + "_"@ + decimal(nanos)
}

/// The name of the key container that is made at a moment.
pub fn container_name(hostname: &str, nanos: u64) -> (r: String)
    ensures
        r@ == container_text(hostname@, nanos as nat),
{
    let mut out = "flvproxy_cert_".to_owned();
    out.append(hostname);
    out.append("_");
    push_decimal(&mut out, nanos);
    out
}

/// A moment, as the system's calendar has it.
#[derive(Debug, Clone, Copy, PartialEq, Eq, Structural)]
pub struct CertTime {
    pub year: u16,
    pub month: u16,
    pub day_of_week: u16,
    pub day: u16,
    pub hour: u16,
    pub minute: u16,
    pub second: u16,
    pub milliseconds: u16,
}

impl Default for CertTime {
    fn default() -> (r: CertTime)
        ensures
            r == (CertTime {
                year: 0,
                month: 0,
                day_of_week: 0,
                day: 0,
                hour: 0,
                minute: 0,
                second: 0,
                milliseconds: 0,
            }),
    {
        CertTime {
            year: 0,
            month: 0,
            day_of_week: 0,
            day: 0,
            hour: 0,
            minute: 0,
            second: 0,
            milliseconds: 0,
        }
    }
}

/// The year in which a certificate ends that was made in `year`.
pub open spec fn last_year(year: u16) -> u16 {
    if year > u16::MAX - VALIDITY_YEARS {
        u16::MAX
    } else {
        (year + VALIDITY_YEARS) as u16
    }
}

/// The moment until which a certificate is valid that was made at `start`: in ten years, and never
/// later in the month than the 28th, so that the day exists in every year.
pub fn validity_end(start: CertTime) -> (r: CertTime)
    ensures
        r == (CertTime {
            year: last_year(start.year),
            day: if start.day > 28 {
                28
            } else {
                start.day
            },
            ..start
        }),
{
    let year: u16 = if start.year > u16::MAX - VALIDITY_YEARS {
        u16::MAX
    } else {
        start.year + VALIDITY_YEARS
    };
    let day: u16 = if start.day > 28 {
        28
    } else {
        start.day
    };
    CertTime { year, day, ..start }
}

/// Why there is no certificate.
#[derive(Debug, Clone, PartialEq, Eq)]
pub enum CertGenError {
    /// Only Windows can do this.
    WindowsOnly,
    /// A call of the system failed: its name, and the system's words.
    Call(String, String),
    /// The archive that was made is empty.
    Empty,
    /// The archive that was made holds no certificate.
    NoCertificate,
    /// The archive that was made holds no private key.
    NoPrivateKey,
    /// It could not be written, in the system's words.
    Write(String),
}

/// How an error is told.
pub open spec fn cert_error_text(e: CertGenError) -> Seq<char> {
    match e {
        CertGenError::WindowsOnly => "self-signed cert generation is only available on Windows"@,
        CertGenError::Call(call, why) => "CertGen/"@ + call@ + ": "@ + why@,
        CertGenError::Empty => "PFXExportCertStoreEx reported zero-length PFX"@,
        CertGenError::NoCertificate => "PFX verification failed: re-imported PFX contains no certificate"@,
        CertGenError::NoPrivateKey => "PFX verification failed: the exported PFX is cert-only (no private key) — the cert's CERT_KEY_PROV_INFO_PROP_ID is absent after re-import, so SChannel would reject it with SEC_E_NO_CREDENTIALS"@,
        CertGenError::Write(why) => "CertGen/write: "@ + why@,
    }
}

impl CertGenError {
    /// The error in words.
    pub fn message(&self) -> (r: String)
        ensures
            r@ == cert_error_text(*self),
    {
        match self {
            CertGenError::WindowsOnly => "self-signed cert generation is only available on Windows".to_owned(),
            CertGenError::Call(call, why) => {
                let mut out = "CertGen/".to_owned();
                out.append(call.as_str());
                out.append(": ");
                out.append(why.as_str());
                out
            },
            CertGenError::Empty => "PFXExportCertStoreEx reported zero-length PFX".to_owned(),
            CertGenError::NoCertificate => {
                "PFX verification failed: re-imported PFX contains no certificate".to_owned()
            },
            CertGenError::NoPrivateKey => {
                "PFX verification failed: the exported PFX is cert-only (no private key) — the cert's CERT_KEY_PROV_INFO_PROP_ID is absent after re-import, so SChannel would reject it with SEC_E_NO_CREDENTIALS".to_owned()
            },
            CertGenError::Write(why) => {
                let mut out = "CertGen/write: ".to_owned();
                out.append(why.as_str());
                out
            },
        }
    }
}

/// What an archive turned out to hold when it was read back.
#[derive(Debug, Clone, Copy, PartialEq, Eq, Structural)]
pub struct Archive {
    pub bytes: u32,
    pub has_certificate: bool,
    pub has_private_key: bool,
}

/// Judges a certificate that was made, where one could be. An archive without a private key would
/// only be refused later, when a camera connects.
pub fn generate_self_signed_pfx(made: Option<Result<Archive, CertGenError>>) -> (r: Result<(), CertGenError>)
    ensures
        match made {
            None => r matches Err(CertGenError::WindowsOnly),
            Some(Err(e)) => r == Err::<(), CertGenError>(e),
            Some(Ok(a)) => if a.bytes == 0 {
                r matches Err(CertGenError::Empty)
            } else if !a.has_certificate {
                r matches Err(CertGenError::NoCertificate)
            } else if !a.has_private_key {
                r matches Err(CertGenError::NoPrivateKey)
            } else {
                r is Ok
            },
        },
{
    match made {
        None => Err(CertGenError::WindowsOnly),
        Some(Err(e)) => Err(e),
        Some(Ok(a)) => if a.bytes == 0 {
            Err(CertGenError::Empty)
        } else if !a.has_certificate {
            Err(CertGenError::NoCertificate)
        } else if !a.has_private_key {
            Err(CertGenError::NoPrivateKey)
        } else {
            Ok(())
        },
    }
}

/// Containers that are made at different moments have different names.
pub proof fn law_container_names_differ(hostname: Seq<char>, nanos: nat, other_nanos: nat)
    requires
        nanos != other_nanos,
    ensures
        container_text(hostname, nanos) != container_text(hostname, other_nanos),
{
    let front = "flvproxy_cert_"@ + hostname + "_"@;
    let a = front + decimal(nanos);
    let b = front + decimal(other_nanos);
    law_decimal_reads_back(nanos);
    law_decimal_reads_back(other_nanos);
    if a == b {
        assert(decimal(nanos) =~= a.skip(front.len() as int));
        assert(decimal(other_nanos) =~= b.skip(front.len() as int));
    }
}

} // verus!
