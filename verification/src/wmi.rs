//! The vendor's WMI class: how its failures read and how its scalars travel.

use vstd::prelude::*;

use crate::text::{decimal, push_decimal};

verus! {

/// The namespace that holds the vendor classes.
pub const NAMESPACE: &'static str = "root\\WMI";

/// The vendor class.
pub const CLASS: &'static str = "AcerGamingFunction";

/// The generic access failure.
pub const E_ACCESSDENIED: u32 = 0x8007_0005;

/// WMI's own access failure, which is what an unelevated call meets.
pub const WBEM_E_ACCESS_DENIED: u32 = 0x8004_1003;

pub const WBEM_E_INVALID_CLASS: u32 = 0x8004_1010;

pub const WBEM_E_NOT_FOUND: u32 = 0x8004_1002;

#[derive(Debug)]
pub enum WmiError {
    /// The process is not elevated, or the class rejected it.
    AccessDenied,
    /// The class is not there: other hardware, or no vendor provider.
    ClassNotFound,
    /// A method answered something unexpected.
    Protocol(String),
    /// Anything else, in the words of the system.
    Com(String),
}

impl WmiError {
    pub open spec fn text(self) -> Seq<char> {
        match self {
            WmiError::AccessDenied =>
                "access denied talking to AcerGamingFunction — colormemuch must run elevated (the manifest requests it; check the process is actually admin)"@,
            WmiError::ClassNotFound =>
                "AcerGamingFunction not found in root\\WMI — unsupported hardware, or the Acer WMI provider is missing"@,
            WmiError::Protocol(m) => "WMI protocol error: "@ + m@,
            WmiError::Com(e) => "COM error: "@ + e@,
        }
    }

    /// The error in words.
    pub fn message(&self) -> (r: String)
        ensures
            r@ == self.text(),
    {
        match self {
            WmiError::AccessDenied =>
                "access denied talking to AcerGamingFunction — colormemuch must run elevated (the manifest requests it; check the process is actually admin)".to_string(),
            WmiError::ClassNotFound =>
                "AcerGamingFunction not found in root\\WMI — unsupported hardware, or the Acer WMI provider is missing".to_string(),
            WmiError::Protocol(m) => {
                let mut out = String::new();
                out.append("WMI protocol error: ");
                out.append(m.as_str());
                assert(out@ =~= self.text());
                out
            },
            WmiError::Com(e) => {
                let mut out = String::new();
                out.append("COM error: ");
                out.append(e.as_str());
                assert(out@ =~= self.text());
                out
            },
        }
    }

    /// The error that a system failure stands for: missing rights and missing
    /// hardware are told apart from everything else by their codes.
    pub fn from_code(code: u32, words: String) -> (r: Self)
        ensures
            match r {
                WmiError::AccessDenied => code == E_ACCESSDENIED || code == WBEM_E_ACCESS_DENIED,
                WmiError::ClassNotFound => code == WBEM_E_INVALID_CLASS || code
                    == WBEM_E_NOT_FOUND,
                WmiError::Com(e) => {
                    &&& e@ == words@
                    &&& code != E_ACCESSDENIED && code != WBEM_E_ACCESS_DENIED
                    &&& code != WBEM_E_INVALID_CLASS && code != WBEM_E_NOT_FOUND
                },
                WmiError::Protocol(_) => false,
            },
    {
        if code == E_ACCESSDENIED || code == WBEM_E_ACCESS_DENIED {
            WmiError::AccessDenied
        } else if code == WBEM_E_INVALID_CLASS || code == WBEM_E_NOT_FOUND {
            WmiError::ClassNotFound
        } else {
            WmiError::Com(words)
        }
    }
}

/// A 64-bit argument as it travels: a decimal text.
pub fn packed_argument(v: u64) -> (r: String)
    ensures
        r@ == decimal(v as nat),
{
    let mut out = String::new();
    push_decimal(&mut out, v as u128);
    assert(out@ =~= decimal(v as nat));
    out
}

/// The status byte of a reader: the low byte of its status, zero where it has
/// none.
pub fn reader_status(scalar: Option<u64>) -> (r: u8)
    ensures
        r == match scalar {
            Some(v) => v % 256,
            None => 0,
        },
{
    match scalar {
        Some(v) => (v % 256) as u8,
        None => 0,
    }
}

/// A message says what went wrong: the words of the system stand at its end,
/// behind what kind of error it is, and missing rights read differently from
/// missing hardware.
pub proof fn messages_say_what_went_wrong(e: WmiError)
    ensures
        e matches WmiError::Protocol(m) ==> e.text().len() >= m@.len() && e.text().skip(
            e.text().len() - m@.len(),
        ) == m@,
        e matches WmiError::Com(m) ==> e.text().len() >= m@.len() && e.text().skip(
            e.text().len() - m@.len(),
        ) == m@,
        WmiError::AccessDenied.text() != WmiError::ClassNotFound.text(),
        e is Protocol ==> e.text()[0] == 'W' && e.text()[4] == 'p',
        e is Com ==> e.text()[0] == 'C',
{
    reveal_strlit("WMI protocol error: ");
    reveal_strlit("COM error: ");
    match e {
        WmiError::Protocol(m) => {
            assert(e.text().skip(e.text().len() - m@.len()) =~= m@);
        },
        WmiError::Com(m) => {
            assert(e.text().skip(e.text().len() - m@.len()) =~= m@);
        },
        _ => {},
    }
    reveal_strlit(
        "access denied talking to AcerGamingFunction — colormemuch must run elevated (the manifest requests it; check the process is actually admin)",
    );
    reveal_strlit(
        "AcerGamingFunction not found in root\\WMI — unsupported hardware, or the Acer WMI provider is missing",
    );
    assert(WmiError::AccessDenied.text()[0] != WmiError::ClassNotFound.text()[0]);
}

/// Two codes mean missing rights and two a missing class; any other is passed on
/// in the words of the system.
pub proof fn codes_are_told_apart(code: u32, words: String, r: WmiError)
    requires
        call_ensures(WmiError::from_code, (code, words), r),
    ensures
        r is AccessDenied <==> code == 0x8007_0005 || code == 0x8004_1003,
        r is ClassNotFound <==> code == 0x8004_1010 || code == 0x8004_1002,
        r is Com ==> r == WmiError::Com(words) || r->Com_0@ == words@,
        r !is Protocol,
{
}

} // verus!
