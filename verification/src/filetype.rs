//! MIME-based routing predicates: tell binary images apart from source
//! text, so a caller can dispatch a file to the right analysis path.  The
//! MIME string itself comes from an outside detector; these predicates only
//! classify it.

use vstd::prelude::*;

use crate::strutil::{contains_seq, is_prefix_of, str_contains, str_eq, str_starts_with};

verus! {

/// The MIME names a 64-bit PE executable.
pub fn is_pe64(mime: &str) -> (r: bool)
    ensures
        r == (contains_seq(mime@, "application/"@) && contains_seq(mime@, "pe64"@)),
{
    str_contains(mime, "application/") && str_contains(mime, "pe64")
}

/// The MIME names a 32-bit PE executable.
pub fn is_pe32(mime: &str) -> (r: bool)
    ensures
        r == (mime@ == "application/x-msdownload"@),
{
    str_eq(mime, "application/x-msdownload")
}

/// The MIME names an ELF image (executable or shared object).
pub fn is_elf(mime: &str) -> (r: bool)
    ensures
        r == (mime@ == "application/x-sharedlib"@ || mime@ == "application/x-executable"@),
{
    str_eq(mime, "application/x-sharedlib") || str_eq(mime, "application/x-executable")
}

/// The MIME names text or an undetected stream treated as text.
pub fn is_text(mime: &str) -> (r: bool)
    ensures
        r == (mime@ == "application/octet-stream"@ || mime@ == "application/text"@
            || is_prefix_of("text/"@, mime@) || mime@ == "application/x-sh"@),
{
    str_eq(mime, "application/octet-stream") || str_eq(mime, "application/text")
        || str_starts_with(mime, "text/") || str_eq(mime, "application/x-sh")
}

} // verus!
