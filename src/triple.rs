//! Maps a target triple to the assembler's output-format and debug flags.

use vstd::prelude::*;
use crate::text::{chars_of, spells, split_chars, split_on, lemma_split_on_nonempty};

verus! {

/// Format and debug flags for a 32-bit x86 target running `os`.
pub open spec fn x86_flags(os: Seq<char>) -> (Seq<char>, Seq<char>) {
    if os == "darwin"@ || os == "ios"@ {
        ("-fmacho32"@, "-g"@)
    } else if os == "windows"@ || os == "uefi"@ {
        ("-fwin32"@, "-g"@)
    } else {
        ("-felf32"@, "-gdwarf"@)
    }
}

/// Format and debug flags for a 64-bit x86 target running `os`.
pub open spec fn x86_64_flags(os: Seq<char>) -> (Seq<char>, Seq<char>) {
    if os == "darwin"@ || os == "ios"@ {
        ("-fmacho64"@, "-g"@)
    } else if os == "windows"@ || os == "uefi"@ {
        ("-fwin64"@, "-g"@)
    } else {
        ("-felf64"@, "-gdwarf"@)
    }
}

/// The architectures served by the 32-bit x86 flags.
pub open spec fn is_x86_arch(arch: Seq<char>) -> bool {
    arch == "x86"@ || arch == "i386"@ || arch == "i586"@ || arch == "i686"@
}

/// The flags used when the triple says nothing the assembler can use.
pub open spec fn unformatted_flags() -> (Seq<char>, Seq<char>) {
    (""@, "-g"@)
}

/// Whether a triple is one the resolver has flags for: at least three
/// `-`-separated parts, and an x86 architecture in the first one.
pub open spec fn is_supported_triple(t: Seq<char>) -> bool {
    let parts = split_on(t, '-');
    parts.len() >= 3 && (parts[0] == "x86_64"@ || is_x86_arch(parts[0]))
}

/// Format and debug flags for the triple `ARCH-VENDOR-OS[-ENVIRONMENT]`.
pub open spec fn triple_flags(t: Seq<char>) -> (Seq<char>, Seq<char>) {
    let parts = split_on(t, '-');
    if parts.len() < 3 {
        unformatted_flags()
    } else if parts[0] == "x86_64"@ {
        if parts.len() >= 4 && parts[3] == "gnux32"@ {
            ("-felfx32"@, "-gdwarf"@)
        } else {
            x86_64_flags(parts[2])
        }
    } else if is_x86_arch(parts[0]) {
        x86_flags(parts[2])
    } else {
        unformatted_flags()
    }
}

/// Flags for a 32-bit x86 target whose OS part is `os`.
pub fn x86_triple(os: &Vec<char>) -> (r: (&'static str, &'static str))
    ensures
        (r.0@, r.1@) == x86_flags(os@),
{
    if spells(os, "darwin") || spells(os, "ios") {
        ("-fmacho32", "-g")
    } else if spells(os, "windows") || spells(os, "uefi") {
        ("-fwin32", "-g")
    } else {
        ("-felf32", "-gdwarf")
    }
}

/// Flags for a 64-bit x86 target whose OS part is `os`.
pub fn x86_64_triple(os: &Vec<char>) -> (r: (&'static str, &'static str))
    ensures
        (r.0@, r.1@) == x86_64_flags(os@),
{
    if spells(os, "darwin") || spells(os, "ios") {
        ("-fmacho64", "-g")
    } else if spells(os, "windows") || spells(os, "uefi") {
        ("-fwin64", "-g")
    } else {
        ("-felf64", "-gdwarf")
    }
}

/// Resolves a target triple to its (format flag, debug flag) pair.
///
/// Never fails: a triple with fewer than three parts, or with an
/// architecture other than x86, gets an empty format flag and `-g`.
pub fn parse_triple(trip: &str) -> (r: (&'static str, &'static str))
    ensures
        (r.0@, r.1@) == triple_flags(trip@),
{
    let chars = chars_of(trip);
    let parts = split_chars(&chars, '-');
    proof {
        lemma_split_on_nonempty(trip@, '-');
    }
    if parts.len() < 3 {
        return ("", "-g");
    }
    if spells(&parts[0], "x86_64") {
        if parts.len() >= 4 && spells(&parts[3], "gnux32") {
            ("-felfx32", "-gdwarf")
        } else {
            x86_64_triple(&parts[2])
        }
    } else if spells(&parts[0], "x86") || spells(&parts[0], "i386") || spells(&parts[0], "i586")
        || spells(&parts[0], "i686") {
        x86_triple(&parts[2])
    } else {
        ("", "-g")
    }
}

/// Any triple the resolver has no flags for degrades to an empty format flag
/// and the generic debug flag, rather than being an error.
pub proof fn lemma_unsupported_triple_unformatted(t: Seq<char>)
    requires
        !is_supported_triple(t),
    ensures
        triple_flags(t) == unformatted_flags(),
{
}

} // verus!
