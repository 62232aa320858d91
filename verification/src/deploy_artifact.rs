//! Deploy artifact validation: executable markers, appended marker bounds,
//! binary architecture detection, signature markers and web dist zips.
use vstd::prelude::*;
use ed25519_dalek::Verifier;
use sha2::Digest;
use std::io::Read;

use crate::error::io_error_text;
use crate::paths::{join_path, path_join};
use crate::text::{
    first_index,
    ascii_lower, chars_eq, chars_of, ends_with, lower_chars, owned, push_char, push_decimal,
    push_str, starts_with, str_eq, string_of, trim, trim_chars, trim_str,
};

verus! {

/// Errors of deploy artifact validation.
#[derive(Debug)]
pub enum DeployArtifactError {
    InvalidArtifact(String),
    Io(std::io::Error),
}

impl DeployArtifactError {
    /// The human-readable form of the error: the message of an invalid
    /// artifact, `io error: ...` for an I/O error.
    pub fn to_display_string(&self) -> (s: String)
        ensures
            self matches DeployArtifactError::InvalidArtifact(m) ==> s@ == m@,
            self matches DeployArtifactError::Io(_) ==> "io error: "@.is_prefix_of(s@),
    {
        match self {
            DeployArtifactError::InvalidArtifact(m) => owned(m.as_str()),
            DeployArtifactError::Io(e) => {
                let mut s = owned("io error: ");
                let t = io_error_text(e);
                push_str(&mut s, t.as_str());
                assert("io error: "@.is_prefix_of(s@));
                s
            },
        }
    }
}

/// `r` is an invalid-artifact error with message `m`.
pub open spec fn invalid_with<T>(r: Result<T, DeployArtifactError>, m: Seq<char>) -> bool {
    r matches Err(DeployArtifactError::InvalidArtifact(s)) && s@ == m
}

fn invalid<T>(m: &str) -> (r: Result<T, DeployArtifactError>)
    ensures
        invalid_with(r, m@),
{
    Err(DeployArtifactError::InvalidArtifact(owned(m)))
}

/// CPU architectures of release binaries.
#[derive(Debug, Clone, Copy, PartialEq, Eq)]
pub enum BinaryArch {
    X86_64,
    Aarch64,
}

impl BinaryArch {
    pub fn as_str(self) -> (s: &'static str)
        ensures
            self == BinaryArch::X86_64 ==> s@ == "x86_64"@,
            self == BinaryArch::Aarch64 ==> s@ == "aarch64"@,
    {
        match self {
            BinaryArch::X86_64 => "x86_64",
            BinaryArch::Aarch64 => "aarch64",
        }
    }
}

// ---------------------------------------------------------------------------
// File type markers
// ---------------------------------------------------------------------------

/// Starts with `PK`.
pub open spec fn spec_is_zip(b: Seq<u8>) -> bool {
    b.len() >= 2 && b[0] == 0x50 && b[1] == 0x4b
}

/// Starts with `\x7fELF`.
pub open spec fn spec_is_elf(b: Seq<u8>) -> bool {
    b.len() >= 4 && b[0] == 0x7f && b[1] == 0x45 && b[2] == 0x4c && b[3] == 0x46
}

/// Starts with `#!`.
pub open spec fn spec_is_script(b: Seq<u8>) -> bool {
    b.len() >= 2 && b[0] == 0x23 && b[1] == 0x21
}

/// The big-endian `u32` of `b[i..i + 4]`.
pub open spec fn be32(b: Seq<u8>, i: int) -> int {
    b[i] * 0x100_0000 + b[i + 1] * 0x1_0000 + b[i + 2] * 0x100 + b[i + 3]
}

/// The little-endian `u32` of `b[i..i + 4]`.
pub open spec fn le32(b: Seq<u8>, i: int) -> int {
    b[i + 3] * 0x100_0000 + b[i + 2] * 0x1_0000 + b[i + 1] * 0x100 + b[i]
}

/// A Mach-O or fat binary magic number.
pub open spec fn is_macho_magic(m: int) -> bool {
    m == 0xFEEDFACE || m == 0xFEEDFACF || m == 0xCAFEBABE || m == 0xBEBAFECA
}

/// Starts with a Mach-O or fat magic number, read either way round.
pub open spec fn spec_is_macho_or_fat(b: Seq<u8>) -> bool {
    b.len() >= 4 && (is_macho_magic(be32(b, 0)) || is_macho_magic(le32(b, 0)))
}

pub fn is_zip(bytes: &[u8]) -> (r: bool)
    ensures
        r == spec_is_zip(bytes@),
{
    bytes.len() >= 2 && bytes[0] == 0x50 && bytes[1] == 0x4b
}

pub fn is_elf(bytes: &[u8]) -> (r: bool)
    ensures
        r == spec_is_elf(bytes@),
{
    bytes.len() >= 4 && bytes[0] == 0x7f && bytes[1] == 0x45 && bytes[2] == 0x4c && bytes[3]
        == 0x46
}

pub fn is_script(bytes: &[u8]) -> (r: bool)
    ensures
        r == spec_is_script(bytes@),
{
    bytes.len() >= 2 && bytes[0] == 0x23 && bytes[1] == 0x21
}

fn read_be32(b: &[u8], i: usize) -> (r: u32)
    requires
        i + 4 <= b.len(),
    ensures
        r as int == be32(b@, i as int),
{
    (b[i] as u32) * 0x100_0000 + (b[i + 1] as u32) * 0x1_0000 + (b[i + 2] as u32) * 0x100 + (b[i
        + 3] as u32)
}

fn read_le32(b: &[u8], i: usize) -> (r: u32)
    requires
        i + 4 <= b.len(),
    ensures
        r as int == le32(b@, i as int),
{
    (b[i + 3] as u32) * 0x100_0000 + (b[i + 2] as u32) * 0x1_0000 + (b[i + 1] as u32) * 0x100
        + (b[i] as u32)
}

fn macho_magic(m: u32) -> (r: bool)
    ensures
        r == is_macho_magic(m as int),
{
    m == 0xFEEDFACE || m == 0xFEEDFACF || m == 0xCAFEBABE || m == 0xBEBAFECA
}

pub fn is_macho_or_fat(bytes: &[u8]) -> (r: bool)
    ensures
        r == spec_is_macho_or_fat(bytes@),
{
    if bytes.len() < 4 {
        return false;
    }
    let be = read_be32(bytes, 0);
    let le = read_le32(bytes, 0);
    macho_magic(be) || macho_magic(le)
}

// ---------------------------------------------------------------------------
// Sub-slice search
// ---------------------------------------------------------------------------

/// `needle` occurs in `haystack` at position `p`.
pub open spec fn occurs_at(haystack: Seq<u8>, needle: Seq<u8>, p: int) -> bool {
    0 <= p && p + needle.len() <= haystack.len() && haystack.subrange(p, p + needle.len())
        == needle
}

fn occurs_at_exec(haystack: &[u8], needle: &[u8], p: usize) -> (r: bool)
    requires
        p + needle.len() <= haystack.len(),
    ensures
        r == occurs_at(haystack@, needle@, p as int),
{
    let mut i: usize = 0;
    while i < needle.len()
        invariant
            p + needle.len() <= haystack.len(),
            0 <= i <= needle.len(),
            forall|j: int| 0 <= j < i ==> haystack@[p + j] == needle@[j],
        decreases needle.len() - i,
    {
        if haystack[p + i] != needle[i] {
            assert(haystack@.subrange(p as int, p + needle.len())[i as int] != needle@[i as int]);
            return false;
        }
        i = i + 1;
    }
    assert(haystack@.subrange(p as int, p + needle.len()) =~= needle@);
    true
}

/// The first position of `needle` in `haystack` (`0` for an empty needle).
pub fn find_subslice(haystack: &[u8], needle: &[u8]) -> (r: Option<usize>)
    ensures
        needle@.len() == 0 ==> r == Some(0usize),
        needle@.len() > 0 ==> match r {
            Some(p) => occurs_at(haystack@, needle@, p as int) && forall|q: int|
                0 <= q < p ==> !#[trigger] occurs_at(haystack@, needle@, q),
            None => forall|q: int| !#[trigger] occurs_at(haystack@, needle@, q),
        },
{
    if needle.len() == 0 {
        return Some(0);
    }
    if needle.len() > haystack.len() {
        return None;
    }
    let last = haystack.len() - needle.len();
    let mut p: usize = 0;
    while p <= last
        invariant
            needle.len() > 0,
            needle.len() <= haystack.len(),
            last == haystack.len() - needle.len(),
            0 <= p <= last + 1,
            forall|q: int| 0 <= q < p ==> !#[trigger] occurs_at(haystack@, needle@, q),
        decreases last + 1 - p,
    {
        if occurs_at_exec(haystack, needle, p) {
            return Some(p);
        }
        p = p + 1;
    }
    None
}

/// The last position of `needle` in `haystack` (its length for an empty needle).
pub fn find_last_subslice(haystack: &[u8], needle: &[u8]) -> (r: Option<usize>)
    ensures
        needle@.len() == 0 ==> r == Some(haystack.len()),
        needle@.len() > 0 ==> match r {
            Some(p) => occurs_at(haystack@, needle@, p as int) && forall|q: int|
                p < q ==> !#[trigger] occurs_at(haystack@, needle@, q),
            None => forall|q: int| !#[trigger] occurs_at(haystack@, needle@, q),
        },
{
    if needle.len() == 0 {
        return Some(haystack.len());
    }
    if needle.len() > haystack.len() {
        return None;
    }
    let mut p: usize = haystack.len() - needle.len() + 1;
    while p > 0
        invariant
            p <= haystack.len() - needle.len() + 1,
            needle.len() > 0,
            forall|q: int| p <= q ==> !#[trigger] occurs_at(haystack@, needle@, q),
        decreases p,
    {
        if occurs_at_exec(haystack, needle, p - 1) {
            return Some(p - 1);
        }
        p = p - 1;
    }
    None
}

// ---------------------------------------------------------------------------
// Binary marker and appended marker
// ---------------------------------------------------------------------------

/// The file is an executable the platform can run: ELF, Mach-O or fat, or,
/// when allowed, a script.
pub open spec fn executable_type(b: Seq<u8>, allow_script: bool) -> bool {
    spec_is_elf(b) || spec_is_macho_or_fat(b) || (allow_script && spec_is_script(b))
}

/// Checks that a binary artifact is an executable that contains the marker
/// prefix somewhere.
pub fn validate_binary_marker(file_data: &[u8], marker_prefix: &[u8], allow_script: bool) -> (r:
    Result<(), DeployArtifactError>)
    requires
        marker_prefix@.len() > 0 || !executable_type(file_data@, allow_script),
    ensures
        !executable_type(file_data@, allow_script) ==> invalid_with(
            r,
            "binary artifact must be an executable binary"@,
        ),
        executable_type(file_data@, allow_script) && !(exists|q: int|
            #[trigger] occurs_at(file_data@, marker_prefix@, q)) ==> invalid_with(
            r,
            "binary artifact marker check failed"@,
        ),
        executable_type(file_data@, allow_script) && (exists|q: int|
            #[trigger] occurs_at(file_data@, marker_prefix@, q)) ==> r is Ok,
{
    let valid_type = is_elf(file_data) || is_macho_or_fat(file_data) || (allow_script && is_script(
        file_data,
    ));
    if !valid_type {
        return invalid("binary artifact must be an executable binary");
    }
    match find_subslice(file_data, marker_prefix) {
        Some(_) => Ok(()),
        None => invalid("binary artifact marker check failed"),
    }
}

/// Byte offsets of an appended marker: where its begin tag starts, where its
/// content starts, and where its end tag starts.
#[derive(Debug, Clone, Copy, PartialEq, Eq)]
pub struct AppendedMarkerBounds {
    pub marker_start: usize,
    pub marker_content_start: usize,
    pub marker_end: usize,
}

/// Locates the last `marker_begin` in `file_data` and the first `marker_end`
/// after it.
pub fn append_marker_bounds(file_data: &[u8], marker_begin: &[u8], marker_end: &[u8]) -> (r:
    Result<AppendedMarkerBounds, DeployArtifactError>)
    ensures
        marker_begin@.len() > 0 && !(exists|q: int|
            #[trigger] occurs_at(file_data@, marker_begin@, q)) ==> invalid_with(
            r,
            "appended marker is required"@,
        ),
        (marker_begin@.len() == 0 || exists|q: int|
            #[trigger] occurs_at(file_data@, marker_begin@, q)) ==> ({
            let s = last_occurrence(file_data@, marker_begin@);
            let c = s + marker_begin@.len();
            if marker_end@.len() > 0 && !(exists|q: int|
                q >= c && #[trigger] occurs_at(file_data@, marker_end@, q)) {
                invalid_with(r, "appended marker is incomplete"@)
            } else {
                &&& r matches Ok(b)
                &&& b.marker_start == s
                &&& b.marker_content_start == c
                &&& (marker_end@.len() == 0 ==> b.marker_end == c)
                &&& (marker_end@.len() > 0 ==> b.marker_end >= c && occurs_at(
                    file_data@,
                    marker_end@,
                    b.marker_end as int,
                ) && forall|q: int|
                    c <= q < b.marker_end ==> !#[trigger] occurs_at(file_data@, marker_end@, q))
            }
        }),
{
    let marker_start = match find_last_subslice(file_data, marker_begin) {
        Some(p) => p,
        None => {
            return invalid("appended marker is required");
        },
    };
    proof {
        lemma_last_occurrence(file_data@, marker_begin@, marker_start as int);
        if marker_begin.len() > 0 {
            assert(occurs_at(file_data@, marker_begin@, marker_start as int));
        }
    }
    assert(marker_start + marker_begin.len() <= file_data.len());
    let marker_content_start = marker_start + marker_begin.len();
    let (_, tail) = file_data.split_at(marker_content_start);
    assert(tail@ == file_data@.skip(marker_content_start as int));
    match find_subslice(tail, marker_end) {
        Some(offset) => {
            if marker_end.len() > 0 {
                assert(occurs_at(tail@, marker_end@, offset as int));
            }
            assert(offset <= tail.len());
            proof {
                lemma_occurs_shift(
                    file_data@,
                    marker_end@,
                    marker_content_start as int,
                    offset as int,
                );
                assert forall|q: int|
                    marker_content_start <= q < marker_content_start + offset implies !#[trigger] occurs_at(
                    file_data@,
                    marker_end@,
                    q,
                ) by {
                    lemma_occurs_shift(
                        file_data@,
                        marker_end@,
                        marker_content_start as int,
                        q - marker_content_start,
                    );
                }
            }
            Ok(
                AppendedMarkerBounds {
                    marker_start,
                    marker_content_start,
                    marker_end: marker_content_start + offset,
                },
            )
        },
        None => {
            proof {
                assert forall|q: int|
                    q >= marker_content_start && #[trigger] occurs_at(
                        file_data@,
                        marker_end@,
                        q,
                    ) implies false by {
                    lemma_occurs_shift(
                        file_data@,
                        marker_end@,
                        marker_content_start as int,
                        q - marker_content_start,
                    );
                }
            }
            invalid("appended marker is incomplete")
        },
    }
}

/// The position of the last occurrence of a non-empty `needle` (the length
/// of `haystack` for an empty one).
pub open spec fn last_occurrence(haystack: Seq<u8>, needle: Seq<u8>) -> int {
    if needle.len() == 0 {
        haystack.len() as int
    } else {
        choose|p: int| occurs_at(haystack, needle, p) && forall|q: int|
            p < q ==> !#[trigger] occurs_at(haystack, needle, q)
    }
}

proof fn lemma_last_occurrence(haystack: Seq<u8>, needle: Seq<u8>, p: int)
    requires
        needle.len() == 0 ==> p == haystack.len(),
        needle.len() > 0 ==> occurs_at(haystack, needle, p) && forall|q: int|
            p < q ==> !#[trigger] occurs_at(haystack, needle, q),
    ensures
        last_occurrence(haystack, needle) == p,
{
    if needle.len() > 0 {
        let c = choose|c: int| occurs_at(haystack, needle, c) && forall|q: int|
            c < q ==> !#[trigger] occurs_at(haystack, needle, q);
        assert(occurs_at(haystack, needle, c));
        if c < p {
            assert(!occurs_at(haystack, needle, p));
        }
        if p < c {
            assert(!occurs_at(haystack, needle, c));
        }
    }
}

proof fn lemma_occurs_shift(h: Seq<u8>, n: Seq<u8>, start: int, q: int)
    requires
        0 <= start <= h.len(),
        0 <= q,
    ensures
        occurs_at(h.skip(start), n, q) == occurs_at(h, n, start + q),
{
    if occurs_at(h, n, start + q) {
        assert(h.skip(start).subrange(q, q + n.len()) =~= h.subrange(start + q, start + q + n.len()));
    }
    if occurs_at(h.skip(start), n, q) {
        assert(h.skip(start).subrange(q, q + n.len()) =~= h.subrange(start + q, start + q + n.len()));
    }
}


// ---------------------------------------------------------------------------
// Architecture detection
// ---------------------------------------------------------------------------

/// The architecture an ELF header names: machine 62 is x86_64, 183 aarch64,
/// read in the byte order of `EI_DATA`; short headers name none.
pub open spec fn elf_arch(b: Seq<u8>) -> Option<BinaryArch> {
    if b.len() < 24 {
        None
    } else {
        let machine: int = if b[5] == 1 {
            b[18] + b[19] * 256
        } else if b[5] == 2 {
            b[18] * 256 + b[19]
        } else {
            -1
        };
        if machine == 62 {
            Some(BinaryArch::X86_64)
        } else if machine == 183 {
            Some(BinaryArch::Aarch64)
        } else {
            None
        }
    }
}

/// The architecture a Mach-O or fat header names: the CPU type after the
/// magic, in the byte order the magic shows.
pub open spec fn macho_arch(b: Seq<u8>) -> Option<BinaryArch> {
    if b.len() < 8 {
        None
    } else {
        let be = be32(b, 0);
        let le = le32(b, 0);
        let cpu: int = if be == 0xFEEDFACE || be == 0xFEEDFACF || be == 0xCAFEBABE {
            be32(b, 4)
        } else if le == 0xFEEDFACE || le == 0xFEEDFACF || le == 0xBEBAFECA {
            le32(b, 4)
        } else {
            -1
        };
        if cpu == 0x0100_0007 || cpu == 7 {
            Some(BinaryArch::X86_64)
        } else if cpu == 0x0100_000C || cpu == 12 {
            Some(BinaryArch::Aarch64)
        } else {
            None
        }
    }
}

/// The architecture of an executable: from its ELF or Mach-O header, none
/// for other files.
pub open spec fn binary_arch(b: Seq<u8>) -> Option<BinaryArch> {
    if spec_is_elf(b) {
        elf_arch(b)
    } else if spec_is_macho_or_fat(b) {
        macho_arch(b)
    } else {
        None
    }
}

/// `b` is an ELF file of at least 24 bytes whose `e_machine` field (bytes
/// 18 and 19), read little-endian when `EI_DATA` (byte 5) is 1 and
/// big-endian when it is 2, equals `machine`.
pub open spec fn elf_machine_is(b: Seq<u8>, machine: int) -> bool {
    &&& b.len() >= 24
    &&& b[0] == 0x7f && b[1] == 0x45 && b[2] == 0x4c && b[3] == 0x46
    &&& ((b[5] == 1 && b[18] + b[19] * 256 == machine) || (b[5] == 2 && b[18] * 256 + b[19]
        == machine))
}

/// `b` starts with a 64-bit Mach-O header, in either byte order, whose CPU
/// type is `0x0100_0000 | cpu` (the 64-bit flag and the CPU family).
pub open spec fn macho64_cpu_is(b: Seq<u8>, cpu: u8) -> bool {
    &&& b.len() >= 8
    &&& ({
        ||| (b[0] == 0xFE && b[1] == 0xED && b[2] == 0xFA && b[3] == 0xCF && b[4] == 0x01 && b[5]
            == 0 && b[6] == 0 && b[7] == cpu)
        ||| (b[0] == 0xCF && b[1] == 0xFA && b[2] == 0xED && b[3] == 0xFE && b[4] == cpu && b[5]
            == 0 && b[6] == 0 && b[7] == 0x01)
    })
}

/// A 64-bit Mach-O file names its architecture by its CPU type:
/// `CPU_TYPE_ARM64` (`0x0100_000C`) is aarch64 and `CPU_TYPE_X86_64`
/// (`0x0100_0007`) is x86_64, in either byte order.
pub proof fn law_macho_cpu_names_arch(b: Seq<u8>)
    ensures
        macho64_cpu_is(b, 12) ==> binary_arch(b) == Some(BinaryArch::Aarch64),
        macho64_cpu_is(b, 7) ==> binary_arch(b) == Some(BinaryArch::X86_64),
{
}

/// An ELF file names its architecture by `e_machine`: `EM_AARCH64` (183) is
/// aarch64 and `EM_X86_64` (62) is x86_64, in either byte order.
pub proof fn law_elf_machine_names_arch(b: Seq<u8>)
    ensures
        elf_machine_is(b, 183) ==> binary_arch(b) == Some(BinaryArch::Aarch64),
        elf_machine_is(b, 62) ==> binary_arch(b) == Some(BinaryArch::X86_64),
{
}

fn detect_elf_arch(bytes: &[u8]) -> (r: Result<Option<BinaryArch>, DeployArtifactError>)
    ensures
        r matches Ok(a) && a == elf_arch(bytes@),
{
    if bytes.len() < 24 {
        return Ok(None);
    }
    let endian = bytes[5];
    let machine: u32 = if endian == 1 {
        bytes[18] as u32 + (bytes[19] as u32) * 256
    } else if endian == 2 {
        (bytes[18] as u32) * 256 + bytes[19] as u32
    } else {
        return Ok(None);
    };
    if machine == 62 {
        Ok(Some(BinaryArch::X86_64))
    } else if machine == 183 {
        Ok(Some(BinaryArch::Aarch64))
    } else {
        Ok(None)
    }
}

fn detect_macho_arch(bytes: &[u8]) -> (r: Result<Option<BinaryArch>, DeployArtifactError>)
    ensures
        r matches Ok(a) && a == macho_arch(bytes@),
{
    if bytes.len() < 8 {
        return Ok(None);
    }
    let magic_be = read_be32(bytes, 0);
    let magic_le = read_le32(bytes, 0);
    let cputype = if magic_be == 0xFEEDFACE || magic_be == 0xFEEDFACF || magic_be == 0xCAFEBABE {
        read_be32(bytes, 4)
    } else if magic_le == 0xFEEDFACE || magic_le == 0xFEEDFACF || magic_le == 0xBEBAFECA {
        read_le32(bytes, 4)
    } else {
        return Ok(None);
    };
    if cputype == 0x0100_0007 || cputype == 7 {
        Ok(Some(BinaryArch::X86_64))
    } else if cputype == 0x0100_000C || cputype == 12 {
        Ok(Some(BinaryArch::Aarch64))
    } else {
        Ok(None)
    }
}

/// The architecture an executable was built for, when its header names
/// x86_64 or aarch64. Never fails.
pub fn detect_binary_arch(file_data: &[u8]) -> (r: Result<Option<BinaryArch>, DeployArtifactError>)
    ensures
        r matches Ok(a) && a == binary_arch(file_data@),
        elf_machine_is(file_data@, 183) ==> r == Ok::<Option<BinaryArch>, DeployArtifactError>(
            Some(BinaryArch::Aarch64),
        ),
        elf_machine_is(file_data@, 62) ==> r == Ok::<Option<BinaryArch>, DeployArtifactError>(
            Some(BinaryArch::X86_64),
        ),
        macho64_cpu_is(file_data@, 12) ==> r == Ok::<Option<BinaryArch>, DeployArtifactError>(
            Some(BinaryArch::Aarch64),
        ),
        macho64_cpu_is(file_data@, 7) ==> r == Ok::<Option<BinaryArch>, DeployArtifactError>(
            Some(BinaryArch::X86_64),
        ),
{
    proof {
        law_elf_machine_names_arch(file_data@);
        law_macho_cpu_names_arch(file_data@);
    }
    if is_elf(file_data) {
        return detect_elf_arch(file_data);
    }
    if is_macho_or_fat(file_data) {
        return detect_macho_arch(file_data);
    }
    Ok(None)
}

/// The architecture a name denotes: `x86_64` or `amd64`, `aarch64` or
/// `arm64`, trimmed, in any ASCII case.
pub open spec fn arch_from_name(v: Seq<char>) -> Option<BinaryArch> {
    let t = ascii_lower(trim(v));
    if t == "x86_64"@ || t == "amd64"@ {
        Some(BinaryArch::X86_64)
    } else if t == "aarch64"@ || t == "arm64"@ {
        Some(BinaryArch::Aarch64)
    } else {
        None
    }
}

fn chars_are(t: &[char], w: &str) -> (b: bool)
    ensures
        b == (t@ == w@),
{
    let wv = chars_of(w);
    chars_eq(t, &wv)
}

pub fn binary_arch_from_str(value: &str) -> (r: Option<BinaryArch>)
    ensures
        r == arch_from_name(value@),
{
    let v = chars_of(value);
    let t0 = trim_chars(&v);
    let t = lower_chars(&t0);
    if chars_are(&t, "x86_64") || chars_are(&t, "amd64") {
        Some(BinaryArch::X86_64)
    } else if chars_are(&t, "aarch64") || chars_are(&t, "arm64") {
        Some(BinaryArch::Aarch64)
    } else {
        None
    }
}

/// The canonical name of the architecture a name denotes.
pub fn normalize_binary_arch(value: &str) -> (r: Option<&'static str>)
    ensures
        arch_from_name(value@) == Some(BinaryArch::X86_64) ==> (r matches Some(s) && s@
            == "x86_64"@),
        arch_from_name(value@) == Some(BinaryArch::Aarch64) ==> (r matches Some(s) && s@
            == "aarch64"@),
        arch_from_name(value@) is None ==> r is None,
{
    match binary_arch_from_str(value) {
        Some(a) => Some(a.as_str()),
        None => None,
    }
}

// ---------------------------------------------------------------------------
// Hashing and hex
// ---------------------------------------------------------------------------

/// The SHA-256 digest of `data`.
pub uninterp spec fn sha256(data: Seq<u8>) -> Seq<u8>;

/// Calls `sha2::Sha256::digest`; the digest is the SHA-256 of the input and
/// is 32 bytes long.
#[verifier::external_body]
fn sha256_digest(data: &[u8]) -> (r: Vec<u8>)
    ensures
        r@ == sha256(data@),
        r@.len() == 32,
{
    sha2::Sha256::digest(data).to_vec()
}

/// The lower-case hex digit for `n < 16`.
pub open spec fn hex_digit(n: int) -> char {
    if n < 10 {
        (48 + n) as char
    } else {
        (87 + n) as char
    }
}

/// Lower-case hex of bytes, two digits per byte.
pub open spec fn hex_lower(b: Seq<u8>) -> Seq<char>
    decreases b.len(),
{
    if b.len() == 0 {
        Seq::empty()
    } else {
        hex_lower(b.drop_last()) + seq![hex_digit(b.last() as int / 16), hex_digit(b.last() as int % 16)]
    }
}

fn hex_digit_char(n: u8) -> (c: char)
    requires
        n < 16,
    ensures
        c == hex_digit(n as int),
{
    if n < 10 {
        (48 + n) as char
    } else {
        (87 + n) as char
    }
}

/// Text made of lower-case hex digits only.
pub open spec fn is_lower_hex(t: Seq<char>) -> bool {
    forall|i: int| 0 <= i < t.len() ==> ('0' <= #[trigger] t[i] <= '9' || 'a' <= t[i] <= 'f')
}

proof fn lemma_hex_lower_is_lower_hex(b: Seq<u8>)
    ensures
        is_lower_hex(hex_lower(b)),
{
    lemma_hex_lower_index(b);
    let h = hex_lower(b);
    assert forall|i: int| 0 <= i < h.len() implies ('0' <= #[trigger] h[i] <= '9' || 'a' <= h[i] <= 'f') by {
        let k = i / 2;
        assert(b[k] == b[k]);
        let n = if i % 2 == 0 { b[k] as int / 16 } else { b[k] as int % 16 };
        if i % 2 == 0 {
            assert(i == 2 * k);
        } else {
            assert(i == 2 * k + 1);
        }
        assert(h[i] == hex_digit(n));
        if n < 10 {
            assert((48 + n) as char as int == 48 + n);
        } else {
            assert((87 + n) as char as int == 87 + n);
        }
    }
}

/// Two hex digits per byte.
proof fn lemma_hex_lower_len(b: Seq<u8>)
    ensures
        hex_lower(b).len() == 2 * b.len(),
    decreases b.len(),
{
    if b.len() > 0 {
        lemma_hex_lower_len(b.drop_last());
    }
}

/// Lower-case hex of bytes.
pub fn hex_encode(b: &[u8]) -> (s: String)
    ensures
        s@ == hex_lower(b@),
        s@.len() == 2 * b.len(),
        is_lower_hex(s@),
{
    proof {
        lemma_hex_lower_len(b@);
        lemma_hex_lower_is_lower_hex(b@);
    }
    let mut s = String::new();
    let mut i: usize = 0;
    while i < b.len()
        invariant
            0 <= i <= b.len(),
            s@ == hex_lower(b@.take(i as int)),
        decreases b.len() - i,
    {
        push_char(&mut s, hex_digit_char(b[i] / 16));
        push_char(&mut s, hex_digit_char(b[i] % 16));
        i = i + 1;
        assert(b@.take(i as int).drop_last() == b@.take(i - 1));
        assert(s@ =~= hex_lower(b@.take(i as int)));
    }
    assert(b@.take(b.len() as int) == b@);
    s
}

/// The lower-case hex SHA-256 digest of `data`: 64 hex digits.
pub fn sha256_hex(data: &[u8]) -> (s: String)
    ensures
        s@ == hex_lower(sha256(data@)),
        s@.len() == 64,
        is_lower_hex(s@),
{
    let digest = sha256_digest(data);
    hex_encode(&digest)
}

/// The value of an ASCII hex digit byte, either case.
pub open spec fn hex_val(b: u8) -> Option<int> {
    if 0x30 <= b <= 0x39 {
        Some(b - 0x30)
    } else if 0x61 <= b <= 0x66 {
        Some(b - 0x61 + 10)
    } else if 0x41 <= b <= 0x46 {
        Some(b - 0x41 + 10)
    } else {
        None
    }
}

/// Hex text decoded to bytes: an even number of hex digit bytes, each pair
/// one byte; otherwise the reason it is refused.
pub open spec fn decode_hex_bytes(b: Seq<u8>) -> Result<Seq<u8>, Seq<char>> {
    if b.len() % 2 != 0 {
        Err("hex length must be even"@)
    } else if exists|i: int| 0 <= i < b.len() && #[trigger] hex_val(b[i]) is None {
        Err("invalid hex character"@)
    } else {
        Ok(Seq::new(b.len() / 2, |i: int| (hex_val(b[2 * i])->0 * 16 + hex_val(b[2 * i + 1])->0) as u8))
    }
}

proof fn lemma_hex_lower_index(b: Seq<u8>)
    ensures
        hex_lower(b).len() == 2 * b.len(),
        forall|k: int|
            #![trigger b[k]]
            0 <= k < b.len() ==> hex_lower(b)[2 * k] == hex_digit(b[k] as int / 16) && hex_lower(b)[2
                * k + 1] == hex_digit(b[k] as int % 16),
    decreases b.len(),
{
    if b.len() > 0 {
        let d = b.drop_last();
        lemma_hex_lower_index(d);
        assert forall|k: int| #![trigger b[k]] 0 <= k < b.len() implies hex_lower(b)[2 * k] == hex_digit(
            b[k] as int / 16,
        ) && hex_lower(b)[2 * k + 1] == hex_digit(b[k] as int % 16) by {
            if k < d.len() {
                assert(b[k] == d[k]);
            }
        }
    }
}

/// The byte of a hex digit character, and its value.
proof fn lemma_hex_digit_byte(n: int)
    requires
        0 <= n < 16,
    ensures
        !crate::text::is_ws(hex_digit(n)),
        '\0' <= hex_digit(n) <= '\u{7f}',
        hex_val(hex_digit(n) as u8) == Some(n),
{
    if n < 10 {
        assert((48 + n) as char as int == 48 + n);
    } else {
        assert((87 + n) as char as int == 87 + n);
    }
}

/// The two hex digits of byte `k`: ASCII, not whitespace, and the high
/// and low halves of the byte.
proof fn lemma_hex_pair(b: Seq<u8>, k: int)
    requires
        0 <= k < b.len(),
    ensures
        hex_lower(b).len() == 2 * b.len(),
        !crate::text::is_ws(hex_lower(b)[2 * k]),
        !crate::text::is_ws(hex_lower(b)[2 * k + 1]),
        '\0' <= hex_lower(b)[2 * k] <= '\u{7f}',
        '\0' <= hex_lower(b)[2 * k + 1] <= '\u{7f}',
        hex_val(hex_lower(b)[2 * k] as u8) == Some(b[k] as int / 16),
        hex_val(hex_lower(b)[2 * k + 1] as u8) == Some(b[k] as int % 16),
{
    lemma_hex_lower_index(b);
    assert(b[k] == b[k]);
    lemma_hex_digit_byte(b[k] as int / 16);
    lemma_hex_digit_byte(b[k] as int % 16);
}

/// Every character of lower-case hex is ASCII and not whitespace.
proof fn lemma_hex_char(b: Seq<u8>, i: int)
    requires
        0 <= i < hex_lower(b).len(),
    ensures
        !crate::text::is_ws(hex_lower(b)[i]),
        '\0' <= hex_lower(b)[i] <= '\u{7f}',
        hex_val(hex_lower(b)[i] as u8) is Some,
{
    lemma_hex_lower_index(b);
    let k = i / 2;
    lemma_hex_pair(b, k);
    if i % 2 == 0 {
        assert(i == 2 * k);
    } else {
        assert(i == 2 * k + 1);
    }
}

/// Text with no whitespace at either end is its own trim.
proof fn lemma_trim_unchanged(h: Seq<char>)
    requires
        h.len() > 0 ==> !crate::text::is_ws(h[0]) && !crate::text::is_ws(h.last()),
    ensures
        trim(h) == h,
{
    assert(crate::text::trim_start(h) == h);
    assert(crate::text::trim_end(h) == h);
}

/// Hex written by `hex_encode` is read back by the key and signature
/// parsers: decoding the lower-case hex of any bytes gives back the bytes.
pub proof fn law_hex_round_trip(b: Seq<u8>)
    ensures
        decode_hex_bytes(vstd::utf8::encode_utf8(trim(hex_lower(b)))) == Ok::<Seq<u8>, Seq<char>>(b),
{
    let h = hex_lower(b);
    lemma_hex_lower_index(b);
    if h.len() > 0 {
        lemma_hex_char(b, 0);
        lemma_hex_char(b, h.len() - 1);
    }
    lemma_trim_unchanged(h);
    assert forall|i: int| 0 <= i < h.len() implies '\0' <= #[trigger] h[i] <= '\u{7f}' by {
        lemma_hex_char(b, i);
    }
    assert(vstd::utf8::is_ascii_chars(h));
    vstd::utf8::is_ascii_chars_encode_utf8(h);
    let e = vstd::utf8::encode_utf8(h);
    assert(e.len() == 2 * b.len());
    assert forall|i: int| 0 <= i < e.len() implies #[trigger] hex_val(e[i]) is Some by {
        assert(e[i] == h[i] as u8);
        lemma_hex_char(b, i);
    }
    let out = Seq::new(e.len() / 2, |i: int| (hex_val(e[2 * i])->0 * 16 + hex_val(e[2 * i + 1])->0) as u8);
    assert forall|k: int| 0 <= k < b.len() implies out[k] == b[k] by {
        assert(e[2 * k] == h[2 * k] as u8);
        assert(e[2 * k + 1] == h[2 * k + 1] as u8);
        lemma_hex_pair(b, k);
        assert((b[k] as int / 16) * 16 + b[k] as int % 16 == b[k] as int);
    }
    assert(out =~= b);
}

fn hex_value(value: u8) -> (r: Result<u8, String>)
    ensures
        match r {
            Ok(v) => hex_val(value) == Some(v as int),
            Err(m) => hex_val(value) is None && m@ == "invalid hex character"@,
        },
{
    if 0x30 <= value && value <= 0x39 {
        Ok(value - 0x30)
    } else if 0x61 <= value && value <= 0x66 {
        Ok(value - 0x61 + 10)
    } else if 0x41 <= value && value <= 0x46 {
        Ok(value - 0x41 + 10)
    } else {
        Err(owned("invalid hex character"))
    }
}

/// Decodes trimmed hex text into bytes.
fn decode_hex(value: &str) -> (r: Result<Vec<u8>, String>)
    ensures
        match (r, decode_hex_bytes(vstd::utf8::encode_utf8(trim(value@)))) {
            (Ok(v), Ok(x)) => v@ == x,
            (Err(m), Err(x)) => m@ == x,
            _ => false,
        },
{
    let t = trim_str(value);
    let chars = t.as_str().as_bytes();
    assert(chars@ == vstd::utf8::encode_utf8(trim(value@)));
    if chars.len() % 2 != 0 {
        return Err(owned("hex length must be even"));
    }
    let mut bytes: Vec<u8> = Vec::new();
    let mut index: usize = 0;
    while index < chars.len()
        invariant
            chars@ == vstd::utf8::encode_utf8(trim(value@)),
            chars.len() % 2 == 0,
            0 <= index <= chars.len(),
            index % 2 == 0,
            bytes@.len() == index / 2,
            forall|i: int| 0 <= i < index ==> #[trigger] hex_val(chars@[i]) is Some,
            forall|k: int|
                0 <= k < index / 2 ==> #[trigger] bytes@[k] == (hex_val(chars@[2 * k])->0 * 16
                    + hex_val(chars@[2 * k + 1])->0) as u8,
        decreases chars.len() - index,
    {
        let high = match hex_value(chars[index]) {
            Ok(h) => h,
            Err(m) => {
                assert(hex_val(chars@[index as int]) is None);
                assert(decode_hex_bytes(chars@) == Err::<Seq<u8>, Seq<char>>("invalid hex character"@));
                return Err(m);
            },
        };
        let low = match hex_value(chars[index + 1]) {
            Ok(l) => l,
            Err(m) => {
                assert(hex_val(chars@[index + 1]) is None);
                assert(decode_hex_bytes(chars@) == Err::<Seq<u8>, Seq<char>>("invalid hex character"@));
                return Err(m);
            },
        };
        bytes.push(high * 16 + low);
        index = index + 2;
    }
    assert(bytes@ =~= Seq::new(
        chars@.len() / 2,
        |i: int| (hex_val(chars@[2 * i])->0 * 16 + hex_val(chars@[2 * i + 1])->0) as u8,
    ));
    Ok(bytes)
}


// ---------------------------------------------------------------------------
// Deploy signature markers
// ---------------------------------------------------------------------------

/// The signature marker shipped with a deploy artifact.
#[derive(Debug, Clone, PartialEq, Eq)]
pub struct DeploySignatureMarker {
    pub schema_version: u8,
    pub component: String,
    pub version: String,
    pub arch: String,
    pub content_sha256: String,
    pub signature: String,
}

/// What a signature marker is checked against.
#[derive(Debug, Clone, PartialEq, Eq)]
pub struct SignatureValidationInput<'a> {
    pub payload_version: &'a str,
    pub expected_schema_version: u8,
    pub expected_component: &'a str,
    pub expected_version: &'a str,
    pub expected_arch: &'a str,
    pub expected_content_sha256: &'a str,
    pub verify_key_hex: &'a str,
}

/// The signed payload: the payload version, then one `name=value` line each
/// for component, version, arch and content hash, each line ended by `\n`.
pub open spec fn signature_payload(
    payload_version: Seq<char>,
    component: Seq<char>,
    version: Seq<char>,
    arch: Seq<char>,
    content_hash: Seq<char>,
) -> Seq<char> {
    payload_version + "\ncomponent="@ + component + "\nversion="@ + version + "\narch="@ + arch
        + "\ncontent_sha256="@ + content_hash + "\n"@
}

/// Text without a line break.
pub open spec fn one_line(t: Seq<char>) -> bool {
    forall|i: int| 0 <= i < t.len() ==> #[trigger] t[i] != '\n'
}

/// Splitting at the first line break of `a + "\n" + rest`, when `a` has none.
proof fn lemma_split_first_line(a: Seq<char>, rest: Seq<char>)
    requires
        one_line(a),
    ensures
        split_on(a + seq!['\n'] + rest, '\n') == seq![a] + split_on(rest, '\n'),
{
    let s = a + seq!['\n'] + rest;
    assert forall|j: int| 0 <= j < a.len() implies #[trigger] s[j] != '\n' by {
        assert(s[j] == a[j]);
    }
    crate::text::lemma_first_index_found(s, '\n', a.len() as int);
    assert(s.take(a.len() as int) =~= a);
    assert(s.skip(a.len() as int + 1) =~= rest);
    lemma_split_on_step(s, '\n', a.len() as int);
}

/// `label` followed by `value` is one line when both are.
proof fn lemma_labelled_one_line(label: Seq<char>, value: Seq<char>)
    requires
        one_line(label),
        one_line(value),
    ensures
        one_line(label + value),
{
    assert forall|i: int| 0 <= i < (label + value).len() implies #[trigger] (label + value)[i]
        != '\n' by {
        if i >= label.len() {
            assert((label + value)[i] == value[i - label.len()]);
        } else {
            assert((label + value)[i] == label[i]);
        }
    }
}

/// The signed payload has five lines, in this order: the payload version,
/// then `component=`, `version=`, `arch=` and `content_sha256=` with their
/// values, each ended by a line break, when no field holds a line break.
pub proof fn law_signature_payload_lines(
    payload_version: Seq<char>,
    component: Seq<char>,
    version: Seq<char>,
    arch: Seq<char>,
    content_hash: Seq<char>,
)
    requires
        one_line(payload_version),
        one_line(component),
        one_line(version),
        one_line(arch),
        one_line(content_hash),
    ensures
        split_on(signature_payload(payload_version, component, version, arch, content_hash), '\n')
            == seq![
            payload_version,
            "component="@ + component,
            "version="@ + version,
            "arch="@ + arch,
            "content_sha256="@ + content_hash,
            Seq::<char>::empty(),
        ],
{
    reveal_strlit("component=");
    reveal_strlit("version=");
    reveal_strlit("arch=");
    reveal_strlit("content_sha256=");
    reveal_strlit("\ncomponent=");
    reveal_strlit("\nversion=");
    reveal_strlit("\narch=");
    reveal_strlit("\ncontent_sha256=");
    reveal_strlit("\n");
    let l2 = "component="@ + component;
    let l3 = "version="@ + version;
    let l4 = "arch="@ + arch;
    let l5 = "content_sha256="@ + content_hash;
    let nl = seq!['\n'];
    lemma_labelled_one_line("component="@, component);
    lemma_labelled_one_line("version="@, version);
    lemma_labelled_one_line("arch="@, arch);
    lemma_labelled_one_line("content_sha256="@, content_hash);
    let e = Seq::<char>::empty();
    let r5 = l5 + nl + e;
    let r4 = l4 + nl + r5;
    let r3 = l3 + nl + r4;
    let r2 = l2 + nl + r3;
    let r1 = payload_version + nl + r2;
    assert(signature_payload(payload_version, component, version, arch, content_hash) =~= r1);
    lemma_split_first_line(l5, e);
    lemma_split_first_line(l4, r5);
    lemma_split_first_line(l3, r4);
    lemma_split_first_line(l2, r3);
    lemma_split_first_line(payload_version, r2);
    assert(split_on(e, '\n') == seq![e]);
    assert(split_on(r1, '\n') =~= seq![payload_version, l2, l3, l4, l5, e]);
}

/// Builds the signed payload of a deploy signature.
pub fn deploy_signature_payload(
    payload_version: &str,
    component: &str,
    version: &str,
    arch: &str,
    content_hash: &str,
) -> (r: String)
    ensures
        r@ == signature_payload(payload_version@, component@, version@, arch@, content_hash@),
        r@ == payload_version@ + "\ncomponent="@ + component@ + "\nversion="@ + version@
            + "\narch="@ + arch@ + "\ncontent_sha256="@ + content_hash@ + "\n"@,
{
    let mut r = owned(payload_version);
    push_str(&mut r, "\ncomponent=");
    push_str(&mut r, component);
    push_str(&mut r, "\nversion=");
    push_str(&mut r, version);
    push_str(&mut r, "\narch=");
    push_str(&mut r, arch);
    push_str(&mut r, "\ncontent_sha256=");
    push_str(&mut r, content_hash);
    push_str(&mut r, "\n");
    r
}

/// Whether `key` (32 bytes) is the encoding of an Ed25519 public key.
pub uninterp spec fn ed25519_key_valid(key: Seq<u8>) -> bool;

/// Whether `signature` (64 bytes) is a valid Ed25519 signature of `message`
/// under the public key encoded by `key`.
pub uninterp spec fn ed25519_signature_valid(key: Seq<u8>, message: Seq<u8>, signature: Seq<u8>) -> bool;

#[verifier::external_type_specification]
#[verifier::external_body]
pub struct ExVerifyingKey(ed25519_dalek::VerifyingKey);

/// An Ed25519 public key together with the 32 bytes it was decoded from.
pub struct Ed25519Key {
    key: ed25519_dalek::VerifyingKey,
    bytes: Ghost<Seq<u8>>,
}

impl Ed25519Key {
    /// The encoded key bytes.
    pub closed spec fn key_bytes(&self) -> Seq<u8> {
        self.bytes@
    }
}

/// Calls `ed25519_dalek::VerifyingKey::from_bytes`, which decompresses the
/// key point and fails when the bytes encode no point. The contract claims
/// the outcome depends on the bytes alone and records the bytes.
#[verifier::external_body]
fn ed25519_key_from_bytes(bytes: &[u8]) -> (r: Option<Ed25519Key>)
    requires
        bytes@.len() == 32,
    ensures
        r is Some == ed25519_key_valid(bytes@),
        r matches Some(k) ==> k.key_bytes() == bytes@,
{
    let array: [u8; 32] = bytes.try_into().unwrap();
    match ed25519_dalek::VerifyingKey::from_bytes(&array) {
        Ok(key) => Some(Ed25519Key { key, bytes: Ghost(bytes@) }),
        Err(_) => None,
    }
}

/// Calls `Verifier::verify` of `ed25519_dalek::VerifyingKey` with the
/// signature built by `ed25519_dalek::Signature::from_bytes`; the contract
/// claims the outcome is a function of the key bytes, message and
/// signature bytes.
#[verifier::external_body]
fn ed25519_verify(key: &Ed25519Key, message: &[u8], signature: &[u8]) -> (ok: bool)
    requires
        signature@.len() == 64,
    ensures
        ok == ed25519_signature_valid(key.key_bytes(), message@, signature@),
{
    let array: [u8; 64] = signature.try_into().unwrap();
    let signature = ed25519_dalek::Signature::from_bytes(&array);
    key.key.verify(message, &signature).is_ok()
}

/// The outcome of checking a signature marker: the first mismatching field,
/// a malformed key or signature, or the signature check itself.
pub open spec fn marker_check(m: DeploySignatureMarker, i: SignatureValidationInput) -> Result<
    (),
    Seq<char>,
> {
    if m.schema_version != i.expected_schema_version {
        Err("deploy signature marker schema version is invalid"@)
    } else if m.component@ != i.expected_component@ {
        Err("deploy signature component mismatch: expected "@ + i.expected_component@)
    } else if m.version@ != i.expected_version@ {
        Err("deploy signature version mismatch: expected "@ + i.expected_version@)
    } else if m.arch@ != i.expected_arch@ {
        Err("deploy signature arch mismatch: expected "@ + i.expected_arch@)
    } else if m.content_sha256@ != i.expected_content_sha256@ {
        Err("deploy signature content hash mismatch"@)
    } else {
        match decode_hex_bytes(vstd::utf8::encode_utf8(trim(i.verify_key_hex@))) {
            Err(e) => Err("deploy verify key is invalid: "@ + e),
            Ok(k) => if k.len() != 32 {
                Err("deploy verify key must be 32 bytes"@)
            } else if !ed25519_key_valid(k) {
                Err("deploy verify key is invalid"@)
            } else {
                match decode_hex_bytes(vstd::utf8::encode_utf8(trim(m.signature@))) {
                    Err(e) => Err("deploy signature is invalid: "@ + e),
                    Ok(sig) => if sig.len() != 64 {
                        Err("deploy signature must be 64 bytes"@)
                    } else if ed25519_signature_valid(
                        k,
                        vstd::utf8::encode_utf8(
                            signature_payload(
                                i.payload_version@,
                                i.expected_component@,
                                i.expected_version@,
                                i.expected_arch@,
                                i.expected_content_sha256@,
                            ),
                        ),
                        sig,
                    ) {
                        Ok(())
                    } else {
                        Err("deploy signature verification failed"@)
                    },
                }
            },
        }
    }
}

/// `signature` (64 bytes) is a valid Ed25519 signature, under the 32-byte
/// valid public key `key`, of the UTF-8 encoding of `text`.
pub open spec fn signed_by(key: Seq<u8>, text: Seq<char>, signature: Seq<u8>) -> bool {
    &&& key.len() == 32
    &&& ed25519_key_valid(key)
    &&& signature.len() == 64
    &&& ed25519_signature_valid(key, vstd::utf8::encode_utf8(text), signature)
}

fn invalid_joined<T>(a: &str, b: &str) -> (r: Result<T, DeployArtifactError>)
    ensures
        invalid_with(r, a@ + b@),
{
    let mut m = owned(a);
    push_str(&mut m, b);
    Err(DeployArtifactError::InvalidArtifact(m))
}

fn parse_verify_key(value: &str) -> (r: Result<Ed25519Key, DeployArtifactError>)
    ensures
        match decode_hex_bytes(vstd::utf8::encode_utf8(trim(value@))) {
            Err(e) => invalid_with(r, "deploy verify key is invalid: "@ + e),
            Ok(k) => if k.len() != 32 {
                invalid_with(r, "deploy verify key must be 32 bytes"@)
            } else if !ed25519_key_valid(k) {
                invalid_with(r, "deploy verify key is invalid"@)
            } else {
                r matches Ok(key) && key.key_bytes() == k
            },
        },
{
    let bytes = match decode_hex(value) {
        Ok(b) => b,
        Err(e) => {
            return invalid_joined("deploy verify key is invalid: ", e.as_str());
        },
    };
    if bytes.len() != 32 {
        return invalid("deploy verify key must be 32 bytes");
    }
    match ed25519_key_from_bytes(&bytes) {
        Some(k) => Ok(k),
        None => invalid("deploy verify key is invalid"),
    }
}

fn parse_signature(value: &str) -> (r: Result<Vec<u8>, DeployArtifactError>)
    ensures
        match decode_hex_bytes(vstd::utf8::encode_utf8(trim(value@))) {
            Err(e) => invalid_with(r, "deploy signature is invalid: "@ + e),
            Ok(s) => if s.len() != 64 {
                invalid_with(r, "deploy signature must be 64 bytes"@)
            } else {
                r matches Ok(v) && v@ == s
            },
        },
{
    let bytes = match decode_hex(value) {
        Ok(b) => b,
        Err(e) => {
            return invalid_joined("deploy signature is invalid: ", e.as_str());
        },
    };
    if bytes.len() != 64 {
        return invalid("deploy signature must be 64 bytes");
    }
    Ok(bytes)
}

/// Checks a deploy signature marker against the expected schema version,
/// component, version, architecture and content hash, then verifies its
/// Ed25519 signature over the signed payload with the given key.
pub fn validate_deploy_signature_marker(
    marker: &DeploySignatureMarker,
    input: &SignatureValidationInput<'_>,
) -> (r: Result<(), DeployArtifactError>)
    ensures
        match marker_check(*marker, *input) {
            Ok(()) => r is Ok,
            Err(m) => invalid_with(r, m),
        },
        r is Ok <==> ({
            &&& marker.schema_version == input.expected_schema_version
            &&& marker.component@ == input.expected_component@
            &&& marker.version@ == input.expected_version@
            &&& marker.arch@ == input.expected_arch@
            &&& marker.content_sha256@ == input.expected_content_sha256@
            &&& decode_hex_bytes(vstd::utf8::encode_utf8(trim(input.verify_key_hex@))) is Ok
            &&& decode_hex_bytes(vstd::utf8::encode_utf8(trim(marker.signature@))) is Ok
            &&& signed_by(
                decode_hex_bytes(vstd::utf8::encode_utf8(trim(input.verify_key_hex@)))->Ok_0,
                input.payload_version@ + "\ncomponent="@ + input.expected_component@
                    + "\nversion="@ + input.expected_version@ + "\narch="@
                    + input.expected_arch@ + "\ncontent_sha256="@
                    + input.expected_content_sha256@ + "\n"@,
                decode_hex_bytes(vstd::utf8::encode_utf8(trim(marker.signature@)))->Ok_0,
            )
        }),
{
    if marker.schema_version != input.expected_schema_version {
        return invalid("deploy signature marker schema version is invalid");
    }
    if !str_eq(marker.component.as_str(), input.expected_component) {
        return invalid_joined("deploy signature component mismatch: expected ", input.expected_component);
    }
    if !str_eq(marker.version.as_str(), input.expected_version) {
        return invalid_joined("deploy signature version mismatch: expected ", input.expected_version);
    }
    if !str_eq(marker.arch.as_str(), input.expected_arch) {
        return invalid_joined("deploy signature arch mismatch: expected ", input.expected_arch);
    }
    if !str_eq(marker.content_sha256.as_str(), input.expected_content_sha256) {
        return invalid("deploy signature content hash mismatch");
    }
    let verifying_key = parse_verify_key(input.verify_key_hex)?;
    let signature = parse_signature(marker.signature.as_str())?;
    let payload = deploy_signature_payload(
        input.payload_version,
        input.expected_component,
        input.expected_version,
        input.expected_arch,
        input.expected_content_sha256,
    );
    if ed25519_verify(&verifying_key, payload.as_str().as_bytes(), &signature) {
        Ok(())
    } else {
        invalid("deploy signature verification failed")
    }
}


// ---------------------------------------------------------------------------
// Zip entry names
// ---------------------------------------------------------------------------

/// `s` split at every `c` (an empty text gives one empty piece).
pub open spec fn split_on(s: Seq<char>, c: char) -> Seq<Seq<char>>
    decreases s.len(),
{
    match first_index(s, c) {
        Some(k) => if 0 <= k < s.len() {
            seq![s.take(k)] + split_on(s.skip(k + 1), c)
        } else {
            seq![s]
        },
        None => seq![s],
    }
}

/// The normal components of a relative path given as pieces, or `None` when
/// a piece is `..`; empty and `.` pieces are skipped.
pub open spec fn normal_parts(ps: Seq<Seq<char>>) -> Option<Seq<Seq<char>>>
    decreases ps.len(),
{
    if ps.len() == 0 {
        Some(Seq::empty())
    } else {
        match normal_parts(ps.drop_last()) {
            None => None,
            Some(acc) => {
                let p = ps.last();
                if p == seq!['.', '.'] {
                    None
                } else if p.len() == 0 || p == seq!['.'] {
                    Some(acc)
                } else {
                    Some(acc.push(p))
                }
            },
        }
    }
}

/// The `/`-joined normal components of a path, or `None` when the path has
/// a root, starts with a `.` component, or has a `..` component.
pub open spec fn zip_path(s: Seq<char>) -> Option<Seq<char>> {
    let ps = split_on(s, '/');
    if crate::paths::is_absolute(s) || ps[0] == seq!['.'] {
        None
    } else {
        match normal_parts(ps) {
            Some(parts) => Some(crate::paths::join_names(parts)),
            None => None,
        }
    }
}

proof fn lemma_split_on_step(s: Seq<char>, c: char, k: int)
    requires
        0 <= k < s.len(),
        first_index(s, c) == Some(k),
    ensures
        split_on(s, c) == seq![s.take(k)] + split_on(s.skip(k + 1), c),
{
}


/// `p` has no `..` component between separators or at its ends.
pub open spec fn no_parent_component(p: Seq<char>) -> bool {
    forall|i: int|
        #![trigger p.subrange(i, i + 2)]
        0 <= i && i + 2 <= p.len() && p.subrange(i, i + 2) == seq!['.', '.'] ==> !((i == 0 || p[i
            - 1] == '/') && (i + 2 == p.len() || p[i + 2] == '/'))
}

/// No piece of a split holds the separator.
proof fn lemma_split_on_pieces(s: Seq<char>, c: char)
    ensures
        forall|i: int, j: int|
            0 <= i < split_on(s, c).len() && 0 <= j < split_on(s, c)[i].len() ==> #[trigger] split_on(
                s,
                c,
            )[i][j] != c,
    decreases s.len(),
{
    crate::text::lemma_first_index_props(s, c);
    match first_index(s, c) {
        Some(k) => {
            lemma_split_on_pieces(s.skip(k + 1), c);
            let r = split_on(s.skip(k + 1), c);
            assert(split_on(s, c) == seq![s.take(k)] + r);
            assert forall|i: int, j: int|
                0 <= i < split_on(s, c).len() && 0 <= j < split_on(s, c)[i].len() implies #[trigger] split_on(
                s,
                c,
            )[i][j] != c by {
                if i == 0 {
                    assert(split_on(s, c)[0] == s.take(k));
                    assert(s.take(k)[j] == s[j]);
                } else {
                    assert(split_on(s, c)[i] == r[i - 1]);
                }
            }
        },
        None => {},
    }
}

/// A name made of pieces: not empty, not `..`, without a separator.
pub open spec fn clean_name(n: Seq<char>) -> bool {
    &&& n.len() > 0
    &&& n != seq!['.', '.']
    &&& forall|j: int| 0 <= j < n.len() ==> #[trigger] n[j] != '/'
}

/// The names kept by `normal_parts` are clean.
proof fn lemma_normal_parts_clean(ps: Seq<Seq<char>>)
    requires
        forall|i: int, j: int| 0 <= i < ps.len() && 0 <= j < ps[i].len() ==> #[trigger] ps[i][j] != '/',
    ensures
        normal_parts(ps) matches Some(parts) ==> forall|i: int|
            0 <= i < parts.len() ==> clean_name(#[trigger] parts[i]),
    decreases ps.len(),
{
    if ps.len() > 0 {
        let d = ps.drop_last();
        assert forall|i: int, j: int| 0 <= i < d.len() && 0 <= j < d[i].len() implies #[trigger] d[i][j]
            != '/' by {
            assert(d[i] == ps[i]);
        }
        lemma_normal_parts_clean(d);
        let last = ps.last();
        assert forall|j: int| 0 <= j < last.len() implies #[trigger] last[j] != '/' by {
            assert(last == ps[ps.len() - 1]);
        }
    }
}

/// Joining clean names gives a relative path without a `..` component.
proof fn lemma_join_clean_names(parts: Seq<Seq<char>>)
    requires
        forall|i: int| 0 <= i < parts.len() ==> clean_name(#[trigger] parts[i]),
    ensures
        crate::paths::join_names(parts).len() == 0 <==> parts.len() == 0,
        crate::paths::join_names(parts).len() > 0 ==> crate::paths::join_names(parts)[0] != '/',
        no_parent_component(crate::paths::join_names(parts)),
    decreases parts.len(),
{
    let p = crate::paths::join_names(parts);
    if parts.len() == 1 {
        let q = parts[0];
        assert(clean_name(q));
        assert(p == q);
        assert forall|i: int|
            #![trigger p.subrange(i, i + 2)]
            0 <= i && i + 2 <= p.len() && p.subrange(i, i + 2) == seq!['.', '.'] implies !((i == 0
                || p[i - 1] == '/') && (i + 2 == p.len() || p[i + 2] == '/')) by {
            if (i == 0 || p[i - 1] == '/') && (i + 2 == p.len() || p[i + 2] == '/') {
                assert(i == 0);
                assert(p.len() == 2);
                assert(p =~= p.subrange(0, 2));
            }
        }
    } else if parts.len() > 1 {
        let init = parts.drop_last();
        let q = parts.last();
        assert forall|i: int| 0 <= i < init.len() implies clean_name(#[trigger] init[i]) by {
            assert(init[i] == parts[i]);
        }
        assert(clean_name(parts[parts.len() - 1]));
        lemma_join_clean_names(init);
        let jn = crate::paths::join_names(init);
        let n = jn.len() as int;
        assert(p == jn + seq!['/'] + q);
        assert(p[0] == jn[0]);
        assert forall|i: int|
            #![trigger p.subrange(i, i + 2)]
            0 <= i && i + 2 <= p.len() && p.subrange(i, i + 2) == seq!['.', '.'] implies !((i == 0
                || p[i - 1] == '/') && (i + 2 == p.len() || p[i + 2] == '/')) by {
            assert(p.subrange(i, i + 2)[0] == p[i]);
            assert(p.subrange(i, i + 2)[1] == p[i + 1]);
            if (i == 0 || p[i - 1] == '/') && (i + 2 == p.len() || p[i + 2] == '/') {
                if i + 2 <= n {
                    assert(jn.subrange(i, i + 2) =~= p.subrange(i, i + 2));
                    if i > 0 {
                        assert(jn[i - 1] == p[i - 1]);
                    }
                    if i + 2 < n {
                        assert(jn[i + 2] == p[i + 2]);
                    }
                    assert(false);
                } else if i == n - 1 || i == n {
                    assert(p[n] == '/');
                    assert(false);
                } else {
                    if i > n + 1 {
                        assert(p[i - 1] == q[i - 1 - n - 1]);
                        assert(false);
                    }
                    assert(i == n + 1);
                    if i + 2 < p.len() {
                        assert(p[i + 2] == q[2]);
                        assert(false);
                    }
                    assert(q.len() == 2);
                    assert(q[0] == p[i] && q[1] == p[i + 1]);
                    assert(q =~= seq!['.', '.']);
                    assert(false);
                }
            }
        }
    }
}

/// A zip entry name that is accepted normalizes to a relative path with no
/// `..` component, so it cannot leave the directory it is extracted into.
pub proof fn law_zip_path_stays_inside(s: Seq<char>)
    ensures
        zip_path(s) is Some ==> (zip_path(s)->0.len() == 0 || zip_path(s)->0[0] != '/'),
        zip_path(s) is Some ==> no_parent_component(zip_path(s)->0),
{
    let ps = split_on(s, '/');
    lemma_split_on_pieces(s, '/');
    lemma_normal_parts_clean(ps);
    if normal_parts(ps) is Some {
        lemma_join_clean_names(normal_parts(ps)->0);
    }
}

fn split_chars(v: &[char], c: char) -> (r: Vec<Vec<char>>)
    ensures
        crate::paths::names_view(r@) == split_on(v@, c),
        r@.len() > 0,
{
    let mut r: Vec<Vec<char>> = Vec::new();
    let mut pos: usize = 0;
    assert(v@.skip(0) == v@);
    loop
        invariant
            0 <= pos <= v.len(),
            split_on(v@, c) == crate::paths::names_view(r@) + split_on(v@.skip(pos as int), c),
        decreases v.len() - pos,
    {
        let rest = crate::text::sub_chars(v, pos, v.len());
        let ghost before = r@;
        match crate::text::find_char(&rest, c) {
            Some(k) => {
                proof {
                    lemma_split_on_step(rest@, c, k as int);
                    assert(rest@.skip(k + 1) == v@.skip(pos + k + 1));
                }
                let piece = crate::text::sub_chars(&rest, 0, k);
                assert(piece@ == rest@.take(k as int));
                r.push(piece);
                assert(crate::paths::names_view(r@) =~= crate::paths::names_view(before).push(
                    rest@.take(k as int),
                ));
                assert(crate::paths::names_view(r@) + split_on(v@.skip(pos + k + 1), c)
                    =~= crate::paths::names_view(before) + (seq![rest@.take(k as int)] + split_on(
                    v@.skip(pos + k + 1),
                    c,
                )));
                pos = pos + k + 1;
            },
            None => {
                let ghost rv = rest@;
                assert(split_on(rv, c) == seq![rv]);
                r.push(rest);
                assert(crate::paths::names_view(r@) =~= crate::paths::names_view(before).push(rv));
                return r;
            },
        }
    }
}

/// The zip entry name of a path: its normal components joined with `/`, or
/// `None` when the path has any other kind of component.
pub fn zip_path_name(path: &str) -> (r: Option<String>)
    ensures
        match (r, zip_path(path@)) {
            (Some(n), Some(x)) => n@ == x,
            (None, None) => true,
            _ => false,
        },
{
    let v = chars_of(path);
    let pieces = split_chars(&v, '/');
    if v.len() > 0 && v[0] == '/' {
        return None;
    }
    let first = &pieces[0];
    if first.len() == 1 && first[0] == '.' {
        assert(first@ =~= seq!['.']);
        return None;
    }
    assert(pieces@[0]@ != seq!['.']);
    let mut parts: Vec<Vec<char>> = Vec::new();
    let mut i: usize = 0;
    assert(crate::paths::names_view(pieces@).take(0) =~= Seq::<Seq<char>>::empty());
    assert(crate::paths::names_view(parts@) =~= Seq::<Seq<char>>::empty());
    while i < pieces.len()
        invariant
            0 <= i <= pieces.len(),
            v@ == path@,
            crate::paths::names_view(pieces@) == split_on(path@, '/'),
            !crate::paths::is_absolute(path@),
            split_on(path@, '/')[0] != seq!['.'],
            normal_parts(crate::paths::names_view(pieces@).take(i as int)) == Some(
                crate::paths::names_view(parts@),
            ),
        decreases pieces.len() - i,
    {
        let p = &pieces[i];
        let ghost pv = crate::paths::names_view(pieces@);
        assert(pv.take(i + 1).drop_last() =~= pv.take(i as int));
        assert(pv.take(i + 1).last() == p@);
        if p.len() == 2 && p[0] == '.' && p[1] == '.' {
            assert(p@ =~= seq!['.', '.']);
            proof {
                lemma_normal_parts_none_stays(pv, i as int + 1);
            }
            return None;
        }
        if p.len() == 0 || (p.len() == 1 && p[0] == '.') {
            if p.len() == 1 {
                assert(p@ =~= seq!['.']);
            }
        } else {
            if p.len() == 1 {
                assert(p@ != seq!['.']);
            }
            if p.len() == 2 {
                assert(p@ != seq!['.', '.']);
            }
            let ghost before = parts@;
            parts.push(p.clone());
            assert(parts@.last()@ == p@);
            assert(crate::paths::names_view(parts@) =~= crate::paths::names_view(before).push(p@));
        }
        i = i + 1;
    }
    assert(crate::paths::names_view(pieces@).take(pieces.len() as int) == crate::paths::names_view(pieces@));
    let mut out = String::new();
    push_joined_names(&mut out, &parts);
    Some(out)
}

proof fn lemma_normal_parts_none_stays(ps: Seq<Seq<char>>, i: int)
    requires
        0 < i <= ps.len(),
        normal_parts(ps.take(i)) is None,
    ensures
        normal_parts(ps) is None,
    decreases ps.len() - i,
{
    if i < ps.len() {
        assert(ps.take(i + 1).drop_last() == ps.take(i));
        lemma_normal_parts_none_stays(ps, i + 1);
    } else {
        assert(ps.take(i) == ps);
    }
}

fn push_joined_names(out: &mut String, names: &Vec<Vec<char>>)
    ensures
        final(out)@ == old(out)@ + crate::paths::join_names(crate::paths::names_view(names@)),
{
    let mut i: usize = 0;
    while i < names.len()
        invariant
            0 <= i <= names.len(),
            out@ == old(out)@ + crate::paths::join_names(
                crate::paths::names_view(names@).take(i as int),
            ),
        decreases names.len() - i,
    {
        let ghost prev = crate::paths::names_view(names@).take(i as int);
        if i > 0 {
            push_char(out, '/');
        }
        crate::text::push_chars(out, names[i].as_slice());
        i = i + 1;
        proof {
            let cur = crate::paths::names_view(names@).take(i as int);
            assert(cur.drop_last() =~= prev);
            assert(cur.last() == names[i - 1]@);
            assert(out@ =~= old(out)@ + crate::paths::join_names(cur));
        }
    }
    assert(crate::paths::names_view(names@).take(names.len() as int) =~= crate::paths::names_view(
        names@,
    ));
}


// ---------------------------------------------------------------------------
// Web dist zip validation
// ---------------------------------------------------------------------------

/// Limits and marker name for web dist zip validation.
#[derive(Debug, Clone, PartialEq, Eq)]
pub struct WebZipValidationConfig {
    pub marker_file: String,
    pub max_files: usize,
    pub max_single_uncompressed: u64,
    pub max_total_uncompressed: u64,
}

impl WebZipValidationConfig {
    /// Limits of 5000 files, 5 MiB per file and 50 MiB in all.
    pub fn new(marker_file: &str) -> (c: Self)
        ensures
            c.marker_file@ == marker_file@,
            c.max_files == 5000,
            c.max_single_uncompressed == 5 * 1024 * 1024,
            c.max_total_uncompressed == 50 * 1024 * 1024,
    {
        WebZipValidationConfig {
            marker_file: owned(marker_file),
            max_files: 5000,
            max_single_uncompressed: 5 * 1024 * 1024,
            max_total_uncompressed: 50 * 1024 * 1024,
        }
    }
}

/// What a valid web dist zip yields: the marker file's text and the content
/// hash of the other files.
#[derive(Debug, Clone, PartialEq, Eq)]
pub struct WebZipValidationReport {
    pub marker_content: String,
    pub content_sha256: String,
}

/// What the zip reader shows of one archive entry: whether it can be
/// opened, its enclosed name as text (`None` when the name is unsafe or not
/// Unicode), its uncompressed size, whether it is a regular file, and its
/// decompressed content (`None` when reading fails).
pub struct ZipEntryView {
    pub opened: bool,
    pub name: Option<Seq<char>>,
    pub size: u64,
    pub is_file: bool,
    pub content: Option<Seq<u8>>,
}

/// The entries of the zip archive encoded by `data`, in central directory
/// order, or `None` when the bytes cannot be read as a zip archive.
pub uninterp spec fn zip_listing(data: Seq<u8>) -> Option<Seq<ZipEntryView>>;

/// The entries an opened zip archive holds.
pub uninterp spec fn zip_entries(archive: zip::ZipArchive<std::io::Cursor<Vec<u8>>>) -> Seq<
    ZipEntryView,
>;

#[verifier::external_type_specification]
#[verifier::external_body]
#[verifier::reject_recursive_types(R)]
pub struct ExZipArchive<R>(zip::ZipArchive<R>);

#[verifier::external_type_specification]
#[verifier::external_body]
#[verifier::reject_recursive_types(T)]
pub struct ExCursor<T>(std::io::Cursor<T>);

/// Calls `zip::ZipArchive::new` on an in-memory copy of `data`. The contract
/// claims the archive is readable exactly when `data` has a listing, and
/// then holds that listing.
#[verifier::external_body]
fn zip_open(data: &[u8]) -> (r: Option<zip::ZipArchive<std::io::Cursor<Vec<u8>>>>)
    ensures
        r is Some == zip_listing(data@) is Some,
        r matches Some(a) ==> zip_entries(a) == zip_listing(data@)->0,
{
    zip::ZipArchive::new(std::io::Cursor::new(data.to_vec())).ok()
}

/// Calls `zip::ZipArchive::len`: the number of entries.
#[verifier::external_body]
fn zip_len(archive: &zip::ZipArchive<std::io::Cursor<Vec<u8>>>) -> (n: usize)
    ensures
        n == zip_entries(*archive).len(),
{
    archive.len()
}

/// Calls `zip::ZipArchive::by_index` and, on the entry, `enclosed_name`
/// (as text), `size` and `is_file`. The contract claims these agree with
/// the archive's entry and leave the entries unchanged.
#[verifier::external_body]
fn zip_entry_meta(archive: &mut zip::ZipArchive<std::io::Cursor<Vec<u8>>>, index: usize) -> (r:
    Option<(Option<String>, u64, bool)>)
    requires
        index < zip_entries(*old(archive)).len(),
    ensures
        zip_entries(*final(archive)) == zip_entries(*old(archive)),
        r is Some == zip_entries(*old(archive))[index as int].opened,
        r matches Some(m) ==> crate::text::opt_view(m.0) == zip_entries(
            *old(archive),
        )[index as int].name && m.1 == zip_entries(*old(archive))[index as int].size && m.2
            == zip_entries(*old(archive))[index as int].is_file,
{
    match archive.by_index(index) {
        Ok(file) => Some(
            (
                file.enclosed_name().and_then(|path| path.to_str().map(|text| text.to_string())),
                file.size(),
                file.is_file(),
            ),
        ),
        Err(_) => None,
    }
}

/// The view of optional bytes.
pub open spec fn opt_bytes(o: Option<Vec<u8>>) -> Option<Seq<u8>> {
    match o {
        Some(v) => Some(v@),
        None => None,
    }
}

/// Calls `zip::ZipArchive::by_index` and reads the entry to its end with
/// `Read::read_to_end`. The contract claims the bytes are the entry's
/// content and the entries are unchanged.
#[verifier::external_body]
fn zip_entry_read(archive: &mut zip::ZipArchive<std::io::Cursor<Vec<u8>>>, index: usize) -> (r:
    Option<Vec<u8>>)
    requires
        index < zip_entries(*old(archive)).len(),
        zip_entries(*old(archive))[index as int].opened,
    ensures
        zip_entries(*final(archive)) == zip_entries(*old(archive)),
        opt_bytes(r) == zip_entries(*old(archive))[index as int].content,
{
    let mut file = archive.by_index(index).ok()?;
    let mut content = Vec::new();
    file.read_to_end(&mut content).ok()?;
    Some(content)
}

/// Calls `String::from_utf8`: the text the bytes encode, when they are
/// valid UTF-8.
#[verifier::external_body]
fn string_from_utf8(bytes: Vec<u8>) -> (r: Option<String>)
    ensures
        r is Some == vstd::utf8::valid_utf8(bytes@),
        r matches Some(s) ==> s@ == vstd::utf8::decode_utf8(bytes@),
{
    String::from_utf8(bytes).ok()
}

/// `a` sorts strictly before `b`, character by character (the order of
/// `str::cmp`, since UTF-8 keeps the order of code points).
pub open spec fn name_lt(a: Seq<char>, b: Seq<char>) -> bool
    decreases a.len(),
{
    if a.len() == 0 {
        b.len() > 0
    } else if b.len() == 0 {
        false
    } else if a[0] != b[0] {
        (a[0] as u32) < (b[0] as u32)
    } else {
        name_lt(a.drop_first(), b.drop_first())
    }
}

/// One hashed file: its name, size and content hash.
pub type ContentRecord = (Seq<char>, u64, Seq<char>);

/// `e` inserted into name-sorted `s` after every record whose name does not
/// sort after it.
pub open spec fn insert_by_name(s: Seq<ContentRecord>, e: ContentRecord) -> Seq<ContentRecord>
    decreases s.len(),
{
    if s.len() == 0 {
        seq![e]
    } else if !name_lt(e.0, s.last().0) {
        s.push(e)
    } else {
        insert_by_name(s.drop_last(), e).push(s.last())
    }
}

/// Records sorted by name; records with equal names keep their order.
pub open spec fn sort_by_name(es: Seq<ContentRecord>) -> Seq<ContentRecord>
    decreases es.len(),
{
    if es.len() == 0 {
        Seq::empty()
    } else {
        insert_by_name(sort_by_name(es.drop_last()), es.last())
    }
}

/// The `n` little-endian bytes of `v`.
pub open spec fn le_bytes(v: nat, n: nat) -> Seq<u8>
    decreases n,
{
    if n == 0 {
        Seq::empty()
    } else {
        seq![(v % 256) as u8] + le_bytes(v / 256, (n - 1) as nat)
    }
}

/// The bytes one record adds to the content hash: name, a zero byte, the
/// size as 8 little-endian bytes, the file's hash text, a zero byte.
pub open spec fn record_bytes(e: ContentRecord) -> Seq<u8> {
    vstd::utf8::encode_utf8(e.0) + seq![0u8] + le_bytes(e.1 as nat, 8) + vstd::utf8::encode_utf8(
        e.2,
    ) + seq![0u8]
}

/// The bytes hashed for a list of records, in list order.
pub open spec fn records_bytes(es: Seq<ContentRecord>) -> Seq<u8>
    decreases es.len(),
{
    if es.len() == 0 {
        Seq::empty()
    } else {
        records_bytes(es.drop_last()) + record_bytes(es.last())
    }
}

/// The content hash of a web dist: the hex SHA-256 of its records sorted by name.
pub open spec fn web_content_hash_of(es: Seq<ContentRecord>) -> Seq<char> {
    hex_lower(sha256(records_bytes(sort_by_name(es))))
}

// ---------------------------------------------------------------------------
// The content hash does not depend on the order of the zip entries
// ---------------------------------------------------------------------------

proof fn lemma_name_lt_irreflexive(a: Seq<char>)
    ensures
        !name_lt(a, a),
    decreases a.len(),
{
    if a.len() > 0 {
        lemma_name_lt_irreflexive(a.drop_first());
    }
}

proof fn lemma_name_lt_transitive(a: Seq<char>, b: Seq<char>, c: Seq<char>)
    requires
        name_lt(a, b),
        name_lt(b, c),
    ensures
        name_lt(a, c),
    decreases a.len(),
{
    if a.len() > 0 && b.len() > 0 && c.len() > 0 && a[0] == b[0] && b[0] == c[0] {
        lemma_name_lt_transitive(a.drop_first(), b.drop_first(), c.drop_first());
    }
}

proof fn lemma_name_lt_total(a: Seq<char>, b: Seq<char>)
    requires
        a != b,
    ensures
        name_lt(a, b) || name_lt(b, a),
    decreases a.len(),
{
    if a.len() > 0 && b.len() > 0 && a[0] == b[0] {
        if a.drop_first() == b.drop_first() {
            assert(a =~= seq![a[0]] + a.drop_first());
            assert(b =~= seq![b[0]] + b.drop_first());
        }
        lemma_name_lt_total(a.drop_first(), b.drop_first());
    } else if a.len() > 0 && b.len() > 0 {
        vstd::utf8::char_u32_cast(a[0], a[0] as u32);
        vstd::utf8::char_u32_cast(b[0], b[0] as u32);
    } else if a.len() == 0 && b.len() == 0 {
        assert(a =~= b);
    }
}

proof fn lemma_name_lt_asymmetric(a: Seq<char>, b: Seq<char>)
    requires
        name_lt(a, b),
    ensures
        !name_lt(b, a),
{
    if name_lt(b, a) {
        lemma_name_lt_transitive(a, b, a);
        lemma_name_lt_irreflexive(a);
    }
}

/// Records in strictly increasing order of name.
pub open spec fn sorted_by_name(s: Seq<ContentRecord>) -> bool {
    forall|i: int, j: int| 0 <= i < j < s.len() ==> name_lt(#[trigger] s[i].0, #[trigger] s[j].0)
}

/// No two records share a name.
pub open spec fn distinct_names(s: Seq<ContentRecord>) -> bool {
    forall|i: int, j: int| 0 <= i < j < s.len() ==> #[trigger] s[i].0 != #[trigger] s[j].0
}

proof fn lemma_insert_contents(s: Seq<ContentRecord>, e: ContentRecord)
    ensures
        insert_by_name(s, e).len() == s.len() + 1,
        forall|x: ContentRecord| #[trigger] insert_by_name(s, e).contains(x) <==> (s.contains(x) || x
            == e),
    decreases s.len(),
{
    if s.len() == 0 {
        assert(insert_by_name(s, e) == seq![e]);
        assert(seq![e][0] == e);
    } else if !name_lt(e.0, s.last().0) {
        let r = s.push(e);
        assert forall|x: ContentRecord| r.contains(x) <==> (s.contains(x) || x == e) by {
            if r.contains(x) {
                let k = choose|k: int| 0 <= k < r.len() && r[k] == x;
                if k < s.len() {
                    assert(s[k] == x);
                }
            }
            if s.contains(x) {
                let k = choose|k: int| 0 <= k < s.len() && s[k] == x;
                assert(r[k] == x);
            }
            if x == e {
                assert(r[s.len() as int] == x);
            }
        }
    } else {
        let d = s.drop_last();
        lemma_insert_contents(d, e);
        let r = insert_by_name(d, e).push(s.last());
        assert forall|x: ContentRecord| r.contains(x) <==> (s.contains(x) || x == e) by {
            let ins = insert_by_name(d, e);
            if r.contains(x) {
                let k = choose|k: int| 0 <= k < r.len() && r[k] == x;
                if k < ins.len() {
                    assert(ins[k] == x);
                    assert(ins.contains(x));
                    assert(d.contains(x) || x == e);
                    if d.contains(x) {
                        let m = choose|m: int| 0 <= m < d.len() && d[m] == x;
                        assert(s[m] == x);
                    }
                } else {
                    assert(s[s.len() - 1] == x);
                }
            }
            if s.contains(x) {
                let k = choose|k: int| 0 <= k < s.len() && s[k] == x;
                if k < d.len() {
                    assert(d[k] == x);
                    assert(d.contains(x));
                    assert(ins.contains(x));
                    let m = choose|m: int| 0 <= m < ins.len() && ins[m] == x;
                    assert(r[m] == x);
                } else {
                    assert(r[ins.len() as int] == x);
                }
            }
            if x == e {
                assert(d.contains(x) || x == e);
                assert(insert_by_name(d, e).contains(x));
                let m = choose|m: int| 0 <= m < ins.len() && ins[m] == x;
                assert(r[m] == x);
            }
        }
    }
}

proof fn lemma_insert_sorted(s: Seq<ContentRecord>, e: ContentRecord)
    requires
        sorted_by_name(s),
        forall|k: int| 0 <= k < s.len() ==> s[k].0 != e.0,
    ensures
        sorted_by_name(insert_by_name(s, e)),
    decreases s.len(),
{
    if s.len() == 0 {
        assert(insert_by_name(s, e) == seq![e]);
    } else if !name_lt(e.0, s.last().0) {
        lemma_name_lt_total(e.0, s.last().0);
        let r = s.push(e);
        assert forall|i: int, j: int| 0 <= i < j < r.len() implies name_lt(#[trigger] r[i].0, #[trigger] r[j].0) by {
            if j == s.len() {
                if i < s.len() - 1 {
                    lemma_name_lt_transitive(s[i].0, s.last().0, e.0);
                }
            }
        }
    } else {
        let d = s.drop_last();
        let last = s.last();
        lemma_insert_sorted(d, e);
        lemma_insert_contents(d, e);
        let ins = insert_by_name(d, e);
        let r = ins.push(last);
        assert forall|i: int, j: int| 0 <= i < j < r.len() implies name_lt(#[trigger] r[i].0, #[trigger] r[j].0) by {
            if j == ins.len() {
                let x = ins[i];
                assert(ins.contains(x));
                if x != e {
                    assert(d.contains(x));
                    let m = choose|m: int| 0 <= m < d.len() && d[m] == x;
                    assert(s[m] == x);
                    assert(name_lt(s[m].0, s[s.len() - 1].0));
                }
            }
        }
    }
}

proof fn lemma_sort_by_name(es: Seq<ContentRecord>)
    requires
        distinct_names(es),
    ensures
        sorted_by_name(sort_by_name(es)),
        forall|x: ContentRecord| sort_by_name(es).contains(x) <==> es.contains(x),
    decreases es.len(),
{
    if es.len() > 0 {
        let d = es.drop_last();
        let e = es.last();
        assert(distinct_names(d)) by {
            assert forall|i: int, j: int| 0 <= i < j < d.len() implies #[trigger] d[i].0 != #[trigger] d[j].0 by {
                assert(es[i] == d[i] && es[j] == d[j]);
            }
        }
        lemma_sort_by_name(d);
        let sd = sort_by_name(d);
        assert forall|k: int| 0 <= k < sd.len() implies sd[k].0 != e.0 by {
            assert(sd.contains(sd[k]));
            assert(d.contains(sd[k]));
            let m = choose|m: int| 0 <= m < d.len() && d[m] == sd[k];
            assert(es[m] == d[m]);
            assert(es[m].0 != es[es.len() - 1].0);
        }
        lemma_insert_sorted(sd, e);
        lemma_insert_contents(sd, e);
        assert forall|x: ContentRecord| sort_by_name(es).contains(x) <==> es.contains(x) by {
            if es.contains(x) {
                let k = choose|k: int| 0 <= k < es.len() && es[k] == x;
                if k < d.len() {
                    assert(d[k] == x);
                }
            }
            if d.contains(x) {
                let k = choose|k: int| 0 <= k < d.len() && d[k] == x;
                assert(es[k] == x);
            }
        }
    }
}

proof fn lemma_sorted_unique(s1: Seq<ContentRecord>, s2: Seq<ContentRecord>)
    requires
        sorted_by_name(s1),
        sorted_by_name(s2),
        forall|x: ContentRecord| s1.contains(x) <==> s2.contains(x),
    ensures
        s1 == s2,
    decreases s1.len(),
{
    if s1.len() == 0 {
        if s2.len() > 0 {
            assert(s2.contains(s2[0]));
        }
        assert(s1 =~= s2);
    } else {
        assert(s1.contains(s1[0]));
        assert(s2.len() > 0);
        let a = s1.last();
        let b = s2.last();
        assert(s1.contains(a));
        assert(s2.contains(b));
        let k = choose|k: int| 0 <= k < s2.len() && s2[k] == a;
        let m = choose|m: int| 0 <= m < s1.len() && s1[m] == b;
        if a != b {
            assert(k < s2.len() - 1);
            assert(m < s1.len() - 1);
            assert(name_lt(s2[k].0, s2[s2.len() - 1].0));
            assert(name_lt(s1[m].0, s1[s1.len() - 1].0));
            lemma_name_lt_asymmetric(a.0, b.0);
        }
        let d1 = s1.drop_last();
        let d2 = s2.drop_last();
        assert forall|x: ContentRecord| d1.contains(x) <==> d2.contains(x) by {
            if d1.contains(x) {
                let i = choose|i: int| 0 <= i < d1.len() && d1[i] == x;
                assert(s1[i] == x);
                assert(name_lt(s1[i].0, s1[s1.len() - 1].0));
                lemma_name_lt_irreflexive(a.0);
                assert(s2.contains(x));
                let j = choose|j: int| 0 <= j < s2.len() && s2[j] == x;
                assert(j < s2.len() - 1);
                assert(d2[j] == x);
            }
            if d2.contains(x) {
                let i = choose|i: int| 0 <= i < d2.len() && d2[i] == x;
                assert(s2[i] == x);
                assert(name_lt(s2[i].0, s2[s2.len() - 1].0));
                lemma_name_lt_irreflexive(b.0);
                assert(s1.contains(x));
                let j = choose|j: int| 0 <= j < s1.len() && s1[j] == x;
                assert(j < s1.len() - 1);
                assert(d1[j] == x);
            }
        }
        lemma_sorted_unique(d1, d2);
        assert(s1 =~= d1.push(a));
        assert(s2 =~= d2.push(b));
    }
}

/// The content hash of a web dist does not depend on the order of its zip
/// entries: any reordering of records with distinct names hashes the same.
pub proof fn law_web_content_hash_ignores_order(es1: Seq<ContentRecord>, es2: Seq<ContentRecord>)
    requires
        distinct_names(es1),
        distinct_names(es2),
        es1.to_multiset() == es2.to_multiset(),
    ensures
        web_content_hash_of(es1) == web_content_hash_of(es2),
{
    broadcast use vstd::seq_lib::group_to_multiset_ensures;
    lemma_sort_by_name(es1);
    lemma_sort_by_name(es2);
    assert forall|x: ContentRecord| es1.contains(x) <==> es2.contains(x) by {
        assert(es1.contains(x) <==> es1.to_multiset().count(x) > 0);
        assert(es2.contains(x) <==> es2.to_multiset().count(x) > 0);
    }
    assert forall|x: ContentRecord| sort_by_name(es1).contains(x) <==> sort_by_name(es2).contains(
        x,
    ) by {
        assert(sort_by_name(es1).contains(x) <==> es1.contains(x));
        assert(sort_by_name(es2).contains(x) <==> es2.contains(x));
    }
    lemma_sorted_unique(sort_by_name(es1), sort_by_name(es2));
}

/// The progress of a scan over the entries of a web dist zip.
pub struct WebZipScan {
    pub has_index: bool,
    pub has_asset: bool,
    pub marker: Option<Seq<char>>,
    pub total: u64,
    pub records: Seq<ContentRecord>,
}

/// `a + b`, saturating at `u64::MAX`.
pub open spec fn sat_add(a: u64, b: u64) -> u64 {
    if a + b > u64::MAX {
        u64::MAX
    } else {
        (a + b) as u64
    }
}

/// A web asset: under `dist/assets/` and ending in `.js` or `.css`.
pub open spec fn is_web_asset(name: Seq<char>) -> bool {
    "dist/assets/"@.is_prefix_of(name) && (".js"@.is_suffix_of(name) || ".css"@.is_suffix_of(name))
}

/// The effect of one entry on the scan, or the reason the zip is refused.
pub open spec fn scan_entry(st: WebZipScan, e: ZipEntryView, cfg: WebZipValidationConfig) -> Result<
    WebZipScan,
    Seq<char>,
> {
    if !e.opened {
        Err("web zip read failed"@)
    } else if e.name is None || zip_path(e.name->0) is None {
        Err("web zip contains invalid paths"@)
    } else {
        let name = zip_path(e.name->0)->0;
        let is_marker = name == cfg.marker_file@;
        if is_marker && !(e.content is Some && vstd::utf8::valid_utf8(e.content->0)) {
            Err("web marker cannot be read"@)
        } else if e.size > cfg.max_single_uncompressed {
            Err("web zip file is too large after unzip: "@ + name)
        } else if sat_add(st.total, e.size) > cfg.max_total_uncompressed {
            Err("web zip total uncompressed size is too large"@)
        } else if !is_marker && e.is_file && e.content is None {
            Err("web zip read failed"@)
        } else {
            Ok(
                WebZipScan {
                    has_index: st.has_index || name == "dist/index.html"@,
                    has_asset: st.has_asset || is_web_asset(name),
                    marker: if is_marker {
                        Some(vstd::utf8::decode_utf8(e.content->0))
                    } else {
                        st.marker
                    },
                    total: sat_add(st.total, e.size),
                    records: if !is_marker && e.is_file {
                        st.records.push((name, e.size, hex_lower(sha256(e.content->0))))
                    } else {
                        st.records
                    },
                },
            )
        }
    }
}

/// The scan over a list of entries, in order.
pub open spec fn scan_entries(es: Seq<ZipEntryView>, cfg: WebZipValidationConfig) -> Result<
    WebZipScan,
    Seq<char>,
>
    decreases es.len(),
{
    if es.len() == 0 {
        Ok(
            WebZipScan {
                has_index: false,
                has_asset: false,
                marker: None,
                total: 0,
                records: Seq::empty(),
            },
        )
    } else {
        match scan_entries(es.drop_last(), cfg) {
            Ok(st) => scan_entry(st, es.last(), cfg),
            Err(m) => Err(m),
        }
    }
}

/// The outcome of validating a web dist zip: the marker text and content
/// hash, or the reason the zip is refused.
pub open spec fn web_zip_check(data: Seq<u8>, cfg: WebZipValidationConfig) -> Result<
    (Seq<char>, Seq<char>),
    Seq<char>,
> {
    if !spec_is_zip(data) {
        Err("web artifact must be a zip file"@)
    } else {
        match zip_listing(data) {
            None => Err("web zip cannot be parsed"@),
            Some(es) => if es.len() == 0 || es.len() > cfg.max_files {
                Err("web zip file count is invalid: "@ + crate::text::decimal(es.len()))
            } else {
                match scan_entries(es, cfg) {
                    Err(m) => Err(m),
                    Ok(st) => if !st.has_index {
                        Err("web zip must contain dist/index.html"@)
                    } else if !st.has_asset {
                        Err("web zip must contain dist/assets/*.js or *.css"@)
                    } else {
                        match st.marker {
                            None => Err("web zip must contain "@ + cfg.marker_file@),
                            Some(m) => Ok((m, web_content_hash_of(st.records))),
                        }
                    },
                }
            },
        }
    }
}



/// The uncompressed size of entries, summed with saturation.
pub open spec fn entries_size(es: Seq<ZipEntryView>) -> u64
    decreases es.len(),
{
    if es.len() == 0 {
        0
    } else {
        sat_add(entries_size(es.drop_last()), es.last().size)
    }
}

/// An entry that a successful scan accepts: readable, with an enclosed name
/// made of normal components, and within the single-file limit.
pub open spec fn entry_acceptable(e: ZipEntryView, cfg: WebZipValidationConfig) -> bool {
    &&& e.opened
    &&& e.name is Some
    &&& zip_path(e.name->0) is Some
    &&& e.size <= cfg.max_single_uncompressed
}

/// The content record of an entry: its name, size and content hash.
pub open spec fn entry_record(e: ZipEntryView) -> ContentRecord {
    (zip_path(e.name->0)->0, e.size, hex_lower(sha256(e.content->0)))
}

/// An entry whose content is hashed: a regular file other than the marker.
pub open spec fn is_content_entry(e: ZipEntryView, cfg: WebZipValidationConfig) -> bool {
    zip_path(e.name->0)->0 != cfg.marker_file@ && e.is_file
}

/// The content records of the hashed entries, in archive order.
pub open spec fn content_records(es: Seq<ZipEntryView>, cfg: WebZipValidationConfig) -> Seq<
    ContentRecord,
>
    decreases es.len(),
{
    if es.len() == 0 {
        Seq::empty()
    } else if is_content_entry(es.last(), cfg) {
        content_records(es.drop_last(), cfg).push(entry_record(es.last()))
    } else {
        content_records(es.drop_last(), cfg)
    }
}

/// The entry's name, normalized, is `name`.
pub open spec fn entry_named(e: ZipEntryView, name: Seq<char>) -> bool {
    e.name matches Some(n) && zip_path(n) == Some(name)
}

/// The entry's name, normalized, is a web asset.
pub open spec fn entry_is_web_asset(e: ZipEntryView) -> bool {
    e.name matches Some(n) && zip_path(n) matches Some(p) && is_web_asset(p)
}

/// The entry is the marker file `marker`, readable, and its text is `text`.
pub open spec fn entry_is_marker_with(e: ZipEntryView, marker: Seq<char>, text: Seq<char>) -> bool {
    &&& entry_named(e, marker)
    &&& e.content matches Some(c) && text == vstd::utf8::decode_utf8(c)
}

proof fn lemma_scan_ok_entries(es: Seq<ZipEntryView>, cfg: WebZipValidationConfig)
    requires
        scan_entries(es, cfg) is Ok,
    ensures
        scan_entries(es, cfg)->Ok_0.has_index <==> exists|i: int|
            0 <= i < es.len() && entry_named(#[trigger] es[i], "dist/index.html"@),
        scan_entries(es, cfg)->Ok_0.has_asset <==> exists|i: int|
            0 <= i < es.len() && entry_is_web_asset(#[trigger] es[i]),
        scan_entries(es, cfg)->Ok_0.marker is None <==> !exists|i: int|
            0 <= i < es.len() && entry_named(#[trigger] es[i], cfg.marker_file@),
        scan_entries(es, cfg)->Ok_0.marker is Some ==> exists|i: int|
            0 <= i < es.len() && entry_is_marker_with(
                #[trigger] es[i],
                cfg.marker_file@,
                scan_entries(es, cfg)->Ok_0.marker->0,
            ),
        forall|i: int| 0 <= i < es.len() ==> entry_acceptable(#[trigger] es[i], cfg),
        scan_entries(es, cfg)->Ok_0.total == entries_size(es),
        scan_entries(es, cfg)->Ok_0.records == content_records(es, cfg),
        entries_size(es) <= cfg.max_total_uncompressed,
    decreases es.len(),
{
    if es.len() > 0 {
        let d = es.drop_last();
        lemma_scan_ok_entries(d, cfg);
        assert forall|i: int| 0 <= i < es.len() implies entry_acceptable(#[trigger] es[i], cfg) by {
            if i < d.len() {
                assert(es[i] == d[i]);
            }
        }
        let last = es.len() - 1;
        assert(es[last] == es.last());
        if exists|i: int| 0 <= i < d.len() && entry_named(#[trigger] d[i], "dist/index.html"@) {
            let i = choose|i: int| 0 <= i < d.len() && entry_named(#[trigger] d[i], "dist/index.html"@);
            assert(es[i] == d[i]);
        }
        if exists|i: int| 0 <= i < es.len() && entry_named(#[trigger] es[i], "dist/index.html"@) {
            let i = choose|i: int| 0 <= i < es.len() && entry_named(#[trigger] es[i], "dist/index.html"@);
            if i < d.len() {
                assert(es[i] == d[i]);
            }
        }
        if exists|i: int| 0 <= i < d.len() && entry_is_web_asset(#[trigger] d[i]) {
            let i = choose|i: int| 0 <= i < d.len() && entry_is_web_asset(#[trigger] d[i]);
            assert(es[i] == d[i]);
        }
        if exists|i: int| 0 <= i < es.len() && entry_is_web_asset(#[trigger] es[i]) {
            let i = choose|i: int| 0 <= i < es.len() && entry_is_web_asset(#[trigger] es[i]);
            if i < d.len() {
                assert(es[i] == d[i]);
            }
        }
        let mk = cfg.marker_file@;
        if exists|i: int| 0 <= i < d.len() && entry_named(#[trigger] d[i], mk) {
            let i = choose|i: int| 0 <= i < d.len() && entry_named(#[trigger] d[i], mk);
            assert(es[i] == d[i]);
        }
        if exists|i: int| 0 <= i < es.len() && entry_named(#[trigger] es[i], mk) {
            let i = choose|i: int| 0 <= i < es.len() && entry_named(#[trigger] es[i], mk);
            if i < d.len() {
                assert(es[i] == d[i]);
            }
        }
        let st = scan_entries(es, cfg)->Ok_0;
        let sd = scan_entries(d, cfg)->Ok_0;
        if st.marker is Some {
            if entry_named(es[last], mk) {
                assert(entry_is_marker_with(es[last], mk, st.marker->0));
            } else {
                assert(st.marker == sd.marker);
                let i = choose|i: int| 0 <= i < d.len() && entry_is_marker_with(
                    #[trigger] d[i],
                    mk,
                    sd.marker->0,
                );
                assert(es[i] == d[i]);
                assert(entry_is_marker_with(es[i], mk, st.marker->0));
            }
        }
    }
}

/// A web dist zip is accepted only if it holds `dist/index.html`, a web
/// asset (a `.js` or `.css` file under `dist/assets/`) and the marker file,
/// each named so after normalizing its path, and the marker text reported is
/// that of a marker entry; a zip whose entries are otherwise acceptable but
/// that has no `dist/index.html` is refused for that reason.
pub proof fn law_web_zip_needs_index_and_asset(data: Seq<u8>, cfg: WebZipValidationConfig)
    ensures
        web_zip_check(data, cfg) is Ok ==> zip_listing(data) is Some,
        web_zip_check(data, cfg) is Ok ==> exists|i: int|
            0 <= i < zip_listing(data)->0.len() && entry_named(
                #[trigger] zip_listing(data)->0[i],
                "dist/index.html"@,
            ),
        web_zip_check(data, cfg) is Ok ==> exists|i: int|
            0 <= i < zip_listing(data)->0.len() && entry_is_web_asset(
                #[trigger] zip_listing(data)->0[i],
            ),
        web_zip_check(data, cfg) is Ok ==> exists|i: int|
            0 <= i < zip_listing(data)->0.len() && entry_is_marker_with(
                #[trigger] zip_listing(data)->0[i],
                cfg.marker_file@,
                web_zip_check(data, cfg)->Ok_0.0,
            ),
        ({
            &&& spec_is_zip(data)
            &&& zip_listing(data) is Some
            &&& 0 < zip_listing(data)->0.len() <= cfg.max_files
            &&& scan_entries(zip_listing(data)->0, cfg) is Ok
            &&& !exists|i: int|
                0 <= i < zip_listing(data)->0.len() && entry_named(
                    #[trigger] zip_listing(data)->0[i],
                    "dist/index.html"@,
                )
        }) ==> web_zip_check(data, cfg) == Err::<(Seq<char>, Seq<char>), Seq<char>>(
            "web zip must contain dist/index.html"@,
        ),
{
    if zip_listing(data) is Some && scan_entries(zip_listing(data)->0, cfg) is Ok {
        lemma_scan_ok_entries(zip_listing(data)->0, cfg);
    }
}

/// A web dist zip that validates holds only acceptable entries: each one
/// readable, named by a path that stays inside the archive, within the
/// single-file size limit; there is at least one entry and at most the
/// allowed number, and their total size is within the total limit.
pub proof fn law_accepted_web_zip_is_safe(data: Seq<u8>, cfg: WebZipValidationConfig)
    requires
        web_zip_check(data, cfg) is Ok,
    ensures
        zip_listing(data) is Some,
        0 < zip_listing(data)->0.len() <= cfg.max_files,
        forall|i: int|
            0 <= i < zip_listing(data)->0.len() ==> entry_acceptable(
                #[trigger] zip_listing(data)->0[i],
                cfg,
            ),
        entries_size(zip_listing(data)->0) <= cfg.max_total_uncompressed,
{
    lemma_scan_ok_entries(zip_listing(data)->0, cfg);
}


/// The content hash of a web dist depends only on its hashed files: two
/// archives that validate and hold the same regular files other than the
/// marker (same names, sizes and contents, no name twice), in any order,
/// with any directories and any marker content, have the same content hash.
pub proof fn law_web_content_hash_across_archives(
    d1: Seq<u8>,
    d2: Seq<u8>,
    cfg: WebZipValidationConfig,
)
    requires
        web_zip_check(d1, cfg) is Ok,
        web_zip_check(d2, cfg) is Ok,
        distinct_names(content_records(zip_listing(d1)->0, cfg)),
        distinct_names(content_records(zip_listing(d2)->0, cfg)),
        content_records(zip_listing(d1)->0, cfg).to_multiset() == content_records(
            zip_listing(d2)->0,
            cfg,
        ).to_multiset(),
    ensures
        web_zip_check(d1, cfg)->Ok_0.1 == web_zip_check(d2, cfg)->Ok_0.1,
{
    let l1 = zip_listing(d1)->0;
    let l2 = zip_listing(d2)->0;
    lemma_scan_ok_entries(l1, cfg);
    lemma_scan_ok_entries(l2, cfg);
    law_web_content_hash_ignores_order(content_records(l1, cfg), content_records(l2, cfg));
}

/// The views of owned records.
pub open spec fn records_view(v: Seq<(String, u64, String)>) -> Seq<ContentRecord> {
    v.map_values(|e: (String, u64, String)| (e.0@, e.1, e.2@))
}

fn name_lt_exec(a: &[char], b: &[char]) -> (r: bool)
    ensures
        r == name_lt(a@, b@),
{
    let mut i: usize = 0;
    assert(a@.skip(0) == a@ && b@.skip(0) == b@);
    while i < a.len() && i < b.len() && a[i] == b[i]
        invariant
            0 <= i <= a.len(),
            i <= b.len(),
            name_lt(a@, b@) == name_lt(a@.skip(i as int), b@.skip(i as int)),
        decreases a.len() - i,
    {
        assert(a@.skip(i as int).drop_first() == a@.skip(i + 1));
        assert(b@.skip(i as int).drop_first() == b@.skip(i + 1));
        i = i + 1;
    }
    if i == a.len() {
        i < b.len()
    } else if i == b.len() {
        false
    } else {
        assert(a@.skip(i as int)[0] == a@[i as int]);
        assert(b@.skip(i as int)[0] == b@[i as int]);
        (a[i] as u32) < (b[i] as u32)
    }
}

fn insert_record(v: &mut Vec<(String, u64, String)>, e: (String, u64, String))
    ensures
        records_view(final(v)@) == insert_by_name(records_view(old(v)@), (e.0@, e.1, e.2@)),
{
    let ghost s = records_view(v@);
    let ghost ev = (e.0@, e.1, e.2@);
    let name = chars_of(e.0.as_str());
    let mut j: usize = v.len();
    assert(s.take(s.len() as int) == s);
    assert(s.skip(s.len() as int) =~= Seq::<ContentRecord>::empty());
    loop
        invariant
            v@ == old(v)@,
            s == records_view(v@),
            ev == (e.0@, e.1, e.2@),
            name@ == e.0@,
            0 <= j <= v.len(),
            insert_by_name(s, ev) == insert_by_name(s.take(j as int), ev) + s.skip(j as int),
        ensures
            0 <= j <= v.len(),
            v@ == old(v)@,
            insert_by_name(s, ev) == insert_by_name(s.take(j as int), ev) + s.skip(j as int),
            j == 0 || !name_lt(ev.0, s[j - 1].0),
        decreases j,
    {
        if j == 0 {
            break;
        }
        let other = chars_of(v[j - 1].0.as_str());
        assert(s[j - 1].0 == other@);
        if !name_lt_exec(&name, &other) {
            break;
        }
        proof {
            let t = s.take(j as int);
            assert(t.last() == s[j - 1]);
            assert(t.drop_last() == s.take(j - 1));
            assert(insert_by_name(t, ev) == insert_by_name(s.take(j - 1), ev).push(s[j - 1]));
            assert(insert_by_name(s.take(j - 1), ev).push(s[j - 1]) + s.skip(j as int)
                =~= insert_by_name(s.take(j - 1), ev) + s.skip(j - 1));
        }
        j = j - 1;
    }
    proof {
        let t = s.take(j as int);
        if j > 0 {
            assert(t.last() == s[j - 1]);
            assert(insert_by_name(t, ev) == t.push(ev));
        } else {
            assert(insert_by_name(t, ev) == seq![ev]);
        }
    }
    v.insert(j, e);
    assert(records_view(v@) =~= insert_by_name(s, ev));
}

fn sort_records(es: &Vec<(String, u64, String)>) -> (r: Vec<(String, u64, String)>)
    ensures
        records_view(r@) == sort_by_name(records_view(es@)),
{
    let mut sorted: Vec<(String, u64, String)> = Vec::new();
    let mut i: usize = 0;
    assert(records_view(es@).take(0) =~= Seq::<ContentRecord>::empty());
    assert(records_view(sorted@) =~= Seq::<ContentRecord>::empty());
    while i < es.len()
        invariant
            0 <= i <= es.len(),
            records_view(sorted@) == sort_by_name(records_view(es@).take(i as int)),
        decreases es.len() - i,
    {
        let e = &es[i];
        let copy = (e.0.clone(), e.1, e.2.clone());
        insert_record(&mut sorted, copy);
        proof {
            let t = records_view(es@).take(i + 1);
            assert(t.drop_last() =~= records_view(es@).take(i as int));
            assert(t.last() == (e.0@, e.1, e.2@));
        }
        i = i + 1;
    }
    assert(records_view(es@).take(es.len() as int) == records_view(es@));
    sorted
}

fn push_bytes(out: &mut Vec<u8>, b: &[u8])
    ensures
        final(out)@ == old(out)@ + b@,
{
    let mut i: usize = 0;
    while i < b.len()
        invariant
            0 <= i <= b.len(),
            out@ == old(out)@ + b@.take(i as int),
        decreases b.len() - i,
    {
        out.push(b[i]);
        i = i + 1;
        assert(out@ =~= old(out)@ + b@.take(i as int));
    }
    assert(b@.take(b.len() as int) == b@);
}

fn push_record_bytes(out: &mut Vec<u8>, e: &(String, u64, String))
    ensures
        final(out)@ == old(out)@ + record_bytes((e.0@, e.1, e.2@)),
{
    push_bytes(out, e.0.as_str().as_bytes());
    out.push(0);
    let ghost mid = out@;
    let mut v: u64 = e.1;
    let mut k: usize = 0;
    while k < 8
        invariant
            0 <= k <= 8,
            mid + le_bytes(e.1 as nat, 8) == out@ + le_bytes(v as nat, (8 - k) as nat),
        decreases 8 - k,
    {
        proof {
            assert(le_bytes(v as nat, (8 - k) as nat) == seq![(v % 256) as u8] + le_bytes(
                (v / 256) as nat,
                (8 - k - 1) as nat,
            ));
        }
        let ghost before = out@;
        out.push((v % 256) as u8);
        assert(before + (seq![(v % 256) as u8] + le_bytes((v / 256) as nat, (8 - k - 1) as nat))
            =~= out@ + le_bytes((v / 256) as nat, (8 - k - 1) as nat));
        v = v / 256;
        k = k + 1;
    }
    assert(le_bytes(v as nat, 0) =~= Seq::<u8>::empty());
    push_bytes(out, e.2.as_str().as_bytes());
    out.push(0);
    assert(out@ =~= old(out)@ + record_bytes((e.0@, e.1, e.2@)));
}

/// The content hash of hashed files: the hex SHA-256 over their records
/// sorted by name.
fn web_content_hash(entries: &Vec<(String, u64, String)>) -> (r: String)
    ensures
        r@ == web_content_hash_of(records_view(entries@)),
        r@.len() == 64,
        is_lower_hex(r@),
{
    let sorted = sort_records(entries);
    let mut input: Vec<u8> = Vec::new();
    let mut i: usize = 0;
    assert(records_view(sorted@).take(0) =~= Seq::<ContentRecord>::empty());
    while i < sorted.len()
        invariant
            0 <= i <= sorted.len(),
            input@ == records_bytes(records_view(sorted@).take(i as int)),
        decreases sorted.len() - i,
    {
        push_record_bytes(&mut input, &sorted[i]);
        proof {
            let t = records_view(sorted@).take(i + 1);
            assert(t.drop_last() =~= records_view(sorted@).take(i as int));
        }
        i = i + 1;
    }
    assert(records_view(sorted@).take(sorted.len() as int) == records_view(sorted@));
    sha256_hex(&input)
}

proof fn lemma_scan_err_stays(es: Seq<ZipEntryView>, i: int, cfg: WebZipValidationConfig, m: Seq<char>)
    requires
        0 < i <= es.len(),
        scan_entries(es.take(i), cfg) == Err::<WebZipScan, Seq<char>>(m),
    ensures
        scan_entries(es, cfg) == Err::<WebZipScan, Seq<char>>(m),
    decreases es.len() - i,
{
    if i < es.len() {
        assert(es.take(i + 1).drop_last() == es.take(i));
        lemma_scan_err_stays(es, i + 1, cfg, m);
    } else {
        assert(es.take(i) == es);
    }
}

/// The current scan state as a view.
pub open spec fn scan_view(
    has_index: bool,
    has_asset: bool,
    marker: Option<String>,
    total: u64,
    records: Seq<(String, u64, String)>,
) -> WebZipScan {
    WebZipScan {
        has_index,
        has_asset,
        marker: crate::text::opt_view(marker),
        total,
        records: records_view(records),
    }
}

/// Validates a web dist zip: every entry must have a safe path and stay
/// within the size limits, `dist/index.html`, a `dist/assets/*.js` or
/// `*.css` file and the marker file must be present; yields the marker's
/// text and the content hash of the other files.
pub fn validate_web_dist_zip(file_data: &[u8], config: &WebZipValidationConfig) -> (r: Result<
    WebZipValidationReport,
    DeployArtifactError,
>)
    ensures
        match web_zip_check(file_data@, *config) {
            Ok((m, h)) => r matches Ok(rep) && rep.marker_content@ == m && rep.content_sha256@ == h,
            Err(msg) => invalid_with(r, msg),
        },
        r matches Ok(rep) ==> rep.content_sha256@.len() == 64 && is_lower_hex(rep.content_sha256@),
        r is Ok ==> zip_listing(file_data@) is Some,
        r is Ok ==> exists|i: int|
            0 <= i < zip_listing(file_data@)->0.len() && entry_named(
                #[trigger] zip_listing(file_data@)->0[i],
                "dist/index.html"@,
            ),
{
    proof {
        law_web_zip_needs_index_and_asset(file_data@, *config);
    }
    if !is_zip(file_data) {
        return invalid("web artifact must be a zip file");
    }
    let mut archive = match zip_open(file_data) {
        Some(a) => a,
        None => {
            return invalid("web zip cannot be parsed");
        },
    };
    let ghost listing = zip_listing(file_data@)->0;
    let file_count = zip_len(&archive);
    if file_count == 0 || file_count > config.max_files {
        let mut m = owned("web zip file count is invalid: ");
        push_decimal(&mut m, file_count as u64);
        return Err(DeployArtifactError::InvalidArtifact(m));
    }
    let mut has_index = false;
    let mut has_asset = false;
    let mut marker_content: Option<String> = None;
    let mut total_uncompressed: u64 = 0;
    let mut content_entries: Vec<(String, u64, String)> = Vec::new();
    let index_name = chars_of("dist/index.html");
    let assets_prefix = chars_of("dist/assets/");
    let js_suffix = chars_of(".js");
    let css_suffix = chars_of(".css");
    let mut index: usize = 0;
    assert(listing.take(0) =~= Seq::<ZipEntryView>::empty());
    assert(records_view(content_entries@) =~= Seq::<ContentRecord>::empty());
    while index < file_count
        invariant
            spec_is_zip(file_data@),
            zip_listing(file_data@) == Some(listing),
            zip_entries(archive) == listing,
            file_count == listing.len(),
            0 < file_count <= config.max_files,
            0 <= index <= file_count,
            index_name@ == "dist/index.html"@,
            assets_prefix@ == "dist/assets/"@,
            js_suffix@ == ".js"@,
            css_suffix@ == ".css"@,
            scan_entries(listing.take(index as int), *config) == Ok::<WebZipScan, Seq<char>>(
                scan_view(has_index, has_asset, marker_content, total_uncompressed, content_entries@),
            ),
        decreases file_count - index,
    {
        let ghost st = scan_view(has_index, has_asset, marker_content, total_uncompressed, content_entries@);
        let ghost e = listing[index as int];
        proof {
            let t = listing.take(index + 1);
            assert(t.drop_last() =~= listing.take(index as int));
            assert(t.last() == e);
            assert(scan_entries(t, *config) == scan_entry(st, e, *config));
        }
        let meta = zip_entry_meta(&mut archive, index);
        let (enclosed, size, is_file) = match meta {
            Some(m) => m,
            None => {
                proof {
                    lemma_scan_err_stays(listing, index + 1, *config, "web zip read failed"@);
                }
                return invalid("web zip read failed");
            },
        };
        let path = match enclosed {
            Some(p) => p,
            None => {
                proof {
                    lemma_scan_err_stays(listing, index + 1, *config, "web zip contains invalid paths"@);
                }
                return invalid("web zip contains invalid paths");
            },
        };
        let name = match zip_path_name(path.as_str()) {
            Some(n) => n,
            None => {
                proof {
                    lemma_scan_err_stays(listing, index + 1, *config, "web zip contains invalid paths"@);
                }
                return invalid("web zip contains invalid paths");
            },
        };
        let name_chars = chars_of(name.as_str());
        if chars_eq(&name_chars, &index_name) {
            has_index = true;
        }
        if starts_with(&name_chars, &assets_prefix) && (ends_with(&name_chars, &js_suffix)
            || ends_with(&name_chars, &css_suffix)) {
            has_asset = true;
        }
        let is_marker = str_eq(name.as_str(), config.marker_file.as_str());
        if is_marker {
            let content = match zip_entry_read(&mut archive, index) {
                Some(c) => c,
                None => {
                    proof {
                        lemma_scan_err_stays(listing, index + 1, *config, "web marker cannot be read"@);
                    }
                    return invalid("web marker cannot be read");
                },
            };
            match string_from_utf8(content) {
                Some(text) => {
                    marker_content = Some(text);
                },
                None => {
                    proof {
                        lemma_scan_err_stays(listing, index + 1, *config, "web marker cannot be read"@);
                    }
                    return invalid("web marker cannot be read");
                },
            }
        }
        if size > config.max_single_uncompressed {
            proof {
                lemma_scan_err_stays(
                    listing,
                    index + 1,
                    *config,
                    "web zip file is too large after unzip: "@ + name@,
                );
            }
            return invalid_joined("web zip file is too large after unzip: ", name.as_str());
        }
        total_uncompressed = total_uncompressed.saturating_add(size);
        if total_uncompressed > config.max_total_uncompressed {
            proof {
                lemma_scan_err_stays(
                    listing,
                    index + 1,
                    *config,
                    "web zip total uncompressed size is too large"@,
                );
            }
            return invalid("web zip total uncompressed size is too large");
        }
        if !is_marker && is_file {
            let content = match zip_entry_read(&mut archive, index) {
                Some(c) => c,
                None => {
                    proof {
                        lemma_scan_err_stays(listing, index + 1, *config, "web zip read failed"@);
                    }
                    return invalid("web zip read failed");
                },
            };
            let hash = sha256_hex(&content);
            let ghost before = content_entries@;
            let ghost rec = (name@, size, hash@);
            content_entries.push((name, size, hash));
            assert(records_view(content_entries@) =~= records_view(before).push(rec));
        }
        index = index + 1;
    }
    assert(listing.take(file_count as int) == listing);
    if !has_index {
        return invalid("web zip must contain dist/index.html");
    }
    if !has_asset {
        return invalid("web zip must contain dist/assets/*.js or *.css");
    }
    let marker_content = match marker_content {
        Some(m) => m,
        None => {
            return invalid_joined("web zip must contain ", config.marker_file.as_str());
        },
    };
    let content_sha256 = web_content_hash(&content_entries);
    Ok(WebZipValidationReport { marker_content, content_sha256 })
}


// ---------------------------------------------------------------------------
// Extracting a web dist zip
// ---------------------------------------------------------------------------

/// What extracting one zip entry does on disk.
#[derive(Debug, Clone, PartialEq, Eq)]
pub enum ExtractStep {
    /// Create this directory (and its parents).
    CreateDir(String),
    /// Write the entry's content to this file, creating its parent first.
    WriteFile(String),
}

/// The step for one zip entry extracted under `output_dir`: an entry
/// without an enclosed name is refused; a directory entry is created at
/// its name joined onto the output directory, any other entry is written
/// there.
pub fn zip_extract_step(output_dir: &str, enclosed_name: Option<&str>, is_dir: bool) -> (r: Result<
    ExtractStep,
    DeployArtifactError,
>)
    ensures
        enclosed_name is None ==> invalid_with(r, "web zip contains invalid paths"@),
        enclosed_name matches Some(n) ==> (r matches Ok(step) && (if is_dir {
            step matches ExtractStep::CreateDir(p) && p@ == path_join(output_dir@, n@)
        } else {
            step matches ExtractStep::WriteFile(p) && p@ == path_join(output_dir@, n@)
        })),
{
    match enclosed_name {
        None => invalid("web zip contains invalid paths"),
        Some(n) => {
            let p = join_path(output_dir, n);
            if is_dir {
                Ok(ExtractStep::CreateDir(p))
            } else {
                Ok(ExtractStep::WriteFile(p))
            }
        },
    }
}

} // verus!
