//! Everything about creating a named mapping that can be decided before the
//! operating system is asked: name and size checks, the UTF-16 form of the
//! name, and the security descriptor each profile uses.

use vstd::prelude::*;

verus! {

#[derive(Debug, Clone, Copy, PartialEq, Eq, Structural)]
pub enum MapAccess {
    ReadOnly,
    ReadWrite,
}

#[derive(Debug, Clone, Copy, PartialEq, Eq, Structural)]
pub enum MappingError {
    InvalidSize,
    InvalidName,
    NameTooLong,
    InvalidNamespace,
    InvalidAclProfile,
    OsError(u32),
    NullMapping,
}

#[derive(Debug, Clone, Copy, PartialEq, Eq, Structural)]
pub enum MappingSecurityProfile {
    /// Owner + local system full access.
    ProducerOwnerOnly,
    /// Authenticated users read, owner/system full control.
    ProducerConsumerLocalUsers,
}

#[derive(Debug, Clone, Copy, PartialEq, Eq, Structural)]
pub struct MappingMetadata {
    pub metadata_version: u16,
    pub created_new: bool,
    pub length: usize,
}

/// Names of at least this many UTF-16 units are refused.
pub const MAX_MAPPING_NAME_UNITS: usize = 250;

/// Unicode `White_Space`, the set `char::is_whitespace` tests.
pub open spec fn is_unicode_whitespace(c: char) -> bool {
    let v = c as u32;
    ||| 0x09 <= v <= 0x0D
    ||| v == 0x20
    ||| v == 0x85
    ||| v == 0xA0
    ||| v == 0x1680
    ||| 0x2000 <= v <= 0x200A
    ||| v == 0x2028
    ||| v == 0x2029
    ||| v == 0x202F
    ||| v == 0x205F
    ||| v == 0x3000
}

/// The name has nothing left once whitespace is trimmed.
pub open spec fn blank(s: Seq<char>) -> bool {
    forall|i: int| 0 <= i < s.len() ==> is_unicode_whitespace(#[trigger] s[i])
}

/// The UTF-16 code units of one character.
pub open spec fn utf16_units(c: char) -> Seq<u16> {
    if (c as u32) < 0x10000 {
        seq![c as u16]
    } else {
        seq![
            (0xD800 + ((c as u32 - 0x10000) / 0x400)) as u16,
            (0xDC00 + ((c as u32 - 0x10000) % 0x400)) as u16,
        ]
    }
}

/// The UTF-16 encoding of a character sequence.
pub open spec fn encode_utf16(s: Seq<char>) -> Seq<u16>
    decreases s.len(),
{
    if s.len() == 0 {
        Seq::empty()
    } else {
        encode_utf16(s.drop_last()) + utf16_units(s.last())
    }
}

/// `s` begins with `prefix`.
pub open spec fn has_prefix(s: Seq<char>, prefix: Seq<char>) -> bool {
    prefix.len() <= s.len() && s.subrange(0, prefix.len() as int) == prefix
}

/// Why a request for a mapping named `name` of `len` bytes is refused, if it is.
pub open spec fn mapping_request_error(name: Seq<char>, len: usize) -> Option<MappingError> {
    if len == 0 {
        Some(MappingError::InvalidSize)
    } else if blank(name) {
        Some(MappingError::InvalidName)
    } else if encode_utf16(name).len() >= MAX_MAPPING_NAME_UNITS {
        Some(MappingError::NameTooLong)
    } else if !has_prefix(name, "Local\\"@) && !has_prefix(name, "Global\\"@) {
        Some(MappingError::InvalidNamespace)
    } else {
        None
    }
}

/// Whether `c` is Unicode whitespace.
pub fn is_whitespace(c: char) -> (r: bool)
    ensures
        r == is_unicode_whitespace(c),
{
    let v = c as u32;
    (0x09 <= v && v <= 0x0D) || v == 0x20 || v == 0x85 || v == 0xA0 || v == 0x1680 || (0x2000
        <= v && v <= 0x200A) || v == 0x2028 || v == 0x2029 || v == 0x202F || v == 0x205F || v
        == 0x3000
}

/// Whether `s` is empty once surrounding whitespace is trimmed.
pub fn is_blank(s: &str) -> (r: bool)
    ensures
        r == blank(s@),
{
    let n = s.unicode_len();
    let mut i: usize = 0;
    while i < n
        invariant
            n == s@.len(),
            i <= n,
            forall|j: int| 0 <= j < i ==> is_unicode_whitespace(#[trigger] s@[j]),
        decreases n - i,
    {
        if !is_whitespace(s.get_char(i)) {
            return false;
        }
        i = i + 1;
    }
    true
}

/// Appends the UTF-16 units of `c` to `out`.
fn push_utf16(out: &mut Vec<u16>, c: char)
    ensures
        final(out)@ == old(out)@ + utf16_units(c),
{
    let v = c as u32;
    if v < 0x10000 {
        out.push(v as u16);
        assert(final(out)@ =~= old(out)@ + utf16_units(c));
    } else {
        let w = v - 0x10000;
        out.push((0xD800 + w / 0x400) as u16);
        out.push((0xDC00 + w % 0x400) as u16);
        assert(final(out)@ =~= old(out)@ + utf16_units(c));
    }
}

/// The UTF-16 encoding of `input`, followed by a terminating zero unit.
pub fn to_wide(input: &str) -> (r: Vec<u16>)
    ensures
        r@ == encode_utf16(input@).push(0u16),
{
    let n = input.unicode_len();
    let mut out: Vec<u16> = Vec::new();
    let mut i: usize = 0;
    while i < n
        invariant
            n == input@.len(),
            i <= n,
            out@ == encode_utf16(input@.subrange(0, i as int)),
        decreases n - i,
    {
        let c = input.get_char(i);
        push_utf16(&mut out, c);
        proof {
            let next = input@.subrange(0, i + 1);
            assert(next.drop_last() =~= input@.subrange(0, i as int));
            assert(next.last() == c);
        }
        i = i + 1;
    }
    assert(input@.subrange(0, n as int) =~= input@);
    out.push(0u16);
    out
}

/// Whether `s` begins with `prefix`.
pub fn starts_with(s: &str, prefix: &str) -> (r: bool)
    ensures
        r == has_prefix(s@, prefix@),
{
    let n = s.unicode_len();
    let m = prefix.unicode_len();
    if m > n {
        return false;
    }
    let mut i: usize = 0;
    while i < m
        invariant
            n == s@.len(),
            m == prefix@.len(),
            m <= n,
            i <= m,
            forall|j: int| 0 <= j < i ==> s@[j] == prefix@[j],
        decreases m - i,
    {
        if s.get_char(i) != prefix.get_char(i) {
            assert(s@.subrange(0, m as int)[i as int] != prefix@[i as int]);
            return false;
        }
        i = i + 1;
    }
    assert(s@.subrange(0, m as int) =~= prefix@);
    true
}

/// Checks a request for a mapping named `name` of `len` bytes before any
/// operating-system call is made.
pub fn validate_mapping_request(name: &str, len: usize) -> (r: Result<(), MappingError>)
    ensures
        match mapping_request_error(name@, len) {
            Some(e) => r == Err::<(), MappingError>(e),
            None => r is Ok,
        },
{
    if len == 0 {
        return Err(MappingError::InvalidSize);
    }
    if is_blank(name) {
        return Err(MappingError::InvalidName);
    }
    let wide = to_wide(name);
    if wide.len() - 1 >= MAX_MAPPING_NAME_UNITS {
        return Err(MappingError::NameTooLong);
    }
    if !starts_with(name, "Local\\") && !starts_with(name, "Global\\") {
        return Err(MappingError::InvalidNamespace);
    }
    Ok(())
}

/// The SDDL security descriptor string of a profile: full access (`GA`) for
/// the owner (`OW`) and local system (`SY`), and for the local-users profile
/// read access (`GR`) for authenticated users (`AU`).
pub fn profile_sddl(profile: MappingSecurityProfile) -> (r: &'static str)
    ensures
        r@ == (match profile {
            MappingSecurityProfile::ProducerOwnerOnly => "D:P(A;;GA;;;OW)(A;;GA;;;SY)"@,
            MappingSecurityProfile::ProducerConsumerLocalUsers => "D:P(A;;GA;;;OW)(A;;GA;;;SY)(A;;GR;;;AU)"@,
        }),
{
    match profile {
        MappingSecurityProfile::ProducerOwnerOnly => "D:P(A;;GA;;;OW)(A;;GA;;;SY)",
        MappingSecurityProfile::ProducerConsumerLocalUsers => "D:P(A;;GA;;;OW)(A;;GA;;;SY)(A;;GR;;;AU)",
    }
}

/// What a mapping of `length` bytes reports about itself.
pub fn mapping_metadata(created_new: bool, length: usize) -> (r: MappingMetadata)
    ensures
        r == (MappingMetadata { metadata_version: 1, created_new, length }),
{
    MappingMetadata { metadata_version: 1, created_new, length }
}

} // verus!
