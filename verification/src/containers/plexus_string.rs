//! A UTF-8 string stored byte by byte in an arena.

use vstd::prelude::*;
use vstd::utf8::{valid_utf8, decode_utf8, encode_utf8, encode_utf8_valid_utf8, encode_utf8_decode_utf8};
use vstd::string::StringSliceAdditionalSpecFns;
use crate::arena::allocator::{ArenaError, SharedArena, publication};
use crate::ptr::handle::Handle;
use crate::containers::plexus_vec::{PlexusVec, PlexusVecError};

verus! {

#[derive(Debug, Clone, Copy, PartialEq, Eq, Structural)]
pub enum PlexusStringError {
    Vec(PlexusVecError),
    InvalidUtf8,
}

pub struct PlexusString {
    bytes: PlexusVec<u8>,
}

/// The bytes of the first `k` elements, or the first read that failed.
pub open spec fn read_bytes_upto(v: PlexusVec<u8>, k: int) -> Result<Seq<u8>, ArenaError>
    decreases k,
{
    if k <= 0 {
        Ok(Seq::empty())
    } else {
        match read_bytes_upto(v, k - 1) {
            Err(e) => Err(e),
            Ok(s) => match v.element(k - 1) {
                Ok(b) => Ok(s.push(b)),
                Err(e) => Err(e),
            },
        }
    }
}

#[verifier::external_type_specification]
#[verifier::external_body]
pub struct ExFromUtf8Error(std::string::FromUtf8Error);

/// Calls `String::from_utf8`, which accepts exactly the byte strings that
/// are valid UTF-8 and then holds the characters they encode.
#[verifier::external_body]
fn string_from_utf8(bytes: Vec<u8>) -> (r: Result<String, std::string::FromUtf8Error>)
    ensures
        r is Ok <==> valid_utf8(bytes@),
        r matches Ok(s) ==> s@ == decode_utf8(bytes@),
{
    String::from_utf8(bytes)
}

/// Once a read fails, reading further elements reports that same failure.
pub proof fn lemma_read_error_persists(v: PlexusVec<u8>, k: int, k2: int)
    requires
        0 <= k <= k2,
        read_bytes_upto(v, k) is Err,
    ensures
        read_bytes_upto(v, k2) == read_bytes_upto(v, k),
    decreases k2 - k,
{
    if k2 > k {
        lemma_read_error_persists(v, k, k2 - 1);
    }
}

/// When every element reads back, the bytes read are the values.
pub proof fn lemma_sound_reads_values(v: PlexusVec<u8>, k: int)
    requires
        v.sound(),
        0 <= k <= v.handles().len(),
    ensures
        read_bytes_upto(v, k) == Ok::<Seq<u8>, ArenaError>(v.values().subrange(0, k)),
    decreases k,
{
    if k == 0 {
        assert(v.values().subrange(0, 0) =~= Seq::<u8>::empty());
    } else {
        lemma_sound_reads_values(v, k - 1);
        
        assert(v.element(k - 1) is Ok);
        assert(v.values().subrange(0, k - 1).push(v.values()[k - 1]) =~= v.values().subrange(0, k));
    }
}

/// `a1` is what publishing the bytes `bs` one at a time into `a0` leaves:
/// the first `hs.len()` bytes were published with the handles `hs`, and when
/// `failed` holds an error, publishing the next byte failed with it.
pub open spec fn byte_pushes(
    a0: SharedArena,
    a1: SharedArena,
    bs: Seq<u8>,
    hs: Seq<Handle<u8>>,
    owner_pid: u32,
    now_ns: u64,
    failed: Option<ArenaError>,
) -> bool
    decreases hs.len(), if failed is Some { 1int } else { 0int },
{
    match failed {
        Some(e) => hs.len() < bs.len() && exists|am: SharedArena|
            byte_pushes(a0, am, bs, hs, owner_pid, now_ns, None) && #[trigger] publication(
                am,
                a1,
                bs[hs.len() as int],
                owner_pid,
                now_ns,
                Err(e),
            ),
        None => if hs.len() == 0 {
            a1 == a0
        } else {
            hs.len() <= bs.len() && exists|am: SharedArena|
                byte_pushes(a0, am, bs, hs.drop_last(), owner_pid, now_ns, None) && #[trigger] publication(
                    am,
                    a1,
                    bs[hs.len() - 1],
                    owner_pid,
                    now_ns,
                    Ok(hs.last()),
                )
        },
    }
}

impl PlexusString {
    pub closed spec fn bytes_view(&self) -> PlexusVec<u8> {
        self.bytes
    }

    pub closed spec fn wf(&self) -> bool {
        self.bytes.wf()
    }

    /// What reading the whole string yields.
    pub open spec fn string_outcome(&self) -> Result<Seq<char>, PlexusStringError> {
        match read_bytes_upto(self.bytes_view(), self.bytes_view().handles().len() as int) {
            Err(e) => Err(PlexusStringError::Vec(PlexusVecError::Arena(e))),
            Ok(b) => if valid_utf8(b) {
                Ok(decode_utf8(b))
            } else {
                Err(PlexusStringError::InvalidUtf8)
            },
        }
    }

    pub fn new(arena: SharedArena) -> (r: PlexusString)
        requires
            arena.wf(),
        ensures
            r.wf(),
            r.bytes_view().arena_view() == arena,
            r.bytes_view().handles().len() == 0,
    {
        PlexusString { bytes: PlexusVec::new(arena) }
    }

    pub fn arena(&self) -> (r: &SharedArena)
        ensures
            *r == self.bytes_view().arena_view(),
    {
        self.bytes.arena()
    }

    pub fn into_arena(self) -> (r: SharedArena)
        ensures
            r == self.bytes_view().arena_view(),
    {
        self.bytes.into_arena()
    }

    /// Appends the UTF-8 bytes of `value`, each published on its own.  On an
    /// error the bytes pushed before it stay: the string then ends with a
    /// prefix of `value`.
    pub fn push_str(&mut self, value: &str, owner_pid: u32, now_ns: u64) -> (r: Result<(), PlexusStringError>)
        requires
            old(self).wf(),
        ensures
            final(self).wf(),
            ({
                let n0 = old(self).bytes_view().handles().len();
                let n1 = final(self).bytes_view().handles().len();
                &&& n0 <= n1 <= n0 + value.spec_bytes().len()
                &&& final(self).bytes_view().handles().subrange(0, n0 as int) == old(self).bytes_view().handles()
                &&& (r is Ok <==> n1 == n0 + value.spec_bytes().len())
                &&& (r matches Err(e) ==> (e matches PlexusStringError::Vec(PlexusVecError::Arena(_))))
                &&& byte_pushes(
                    old(self).bytes_view().arena_view(),
                    final(self).bytes_view().arena_view(),
                    value.spec_bytes(),
                    final(self).bytes_view().handles().subrange(n0 as int, n1 as int),
                    owner_pid,
                    now_ns,
                    match r {
                        Err(PlexusStringError::Vec(PlexusVecError::Arena(e))) => Some(e),
                        _ => None,
                    },
                )
                &&& old(self).bytes_view().sound() ==> {
                    &&& final(self).bytes_view().sound()
                    &&& final(self).bytes_view().values() == old(self).bytes_view().values()
                        + value.spec_bytes().subrange(0, n1 - n0)
                }
            }),
    {
        let bytes = value.as_bytes();
        let n = bytes.len();
        let ghost n0 = self.bytes.handles().len();
        let mut i: usize = 0;
        while i < n
            invariant
                n == value.spec_bytes().len(),
                bytes@ == value.spec_bytes(),
                i <= n,
                self.wf(),
                self.bytes.handles().len() == n0 + i,
                self.bytes.handles().subrange(0, n0 as int) == old(self).bytes_view().handles(),
                byte_pushes(
                    old(self).bytes_view().arena_view(),
                    self.bytes.arena_view(),
                    bytes@,
                    self.bytes.handles().subrange(n0 as int, n0 + i),
                    owner_pid,
                    now_ns,
                    None,
                ),
                old(self).bytes_view().sound() ==> {
                    &&& self.bytes.sound()
                    &&& self.bytes.values() == old(self).bytes_view().values() + bytes@.subrange(0, i as int)
                },
            decreases n - i,
        {
            let ghost prev = self.bytes;
            match self.bytes.push(bytes[i], owner_pid, now_ns) {
                Ok(()) => {},
                Err(e) => {
                    proof {
                        let sub = self.bytes.handles().subrange(n0 as int, n0 + i);
                        assert(sub =~= prev.handles().subrange(n0 as int, n0 + i));
                        if let PlexusVecError::Arena(ae) = e {
                            assert(publication(
                                prev.arena_view(),
                                self.bytes.arena_view(),
                                bytes@[i as int],
                                owner_pid,
                                now_ns,
                                Err(ae),
                            ));
                            assert(byte_pushes(
                                old(self).bytes_view().arena_view(),
                                self.bytes.arena_view(),
                                bytes@,
                                sub,
                                owner_pid,
                                now_ns,
                                Some(ae),
                            ));
                        }
                    }
                    return Err(PlexusStringError::Vec(e));
                },
            }
            proof {
                let sub = self.bytes.handles().subrange(n0 as int, n0 + i + 1);
                assert(sub.drop_last() =~= prev.handles().subrange(n0 as int, n0 + i));
                assert(sub.last() == self.bytes.handles().last());
                assert(publication(
                    prev.arena_view(),
                    self.bytes.arena_view(),
                    bytes@[i as int],
                    owner_pid,
                    now_ns,
                    Ok(sub.last()),
                ));
                assert(byte_pushes(
                    old(self).bytes_view().arena_view(),
                    self.bytes.arena_view(),
                    bytes@,
                    sub,
                    owner_pid,
                    now_ns,
                    None,
                ));
                assert(self.bytes.handles().subrange(0, n0 as int) =~= prev.handles().subrange(0, n0 as int));
                if old(self).bytes_view().sound() {
                    assert(bytes@.subrange(0, i as int).push(bytes@[i as int]) =~= bytes@.subrange(0, i + 1));
                    assert(self.bytes.values() =~= old(self).bytes_view().values() + bytes@.subrange(0, i + 1));
                }
            }
            i = i + 1;
        }
        proof {
            assert(bytes@.subrange(0, n as int) =~= bytes@);
        }
        Ok(())
    }

    /// Reads the bytes back and decodes them as UTF-8.
    pub fn as_string(&self) -> (r: Result<String, PlexusStringError>)
        ensures
            match self.string_outcome() {
                Ok(chars) => r matches Ok(s) && s@ == chars,
                Err(e) => r == Err::<String, PlexusStringError>(e),
            },
    {
        let n = self.bytes.len();
        let mut raw: Vec<u8> = Vec::with_capacity(n);
        let mut idx: usize = 0;
        while idx < n
            invariant
                n == self.bytes.handles().len(),
                idx <= n,
                read_bytes_upto(self.bytes, idx as int) == Ok::<Seq<u8>, ArenaError>(raw@),
            decreases n - idx,
        {
            match self.bytes.get(idx) {
                Ok(Some(byte)) => {
                    raw.push(byte);
                },
                Ok(None) => {},
                Err(e) => {
                    proof {
                        lemma_read_error_persists(self.bytes, idx + 1, n as int);
                    }
                    return Err(PlexusStringError::Vec(e));
                },
            }
            idx = idx + 1;
        }
        match string_from_utf8(raw) {
            Ok(s) => Ok(s),
            Err(_) => Err(PlexusStringError::InvalidUtf8),
        }
    }
}

/// A string built on a sound arena reads back as the text pushed into it.
pub proof fn law_string_roundtrip(p: PlexusString, text: &str)
    requires
        p.bytes_view().sound(),
        p.bytes_view().values() == text.spec_bytes(),
    ensures
        p.string_outcome() == Ok::<Seq<char>, PlexusStringError>(text@),
{
    let v = p.bytes_view();
    lemma_sound_reads_values(v, v.handles().len() as int);
    assert(v.values().subrange(0, v.handles().len() as int) =~= v.values());
    encode_utf8_valid_utf8(text@);
    encode_utf8_decode_utf8(text@);
}

} // verus!
