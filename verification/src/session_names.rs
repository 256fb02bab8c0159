//! Memorable adjective-adjective-noun names for sessions, derived
//! deterministically from the session id.
//!
//! The same session id always yields the same name. Three word indices are
//! drawn from a hash chain: the first from the hash of the id's bytes
//! (with the terminating marker byte the standard library's string hashing
//! appends), the second and third by rehashing that value with a fixed tag
//! apiece, as little-endian bytes.

use vstd::prelude::*;
use vstd::string::StringExecFns;
use crate::siphash::{siphash13, spec_siphash13};

verus! {

/// The adjective list the names are drawn from; what the word-list crate's
/// adjective table holds. The argument is unused: the list is one fixed
/// table.
pub uninterp spec fn adjective_list(sel: int) -> Seq<Seq<char>>;

/// The noun list the names are drawn from; what the word-list crate's noun
/// table holds. The argument is unused: the list is one fixed table.
pub uninterp spec fn noun_list(sel: int) -> Seq<Seq<char>>;

/// Relies on names::ADJECTIVES: a fixed, non-empty table of adjective
/// words.
#[verifier::external_body]
fn adjective_words() -> (r: Vec<String>)
    ensures
        r@.len() == adjective_list(0).len(),
        r@.len() > 0,
        forall|i: int| 0 <= i < r@.len() ==> (#[trigger] r@[i])@ == adjective_list(0)[i],
{
    names::ADJECTIVES.iter().map(|w| w.to_string()).collect()
}

/// Relies on names::NOUNS: a fixed, non-empty table of noun words.
#[verifier::external_body]
fn noun_words() -> (r: Vec<String>)
    ensures
        r@.len() == noun_list(0).len(),
        r@.len() > 0,
        forall|i: int| 0 <= i < r@.len() ==> (#[trigger] r@[i])@ == noun_list(0)[i],
{
    names::NOUNS.iter().map(|w| w.to_string()).collect()
}

/// The word of `list` selected by hash `h`, by reduction modulo the list
/// length.
pub open spec fn spec_pick(list: Seq<Seq<char>>, h: u64) -> Seq<char> {
    if list.len() == 0 {
        Seq::empty()
    } else {
        list[(h as int) % (list.len() as int)]
    }
}

/// The hash of the session id's UTF-8 bytes followed by the marker byte
/// 0xff.
pub open spec fn spec_id_hash(sid: Seq<char>) -> u64 {
    spec_siphash13(vstd::utf8::encode_utf8(sid) + seq![0xffu8])
}

pub open spec fn spec_le_bytes(x: u64) -> Seq<u8> {
    seq![
        (x & 0xff) as u8,
        ((x >> 8) & 0xff) as u8,
        ((x >> 16) & 0xff) as u8,
        ((x >> 24) & 0xff) as u8,
        ((x >> 32) & 0xff) as u8,
        ((x >> 40) & 0xff) as u8,
        ((x >> 48) & 0xff) as u8,
        ((x >> 56) & 0xff) as u8,
    ]
}

/// Rehash of a hash value with a four-byte tag.
pub open spec fn spec_tagged_hash(h: u64, tag: Seq<u8>) -> u64 {
    spec_siphash13(spec_le_bytes(h) + tag)
}

pub open spec fn adj2_tag() -> Seq<u8> {
    seq![0x61u8, 0x64u8, 0x6au8, 0x32u8]
}

pub open spec fn noun_tag() -> Seq<u8> {
    seq![0x6eu8, 0x6fu8, 0x75u8, 0x6eu8]
}

/// The name generated for a session id: two adjectives and a noun, joined
/// by dashes, selected by the hash chain.
pub open spec fn spec_generate(sid: Seq<char>) -> Seq<char> {
    let h1 = spec_id_hash(sid);
    let h2 = spec_tagged_hash(h1, adj2_tag());
    let h3 = spec_tagged_hash(h1, noun_tag());
    spec_pick(adjective_list(0), h1) + seq!['-'] + spec_pick(adjective_list(0), h2) + seq!['-']
        + spec_pick(noun_list(0), h3)
}

/// Deterministic generator of memorable session names.
pub struct SessionNameGenerator {
    adjectives: Vec<String>,
    nouns: Vec<String>,
}

impl SessionNameGenerator {
    /// The generator holds the fixed word tables.
    pub closed spec fn wf(&self) -> bool {
        &&& self.adjectives@.len() == adjective_list(0).len()
        &&& self.adjectives@.len() > 0
        &&& forall|i: int|
            0 <= i < self.adjectives@.len() ==> (#[trigger] self.adjectives@[i])@
                == adjective_list(0)[i]
        &&& self.nouns@.len() == noun_list(0).len()
        &&& self.nouns@.len() > 0
        &&& forall|i: int|
            0 <= i < self.nouns@.len() ==> (#[trigger] self.nouns@[i])@ == noun_list(0)[i]
    }

    pub fn new() -> (r: SessionNameGenerator)
        ensures
            r.wf(),
    {
        SessionNameGenerator { adjectives: adjective_words(), nouns: noun_words() }
    }

    /// The memorable name of a session: the same id always maps to the
    /// same name. The project type plays no part in the name.
    pub fn generate(&self, session_id: &str, _project_type: &str) -> (r: String)
        ensures
            self.wf() ==> r@ == spec_generate(session_id@),
    {
        if self.adjectives.len() == 0 || self.nouns.len() == 0 {
            return String::new();
        }
        let mut buf = session_id.as_bytes_vec();
        buf.push(0xff);
        proof {
            assert(buf@ =~= vstd::utf8::encode_utf8(session_id@) + seq![0xffu8]);
        }
        let h1 = siphash13(&buf);
        let h2 = tagged_hash(h1, 0x61, 0x64, 0x6a, 0x32);
        proof {
            assert(spec_le_bytes(h1) + adj2_tag() =~= spec_le_bytes(h1) + adj2_tag());
        }
        let h3 = tagged_hash(h1, 0x6e, 0x6f, 0x75, 0x6e);
        let na = self.adjectives.len() as u64;
        let nn = self.nouns.len() as u64;
        let i1 = (h1 % na) as usize;
        let i2 = (h2 % na) as usize;
        let i3 = (h3 % nn) as usize;
        let mut out = String::new();
        out.append(self.adjectives[i1].as_str());
        out.append("-");
        out.append(self.adjectives[i2].as_str());
        out.append("-");
        out.append(self.nouns[i3].as_str());
        proof {
            reveal_strlit("-");
            assert("-"@ =~= seq!['-']);
            if self.wf() {
                assert(out@ =~= spec_generate(session_id@));
            }
        }
        out
    }
}

fn tagged_hash(h: u64, t0: u8, t1: u8, t2: u8, t3: u8) -> (r: u64)
    ensures
        r == spec_tagged_hash(h, seq![t0, t1, t2, t3]),
{
    let mut buf: Vec<u8> = Vec::new();
    buf.push((h & 0xff) as u8);
    buf.push(((h >> 8) & 0xff) as u8);
    buf.push(((h >> 16) & 0xff) as u8);
    buf.push(((h >> 24) & 0xff) as u8);
    buf.push(((h >> 32) & 0xff) as u8);
    buf.push(((h >> 40) & 0xff) as u8);
    buf.push(((h >> 48) & 0xff) as u8);
    buf.push(((h >> 56) & 0xff) as u8);
    buf.push(t0);
    buf.push(t1);
    buf.push(t2);
    buf.push(t3);
    proof {
        assert(buf@ =~= spec_le_bytes(h) + seq![t0, t1, t2, t3]);
    }
    siphash13(&buf)
}

} // verus!
