use crate::error::CacheError;
use crate::store::Key;
use crate::wire::{
    be, be_value, get_be, lemma_be_len, lemma_be_of_value, lemma_be_value, lemma_limits,
    lemma_value_bound,
};
use vstd::prelude::*;

verus! {

/// The serialiser's error. Nothing is read from it.
#[verifier::external_type_specification]
#[verifier::external_body]
pub struct ExEncodeError(rmp_serde::encode::Error);

/// An unsigned integer in MessagePack's shortest form: a number below 128 is its own byte; a
/// larger one comes after a marker, in one, two, four or eight bytes, the most significant
/// first.
pub open spec fn uint_wire(v: u64) -> Seq<u8> {
    if v < 0x80 {
        be(v as nat, 1)
    } else if v < 0x100 {
        seq![0xccu8] + be(v as nat, 1)
    } else if v < 0x1_0000 {
        seq![0xcdu8] + be(v as nat, 2)
    } else if v < 0x1_0000_0000 {
        seq![0xceu8] + be(v as nat, 4)
    } else {
        seq![0xcfu8] + be(v as nat, 8)
    }
}

/// The integer at the start of `s` and the number of bytes it takes, where `s` starts with an
/// integer in its shortest form.
pub open spec fn uint_parsed(s: Seq<u8>) -> Option<(u64, int)> {
    if s.len() == 0 {
        None
    } else if s[0] < 0x80 {
        Some((s[0] as u64, 1))
    } else if s[0] == 0xcc {
        if s.len() >= 2 && s[1] >= 0x80 {
            Some((s[1] as u64, 2))
        } else {
            None
        }
    } else if s[0] == 0xcd {
        if s.len() >= 3 && be_value(s.subrange(1, 3)) >= 0x100 {
            Some((be_value(s.subrange(1, 3)) as u64, 3))
        } else {
            None
        }
    } else if s[0] == 0xce {
        if s.len() >= 5 && be_value(s.subrange(1, 5)) >= 0x1_0000 {
            Some((be_value(s.subrange(1, 5)) as u64, 5))
        } else {
            None
        }
    } else if s[0] == 0xcf {
        if s.len() >= 9 && be_value(s.subrange(1, 9)) >= 0x1_0000_0000 {
            Some((be_value(s.subrange(1, 9)) as u64, 9))
        } else {
            None
        }
    } else {
        None
    }
}

/// The bytes of a key: an identifier as an integer, a pair as an array of two integers.
pub open spec fn key_wire(key: Key) -> Seq<u8> {
    match key {
        Key::Id(id) => uint_wire(id),
        Key::Pair(parent, child) => seq![0x92u8] + uint_wire(parent) + uint_wire(child),
    }
}

/// The key that `s` holds, where `s` is the bytes of a key from its first byte to its last.
pub open spec fn key_parsed(s: Seq<u8>) -> Option<Key> {
    if s.len() > 0 && s[0] == 0x92 {
        match uint_parsed(s.subrange(1, s.len() as int)) {
            Some((parent, n)) => match uint_parsed(s.subrange(1 + n, s.len() as int)) {
                Some((child, m)) => if 1 + n + m == s.len() {
                    Some(Key::Pair(parent, child))
                } else {
                    None
                },
                None => None,
            },
            None => None,
        }
    } else {
        match uint_parsed(s) {
            Some((id, n)) => if n == s.len() {
                Some(Key::Id(id))
            } else {
                None
            },
            None => None,
        }
    }
}

/// A number below 256 is one byte.
pub proof fn lemma_one_byte(v: nat)
    requires
        v < 256,
    ensures
        be(v, 1) == seq![v as u8],
{
    reveal_with_fuel(be, 2);
    assert(be(v, 1) =~= seq![v as u8]);
}

/// An integer is read back from its bytes, whatever follows them.
pub proof fn lemma_uint_parsed(v: u64, rest: Seq<u8>)
    ensures
        uint_parsed(uint_wire(v) + rest) == Some((v, uint_wire(v).len() as int)),
        1 <= uint_wire(v).len() <= 9,
        uint_wire(v)[0] != 0x92,
{
    let s = uint_wire(v) + rest;
    lemma_limits();
    if v < 0x80 {
        lemma_one_byte(v as nat);
    } else if v < 0x100 {
        lemma_one_byte(v as nat);
    } else if v < 0x1_0000 {
        lemma_be_len(v as nat, 2);
        lemma_be_value(v as nat, 2);
        assert(s.subrange(1, 3) =~= be(v as nat, 2));
    } else if v < 0x1_0000_0000 {
        lemma_be_len(v as nat, 4);
        lemma_be_value(v as nat, 4);
        assert(s.subrange(1, 5) =~= be(v as nat, 4));
    } else {
        lemma_be_len(v as nat, 8);
        lemma_be_value(v as nat, 8);
        assert(s.subrange(1, 9) =~= be(v as nat, 8));
    }
}

/// What is read as an integer is the bytes of that integer.
pub proof fn lemma_uint_wire(s: Seq<u8>)
    requires
        uint_parsed(s) is Some,
    ensures
        0 < uint_parsed(s).unwrap().1 <= s.len(),
        s.subrange(0, uint_parsed(s).unwrap().1) == uint_wire(uint_parsed(s).unwrap().0),
{
    let (v, n) = uint_parsed(s).unwrap();
    lemma_limits();
    if s[0] < 0x80 {
        lemma_one_byte(v as nat);
        assert(s.subrange(0, 1) =~= uint_wire(v));
    } else if s[0] == 0xcc {
        lemma_one_byte(v as nat);
        assert(s.subrange(0, 2) =~= uint_wire(v));
    } else if s[0] == 0xcd {
        lemma_value_bound(s.subrange(1, 3));
        lemma_be_of_value(s.subrange(1, 3));
        assert(s.subrange(0, 3) =~= seq![0xcdu8] + s.subrange(1, 3));
    } else if s[0] == 0xce {
        lemma_value_bound(s.subrange(1, 5));
        lemma_be_of_value(s.subrange(1, 5));
        assert(s.subrange(0, 5) =~= seq![0xceu8] + s.subrange(1, 5));
    } else {
        lemma_value_bound(s.subrange(1, 9));
        lemma_be_of_value(s.subrange(1, 9));
        assert(s.subrange(0, 9) =~= seq![0xcfu8] + s.subrange(1, 9));
    }
}

/// A key is read back from its bytes.
pub proof fn lemma_key_round_trip(key: Key)
    ensures
        key_parsed(key_wire(key)) == Some(key),
{
    match key {
        Key::Id(id) => {
            lemma_uint_parsed(id, Seq::empty());
            assert(uint_wire(id) + Seq::<u8>::empty() =~= uint_wire(id));
        },
        Key::Pair(parent, child) => {
            let s = key_wire(key);
            lemma_uint_parsed(parent, uint_wire(child));
            lemma_uint_parsed(child, Seq::empty());
            let n = uint_wire(parent).len() as int;
            assert(s.subrange(1, s.len() as int) =~= uint_wire(parent) + uint_wire(child));
            assert(s.subrange(1 + n, s.len() as int) =~= uint_wire(child) + Seq::<u8>::empty());
        },
    }
}

/// Only the bytes of a key are read as that key.
pub proof fn lemma_key_exact(s: Seq<u8>)
    requires
        key_parsed(s) is Some,
    ensures
        s == key_wire(key_parsed(s).unwrap()),
{
    if s.len() > 0 && s[0] == 0x92 {
        let first = s.subrange(1, s.len() as int);
        lemma_uint_wire(first);
        let (parent, n) = uint_parsed(first).unwrap();
        let second = s.subrange(1 + n, s.len() as int);
        lemma_uint_wire(second);
        let (child, m) = uint_parsed(second).unwrap();
        assert(first.subrange(0, n) =~= s.subrange(1, 1 + n));
        assert(second.subrange(0, m) =~= s.subrange(1 + n, 1 + n + m));
        assert(s =~= seq![0x92u8] + s.subrange(1, 1 + n) + s.subrange(1 + n, 1 + n + m));
    } else {
        lemma_uint_wire(s);
        assert(s.subrange(0, s.len() as int) =~= s);
    }
}

/// One derivation for reads and writes: two keys with the same bytes are the same key.
pub proof fn law_key_injective(a: Key, b: Key)
    requires
        key_wire(a) == key_wire(b),
    ensures
        a == b,
{
    lemma_key_round_trip(a);
    lemma_key_round_trip(b);
}

/// `rmp_serde::to_vec` on a `u64`: where it gives bytes, they are the integer in MessagePack's
/// shortest form.
#[verifier::external_body]
fn pack_id(id: u64) -> (r: Result<Vec<u8>, rmp_serde::encode::Error>)
    ensures
        r matches Ok(bytes) ==> bytes@ == uint_wire(id),
{
    rmp_serde::to_vec(&id)
}

/// `rmp_serde::to_vec` on a pair of `u64`: where it gives bytes, they are the marker of an
/// array of two and the two integers, each in MessagePack's shortest form.
#[verifier::external_body]
fn pack_pair(parent: u64, child: u64) -> (r: Result<Vec<u8>, rmp_serde::encode::Error>)
    ensures
        r matches Ok(bytes) ==> bytes@ == seq![0x92u8] + uint_wire(parent) + uint_wire(child),
{
    rmp_serde::to_vec(&(parent, child))
}

/// Reads the integer that starts at `at`, and says where it ends.
fn take_uint(bytes: &[u8], at: usize) -> (r: Option<(u64, usize)>)
    requires
        at <= bytes.len(),
    ensures
        match r {
            Some((v, next)) => at < next <= bytes.len() && uint_parsed(
                bytes@.subrange(at as int, bytes.len() as int),
            ) == Some((v, next - at)),
            None => uint_parsed(bytes@.subrange(at as int, bytes.len() as int)).is_none(),
        },
{
    let ghost s = bytes@.subrange(at as int, bytes.len() as int);
    if at == bytes.len() {
        return None;
    }
    let left: usize = bytes.len() - at;
    let marker = bytes[at];
    assert(s[0] == marker);
    if marker < 0x80 {
        return Some((marker as u64, at + 1));
    }
    let width: usize = if marker == 0xcc {
        1
    } else if marker == 0xcd {
        2
    } else if marker == 0xce {
        4
    } else if marker == 0xcf {
        8
    } else {
        return None;
    };
    if left < 1 + width {
        return None;
    }
    let v = get_be(bytes, at + 1, width);
    proof {
        assert(s.subrange(1, 1 + width) =~= bytes@.subrange(at + 1, at + 1 + width));
        lemma_value_bound(s.subrange(1, 1 + width));
        lemma_limits();
        if width == 1 {
            reveal_with_fuel(be_value, 2);
            assert(s.subrange(1, 2).drop_last() =~= Seq::<u8>::empty());
            assert(be_value(s.subrange(1, 2)) == s[1] as nat);
        }
    }
    let least: u64 = if width == 1 {
        0x80
    } else if width == 2 {
        0x100
    } else if width == 4 {
        0x1_0000
    } else {
        0x1_0000_0000
    };
    if v < least {
        return None;
    }
    Some((v, at + 1 + width))
}

impl Key {
    /// What is returned for each outcome of the serialiser.
    pub fn from_packed(packed: Result<Vec<u8>, rmp_serde::encode::Error>) -> (r: Result<
        Vec<u8>,
        CacheError,
    >)
        ensures
            r == (match packed {
                Ok(bytes) => Ok::<Vec<u8>, CacheError>(bytes),
                Err(_) => Err(CacheError::EncodeError),
            }),
    {
        match packed {
            Ok(bytes) => Ok(bytes),
            Err(_) => Err(CacheError::EncodeError),
        }
    }

    /// The bytes under which the store knows this key, as the serialiser gives them. Where the
    /// serialiser fails the error is `EncodeError`.
    pub fn encode(&self) -> (r: Result<Vec<u8>, CacheError>)
        ensures
            match r {
                Ok(bytes) => bytes@ == key_wire(*self) && key_parsed(bytes@) == Some(*self),
                Err(error) => error == CacheError::EncodeError,
            },
    {
        proof {
            lemma_key_round_trip(*self);
        }
        match *self {
            Key::Id(id) => Key::from_packed(pack_id(id)),
            Key::Pair(parent, child) => Key::from_packed(pack_pair(parent, child)),
        }
    }

    /// The key that `bytes` holds. Bytes that are not a key in its shortest form are corrupt.
    pub fn decode(bytes: &[u8]) -> (r: Result<Key, CacheError>)
        ensures
            r == (match key_parsed(bytes@) {
                Some(key) => Ok::<Key, CacheError>(key),
                None => Err(CacheError::CorruptRecord),
            }),
            r matches Ok(key) ==> bytes@ == key_wire(key),
    {
        proof {
            assert(bytes@.subrange(0, bytes.len() as int) =~= bytes@);
            if key_parsed(bytes@) is Some {
                lemma_key_exact(bytes@);
            }
        }
        if bytes.len() > 0 && bytes[0] == 0x92 {
            match take_uint(bytes, 1) {
                Some((parent, mid)) => match take_uint(bytes, mid) {
                    Some((child, end)) => {
                        if end == bytes.len() {
                            Ok(Key::Pair(parent, child))
                        } else {
                            Err(CacheError::CorruptRecord)
                        }
                    },
                    None => Err(CacheError::CorruptRecord),
                },
                None => Err(CacheError::CorruptRecord),
            }
        } else {
            match take_uint(bytes, 0) {
                Some((id, end)) => {
                    if end == bytes.len() {
                        Ok(Key::Id(id))
                    } else {
                        Err(CacheError::CorruptRecord)
                    }
                },
                None => Err(CacheError::CorruptRecord),
            }
        }
    }
}

/// The keys among `raw`, in order; an entry that is not a key is left out.
pub fn decode_members(raw: &Vec<Vec<u8>>) -> (r: Vec<Key>)
    ensures
        r@ == members_parsed(raw@),
{
    decode_members_counted(raw).0
}

/// The keys among `raw`, in order, and the number of entries that are no key and were left
/// out, for the host to report.
pub fn decode_members_counted(raw: &Vec<Vec<u8>>) -> (r: (Vec<Key>, usize))
    ensures
        r.0@ == members_parsed(raw@),
        r.0@.len() + r.1 == raw@.len(),
        r.1 == corrupt_members(raw@),
{
    let mut out: Vec<Key> = Vec::new();
    let mut dropped: usize = 0;
    let mut i: usize = 0;
    assert(raw@.subrange(0, 0) =~= Seq::<Vec<u8>>::empty());
    while i < raw.len()
        invariant
            i <= raw.len(),
            out@ == members_parsed(raw@.subrange(0, i as int)),
            dropped == corrupt_members(raw@.subrange(0, i as int)),
            out@.len() + dropped == i,
        decreases raw.len() - i,
    {
        proof {
            let upto = raw@.subrange(0, i + 1);
            assert(upto.drop_last() =~= raw@.subrange(0, i as int));
            assert(upto.last() == raw@[i as int]);
        }
        match Key::decode(raw[i].as_slice()) {
            Ok(key) => {
                out.push(key);
            },
            Err(_) => {
                dropped = dropped + 1;
            },
        }
        i = i + 1;
    }
    assert(raw@.subrange(0, i as int) =~= raw@);
    (out, dropped)
}

/// How many entries of a set, as the store gave them, are no key.
pub open spec fn corrupt_members(raw: Seq<Vec<u8>>) -> nat
    decreases raw.len(),
{
    if raw.len() == 0 {
        0
    } else if key_parsed(raw.last()@) is None {
        corrupt_members(raw.drop_last()) + 1
    } else {
        corrupt_members(raw.drop_last())
    }
}

/// The keys among the entries of a set as the store gave them: each entry that is a key, in
/// order.
pub open spec fn members_parsed(raw: Seq<Vec<u8>>) -> Seq<Key>
    decreases raw.len(),
{
    if raw.len() == 0 {
        Seq::empty()
    } else {
        match key_parsed(raw.last()@) {
            Some(key) => members_parsed(raw.drop_last()).push(key),
            None => members_parsed(raw.drop_last()),
        }
    }
}

} // verus!
