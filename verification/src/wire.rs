//! Byte-level primitives shared by the record formats: the canonical
//! length prefix, bounded little-endian reads, and byte-string helpers.

use vstd::prelude::*;

verus! {

use vstd::bytes::*;
use vstd::slice::*;

/// The length prefix: one byte for values below 251, otherwise a one-byte
/// width marker (251, 252 or 253) followed by the value in little-endian
/// form of that width. Reading accepts only the shortest form, so every
/// value has exactly one encoding.
pub open spec fn spec_varint(n: u64) -> Seq<u8> {
    if n < 251 {
        seq![n as u8]
    } else if n <= 0xFFFF {
        seq![251u8] + spec_u16_to_le_bytes(n as u16)
    } else if n <= 0xFFFF_FFFF {
        seq![252u8] + spec_u32_to_le_bytes(n as u32)
    } else {
        seq![253u8] + spec_u64_to_le_bytes(n)
    }
}

pub proof fn lemma_varint_len(n: u64)
    ensures
        1 <= spec_varint(n).len() <= 9,
        n < 251 ==> spec_varint(n).len() == 1,
        251 <= n <= 0xFFFF ==> spec_varint(n).len() == 3,
        0xFFFF < n <= 0xFFFF_FFFF ==> spec_varint(n).len() == 5,
        0xFFFF_FFFF < n ==> spec_varint(n).len() == 9,
{
    lemma_auto_spec_u16_to_from_le_bytes();
    lemma_auto_spec_u32_to_from_le_bytes();
    lemma_auto_spec_u64_to_from_le_bytes();
}

/// A prefix agrees with the whole sequence at every index it covers.
pub proof fn lemma_prefix_index(p: Seq<u8>, t: Seq<u8>)
    requires
        p.is_prefix_of(t),
    ensures
        p.len() <= t.len(),
        forall|j: int| 0 <= j < p.len() ==> p[j] == t[j],
{
    assert forall|j: int| 0 <= j < p.len() implies p[j] == t[j] by {
        assert(p[j] == t.subrange(0, p.len() as int)[j]);
    }
}

/// Dropping a one-byte marker from a prefix leaves the body equal to the
/// matching range of the whole sequence.
pub proof fn lemma_concat_tail_prefix(m: u8, body: Seq<u8>, t: Seq<u8>)
    requires
        (seq![m] + body).is_prefix_of(t),
    ensures
        1 + body.len() <= t.len(),
        body == t.subrange(1, 1 + body.len() as int),
        m == t[0],
{
    let p = seq![m] + body;
    lemma_prefix_index(p, t);
    assert(p[0] == m);
    assert forall|k: int| 0 <= k < body.len() implies body[k] == t.subrange(
        1,
        1 + body.len() as int,
    )[k] by {
        assert(p[k + 1] == body[k]);
        assert(p[k + 1] == t[k + 1]);
    }
    assert(body =~= t.subrange(1, 1 + body.len() as int));
}

/// Two prefixes of the same sequence agree on any range they both cover.
pub proof fn lemma_common_prefix_subrange(t: Seq<u8>, e1: Seq<u8>, e2: Seq<u8>, a: int, b: int)
    requires
        e1.is_prefix_of(t),
        e2.is_prefix_of(t),
        0 <= a <= b,
        b <= e1.len(),
        b <= e2.len(),
    ensures
        e1.subrange(a, b) == e2.subrange(a, b),
{
    lemma_prefix_index(e1, t);
    lemma_prefix_index(e2, t);
    assert(e1.subrange(a, b) =~= e2.subrange(a, b));
}

/// A range of a dropped-head sequence is a range of the original.
pub proof fn lemma_skip_subrange(s: Seq<u8>, i: int, a: int, b: int)
    requires
        0 <= i <= s.len(),
        0 <= a <= b,
        i + b <= s.len(),
    ensures
        s.skip(i).subrange(a, b) == s.subrange(i + a, i + b),
{
    assert(s.skip(i).subrange(a, b) =~= s.subrange(i + a, i + b));
}

/// Two length prefixes starting at the same position read the same value.
pub proof fn lemma_varint_unique(t: Seq<u8>, a: u64, b: u64)
    requires
        spec_varint(a).is_prefix_of(t),
        spec_varint(b).is_prefix_of(t),
    ensures
        a == b,
{
    lemma_auto_spec_u16_to_from_le_bytes();
    lemma_auto_spec_u32_to_from_le_bytes();
    lemma_auto_spec_u64_to_from_le_bytes();
    lemma_varint_len(a);
    lemma_varint_len(b);
    lemma_prefix_index(spec_varint(a), t);
    lemma_prefix_index(spec_varint(b), t);
    assert(a < 251 ==> (a as u8) < 251) by (bit_vector);
    assert(b < 251 ==> (b as u8) < 251) by (bit_vector);
    if a < 251 && b < 251 {
        assert(spec_varint(a)[0] == t[0]);
        assert(spec_varint(b)[0] == t[0]);
        assert(a as u8 == b as u8);
        assert(a == b) by (bit_vector)
            requires a as u8 == b as u8 && a < 251 && b < 251,
        ;
    } else if 251 <= a <= 0xFFFF && 251 <= b <= 0xFFFF {
        lemma_concat_tail_prefix(251u8, spec_u16_to_le_bytes(a as u16), t);
        lemma_concat_tail_prefix(251u8, spec_u16_to_le_bytes(b as u16), t);
        assert(spec_u16_to_le_bytes(a as u16) == spec_u16_to_le_bytes(b as u16));
        assert(a as u16 == b as u16);
        assert(a == b) by (bit_vector)
            requires a as u16 == b as u16 && 251 <= a <= 0xFFFF && 251 <= b <= 0xFFFF,
        ;
    } else if 0xFFFF < a <= 0xFFFF_FFFF && 0xFFFF < b <= 0xFFFF_FFFF {
        lemma_concat_tail_prefix(252u8, spec_u32_to_le_bytes(a as u32), t);
        lemma_concat_tail_prefix(252u8, spec_u32_to_le_bytes(b as u32), t);
        assert(spec_u32_to_le_bytes(a as u32) == spec_u32_to_le_bytes(b as u32));
        assert(a as u32 == b as u32);
        assert(a == b) by (bit_vector)
            requires
                a as u32 == b as u32 && 0xFFFF < a <= 0xFFFF_FFFF && 0xFFFF < b <= 0xFFFF_FFFF,
        ;
    } else if 0xFFFF_FFFF < a && 0xFFFF_FFFF < b {
        lemma_concat_tail_prefix(253u8, spec_u64_to_le_bytes(a), t);
        lemma_concat_tail_prefix(253u8, spec_u64_to_le_bytes(b), t);
        assert(spec_u64_to_le_bytes(a) == spec_u64_to_le_bytes(b));
    } else {
        // The first byte tells the branches apart: a value below 251
        // starts with that value, the other branches with their marker.
        assert(spec_varint(a)[0] == t[0]);
        assert(spec_varint(b)[0] == t[0]);
        assert(false);
    }
}

/// Writes the canonical length prefix of `n`.
pub fn write_varint(n: u64) -> (out: Vec<u8>)
    ensures
        out@ == spec_varint(n),
{
    if n < 251 {
        let mut v: Vec<u8> = Vec::new();
        v.push(n as u8);
        proof { assert(v@ =~= spec_varint(n)); }
        v
    } else if n <= 0xFFFF {
        let mut v: Vec<u8> = Vec::new();
        v.push(251u8);
        let mut tail = u16_to_le_bytes(n as u16);
        v.append(&mut tail);
        proof { assert(v@ =~= spec_varint(n)); }
        v
    } else if n <= 0xFFFF_FFFF {
        let mut v: Vec<u8> = Vec::new();
        v.push(252u8);
        let mut tail = u32_to_le_bytes(n as u32);
        v.append(&mut tail);
        proof { assert(v@ =~= spec_varint(n)); }
        v
    } else {
        let mut v: Vec<u8> = Vec::new();
        v.push(253u8);
        let mut tail = u64_to_le_bytes(n);
        v.append(&mut tail);
        proof { assert(v@ =~= spec_varint(n)); }
        v
    }
}

/// Reads a length prefix starting at `i`. Returns the value and the number
/// of bytes it occupies, or `None` when no canonical prefix starts there.
pub fn read_varint(bytes: &[u8], i: usize) -> (r: Option<(u64, usize)>)
    requires
        i <= bytes@.len(),
    ensures
        match r {
            Some(p) => {
                &&& 1 <= p.1 <= 9
                &&& i + p.1 <= bytes@.len()
                &&& spec_varint(p.0) == bytes@.subrange(i as int, i + p.1)
            },
            None => forall|v: u64| !spec_varint(v).is_prefix_of(bytes@.skip(i as int)),
        },
{
    proof {
        lemma_auto_spec_u16_to_from_le_bytes();
        lemma_auto_spec_u32_to_from_le_bytes();
        lemma_auto_spec_u64_to_from_le_bytes();
    }
    let ghost rest = bytes@.skip(i as int);
    let n = bytes.len();
    if i >= n {
        proof {
            assert forall|v: u64| !spec_varint(v).is_prefix_of(rest) by {
                lemma_varint_len(v);
            }
        }
        return None;
    }
    let b0 = *slice_index_get(bytes, i);
    proof { assert(rest[0] == bytes@[i as int]); }
    if b0 < 251 {
        proof {
            assert(((b0 as u64) as u8) == b0 && (b0 as u64) < 251) by (bit_vector)
                requires b0 < 251,
            ;
            assert(spec_varint(b0 as u64) =~= bytes@.subrange(i as int, i + 1));
        }
        Some((b0 as u64, 1))
    } else if b0 == 251 {
        if n - i < 3 {
            proof {
                assert forall|v: u64| !spec_varint(v).is_prefix_of(rest) by {
                    lemma_varint_len(v);
                    if spec_varint(v).is_prefix_of(rest) {
                        lemma_prefix_index(spec_varint(v), rest);
                        assert(v < 251 ==> (v as u8) < 251) by (bit_vector);
                        assert(spec_varint(v)[0] == rest[0]);
                        assert(251 <= v <= 0xFFFF);
                        assert(rest.len() < 3);
                    }
                }
            }
            return None;
        }
        let s = slice_subrange(bytes, i + 1, i + 3);
        let val = u16_from_le_bytes(s);
        proof {
            assert(spec_u16_to_le_bytes(val) == s@);
            lemma_skip_subrange(bytes@, i as int, 1, 3);
        }
        if val < 251 {
            proof {
                assert forall|v: u64| !spec_varint(v).is_prefix_of(rest) by {
                    if spec_varint(v).is_prefix_of(rest) {
                        lemma_prefix_index(spec_varint(v), rest);
                        assert(v < 251 ==> (v as u8) < 251) by (bit_vector);
                        assert(spec_varint(v)[0] == rest[0]);
                        assert(251 <= v <= 0xFFFF);
                        lemma_concat_tail_prefix(251u8, spec_u16_to_le_bytes(v as u16), rest);
                        assert(spec_u16_to_le_bytes(v as u16) == s@);
                        assert(v as u16 == val);
                        assert((v as u16) >= 251) by (bit_vector)
                            requires 251 <= v && v <= 0xFFFF,
                        ;
                    }
                }
            }
            None
        } else {
            proof {
                assert((val as u64) as u16 == val && 251 <= val as u64 && val as u64 <= 0xFFFF)
                    by (bit_vector)
                    requires val >= 251,
                ;
                assert(spec_varint(val as u64) =~= bytes@.subrange(i as int, i + 3));
            }
            Some((val as u64, 3))
        }
    } else if b0 == 252 {
        if n - i < 5 {
            proof {
                assert forall|v: u64| !spec_varint(v).is_prefix_of(rest) by {
                    lemma_varint_len(v);
                    if spec_varint(v).is_prefix_of(rest) {
                        lemma_prefix_index(spec_varint(v), rest);
                        assert(v < 251 ==> (v as u8) < 251) by (bit_vector);
                        assert(spec_varint(v)[0] == rest[0]);
                        assert(0xFFFF < v <= 0xFFFF_FFFF);
                        assert(rest.len() < 5);
                    }
                }
            }
            return None;
        }
        let s = slice_subrange(bytes, i + 1, i + 5);
        let val = u32_from_le_bytes(s);
        proof {
            assert(spec_u32_to_le_bytes(val) == s@);
            lemma_skip_subrange(bytes@, i as int, 1, 5);
        }
        if val <= 0xFFFF {
            proof {
                assert forall|v: u64| !spec_varint(v).is_prefix_of(rest) by {
                    if spec_varint(v).is_prefix_of(rest) {
                        lemma_prefix_index(spec_varint(v), rest);
                        assert(v < 251 ==> (v as u8) < 251) by (bit_vector);
                        assert(spec_varint(v)[0] == rest[0]);
                        assert(0xFFFF < v <= 0xFFFF_FFFF);
                        lemma_concat_tail_prefix(252u8, spec_u32_to_le_bytes(v as u32), rest);
                        assert(spec_u32_to_le_bytes(v as u32) == s@);
                        assert(v as u32 == val);
                        assert((v as u32) > 0xFFFF) by (bit_vector)
                            requires 0xFFFF < v && v <= 0xFFFF_FFFF,
                        ;
                    }
                }
            }
            None
        } else {
            proof {
                assert((val as u64) as u32 == val && 0xFFFF < val as u64 && val as u64
                    <= 0xFFFF_FFFF) by (bit_vector)
                    requires val > 0xFFFF,
                ;
                assert(spec_varint(val as u64) =~= bytes@.subrange(i as int, i + 5));
            }
            Some((val as u64, 5))
        }
    } else if b0 == 253 {
        if n - i < 9 {
            proof {
                assert forall|v: u64| !spec_varint(v).is_prefix_of(rest) by {
                    lemma_varint_len(v);
                    if spec_varint(v).is_prefix_of(rest) {
                        lemma_prefix_index(spec_varint(v), rest);
                        assert(v < 251 ==> (v as u8) < 251) by (bit_vector);
                        assert(spec_varint(v)[0] == rest[0]);
                        assert(0xFFFF_FFFF < v);
                        assert(rest.len() < 9);
                    }
                }
            }
            return None;
        }
        let s = slice_subrange(bytes, i + 1, i + 9);
        let val = u64_from_le_bytes(s);
        proof {
            assert(spec_u64_to_le_bytes(val) == s@);
            lemma_skip_subrange(bytes@, i as int, 1, 9);
        }
        if val <= 0xFFFF_FFFF {
            proof {
                assert forall|v: u64| !spec_varint(v).is_prefix_of(rest) by {
                    if spec_varint(v).is_prefix_of(rest) {
                        lemma_prefix_index(spec_varint(v), rest);
                        assert(v < 251 ==> (v as u8) < 251) by (bit_vector);
                        assert(spec_varint(v)[0] == rest[0]);
                        assert(0xFFFF_FFFF < v);
                        lemma_concat_tail_prefix(253u8, spec_u64_to_le_bytes(v), rest);
                        assert(spec_u64_to_le_bytes(v) == s@);
                    }
                }
            }
            None
        } else {
            proof {
                assert(spec_varint(val) =~= bytes@.subrange(i as int, i + 9));
            }
            Some((val, 9))
        }
    } else {
        proof {
            assert forall|v: u64| !spec_varint(v).is_prefix_of(rest) by {
                if spec_varint(v).is_prefix_of(rest) {
                    lemma_prefix_index(spec_varint(v), rest);
                    assert(v < 251 ==> (v as u8) < 251) by (bit_vector);
                    assert(spec_varint(v)[0] == rest[0]);
                }
            }
        }
        None
    }
}

/// Reads the 8-byte little-endian integer starting at `i`.
pub fn read_u64_at(bytes: &[u8], i: usize) -> (r: u64)
    requires
        i + 8 <= bytes@.len(),
    ensures
        spec_u64_to_le_bytes(r) == bytes@.subrange(i as int, i + 8),
{
    let n = bytes.len();
    let s = slice_subrange(bytes, i, i + 8);
    let r = u64_from_le_bytes(s);
    proof {
        lemma_auto_spec_u64_to_from_le_bytes();
    }
    r
}

/// Reads the 4-byte little-endian integer starting at `i`.
pub fn read_u32_at(bytes: &[u8], i: usize) -> (r: u32)
    requires
        i + 4 <= bytes@.len(),
    ensures
        spec_u32_to_le_bytes(r) == bytes@.subrange(i as int, i + 4),
{
    let n = bytes.len();
    let s = slice_subrange(bytes, i, i + 4);
    let r = u32_from_le_bytes(s);
    proof {
        lemma_auto_spec_u32_to_from_le_bytes();
    }
    r
}

/// Copies the bytes in `[i, j)` into a fresh vector.
pub fn copy_range(bytes: &[u8], i: usize, j: usize) -> (r: Vec<u8>)
    requires
        i <= j <= bytes@.len(),
    ensures
        r@ == bytes@.subrange(i as int, j as int),
{
    slice_to_vec(slice_subrange(bytes, i, j))
}

/// Compares two byte strings for equality.
pub fn bytes_eq(a: &Vec<u8>, b: &Vec<u8>) -> (r: bool)
    ensures
        r == (a@ == b@),
{
    if a.len() != b.len() {
        return false;
    }
    let mut i: usize = 0;
    while i < a.len()
        invariant
            i <= a@.len(),
            a@.len() == b@.len(),
            forall|j: int| 0 <= j < i ==> a@[j] == b@[j],
        decreases a@.len() - i,
    {
        if a[i] != b[i] {
            return false;
        }
        i += 1;
    }
    proof {
        assert(a@ =~= b@);
    }
    true
}

} // verus!
