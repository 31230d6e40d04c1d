//! Little-endian integer fields of the wire formats.

use vstd::prelude::*;

verus! {

/// The value of a little-endian byte sequence.
pub open spec fn le_int(b: Seq<u8>) -> int
    decreases b.len(),
{
    if b.len() == 0 {
        0
    } else {
        b[0] + 256 * le_int(b.skip(1))
    }
}

/// The little-endian bytes of a value, over a given width.
pub open spec fn le_of(n: int, width: nat) -> Seq<u8>
    decreases width,
{
    if width == 0 {
        Seq::empty()
    } else {
        seq![(n % 256) as u8] + le_of(n / 256, (width - 1) as nat)
    }
}

/// 256 raised to a width.
pub open spec fn pow256(width: nat) -> int
    decreases width,
{
    if width == 0 {
        1
    } else {
        256 * pow256((width - 1) as nat)
    }
}

/// The value of a byte sequence is bounded by the width of the sequence.
pub proof fn lemma_le_int_bound(b: Seq<u8>)
    ensures
        0 <= le_int(b) < pow256(b.len()),
    decreases b.len(),
{
    if b.len() > 0 {
        lemma_le_int_bound(b.skip(1));
    }
}

/// Reading back the bytes of a value recovers the value.
pub proof fn lemma_le_of_int(n: int, width: nat)
    requires
        0 <= n < pow256(width),
    ensures
        le_of(n, width).len() == width,
        le_int(le_of(n, width)) == n,
    decreases width,
{
    if width > 0 {
        lemma_le_of_int(n / 256, (width - 1) as nat);
        assert(le_of(n, width).skip(1) =~= le_of(n / 256, (width - 1) as nat));
    }
}

/// Read a 16-bit little-endian field.
pub fn read_u16_le(data: &[u8], pos: usize) -> (r: u16)
    requires
        pos + 2 <= data@.len(),
    ensures
        r as int == le_int(data@.subrange(pos as int, pos + 2)),
{
    let r: u16 = data[pos] as u16 + 256 * (data[pos + 1] as u16);
    proof {
        let s = data@.subrange(pos as int, pos + 2);
        assert(s.skip(1) =~= data@.subrange(pos + 1, pos + 2));
        assert(s.skip(1).skip(1) =~= Seq::<u8>::empty());
        assert(le_int(s) == s[0] + 256 * le_int(s.skip(1)));
        assert(le_int(s.skip(1)) == s.skip(1)[0] + 256 * le_int(s.skip(1).skip(1)));
        assert(le_int(Seq::<u8>::empty()) == 0);
        assert(s[0] == data@[pos as int] && s.skip(1)[0] == data@[pos + 1]);
    }
    r
}

/// Read a 64-bit little-endian field.
pub fn read_u64_le(data: &[u8], pos: usize) -> (r: u64)
    requires
        pos + 8 <= data@.len(),
    ensures
        r as int == le_int(data@.subrange(pos as int, pos + 8)),
{
    let mut acc: u64 = 0;
    let mut k: usize = 8;
    let dlen: usize = data.len();
    proof {
        assert(data@.subrange(pos + 8, pos + 8) =~= Seq::<u8>::empty());
    }
    while k > 0
        invariant
            k <= 8,
            dlen == data@.len(),
            pos + 8 <= dlen,
            acc as int == le_int(data@.subrange(pos + k as int, pos + 8)),
            acc < pow256((8 - k) as nat),
        decreases k,
    {
        let ghost pre = data@.subrange(pos + (k - 1) as int, pos + 8);
        proof {
            lemma_le_int_bound(pre);
            assert(pre.skip(1) =~= data@.subrange(pos + k as int, pos + 8));
            assert(pow256((8 - (k - 1)) as nat) == 256 * pow256((8 - k) as nat));
            assert(pow256(8nat) == 0x1_0000_0000_0000_0000) by {
                reveal_with_fuel(pow256, 9);
            }
            assert(pow256((8 - (k - 1)) as nat) <= pow256(8nat)) by {
                lemma_pow256_increases((8 - (k - 1)) as nat, 8nat);
            }
        }
        acc = acc * 256 + (data[pos + (k - 1)] as u64);
        k -= 1;
        proof {
            assert(acc as int == pre[0] + 256 * le_int(pre.skip(1)));
        }
    }
    proof {
        assert(data@.subrange(pos as int, pos + 8) =~= data@.subrange(pos + 0, pos + 8));
    }
    acc
}

proof fn lemma_pow256_increases(a: nat, b: nat)
    requires
        a <= b,
    ensures
        pow256(a) <= pow256(b),
    decreases b,
{
    if a < b {
        lemma_pow256_increases(a, (b - 1) as nat);
        lemma_pow256_positive((b - 1) as nat);
    }
}

proof fn lemma_pow256_positive(a: nat)
    ensures
        pow256(a) >= 1,
    decreases a,
{
    if a > 0 {
        lemma_pow256_positive((a - 1) as nat);
    }
}

/// Append a 16-bit little-endian field.
pub fn push_u16_le(out: &mut Vec<u8>, v: u16)
    ensures
        final(out)@ == old(out)@ + le_of(v as int, 2),
{
    out.push((v % 256) as u8);
    out.push(((v / 256) % 256) as u8);
    proof {
        assert(le_of(v as int, 2) =~= seq![(v as int % 256) as u8, ((v as int / 256) % 256) as u8])
            by {
            assert(le_of(v as int / 256, 1) =~= seq![((v as int / 256) % 256) as u8] + le_of(
                v as int / 256 / 256,
                0,
            ));
        }
        assert(final(out)@ =~= old(out)@ + le_of(v as int, 2));
    }
}

/// Append a 32-bit little-endian field.
pub fn push_u32_le(out: &mut Vec<u8>, v: u32)
    ensures
        final(out)@ == old(out)@ + le_of(v as int, 4),
{
    let mut rest: u32 = v;
    let mut k: usize = 0;
    proof {
        lemma_le_of_len(v as int, 4);
        assert(le_of(v as int, 4).take(0) =~= Seq::<u8>::empty());
        assert(le_of(v as int, 4).skip(0) =~= le_of(v as int, 4));
    }
    while k < 4
        invariant
            k <= 4,
            le_of(v as int, 4).len() == 4,
            out@ == old(out)@ + le_of(v as int, 4).take(k as int),
            le_of(rest as int, (4 - k) as nat) == le_of(v as int, 4).skip(k as int),
        decreases 4 - k,
    {
        proof {
            assert(le_of(rest as int, (4 - k) as nat) == seq![(rest as int % 256) as u8] + le_of(
                rest as int / 256,
                (4 - k - 1) as nat,
            ));
            assert(le_of(v as int, 4).skip(k as int)[0] == le_of(v as int, 4)[k as int]);
            assert(le_of(v as int, 4).skip(k as int).skip(1) =~= le_of(v as int, 4).skip(k + 1));
        }
        out.push((rest % 256) as u8);
        rest = rest / 256;
        proof {
            assert(out@ =~= old(out)@ + le_of(v as int, 4).take(k + 1)) by {
                assert(le_of(v as int, 4).take(k + 1) =~= le_of(v as int, 4).take(k as int).push(
                    le_of(v as int, 4)[k as int],
                ));
            }
        }
        k += 1;
    }
    proof {
        assert(le_of(v as int, 4).take(4) =~= le_of(v as int, 4));
    }
}

/// Append a 64-bit little-endian field.
pub fn push_u64_le(out: &mut Vec<u8>, v: u64)
    ensures
        final(out)@ == old(out)@ + le_of(v as int, 8),
{
    let mut rest: u64 = v;
    let mut k: usize = 0;
    proof {
        lemma_le_of_len(v as int, 8);
        assert(le_of(v as int, 8).take(0) =~= Seq::<u8>::empty());
        assert(le_of(v as int, 8).skip(0) =~= le_of(v as int, 8));
    }
    while k < 8
        invariant
            k <= 8,
            le_of(v as int, 8).len() == 8,
            out@ == old(out)@ + le_of(v as int, 8).take(k as int),
            le_of(rest as int, (8 - k) as nat) == le_of(v as int, 8).skip(k as int),
        decreases 8 - k,
    {
        proof {
            assert(le_of(rest as int, (8 - k) as nat) == seq![(rest as int % 256) as u8] + le_of(
                rest as int / 256,
                (8 - k - 1) as nat,
            ));
            assert(le_of(v as int, 8).skip(k as int)[0] == le_of(v as int, 8)[k as int]);
            assert(le_of(v as int, 8).skip(k as int).skip(1) =~= le_of(v as int, 8).skip(k + 1));
        }
        out.push((rest % 256) as u8);
        rest = rest / 256;
        proof {
            assert(out@ =~= old(out)@ + le_of(v as int, 8).take(k + 1)) by {
                assert(le_of(v as int, 8).take(k + 1) =~= le_of(v as int, 8).take(k as int).push(
                    le_of(v as int, 8)[k as int],
                ));
            }
        }
        k += 1;
    }
    proof {
        lemma_le_of_len(v as int, 8);
        assert(le_of(v as int, 8).take(8) =~= le_of(v as int, 8));
    }
}

/// The byte sequence of a value has exactly the requested width.
pub proof fn lemma_le_of_len(n: int, width: nat)
    ensures
        le_of(n, width).len() == width,
    decreases width,
{
    if width > 0 {
        lemma_le_of_len(n / 256, (width - 1) as nat);
    }
}

} // verus!
