use vstd::arithmetic::power::pow;
use vstd::prelude::*;

verus! {

/// The value of a big-endian byte sequence.
pub open spec fn be_value(s: Seq<u8>) -> nat
    decreases s.len(),
{
    if s.len() == 0 {
        0
    } else {
        be_value(s.drop_last()) * 256 + s.last() as nat
    }
}

/// The `n` low-order bytes of `v`, most significant first.
pub open spec fn be_bytes(v: nat, n: nat) -> Seq<u8>
    decreases n,
{
    if n == 0 {
        Seq::<u8>::empty()
    } else {
        be_bytes(v / 256, (n - 1) as nat).push((v % 256) as u8)
    }
}

pub proof fn lemma_be_bytes_len(v: nat, n: nat)
    ensures
        be_bytes(v, n).len() == n,
    decreases n,
{
    if n > 0 {
        lemma_be_bytes_len(v / 256, (n - 1) as nat);
    }
}

pub proof fn lemma_be_value_bound(s: Seq<u8>)
    ensures
        be_value(s) < pow(256, s.len()),
    decreases s.len(),
{
    if s.len() > 0 {
        lemma_be_value_bound(s.drop_last());
        let p = pow(256, (s.len() - 1) as nat);
        let a = be_value(s.drop_last());
        let b = s.last() as nat;
        assert(pow(256, s.len()) == 256 * p) by {
            vstd::arithmetic::power::lemma_pow_adds(256, 1, (s.len() - 1) as nat);
            vstd::arithmetic::power::lemma_pow1(256);
        }
        assert(a * 256 + b < 256 * p) by (nonlinear_arith)
            requires
                a < p,
                b < 256,
        ;
    } else {
        vstd::arithmetic::power::lemma_pow0(256);
    }
}

/// Reading back `n` bytes written from `v` gives `v`, when `v` fits in them.
pub proof fn lemma_be_roundtrip(v: nat, n: nat)
    requires
        v < pow(256, n),
    ensures
        be_value(be_bytes(v, n)) == v,
    decreases n,
{
    if n > 0 {
        assert(pow(256, n) == 256 * pow(256, (n - 1) as nat)) by {
            vstd::arithmetic::power::lemma_pow_adds(256, 1, (n - 1) as nat);
            vstd::arithmetic::power::lemma_pow1(256);
        }
        let p = pow(256, (n - 1) as nat);
        assert(v / 256 < p) by (nonlinear_arith)
            requires
                v < 256 * p,
        ;
        lemma_be_roundtrip(v / 256, (n - 1) as nat);
        lemma_be_bytes_len(v / 256, (n - 1) as nat);
        assert(be_bytes(v, n).drop_last() =~= be_bytes(v / 256, (n - 1) as nat));
        assert((v / 256) * 256 + v % 256 == v) by (nonlinear_arith);
    } else {
        assert(pow(256, 0) == 1) by {
            vstd::arithmetic::power::lemma_pow0(256);
        }
    }
}

pub proof fn lemma_pow256_facts()
    ensures
        pow(256, 2) == 0x1_0000,
        pow(256, 4) == 0x1_0000_0000,
        pow(256, 8) == 0x1_0000_0000_0000_0000,
{
    vstd::arithmetic::power::lemma_pow0(256);
    assert(pow(256, 1) == 256) by {
        vstd::arithmetic::power::lemma_pow1(256);
    }
    assert(pow(256, 2) == 256 * pow(256, 1)) by {
        vstd::arithmetic::power::lemma_pow_adds(256, 1, 1);
    }
    assert(pow(256, 4) == pow(256, 2) * pow(256, 2)) by {
        vstd::arithmetic::power::lemma_pow_adds(256, 2, 2);
    }
    assert(pow(256, 8) == pow(256, 4) * pow(256, 4)) by {
        vstd::arithmetic::power::lemma_pow_adds(256, 4, 4);
    }
}

/// The `n` low-order bytes of `v`, most significant first.
pub fn be_bytes_of(v: u64, n: usize) -> (r: Vec<u8>)
    ensures
        r@ == be_bytes(v as nat, n as nat),
        r@.len() == n,
    decreases n,
{
    if n == 0 {
        Vec::new()
    } else {
        let mut r = be_bytes_of(v / 256, n - 1);
        r.push((v % 256) as u8);
        proof {
            assert((v / 256) as nat == (v as nat) / 256);
        }
        r
    }
}

/// Writes the `n` low-order bytes of `v`, most significant first, at `offset`.
pub fn write_be(buf: &mut Vec<u8>, offset: usize, v: u64, n: usize)
    requires
        offset + n <= old(buf)@.len(),
    ensures
        final(buf)@.len() == old(buf)@.len(),
        final(buf)@.subrange(offset as int, offset + n) == be_bytes(v as nat, n as nat),
        forall|i: int|
            0 <= i < old(buf)@.len() && !(offset <= i < offset + n) ==> #[trigger] final(buf)@[i]
                == old(buf)@[i],
{
    let bytes = be_bytes_of(v, n);
    let len = buf.len();
    assert(offset + n <= len);
    let ghost start = buf@;
    for k in 0..n
        invariant
            offset + n <= buf@.len(),
            offset + n <= len,
            buf@.len() == start.len(),
            start == old(buf)@,
            bytes@.len() == n,
            forall|i: int| 0 <= i < k ==> #[trigger] buf@[offset + i] == bytes@[i],
            forall|i: int|
                0 <= i < start.len() && !(offset <= i < offset + k) ==> #[trigger] buf@[i]
                    == start[i],
    {
        buf.set(offset + k, bytes[k]);
    }
    assert forall|i: int| 0 <= i < n implies #[trigger] buf@.subrange(offset as int, offset + n)[i]
        == bytes@[i] by {
        assert(buf@[offset + i] == bytes@[i]);
    }
    assert(buf@.subrange(offset as int, offset + n) =~= bytes@);
}

/// Reads `n` bytes at `offset` as a big-endian number.
pub fn read_be(buf: &[u8], offset: usize, n: usize) -> (r: u64)
    requires
        offset + n <= buf@.len(),
        n <= 8,
    ensures
        r as nat == be_value(buf@.subrange(offset as int, offset + n)),
{
    let ghost s = buf@.subrange(offset as int, offset + n);
    let len = buf.len();
    assert(offset + n <= len);
    let mut acc: u64 = 0;
    proof {
        assert(s.take(0) =~= Seq::<u8>::empty());
    }
    for k in 0..n
        invariant
            offset + n <= buf@.len(),
            offset + n <= len,
            n <= 8,
            s == buf@.subrange(offset as int, offset + n),
            acc as nat == be_value(s.take(k as int)),
    {
        proof {
            lemma_be_value_bound(s.take(k as int));
            assert(s.take(k + 1).drop_last() =~= s.take(k as int));
            assert(s.take(k + 1).last() == buf@[offset + k]);
            vstd::arithmetic::power::lemma_pow_increases(256, k as nat, 7);
            lemma_pow256_facts();
            assert(pow(256, 7) * 256 == pow(256, 8)) by {
                vstd::arithmetic::power::lemma_pow_adds(256, 7, 1);
                vstd::arithmetic::power::lemma_pow1(256);
            }
            let a = acc as int;
            let p = pow(256, k as nat) as int;
            let q = pow(256, 7) as int;
            assert(a * 256 + 255 <= 0xffff_ffff_ffff_ffff) by (nonlinear_arith)
                requires
                    a < p,
                    p <= q,
                    q * 256 == 0x1_0000_0000_0000_0000,
            ;
        }
        acc = acc * 256 + buf[offset + k] as u64;
    }
    proof {
        assert(s.take(n as int) =~= s);
    }
    acc
}

} // verus!
