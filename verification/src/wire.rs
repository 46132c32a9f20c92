use vstd::prelude::*;

verus! {

/// 256 to the power `n`: the first number that `n` bytes cannot hold.
pub open spec fn limit(n: nat) -> nat
    decreases n,
{
    if n == 0 {
        1
    } else {
        256 * limit((n - 1) as nat)
    }
}

/// The `n` low bytes of `v`, the most significant first.
pub open spec fn be(v: nat, n: nat) -> Seq<u8>
    decreases n,
{
    if n == 0 {
        Seq::empty()
    } else {
        be(v / 256, (n - 1) as nat).push((v % 256) as u8)
    }
}

/// The number that `s` holds, read with the most significant byte first.
pub open spec fn be_value(s: Seq<u8>) -> nat
    decreases s.len(),
{
    if s.len() == 0 {
        0
    } else {
        be_value(s.drop_last()) * 256 + s.last() as nat
    }
}

/// The powers of 256 up to the eighth.
pub proof fn lemma_limits()
    ensures
        limit(0) == 1,
        limit(1) == 0x100,
        limit(2) == 0x1_0000,
        limit(3) == 0x100_0000,
        limit(4) == 0x1_0000_0000,
        limit(5) == 0x100_0000_0000,
        limit(6) == 0x1_0000_0000_0000,
        limit(7) == 0x100_0000_0000_0000,
        limit(8) == 0x1_0000_0000_0000_0000,
{
    reveal_with_fuel(limit, 10);
}

/// A number written in `n` bytes takes `n` bytes.
pub proof fn lemma_be_len(v: nat, n: nat)
    ensures
        be(v, n).len() == n,
    decreases n,
{
    if n > 0 {
        lemma_be_len(v / 256, (n - 1) as nat);
    }
}

/// Reading back what was written gives the number, where the bytes can hold it.
pub proof fn lemma_be_value(v: nat, n: nat)
    requires
        v < limit(n),
    ensures
        be_value(be(v, n)) == v,
    decreases n,
{
    if n > 0 {
        let high = v / 256;
        let rest = limit((n - 1) as nat);
        assert(high < rest) by (nonlinear_arith)
            requires
                v < 256 * rest,
                high == v / 256,
        ;
        lemma_be_value(high, (n - 1) as nat);
        assert(be(v, n).drop_last() =~= be(high, (n - 1) as nat));
        assert(high * 256 + v % 256 == v) by (nonlinear_arith)
            requires
                high == v / 256,
        ;
    }
}

/// What `n` bytes hold is below 256 to the power `n`.
pub proof fn lemma_value_bound(s: Seq<u8>)
    ensures
        be_value(s) < limit(s.len()),
    decreases s.len(),
{
    if s.len() > 0 {
        lemma_value_bound(s.drop_last());
        let high = be_value(s.drop_last());
        let rest = limit((s.len() - 1) as nat);
        assert(high * 256 + 255 < 256 * rest) by (nonlinear_arith)
            requires
                high < rest,
        ;
    }
}

/// Writing the number that was read gives the bytes back.
pub proof fn lemma_be_of_value(s: Seq<u8>)
    ensures
        be(be_value(s), s.len()) == s,
    decreases s.len(),
{
    if s.len() > 0 {
        lemma_be_of_value(s.drop_last());
        let high = be_value(s.drop_last());
        let low = s.last() as nat;
        let v = be_value(s);
        assert(v / 256 == high && v % 256 == low) by (nonlinear_arith)
            requires
                v == high * 256 + low,
                low < 256,
        ;
        assert(be(v, s.len()) =~= s);
    } else {
        assert(be(be_value(s), s.len()) =~= s);
    }
}

/// Appends the `n` low bytes of `v`, the most significant first.
pub fn put_be(out: &mut Vec<u8>, v: u64, n: usize)
    requires
        n <= 8,
    ensures
        final(out)@ == old(out)@ + be(v as nat, n as nat),
    decreases n,
{
    if n > 0 {
        put_be(out, v / 256, n - 1);
        out.push((v % 256) as u8);
        assert(out@ =~= old(out)@ + be(v as nat, n as nat));
    } else {
        assert(out@ =~= old(out)@ + be(v as nat, n as nat));
    }
}

/// Reads the `n` bytes from `at` on as one number, the most significant first.
pub fn get_be(bytes: &[u8], at: usize, n: usize) -> (r: u64)
    requires
        n <= 8,
        at + n <= bytes.len(),
    ensures
        r == be_value(bytes@.subrange(at as int, at + n)),
{
    let mut acc: u64 = 0;
    let mut i: usize = 0;
    while i < n
        invariant
            i <= n <= 8,
            at + n <= bytes.len(),
            acc == be_value(bytes@.subrange(at as int, at + i)),
        decreases n - i,
    {
        proof {
            lemma_value_bound(bytes@.subrange(at as int, at + i));
            lemma_limits();
            let next = bytes@.subrange(at as int, at + i + 1);
            assert(next.drop_last() =~= bytes@.subrange(at as int, at + i));
            assert(next.last() == bytes@[at + i]);
        }
        acc = acc * 256 + bytes[at + i] as u64;
        i = i + 1;
    }
    acc
}

} // verus!
