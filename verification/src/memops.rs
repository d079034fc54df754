//! Byte-level memory primitives (`memset`, `memcpy`, `memmove`) over a
//! memory modelled as a vector of bytes indexed by address.
use vstd::arithmetic::div_mod::{lemma_mod_sub_multiples_vanish, lemma_small_mod};
use vstd::prelude::*;

verus! {

/// The byte that `memset` stores for the fill value `c` (its low eight bits).
pub open spec fn fill_byte(c: i32) -> u8 {
    c as u8
}

/// `mem` after the bytes `[dest, dest + n)` were all set to `b`.
pub open spec fn filled(mem: Seq<u8>, dest: int, n: int, b: u8) -> Seq<u8> {
    Seq::new(mem.len(), |k: int| if dest <= k < dest + n { b } else { mem[k] })
}

/// `mem` after the bytes `[dest, dest + n)` were replaced by those that stood
/// at `[src, src + n)` before the copy.
pub open spec fn moved(mem: Seq<u8>, dest: int, src: int, n: int) -> Seq<u8> {
    Seq::new(mem.len(), |k: int| if dest <= k < dest + n { mem[src + k - dest] } else { mem[k] })
}

/// The byte `memset` stores for `c` is `c` modulo 256: its low eight bits,
/// also for negative values.
pub proof fn lemma_fill_byte_is_low_byte(c: i32)
    ensures
        fill_byte(c) as int == (c as int) % 256,
{
    assert((c as u8) as int == (c as int) % 256) by (bit_vector);
}

/// After `memset(mem, s, c, n)`, every byte of `[s, s + n)` holds `c`
/// modulo 256 and every other byte is as it was.
pub proof fn lemma_memset_writes_low_byte(before: Seq<u8>, after: Seq<u8>, s: int, c: i32, n: int)
    requires
        after == filled(before, s, n, fill_byte(c)),
    ensures
        after.len() == before.len(),
        forall|k: int| s <= k < s + n && 0 <= k < before.len() ==> #[trigger] after[k] as int == (c as int) % 256,
        forall|k: int| 0 <= k < before.len() && !(s <= k < s + n) ==> #[trigger] after[k] == before[k],
{
    lemma_fill_byte_is_low_byte(c);
}

/// Sets the `n` bytes starting at address `s` to the low byte of `c` and
/// returns `s`.
pub fn memset(mem: &mut Vec<u8>, s: usize, c: i32, n: usize) -> (r: usize)
    requires
        s + n <= old(mem).len(),
    ensures
        r == s,
        final(mem)@ == filled(old(mem)@, s as int, n as int, fill_byte(c)),
        forall|k: int| s <= k < s + n ==> #[trigger] final(mem)@[k] as int == (c as int) % 256,
{
    let b: u8 = c as u8;
    let mut i: usize = 0;
    while i < n
        invariant
            i <= n,
            s + n <= mem.len(),
            b == fill_byte(c),
            mem@ == filled(old(mem)@, s as int, i as int, b),
        decreases n - i,
    {
        mem.set(s + i, b);
        i = i + 1;
    }
    proof { lemma_memset_writes_low_byte(old(mem)@, mem@, s as int, c, n as int); }
    s
}

/// `mem` after the bytes at `[src, src + n)` were copied one by one, front to
/// back, to `[dest, dest + n)`. When `dest` lies inside the source ahead of
/// `src`, bytes already written are read again, so the first `dest - src`
/// source bytes repeat.
pub open spec fn copied_forward(mem: Seq<u8>, dest: int, src: int, n: int) -> Seq<u8> {
    Seq::new(mem.len(), |k: int|
        if dest <= k < dest + n {
            if src < dest { mem[src + (k - dest) % (dest - src)] } else { mem[src + k - dest] }
        } else {
            mem[k]
        })
}

/// Copies the `n` bytes at address `src` to address `dest`, front to back,
/// and returns `dest`.
pub fn memcpy(mem: &mut Vec<u8>, dest: usize, src: usize, n: usize) -> (r: usize)
    requires
        dest + n <= old(mem).len(),
        src + n <= old(mem).len(),
    ensures
        r == dest,
        final(mem)@ == copied_forward(old(mem)@, dest as int, src as int, n as int),
        dest + n <= src || src + n <= dest ==> final(mem)@ == moved(old(mem)@, dest as int, src as int, n as int),
{
    let mut i: usize = 0;
    while i < n
        invariant
            i <= n,
            dest + n <= mem.len(),
            src + n <= mem.len(),
            mem@ == copied_forward(old(mem)@, dest as int, src as int, i as int),
        decreases n - i,
    {
        let b: u8 = mem[src + i];
        proof {
            let o = old(mem)@;
            if src < dest {
                let d = (dest - src) as int;
                if i < d {
                    lemma_small_mod(i as nat, d as nat);
                    assert(b == o[src + (i as int) % d]);
                } else {
                    assert(dest <= src + i < dest + i);
                    lemma_mod_sub_multiples_vanish(i as int, d);
                    assert(b == o[src + (i as int) % d]);
                }
            }
        }
        mem.set(dest + i, b);
        i = i + 1;
        assert(mem@ =~= copied_forward(old(mem)@, dest as int, src as int, i as int));
    }
    proof {
        if dest + n <= src || src + n <= dest {
            let o = old(mem)@;
            let m = moved(o, dest as int, src as int, n as int);
            assert forall|k: int| 0 <= k < mem@.len() implies #[trigger] mem@[k] == m[k] by {
                if dest <= k < dest + n && src < dest {
                    lemma_small_mod((k - dest) as nat, (dest - src) as nat);
                }
            }
            assert(mem@ =~= m);
        }
    }
    dest
}

/// Copies the `n` bytes at address `src` to address `dest` and returns `dest`.
/// The ranges may overlap: the copy runs front to back when `dest < src` and
/// back to front otherwise, so every byte is read before it is overwritten.
pub fn memmove(mem: &mut Vec<u8>, dest: usize, src: usize, n: usize) -> (r: usize)
    requires
        dest + n <= old(mem).len(),
        src + n <= old(mem).len(),
    ensures
        r == dest,
        final(mem)@ == moved(old(mem)@, dest as int, src as int, n as int),
{
    if dest < src {
        let mut i: usize = 0;
        while i < n
            invariant
                i <= n,
                dest < src,
                dest + n <= mem.len(),
                src + n <= mem.len(),
                mem@.len() == old(mem)@.len(),
                forall|k: int| 0 <= k < mem@.len() ==> #[trigger] mem@[k] == (
                    if dest <= k < dest + i { old(mem)@[src + k - dest] } else { old(mem)@[k] }),
            decreases n - i,
        {
            let b: u8 = mem[src + i];
            mem.set(dest + i, b);
            i = i + 1;
        }
    } else {
        let mut i: usize = n;
        while i > 0
            invariant
                i <= n,
                src <= dest,
                dest + n <= mem.len(),
                src + n <= mem.len(),
                mem@.len() == old(mem)@.len(),
                forall|k: int| 0 <= k < mem@.len() ==> #[trigger] mem@[k] == (
                    if dest + i <= k < dest + n { old(mem)@[src + k - dest] } else { old(mem)@[k] }),
            decreases i,
        {
            i = i - 1;
            let b: u8 = mem[src + i];
            mem.set(dest + i, b);
        }
    }
    assert(mem@ =~= moved(old(mem)@, dest as int, src as int, n as int));
    dest
}

/// Zeroes the bytes from `sbss` up to, not including, `ebss`.
pub fn clear_bss(mem: &mut Vec<u8>, sbss: usize, ebss: usize)
    requires
        sbss <= ebss <= old(mem).len(),
    ensures
        final(mem)@ == filled(old(mem)@, sbss as int, ebss - sbss, 0u8),
{
    let mut a: usize = sbss;
    while a < ebss
        invariant
            sbss <= a <= ebss <= mem.len(),
            mem@ == filled(old(mem)@, sbss as int, a - sbss, 0u8),
        decreases ebss - a,
    {
        mem.set(a, 0);
        a = a + 1;
    }
}

} // verus!
