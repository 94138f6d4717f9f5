use vstd::prelude::*;

verus! {

/// One multiplication by the field generator: shift left and reduce by the
/// primitive polynomial 0x11d when the top bit falls out.
pub open spec fn gf_step(b: u8) -> u8 {
    if b & 0x80 != 0 {
        (b << 1) ^ 0x1d
    } else {
        (b << 1)
    }
}

/// The field element with exponent `i`: gf_exp(0) is 1 and each further
/// step multiplies by the generator.
pub open spec fn gf_exp(i: int) -> u8
    decreases i,
{
    if i <= 0 {
        1
    } else {
        gf_step(gf_exp(i - 1))
    }
}

/// Search for the least exponent at or after `j` whose field element is `v`;
/// 0 when no exponent below 255 matches.
pub open spec fn gf_log_from(v: u8, j: int) -> int
    decreases 255 - j,
{
    if j < 0 || j >= 255 {
        0
    } else if gf_exp(j) == v {
        j
    } else {
        gf_log_from(v, j + 1)
    }
}

/// The discrete logarithm of `v`: the least exponent in [0, 255) whose
/// field element is `v`, and 0 when `v` is not a power of the generator.
pub open spec fn gf_log(v: u8) -> int {
    gf_log_from(v, 0)
}

proof fn lemma_log_found(v: u8, k: int, j: int)
    requires
        0 <= k <= j < 255,
        gf_exp(j) == v,
        forall|jj: int| k <= jj < j ==> gf_exp(jj) != v,
    ensures
        gf_log_from(v, k) == j,
    decreases j - k,
{
    if k < j {
        lemma_log_found(v, k + 1, j);
    }
}

proof fn lemma_log_missing(v: u8, k: int)
    requires
        0 <= k <= 255,
        forall|jj: int| k <= jj < 255 ==> gf_exp(jj) != v,
    ensures
        gf_log_from(v, k) == 0,
    decreases 255 - k,
{
    if k < 255 {
        lemma_log_missing(v, k + 1);
    }
}

proof fn lemma_log_from_bounds(v: u8, j: int)
    requires
        0 <= j,
    ensures
        0 <= gf_log_from(v, j) < 255,
    decreases 255 - j,
{
    if j < 255 && gf_exp(j) != v {
        lemma_log_from_bounds(v, j + 1);
    }
}

/// A discrete logarithm is always an exponent below 255.
pub proof fn lemma_gf_log_bounds(v: u8)
    ensures
        0 <= gf_log(v) < 255,
{
    lemma_log_from_bounds(v, 0);
}

/// Powers of the field generator: entry `i` is gf_exp(i) for 0 through 254.
pub fn exp_table() -> (t: Vec<u8>)
    ensures
        t.len() == 255,
        forall|i: int| 0 <= i < 255 ==> t[i] == gf_exp(i),
{
    let mut t: Vec<u8> = Vec::new();
    t.push(1);
    let mut i: usize = 1;
    while i < 255
        invariant
            1 <= i <= 255,
            t.len() == i,
            forall|k: int| 0 <= k < i ==> t[k] == gf_exp(k),
        decreases 255 - i,
    {
        let prev = t[i - 1];
        let mut next = prev << 1u8;
        if prev & 0x80 != 0 {
            next = next ^ 0x1d;
        }
        assert(next == gf_step(prev));
        assert(gf_exp(i as int) == gf_step(gf_exp(i as int - 1)));
        t.push(next);
        i += 1;
    }
    t
}

/// Discrete logarithms: entry `v` is gf_log(v), the least exponent whose
/// power is `v` (0 for values outside the generator's orbit, including 0).
pub fn log_table() -> (t: Vec<u8>)
    ensures
        t.len() == 256,
        forall|v: int| 0 <= v < 256 ==> t[v] == gf_log(v as u8),
{
    let exp = exp_table();
    let mut t: Vec<u8> = Vec::new();
    let mut v: usize = 0;
    while v < 256
        invariant
            0 <= v <= 256,
            t.len() == v,
            exp.len() == 255,
            forall|i: int| 0 <= i < 255 ==> exp[i] == gf_exp(i),
            forall|w: int| 0 <= w < v ==> t[w] == gf_log(w as u8),
        decreases 256 - v,
    {
        let mut j: usize = 0;
        let mut entry: u8 = 0;
        let mut found: bool = false;
        while j < 255
            invariant
                0 <= j <= 255,
                v < 256,
                exp.len() == 255,
                forall|i: int| 0 <= i < 255 ==> exp[i] == gf_exp(i),
                !found ==> entry == 0,
                !found ==> forall|jj: int| 0 <= jj < j ==> gf_exp(jj) != v as u8,
                found ==> gf_log(v as u8) == entry as int,
            decreases 255 - j,
        {
            if !found && exp[j] == v as u8 {
                proof {
                    lemma_log_found(v as u8, 0, j as int);
                }
                entry = j as u8;
                found = true;
            }
            j += 1;
        }
        if !found {
            proof {
                lemma_log_missing(v as u8, 0);
            }
        }
        assert(entry as int == gf_log(v as u8));
        t.push(entry);
        assert(forall|w: int| 0 <= w < v + 1 ==> t[w] == gf_log(w as u8));
        v += 1;
    }
    t
}

} // verus!
