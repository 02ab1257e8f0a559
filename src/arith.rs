use vstd::prelude::*;

verus! {

/// The signed 32-bit value that is congruent to `x` modulo 2^32.
pub open spec fn wrap_i32(x: int) -> int {
    (x + 0x8000_0000) % 0x1_0000_0000 - 0x8000_0000
}

/// Sum of two signed 32-bit integers, wrapping on overflow.
pub fn add(a: i32, b: i32) -> (r: i32)
    ensures
        r as int == wrap_i32(a + b),
        i32::MIN <= a + b <= i32::MAX ==> r == a + b,
{
    a.wrapping_add(b)
}

/// Product of two signed 32-bit integers, wrapping on overflow.
pub fn multiply(a: i32, b: i32) -> (r: i32)
    ensures
        r as int == wrap_i32(a * b),
        i32::MIN <= a * b <= i32::MAX ==> r == a * b,
{
    a.wrapping_mul(b)
}

/// Sum of the integers `0 .. n`, that is `n * (n - 1) / 2`.
pub open spec fn triangle(n: nat) -> nat {
    if n == 0 { 0 } else { (n * (n - 1) / 2) as nat }
}

proof fn lemma_wrap_add(a: int, b: int)
    ensures
        wrap_i32(wrap_i32(a) + b) == wrap_i32(a + b),
{
    let m = 0x1_0000_0000int;
    let x = a + 0x8000_0000;
    vstd::arithmetic::div_mod::lemma_add_mod_noop(x, b, m);
    vstd::arithmetic::div_mod::lemma_mod_twice(x, m);
    vstd::arithmetic::div_mod::lemma_add_mod_noop(x % m, b, m);
}

proof fn lemma_triangle_step(n: nat)
    ensures
        triangle(n + 1) == triangle(n) + n,
{
    if n > 0 {
        assert((n + 1) * n == n * (n - 1) + 2 * n) by (nonlinear_arith);
        assert((n + 1) * n / 2 == n * (n - 1) / 2 + n) by (nonlinear_arith)
            requires (n + 1) * n == n * (n - 1) + 2 * n;
    }
}

/// Allocates the sequence `0, 1, ..., size - 1` of signed 32-bit integers and
/// returns its sum, with the wrapping arithmetic of 32-bit integers.
pub fn memory_intensive(size: usize) -> (r: i32)
    ensures
        r as int == wrap_i32(triangle(size as nat) as int),
{
    let mut values: Vec<i32> = Vec::new();
    let mut next: i32 = 0;
    for i in 0..size
        invariant
            values@.len() == i,
            next as int == wrap_i32(i as int),
            forall|j: int| 0 <= j < i ==> values@[j] as int == wrap_i32(j),
    {
        values.push(next);
        next = next.wrapping_add(1);
        proof {
            lemma_wrap_add(i as int, 1);
        }
    }
    let mut sum: i32 = 0;
    let mut k: usize = 0;
    while k < values.len()
        invariant
            k <= values@.len() == size,
            forall|j: int| 0 <= j < size ==> values@[j] as int == wrap_i32(j),
            sum as int == wrap_i32(triangle(k as nat) as int),
        decreases values@.len() - k,
    {
        let ghost before = sum;
        sum = sum.wrapping_add(values[k]);
        proof {
            lemma_triangle_step(k as nat);
            lemma_wrap_add(triangle(k as nat) as int, values@[k as int] as int);
            lemma_wrap_add(k as int, triangle(k as nat) as int);
            assert(sum as int == wrap_i32(before + values@[k as int]));
        }
        k = k + 1;
    }
    sum
}

} // verus!
