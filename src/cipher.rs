use vstd::prelude::*;

use crate::chars::{chars_of, in_range};

verus! {

/// Whether `c` is an ASCII letter, upper or lower case.
pub open spec fn ascii_letter(c: char) -> bool {
    in_range(c, 'a', 'z') || in_range(c, 'A', 'Z')
}

/// `c` moved `k % 26` places forward within its ASCII alphabet, wrapping
/// from `z` to `a` (and `Z` to `A`); any other character is left alone.
pub open spec fn shift_char(c: char, k: u8) -> char {
    if in_range(c, 'a', 'z') {
        (((c as u32 - 'a' as u32 + k % 26) % 26 + 'a' as u32) as u8) as char
    } else if in_range(c, 'A', 'Z') {
        (((c as u32 - 'A' as u32 + k % 26) % 26 + 'A' as u32) as u8) as char
    } else {
        c
    }
}

/// The Caesar cipher of `s` with shift `k`, character by character.
pub open spec fn caesar(s: Seq<char>, k: u8) -> Seq<char> {
    s.map_values(|c: char| shift_char(c, k))
}

/// Encrypts `s` with the Caesar cipher: each ASCII letter moves `shift % 26`
/// places forward within its own case, every other character stays.
pub fn caesar_encrypt(s: &str, shift: u8) -> (r: String)
    ensures
        r@ == caesar(s@, shift),
        forall|i: int| 0 <= i < s@.len() && !ascii_letter(#[trigger] s@[i]) ==> r@[i] == s@[i],
{
    let cs = chars_of(s);
    let k: u8 = shift % 26;
    let mut r = String::new();
    for i in 0..cs.len()
        invariant
            cs@ == s@,
            k == shift % 26,
            r@ == caesar(cs@.take(i as int), shift),
    {
        let c = cs[i];
        let v = c as u32;
        let d = if 97 <= v && v <= 122 {
            let y: u8 = ((v - 97) as u8 + k) % 26 + 97u8;
            assert(y as int == (c as u32 - 'a' as u32 + shift % 26) % 26 + 'a' as u32);
            y as char
        } else if 65 <= v && v <= 90 {
            let y: u8 = ((v - 65) as u8 + k) % 26 + 65u8;
            assert(y as int == (c as u32 - 'A' as u32 + shift % 26) % 26 + 'A' as u32);
            y as char
        } else {
            c
        };
        assert(d == shift_char(c, shift));
        r.push(d);
        assert(r@ =~= caesar(cs@.take(i + 1), shift));
    }
    assert(cs@.take(cs@.len() as int) =~= s@);
    r
}

proof fn lemma_shift_offset_back(x: int, m: int)
    requires
        0 <= x < 26,
        0 <= m < 26,
    ensures
        ((x + m) % 26 + (26 - m) % 26) % 26 == x,
{
    if x + m < 26 {
        assert((x + m) % 26 == x + m);
    } else {
        assert((x + m) % 26 == x + m - 26);
    }
    if m == 0 {
        assert((26 - m) % 26 == 0);
    } else {
        assert((26 - m) % 26 == 26 - m);
    }
}

proof fn lemma_shift_char_back(c: char, k: u8)
    ensures
        shift_char(shift_char(c, k), (26 - k % 26) as u8) == c,
{
    let m = k % 26;
    assert(((26 - m) as u8) % 26 == (26 - m) % 26);
    if in_range(c, 'a', 'z') {
        lemma_shift_offset_back(c as u32 - 'a' as u32, m as int);
    } else if in_range(c, 'A', 'Z') {
        lemma_shift_offset_back(c as u32 - 'A' as u32, m as int);
    }
}

/// Encrypting with `shift` and then with `26 - shift % 26` gives back the
/// text that was encrypted.
pub proof fn lemma_caesar_round_trip(t: Seq<char>, shift: u8)
    ensures
        caesar(caesar(t, shift), (26 - shift % 26) as u8) == t,
{
    assert forall|i: int| 0 <= i < t.len() implies caesar(caesar(t, shift), (26 - shift % 26) as u8)[i]
        == t[i] by {
        lemma_shift_char_back(t[i], shift);
    }
    assert(caesar(caesar(t, shift), (26 - shift % 26) as u8) =~= t);
}

} // verus!
