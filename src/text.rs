use vstd::prelude::*;

use vstd::string::StringExecFns;

use crate::chars::{
    alphanumeric, ascii_alphanumeric, ascii_lower, ascii_whitespace, chars_of, lowercase,
    lowercase_of, to_ascii_lower, whitespace,
};

verus! {

broadcast use vstd::seq::Seq::lemma_filter_push;

/// Whether `c` is one of `a e i o u`, in either ASCII case.
pub open spec fn is_vowel(c: char) -> bool {
    let l = ascii_lower(c);
    l == 'a' || l == 'e' || l == 'i' || l == 'o' || l == 'u'
}

/// The number of characters of `s` that are vowels.
pub open spec fn vowel_count(s: Seq<char>) -> nat {
    s.filter(|c: char| is_vowel(c)).len()
}

/// Counts the characters of `s` that are ASCII vowels, upper or lower case.
pub fn count_vowels(s: &str) -> (r: usize)
    ensures
        r == vowel_count(s@),
{
    let cs = chars_of(s);
    let mut n: usize = 0;
    for i in 0..cs.len()
        invariant
            cs@ == s@,
            n == vowel_count(cs@.take(i as int)),
            n <= i,
    {
        assert(cs@.take(i + 1) =~= cs@.take(i as int).push(cs@[i as int]));
        let l = to_ascii_lower(cs[i]);
        if l == 'a' || l == 'e' || l == 'i' || l == 'o' || l == 'u' {
            n = n + 1;
        }
    }
    assert(cs@.take(cs@.len() as int) =~= s@);
    n
}

/// The characters of `s` in reverse order.
pub fn reverse_string(s: &str) -> (r: String)
    ensures
        r@ == s@.reverse(),
{
    let cs = chars_of(s);
    let len = cs.len();
    let mut r = String::new();
    let mut i: usize = len;
    while i > 0
        invariant
            cs@ == s@,
            len == cs@.len(),
            i <= len,
            r@.len() == len - i,
            forall|j: int| 0 <= j < len - i ==> r@[j] == cs@[len - 1 - j],
        decreases i,
    {
        i = i - 1;
        r.push(cs[i]);
    }
    assert(r@ =~= s@.reverse());
    r
}

/// Reversing a text twice gives the text back.
pub proof fn lemma_reverse_involution(t: Seq<char>)
    ensures
        t.reverse().reverse() == t,
{
    assert(t.reverse().reverse() =~= t);
}

/// What a palindrome test looks at: the alphanumeric characters of `s`, in
/// order, each replaced by its Unicode lower-case mapping.
pub open spec fn cleaned(s: Seq<char>) -> Seq<char>
    decreases s.len(),
{
    if s.len() == 0 {
        seq![]
    } else if alphanumeric(s.last()) {
        cleaned(s.drop_last()) + lowercase_of(s.last())
    } else {
        cleaned(s.drop_last())
    }
}

/// Whether the cleaned form of `s` reads the same backwards.
pub open spec fn palindrome(s: Seq<char>) -> bool {
    cleaned(s) == cleaned(s).reverse()
}

/// Among the ASCII characters of `s`, the alphanumeric ones are the letters
/// and digits, and each of them lowers as ASCII does.
pub open spec fn ascii_cleaning_known(s: Seq<char>) -> bool {
    forall|i: int|
        0 <= i < s.len() && (s[i] as u32) < 128 ==> (alphanumeric(s[i]) <==> ascii_alphanumeric(
            #[trigger] s[i],
        )) && (alphanumeric(s[i]) ==> lowercase_of(s[i]) == seq![ascii_lower(s[i])])
}

/// Whether `t` reads the same forwards and backwards, character by character.
pub fn reads_same_backwards(t: &str) -> (r: bool)
    ensures
        r == (t@ == t@.reverse()),
{
    let backwards = reverse_string(t);
    let forwards = String::from_str(t);
    forwards == backwards
}

/// Tests whether `s` is a palindrome once every character that is not
/// alphanumeric is dropped and the rest are taken in lower case.
pub fn is_palindrome(s: &str) -> (r: bool)
    ensures
        r == palindrome(s@),
        ascii_cleaning_known(s@),
{
    let cs = chars_of(s);
    let mut kept = String::new();
    for i in 0..cs.len()
        invariant
            cs@ == s@,
            kept@ == cleaned(cs@.take(i as int)),
            ascii_cleaning_known(cs@.take(i as int)),
    {
        let ghost next = cs@.take(i + 1);
        assert(next.drop_last() =~= cs@.take(i as int));
        let c = cs[i];
        if c.is_alphanumeric() {
            let low = lowercase(c);
            kept.append(low.as_str());
        }
        assert(ascii_cleaning_known(next)) by {
            assert forall|j: int| 0 <= j < next.len() && (next[j] as u32) < 128 implies (alphanumeric(
                next[j],
            ) <==> ascii_alphanumeric(#[trigger] next[j])) && (alphanumeric(next[j])
                ==> lowercase_of(next[j]) == seq![ascii_lower(next[j])]) by {
                if j < i {
                    assert(next[j] == cs@.take(i as int)[j]);
                }
            }
        }
    }
    assert(cs@.take(cs@.len() as int) =~= s@);
    reads_same_backwards(kept.as_str())
}

proof fn lemma_cleaned_concat(a: Seq<char>, b: Seq<char>)
    ensures
        cleaned(a + b) == cleaned(a) + cleaned(b),
    decreases b.len(),
{
    if b.len() == 0 {
        assert(a + b =~= a);
        assert(cleaned(a) + cleaned(b) =~= cleaned(a));
    } else {
        lemma_cleaned_concat(a, b.drop_last());
        assert((a + b).drop_last() =~= a + b.drop_last());
        assert((a + b).last() == b.last());
        if alphanumeric(b.last()) {
            assert(cleaned(a) + cleaned(b) =~= cleaned(a) + cleaned(b.drop_last()) + lowercase_of(
                b.last(),
            ));
        }
    }
}

/// A text is a palindrome exactly when its reversal is one, provided each of
/// its alphanumeric characters lowers to a single character.
pub proof fn lemma_palindrome_reverse(t: Seq<char>)
    requires
        forall|i: int| 0 <= i < t.len() && alphanumeric(#[trigger] t[i]) ==> lowercase_of(t[i]).len() == 1,
    ensures
        palindrome(t) == palindrome(t.reverse()),
{
    lemma_cleaned_reverse(t);
    lemma_reverse_involution(cleaned(t));
}

proof fn lemma_cleaned_reverse(t: Seq<char>)
    requires
        forall|i: int| 0 <= i < t.len() && alphanumeric(#[trigger] t[i]) ==> lowercase_of(t[i]).len() == 1,
    ensures
        cleaned(t.reverse()) == cleaned(t).reverse(),
    decreases t.len(),
{
    if t.len() == 0 {
        assert(t.reverse() =~= t);
        assert(cleaned(t).reverse() =~= cleaned(t));
    } else {
        let x = t.last();
        let rest = t.drop_last();
        assert forall|i: int| 0 <= i < rest.len() && alphanumeric(#[trigger] rest[i]) implies lowercase_of(
            rest[i],
        ).len() == 1 by {
            assert(rest[i] == t[i]);
        }
        lemma_cleaned_reverse(rest);
        assert(t.reverse() =~= seq![x] + rest.reverse());
        lemma_cleaned_concat(seq![x], rest.reverse());
        assert(seq![x].drop_last() =~= Seq::<char>::empty());
        let piece = cleaned(seq![x]);
        assert(seq![x].last() == x);
        assert(cleaned(Seq::<char>::empty()) =~= Seq::<char>::empty());
        if alphanumeric(x) {
            assert(t[t.len() - 1] == x);
            assert(piece =~= lowercase_of(x));
            assert(lowercase_of(x).len() == 1);
        } else {
            assert(piece =~= Seq::<char>::empty());
        }
        assert(piece.reverse() =~= piece);
        assert(cleaned(t) =~= cleaned(rest) + piece);
        assert((cleaned(rest) + piece).reverse() =~= piece.reverse() + cleaned(rest).reverse());
    }
}

/// For each character of `s`, whether it is whitespace.
pub open spec fn gaps(s: Seq<char>) -> Seq<bool> {
    s.map_values(|c: char| whitespace(c))
}

/// The lengths, in order, of the maximal runs of `false` in `g`. Over the
/// gaps of a text these are the lengths in characters of its words.
pub open spec fn runs(g: Seq<bool>) -> Seq<nat>
    decreases g.len(),
{
    if g.len() == 0 {
        seq![]
    } else {
        let prev = runs(g.drop_last());
        if g.last() {
            prev
        } else if g.len() >= 2 && !g[g.len() - 2] {
            prev.update(prev.len() - 1, (prev.last() + 1) as nat)
        } else {
            prev.push(1)
        }
    }
}

/// The greatest of `ns`, or 0 when `ns` is empty.
pub open spec fn max_of(ns: Seq<nat>) -> nat
    decreases ns.len(),
{
    if ns.len() == 0 {
        0
    } else {
        let m = max_of(ns.drop_last());
        if m >= ns.last() {
            m
        } else {
            ns.last()
        }
    }
}

/// Counts the maximal runs of `false` in `g`.
pub fn count_runs(g: &Vec<bool>) -> (r: usize)
    ensures
        r == runs(g@).len(),
{
    let mut n: usize = 0;
    for i in 0..g.len()
        invariant
            n == runs(g@.take(i as int)).len(),
            n <= i,
            i > 0 && !g@[i - 1] ==> n > 0,
    {
        let ghost next = g@.take(i + 1);
        assert(next.drop_last() =~= g@.take(i as int));
        assert(i > 0 ==> next[i - 1] == g@[i - 1]);
        if !g[i] && (i == 0 || g[i - 1]) {
            n = n + 1;
        }
    }
    assert(g@.take(g@.len() as int) =~= g@);
    n
}

/// The length of the longest run of `false` in `g`, or 0 when there is none.
pub fn longest_run(g: &Vec<bool>) -> (r: usize)
    ensures
        r == max_of(runs(g@)),
{
    let mut best: usize = 0;
    let mut run: usize = 0;
    for i in 0..g.len()
        invariant
            best == max_of(runs(g@.take(i as int))),
            run <= i,
            i > 0 && !g@[i - 1] ==> runs(g@.take(i as int)).len() > 0 && run == runs(
                g@.take(i as int),
            ).last(),
            i == 0 || g@[i - 1] ==> run == 0,
    {
        let ghost pre = g@.take(i as int);
        let ghost next = g@.take(i + 1);
        assert(next.drop_last() =~= pre);
        if g[i] {
            run = 0;
        } else {
            let ghost rs = runs(pre);
            if i == 0 || g[i - 1] {
                run = 1;
                assert(runs(next).drop_last() =~= rs);
            } else {
                run = run + 1;
                assert(runs(next).drop_last() =~= rs.drop_last());
            }
            if run > best {
                best = run;
            }
        }
    }
    assert(g@.take(g@.len() as int) =~= g@);
    best
}

/// Among the ASCII characters of `s`, the whitespace ones are those that
/// ASCII calls so.
pub open spec fn ascii_gaps_known(s: Seq<char>) -> bool {
    forall|i: int|
        0 <= i < s.len() && (s[i] as u32) < 128 ==> (whitespace(s[i]) <==> ascii_whitespace(
            #[trigger] s[i],
        ))
}

/// For each character of `s`, whether it is whitespace.
fn gaps_of(s: &str) -> (r: Vec<bool>)
    ensures
        r@ == gaps(s@),
        ascii_gaps_known(s@),
{
    let cs = chars_of(s);
    let mut r: Vec<bool> = Vec::new();
    for i in 0..cs.len()
        invariant
            cs@ == s@,
            r@ == gaps(cs@.take(i as int)),
            ascii_gaps_known(cs@.take(i as int)),
    {
        r.push(cs[i].is_whitespace());
        assert(ascii_gaps_known(cs@.take(i + 1))) by {
            let next = cs@.take(i + 1);
            assert forall|j: int| 0 <= j < next.len() && (next[j] as u32) < 128 implies (whitespace(next[j])
                <==> ascii_whitespace(#[trigger] next[j])) by {
                if j < i {
                    assert(next[j] == cs@.take(i as int)[j]);
                }
            }
        }
        assert(r@ =~= gaps(cs@.take(i + 1)));
    }
    assert(cs@.take(cs@.len() as int) =~= s@);
    r
}

/// Counts the whitespace-separated words of `s`.
pub fn word_count(s: &str) -> (r: usize)
    ensures
        r == runs(gaps(s@)).len(),
        ascii_gaps_known(s@),
{
    count_runs(&gaps_of(s))
}

/// The length in characters of the longest whitespace-separated word of `s`,
/// or 0 when `s` has no word.
pub fn longest_word_length(s: &str) -> (r: usize)
    ensures
        r == max_of(runs(gaps(s@))),
        ascii_gaps_known(s@),
{
    longest_run(&gaps_of(s))
}

} // verus!
