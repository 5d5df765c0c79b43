//! Characters, substring containment, and lower-casing.

use vstd::prelude::*;
use vstd::string::*;

verus! {

/// `needle` occurs in `hay` as a contiguous run starting at position `i`.
pub open spec fn contains_at(hay: Seq<char>, needle: Seq<char>, i: int) -> bool {
    &&& 0 <= i
    &&& i + needle.len() <= hay.len()
    &&& hay.subrange(i, i + needle.len() as int) == needle
}

/// `needle` occurs somewhere in `hay` as a contiguous run.
pub open spec fn contains_seq(hay: Seq<char>, needle: Seq<char>) -> bool {
    exists|i: int| contains_at(hay, needle, i)
}

/// The characters of `s`, collected into an indexable vector.
pub fn chars_vec(s: &str) -> (r: Vec<char>)
    ensures
        r@ == s@,
{
    let n: usize = s.unicode_len();
    let mut r: Vec<char> = Vec::new();
    let mut i: usize = 0;
    while i < n
        invariant
            n == s@.len(),
            i <= n,
            r@ == s@.subrange(0, i as int),
        decreases n - i,
    {
        r.push(s.get_char(i));
        i = i + 1;
        proof {
            assert(r@ =~= s@.subrange(0, i as int));
        }
    }
    proof {
        assert(s@.subrange(0, n as int) =~= s@);
    }
    r
}

/// Whether `needle` matches the characters of `hay` starting at position `i`.
fn match_at(hay: &Vec<char>, i: usize, needle: &Vec<char>) -> (b: bool)
    requires
        i + needle@.len() <= hay@.len(),
    ensures
        b == contains_at(hay@, needle@, i as int),
{
    let h: usize = hay.len();
    let m: usize = needle.len();
    let mut k: usize = 0;
    while k < m
        invariant
            h == hay@.len(),
            m == needle@.len(),
            i + m <= h,
            k <= m,
            forall|j: int| 0 <= j < k ==> hay@[i + j] == needle@[j],
        decreases m - k,
    {
        if hay[i + k] != needle[k] {
            proof {
                assert(hay@.subrange(i as int, i + m as int)[k as int] == hay@[i + k]);
            }
            return false;
        }
        k = k + 1;
    }
    proof {
        assert(hay@.subrange(i as int, i + m as int) =~= needle@);
    }
    true
}

/// Whether `needle` occurs in `hay` as a contiguous run of characters.
pub fn contains_chars(hay: &Vec<char>, needle: &Vec<char>) -> (b: bool)
    ensures
        b == contains_seq(hay@, needle@),
{
    let h: usize = hay.len();
    let m: usize = needle.len();
    if m > h {
        proof {
            assert(forall|i: int| !contains_at(hay@, needle@, i));
        }
        return false;
    }
    let last: usize = h - m;
    let mut i: usize = 0;
    while i < last
        invariant
            h == hay@.len(),
            m == needle@.len(),
            m <= h,
            last == h - m,
            i <= last,
            forall|j: int| 0 <= j < i ==> !contains_at(hay@, needle@, j),
        decreases last - i,
    {
        if match_at(hay, i, needle) {
            proof {
                assert(contains_at(hay@, needle@, i as int));
            }
            return true;
        }
        i = i + 1;
    }
    if match_at(hay, last, needle) {
        proof {
            assert(contains_at(hay@, needle@, last as int));
        }
        return true;
    }
    proof {
        assert(forall|j: int| contains_at(hay@, needle@, j) ==> 0 <= j <= h - m);
    }
    false
}

/// Whether `pattern` occurs in `text` as a contiguous run of characters.
pub fn contains_str(text: &str, pattern: &str) -> (b: bool)
    ensures
        b == contains_seq(text@, pattern@),
{
    let hay: Vec<char> = chars_vec(text);
    let needle: Vec<char> = chars_vec(pattern);
    contains_chars(&hay, &needle)
}

/// The sequence of characters that lower-casing one character yields.
pub uninterp spec fn char_lowered(c: char) -> Seq<char>;

/// A character sequence lower-cased: each character replaced by its
/// lowercase mapping, in place.
pub open spec fn lowered(s: Seq<char>) -> Seq<char>
    decreases s.len(),
{
    if s.len() == 0 {
        Seq::empty()
    } else {
        char_lowered(s[0]) + lowered(s.drop_first())
    }
}

/// Relies on char::to_lowercase: yields the Unicode lowercase mapping of the
/// character, one or more characters that depend on the character alone.
#[verifier::external_body]
fn lowercase_char(c: char) -> (r: Vec<char>)
    ensures
        r@ == char_lowered(c),
{
    c.to_lowercase().collect()
}

/// Lower-casing one character at a time agrees with `lowered` on
/// concatenations.
pub proof fn lemma_lowered_add(a: Seq<char>, b: Seq<char>)
    ensures
        lowered(a + b) == lowered(a) + lowered(b),
    decreases a.len(),
{
    if a.len() == 0 {
        assert(a + b =~= b);
        assert(lowered(a) + lowered(b) =~= lowered(b));
    } else {
        assert((a + b).drop_first() =~= a.drop_first() + b);
        lemma_lowered_add(a.drop_first(), b);
        assert((a + b)[0] == a[0]);
        assert(char_lowered(a[0]) + (lowered(a.drop_first()) + lowered(b)) =~= (char_lowered(
            a[0],
        ) + lowered(a.drop_first())) + lowered(b));
    }
}

/// Lower-casing a single character as a sequence.
pub proof fn lemma_lowered_singleton(c: char)
    ensures
        lowered(seq![c]) == char_lowered(c),
{
    assert(seq![c].drop_first() =~= Seq::<char>::empty());
    assert(seq![c][0] == c);
    assert(lowered(Seq::<char>::empty()) == Seq::<char>::empty());
    assert(char_lowered(c) + Seq::<char>::empty() =~= char_lowered(c));
}

/// Containment survives lower-casing: where a run occurs in a sequence, its
/// lower-cased form occurs in the lower-cased sequence.
pub proof fn lemma_lowered_preserves_contains(hay: Seq<char>, needle: Seq<char>)
    requires
        contains_seq(hay, needle),
    ensures
        contains_seq(lowered(hay), lowered(needle)),
{
    let i = choose|i: int| contains_at(hay, needle, i);
    let a = hay.subrange(0, i);
    let b = hay.subrange(i + needle.len() as int, hay.len() as int);
    assert(hay =~= (a + needle) + b);
    lemma_lowered_add(a + needle, b);
    lemma_lowered_add(a, needle);
    let la = lowered(a);
    let ln = lowered(needle);
    let lb = lowered(b);
    assert(lowered(hay) == (la + ln) + lb);
    assert(((la + ln) + lb).subrange(la.len() as int, la.len() + ln.len() as int) =~= ln);
    assert(contains_at(lowered(hay), lowered(needle), la.len() as int));
}

/// The characters of `s` lower-cased, one character at a time.
pub fn lowercase_chars(s: &Vec<char>) -> (r: Vec<char>)
    ensures
        r@ == lowered(s@),
{
    let n: usize = s.len();
    let mut r: Vec<char> = Vec::new();
    let mut i: usize = 0;
    proof {
        assert(s@.subrange(0, 0) =~= Seq::<char>::empty());
    }
    while i < n
        invariant
            n == s@.len(),
            i <= n,
            r@ == lowered(s@.subrange(0, i as int)),
        decreases n - i,
    {
        let mut piece: Vec<char> = lowercase_char(s[i]);
        r.append(&mut piece);
        proof {
            let pre = s@.subrange(0, i as int);
            assert(s@.subrange(0, (i + 1) as int) =~= pre + seq![s@[i as int]]);
            lemma_lowered_add(pre, seq![s@[i as int]]);
            lemma_lowered_singleton(s@[i as int]);
        }
        i = i + 1;
    }
    proof {
        assert(s@.subrange(0, n as int) =~= s@);
    }
    r
}

} // verus!
