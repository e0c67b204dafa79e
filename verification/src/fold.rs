//! Case normalization for case-insensitive matching: a locale-independent,
//! per-character lowercase mapping over the full character set.
//!
//! What a single character lowercases to is Unicode table data; it is named by
//! `char_lower` and supplied by the standard library. Everything built on top
//! of it — folding a whole text — is verified here.

use vstd::prelude::*;
use vstd::string::StrSliceExecFns;

verus! {

/// The lowercase mapping of one character: one or more characters that depend
/// on that character alone.
pub uninterp spec fn char_lower(c: char) -> Seq<char>;

/// Relies on char::to_lowercase: the Unicode lowercase mapping of a single
/// character, determined by that character alone.
#[verifier::external_body]
fn to_lowercase_char(c: char) -> (r: Vec<char>)
    ensures
        r@ == char_lower(c),
{
    c.to_lowercase().collect()
}

/// The case-normalized form of a text: each character replaced by its
/// lowercase mapping, in order.
pub open spec fn lower_seq(s: Seq<char>) -> Seq<char>
    decreases s.len(),
{
    if s.len() == 0 {
        Seq::empty()
    } else {
        char_lower(s[0]) + lower_seq(s.drop_first())
    }
}

/// Normalizing a text one character at a time agrees with normalizing the
/// whole: folding distributes over appending a character.
pub proof fn lemma_lower_seq_push(s: Seq<char>, c: char)
    ensures
        lower_seq(s.push(c)) == lower_seq(s) + char_lower(c),
    decreases s.len(),
{
    if s.len() == 0 {
        assert(s.push(c).drop_first() =~= Seq::<char>::empty());
        assert(lower_seq(Seq::<char>::empty()) == Seq::<char>::empty());
        assert(lower_seq(s.push(c)) =~= lower_seq(s) + char_lower(c));
    } else {
        assert(s.push(c).drop_first() =~= s.drop_first().push(c));
        lemma_lower_seq_push(s.drop_first(), c);
        assert(lower_seq(s.push(c)) =~= lower_seq(s) + char_lower(c));
    }
}

/// The case-normalized form of `s`, as characters.
pub fn lowercase(s: &str) -> (r: Vec<char>)
    ensures
        r@ == lower_seq(s@),
{
    let n: usize = s.unicode_len();
    let mut r: Vec<char> = Vec::new();
    let mut i: usize = 0;
    while i < n
        invariant
            n == s@.len(),
            i <= n,
            r@ == lower_seq(s@.take(i as int)),
        decreases n - i,
    {
        let c: char = s.get_char(i);
        let mut folded: Vec<char> = to_lowercase_char(c);
        proof {
            assert(s@.take(i as int).push(c) =~= s@.take(i as int + 1));
            lemma_lower_seq_push(s@.take(i as int), c);
        }
        r.append(&mut folded);
        i += 1;
    }
    proof {
        assert(s@.take(n as int) =~= s@);
    }
    r
}

} // verus!
