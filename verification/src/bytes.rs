//! Searching and comparing byte strings.

use vstd::prelude::*;
use vstd::slice::slice_subrange;

verus! {

/// The position of the first `b` in `s`, or the length of `s` if there is
/// none.
pub open spec fn first_index(s: Seq<u8>, b: u8) -> int
    decreases s.len(),
{
    if s.len() == 0 {
        0
    } else if s[0] == b {
        0
    } else {
        1 + first_index(s.drop_first(), b)
    }
}

/// Whether `b` occurs in `s`.
pub open spec fn has_byte(s: Seq<u8>, b: u8) -> bool {
    exists|i: int| 0 <= i < s.len() && s[i] == b
}

/// `first_index` is where the byte first stands: nothing before it matches.
pub proof fn lemma_first_index(s: Seq<u8>, b: u8)
    ensures
        0 <= first_index(s, b) <= s.len(),
        forall|j: int| 0 <= j < first_index(s, b) ==> s[j] != b,
        first_index(s, b) < s.len() ==> s[first_index(s, b)] == b,
        first_index(s, b) == s.len() <==> !has_byte(s, b),
    decreases s.len(),
{
    if s.len() > 0 && s[0] != b {
        let t = s.drop_first();
        lemma_first_index(t, b);
        assert forall|j: int| 0 <= j < first_index(s, b) implies s[j] != b by {
            if j > 0 {
                assert(t[j - 1] == s[j]);
            }
        }
        if first_index(t, b) < t.len() {
            assert(s[first_index(s, b)] == t[first_index(t, b)]);
        }
        if has_byte(s, b) {
            let i = choose|i: int| 0 <= i < s.len() && s[i] == b;
            assert(t[i - 1] == b);
        }
    }
}

/// A position that holds the byte, with no match before it, is the first
/// index; so is the length when nothing matches.
pub proof fn lemma_first_index_is(s: Seq<u8>, b: u8, i: int)
    requires
        0 <= i <= s.len(),
        forall|j: int| 0 <= j < i ==> s[j] != b,
        i < s.len() ==> s[i] == b,
    ensures
        first_index(s, b) == i,
{
    lemma_first_index(s, b);
    let f = first_index(s, b);
    if f < i {
        assert(s[f] == b);
    } else if f > i {
        assert(s[i] == b);
    }
}

/// Finds the first `b` in `s`. Returns the length of `s` if there is none.
pub fn find_byte(s: &[u8], b: u8) -> (i: usize)
    ensures
        i == first_index(s@, b),
        i <= s@.len(),
{
    let n = s.len();
    let mut i: usize = 0;
    while i < n
        invariant
            n == s@.len(),
            0 <= i <= n,
            forall|j: int| 0 <= j < i ==> s@[j] != b,
        decreases n - i,
    {
        if s[i] == b {
            proof {
                lemma_first_index_is(s@, b, i as int);
            }
            return i;
        }
        i += 1;
    }
    proof {
        lemma_first_index_is(s@, b, n as int);
    }
    n
}

/// The first `n` bytes of `s`, or all of `s` if it is shorter.
pub fn prefix(s: &[u8], n: usize) -> (p: &[u8])
    ensures
        p@ == s@.take(if n <= s@.len() { n as int } else { s@.len() as int }),
{
    let m = if n <= s.len() { n } else { s.len() };
    slice_subrange(s, 0, m)
}

/// Appends all of `extra` to `out`.
pub fn append(out: &mut Vec<u8>, extra: &[u8])
    ensures
        final(out)@ == old(out)@ + extra@,
{
    out.extend_from_slice(extra);
    assert(out@ =~= old(out)@ + extra@);
}


/// Bytewise lexicographic order: `a` comes no later than `b`. A proper
/// prefix comes before what it is a prefix of.
pub open spec fn lex_le(a: Seq<u8>, b: Seq<u8>) -> bool
    decreases a.len(),
{
    if a.len() == 0 {
        true
    } else if b.len() == 0 {
        false
    } else if a[0] != b[0] {
        a[0] < b[0]
    } else {
        lex_le(a.drop_first(), b.drop_first())
    }
}

/// Every byte string comes no later than itself.
pub proof fn lemma_lex_le_reflexive(a: Seq<u8>)
    ensures
        lex_le(a, a),
    decreases a.len(),
{
    if a.len() > 0 {
        lemma_lex_le_reflexive(a.drop_first());
    }
}

/// Of two byte strings, one comes no later than the other.
pub proof fn lemma_lex_le_total(a: Seq<u8>, b: Seq<u8>)
    ensures
        lex_le(a, b) || lex_le(b, a),
    decreases a.len(),
{
    if a.len() > 0 && b.len() > 0 && a[0] == b[0] {
        lemma_lex_le_total(a.drop_first(), b.drop_first());
    }
}

/// The order is transitive.
pub proof fn lemma_lex_le_transitive(a: Seq<u8>, b: Seq<u8>, c: Seq<u8>)
    requires
        lex_le(a, b),
        lex_le(b, c),
    ensures
        lex_le(a, c),
    decreases a.len(),
{
    if a.len() > 0 && b.len() > 0 && c.len() > 0 && a[0] == b[0] && b[0] == c[0] {
        lemma_lex_le_transitive(a.drop_first(), b.drop_first(), c.drop_first());
    }
}

/// Two byte strings that each come no later than the other are equal.
pub proof fn lemma_lex_le_antisymmetric(a: Seq<u8>, b: Seq<u8>)
    requires
        lex_le(a, b),
        lex_le(b, a),
    ensures
        a == b,
    decreases a.len(),
{
    if a.len() > 0 && b.len() > 0 {
        lemma_lex_le_antisymmetric(a.drop_first(), b.drop_first());
        assert(a =~= seq![a[0]] + a.drop_first());
        assert(b =~= seq![b[0]] + b.drop_first());
    } else {
        assert(a =~= b);
    }
}

/// Whether `a` comes no later than `b` in bytewise lexicographic order.
pub fn bytes_le(a: &[u8], b: &[u8]) -> (r: bool)
    ensures
        r == lex_le(a@, b@),
{
    let mut i: usize = 0;
    assert(a@.skip(0) =~= a@ && b@.skip(0) =~= b@);
    loop
        invariant
            0 <= i <= a@.len(),
            i <= b@.len(),
            lex_le(a@, b@) == lex_le(a@.skip(i as int), b@.skip(i as int)),
        decreases a@.len() - i,
    {
        if i == a.len() {
            return true;
        }
        if i == b.len() {
            return false;
        }
        if a[i] != b[i] {
            return a[i] < b[i];
        }
        proof {
            assert(a@.skip(i as int).drop_first() =~= a@.skip(i + 1));
            assert(b@.skip(i as int).drop_first() =~= b@.skip(i + 1));
        }
        i += 1;
    }
}

/// Whether two byte strings are equal.
pub fn bytes_eq(a: &[u8], b: &[u8]) -> (r: bool)
    ensures
        r == (a@ == b@),
{
    if a.len() != b.len() {
        return false;
    }
    let n = a.len();
    let mut i: usize = 0;
    while i < n
        invariant
            n == a@.len(),
            n == b@.len(),
            0 <= i <= n,
            forall|j: int| 0 <= j < i ==> a@[j] == b@[j],
        decreases n - i,
    {
        if a[i] != b[i] {
            return false;
        }
        i += 1;
    }
    assert(a@ =~= b@);
    true
}

} // verus!
