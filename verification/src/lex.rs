//! Lexicographic order on denominations and destinations. Settlement output
//! order is part of the observable contract, so the order is defined here
//! once, over character sequences, and used by every sorted structure.

use vstd::prelude::*;
use vstd::string::StrSliceExecFns;

verus! {

/// Strict lexicographic order on character sequences, by code point.
pub open spec fn lex_lt(a: Seq<char>, b: Seq<char>) -> bool
    decreases a.len(),
{
    if b.len() == 0 {
        false
    } else if a.len() == 0 {
        true
    } else if a[0] != b[0] {
        a[0] < b[0]
    } else {
        lex_lt(a.drop_first(), b.drop_first())
    }
}

/// `lex_lt` is a strict total order: of `a < b`, `b < a` and `a == b`,
/// exactly one holds.
pub proof fn lemma_lex_trichotomy(a: Seq<char>, b: Seq<char>)
    ensures
        a == b ==> !lex_lt(a, b) && !lex_lt(b, a),
        lex_lt(a, b) ==> !lex_lt(b, a) && a != b,
        !lex_lt(a, b) && !lex_lt(b, a) ==> a == b,
    decreases a.len() + b.len(),
{
    if a.len() == 0 || b.len() == 0 {
        if !lex_lt(a, b) && !lex_lt(b, a) {
            assert(a =~= b);
        }
    } else if a[0] != b[0] {
        if !lex_lt(a, b) && !lex_lt(b, a) {
            assert(a[0] == b[0]);
        }
    } else {
        lemma_lex_trichotomy(a.drop_first(), b.drop_first());
        if a == b {
            assert(a.drop_first() =~= b.drop_first());
        }
        if !lex_lt(a, b) && !lex_lt(b, a) {
            assert(a.drop_first() == b.drop_first());
            assert forall|k: int| 0 <= k < a.len() implies a[k] == b[k] by {
                if k > 0 {
                    assert(a[k] == a.drop_first()[k - 1]);
                    assert(b[k] == b.drop_first()[k - 1]);
                }
            }
            assert(a =~= b);
        }
        if lex_lt(a, b) {
            if a == b {
                assert(a.drop_first() =~= b.drop_first());
            }
        }
    }
}

/// Comparing two sequences that agree on their first `i` characters comes
/// down to comparing what follows that shared prefix.
pub proof fn lemma_lex_lt_common_prefix(a: Seq<char>, b: Seq<char>, i: int)
    requires
        0 <= i <= a.len(),
        i <= b.len(),
        forall|k: int| 0 <= k < i ==> a[k] == b[k],
    ensures
        lex_lt(a, b) == lex_lt(a.skip(i), b.skip(i)),
    decreases i,
{
    if i == 0 {
        assert(a.skip(0) =~= a);
        assert(b.skip(0) =~= b);
    } else {
        assert(a[0] == b[0]);
        assert(a.drop_first() =~= a.skip(1));
        assert(b.drop_first() =~= b.skip(1));
        lemma_lex_lt_common_prefix(a.skip(1), b.skip(1), i - 1);
        assert(a.skip(1).skip(i - 1) =~= a.skip(i));
        assert(b.skip(1).skip(i - 1) =~= b.skip(i));
    }
}

/// The outcome of comparing two strings lexicographically.
#[derive(Clone, Copy, Debug, PartialEq, Eq, Structural)]
pub enum StrCmp {
    Less,
    Equal,
    Greater,
}

/// Compares two strings in the order given by [`lex_lt`].
pub fn str_cmp(a: &str, b: &str) -> (r: StrCmp)
    ensures
        (r == StrCmp::Less) == lex_lt(a@, b@),
        (r == StrCmp::Greater) == lex_lt(b@, a@),
        (r == StrCmp::Equal) == (a@ == b@),
{
    let alen = a.unicode_len();
    let blen = b.unicode_len();
    let shorter: usize = if alen < blen { alen } else { blen };
    let mut i: usize = 0;
    while i < shorter
        invariant
            0 <= i <= shorter,
            shorter == if alen < blen { alen } else { blen },
            alen == a@.len(),
            blen == b@.len(),
            forall|k: int| 0 <= k < i ==> a@[k] == b@[k],
        decreases shorter - i,
    {
        let ca = a.get_char(i);
        let cb = b.get_char(i);
        if ca < cb {
            proof {
                lemma_lex_lt_common_prefix(a@, b@, i as int);
                lemma_lex_trichotomy(a@, b@);
            }
            return StrCmp::Less;
        }
        if cb < ca {
            proof {
                lemma_lex_lt_common_prefix(b@, a@, i as int);
                lemma_lex_trichotomy(a@, b@);
            }
            return StrCmp::Greater;
        }
        i = i + 1;
    }
    if alen < blen {
        proof {
            lemma_lex_lt_common_prefix(a@, b@, alen as int);
            lemma_lex_trichotomy(a@, b@);
        }
        StrCmp::Less
    } else if blen < alen {
        proof {
            lemma_lex_lt_common_prefix(b@, a@, blen as int);
            lemma_lex_trichotomy(a@, b@);
        }
        StrCmp::Greater
    } else {
        proof {
            assert(a@ =~= b@);
            lemma_lex_trichotomy(a@, b@);
        }
        StrCmp::Equal
    }
}

} // verus!
