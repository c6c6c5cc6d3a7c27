//! Splitting text at a separator character.
use vstd::prelude::*;

verus! {

/// The pieces of `s` between occurrences of `sep`, in order; there is always
/// one more piece than there are separators, and pieces may be empty.
pub open spec fn pieces(s: Seq<char>, sep: char) -> Seq<Seq<char>>
    decreases s.len(),
{
    if s.len() == 0 {
        seq![Seq::<char>::empty()]
    } else {
        let prev = pieces(s.drop_last(), sep);
        if s.last() == sep {
            prev.push(Seq::<char>::empty())
        } else {
            prev.update(prev.len() - 1, prev.last().push(s.last()))
        }
    }
}

/// Whether `piece` stands somewhere in `s`, character for character.
pub open spec fn contains_text(s: Seq<char>, piece: Seq<char>) -> bool {
    exists|i: int| 0 <= i && i + piece.len() <= s.len() && #[trigger] s.subrange(i, i + piece.len()) == piece
}

/// `piece` stands in `a + piece + b`.
pub proof fn lemma_contains_between(a: Seq<char>, piece: Seq<char>, b: Seq<char>)
    ensures
        contains_text(a + piece + b, piece),
{
    let s = a + piece + b;
    assert(s.subrange(a.len() as int, (a.len() + piece.len()) as int) =~= piece);
}

pub(crate) proof fn lemma_pieces_nonempty(s: Seq<char>, sep: char)
    ensures
        pieces(s, sep).len() >= 1,
    decreases s.len(),
{
    if s.len() > 0 {
        lemma_pieces_nonempty(s.drop_last(), sep);
    }
}

/// Splitting `a`, a separator, then `b` gives the pieces of `a` followed by those of `b`.
pub(crate) proof fn lemma_pieces_concat(sep: char, a: Seq<char>, b: Seq<char>)
    ensures
        pieces(a + seq![sep] + b, sep) == pieces(a, sep) + pieces(b, sep),
    decreases b.len(),
{
    let x = a + seq![sep] + b;
    if b.len() == 0 {
        assert(x.drop_last() =~= a);
        assert(pieces(x, sep) =~= pieces(a, sep) + pieces(b, sep));
    } else {
        let b0 = b.drop_last();
        lemma_pieces_concat(sep, a, b0);
        lemma_pieces_nonempty(b0, sep);
        lemma_pieces_nonempty(a, sep);
        assert(x.drop_last() =~= a + seq![sep] + b0);
        assert(x.last() == b.last());
        assert(pieces(x, sep) =~= pieces(a, sep) + pieces(b, sep));
    }
}

pub(crate) proof fn lemma_pieces_without_separator(sep: char, s: Seq<char>)
    requires
        !s.contains(sep),
    ensures
        pieces(s, sep) == seq![s],
    decreases s.len(),
{
    if s.len() > 0 {
        let s0 = s.drop_last();
        assert(!s0.contains(sep)) by {
            if s0.contains(sep) {
                let i = choose|i: int| 0 <= i < s0.len() && s0[i] == sep;
                assert(s[i] == sep);
            }
        }
        lemma_pieces_without_separator(sep, s0);
        assert(s.last() != sep) by {
            assert(s[s.len() - 1] == s.last());
        }
        assert(s0.push(s.last()) =~= s);
        assert(pieces(s, sep) =~= seq![s]);
    } else {
        assert(s =~= Seq::<char>::empty());
    }
}

pub(crate) proof fn lemma_pieces_have_no_separator(sep: char, s: Seq<char>)
    ensures
        forall|i: int|
            0 <= i < pieces(s, sep).len() ==> !(#[trigger] pieces(s, sep)[i]).contains(sep),
    decreases s.len(),
{
    if s.len() > 0 {
        let s0 = s.drop_last();
        lemma_pieces_have_no_separator(sep, s0);
        lemma_pieces_nonempty(s0, sep);
        let prev = pieces(s0, sep);
        if s.last() != sep {
            let last = prev.last().push(s.last());
            assert(!last.contains(sep)) by {
                if last.contains(sep) {
                    let j = choose|j: int| 0 <= j < last.len() && last[j] == sep;
                    if j < prev.last().len() {
                        assert(prev[prev.len() - 1][j] == sep);
                    }
                }
            }
        }
        assert forall|i: int| 0 <= i < pieces(s, sep).len() implies !(
        #[trigger] pieces(s, sep)[i]).contains(sep) by {
            if i < prev.len() - 1 {
                assert(pieces(s, sep)[i] == prev[i]);
            } else if i == prev.len() - 1 {
                if s.last() == sep {
                    assert(pieces(s, sep)[i] == prev[i]);
                }
            } else {
                assert(pieces(s, sep)[i] =~= Seq::<char>::empty());
            }
        }
    }
}

pub(crate) proof fn lemma_first_piece_is_prefix(sep: char, s: Seq<char>)
    ensures
        pieces(s, sep)[0].len() <= s.len(),
        pieces(s, sep)[0] == s.take(pieces(s, sep)[0].len() as int),
        pieces(s, sep).len() == 1 ==> pieces(s, sep)[0] == s,
    decreases s.len(),
{
    lemma_pieces_nonempty(s, sep);
    if s.len() > 0 {
        let s0 = s.drop_last();
        lemma_first_piece_is_prefix(sep, s0);
        lemma_pieces_nonempty(s0, sep);
        let prev = pieces(s0, sep);
        if s.last() != sep && prev.len() == 1 {
            assert(s0.push(s.last()) =~= s);
            assert(pieces(s, sep)[0] =~= s);
            assert(s.take(s.len() as int) =~= s);
        } else {
            assert(pieces(s, sep)[0] == prev[0]);
            assert(s.take(prev[0].len() as int) =~= s0.take(prev[0].len() as int));
        }
    } else {
        assert(s.take(0) =~= Seq::<char>::empty());
    }
}

/// Whether two texts are the same.
pub fn same_text(a: &str, b: &str) -> (r: bool)
    ensures
        r == (a@ == b@),
{
    let n = a.unicode_len();
    if n != b.unicode_len() {
        return false;
    }
    let mut i: usize = 0;
    while i < n
        invariant
            n == a@.len(),
            n == b@.len(),
            i <= n,
            forall|j: int| 0 <= j < i ==> a@[j] == b@[j],
        decreases n - i,
    {
        if a.get_char(i) != b.get_char(i) {
            return false;
        }
        i = i + 1;
    }
    assert(a@ =~= b@);
    true
}

/// A character that `s` does not hold is in none of its pieces.
pub(crate) proof fn lemma_pieces_avoid(sep: char, s: Seq<char>, c: char)
    requires
        !s.contains(c),
    ensures
        forall|i: int| 0 <= i < pieces(s, sep).len() ==> !(#[trigger] pieces(s, sep)[i]).contains(c),
    decreases s.len(),
{
    if s.len() > 0 {
        let s0 = s.drop_last();
        assert(!s0.contains(c)) by {
            if s0.contains(c) {
                let k = choose|k: int| 0 <= k < s0.len() && s0[k] == c;
                assert(s[k] == c);
            }
        }
        lemma_pieces_avoid(sep, s0, c);
        lemma_pieces_nonempty(s0, sep);
        let prev = pieces(s0, sep);
        assert(s.last() != c) by {
            assert(s[s.len() - 1] == s.last());
        }
        if s.last() != sep {
            let last = prev.last().push(s.last());
            assert(!last.contains(c)) by {
                if last.contains(c) {
                    let j = choose|j: int| 0 <= j < last.len() && last[j] == c;
                    if j < prev.last().len() {
                        assert(prev[prev.len() - 1][j] == c);
                    }
                }
            }
        }
        assert forall|i: int| 0 <= i < pieces(s, sep).len() implies !(
        #[trigger] pieces(s, sep)[i]).contains(c) by {
            if i < prev.len() - 1 {
                assert(pieces(s, sep)[i] == prev[i]);
            } else if i == prev.len() - 1 {
                if s.last() == sep {
                    assert(pieces(s, sep)[i] == prev[i]);
                }
            } else {
                assert(pieces(s, sep)[i] =~= Seq::<char>::empty());
            }
        }
    }
}

} // verus!
