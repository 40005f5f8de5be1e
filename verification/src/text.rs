//! Text helpers: comparing, splitting and joining names.
use vstd::prelude::*;
use vstd::string::{StrSliceExecFns, StringExecFns};

verus! {

/// `s` cut at every `sep`: the pieces between separators, in order, empty ones included.
pub open spec fn split_on(s: Seq<char>, sep: char) -> Seq<Seq<char>>
    decreases s.len(),
{
    if s.len() == 0 {
        seq![Seq::<char>::empty()]
    } else {
        let pieces = split_on(s.drop_last(), sep);
        if s.last() == sep {
            pieces.push(Seq::<char>::empty())
        } else {
            pieces.update(pieces.len() - 1, pieces.last().push(s.last()))
        }
    }
}

/// Splitting always gives at least one piece.
pub proof fn lemma_split_on_nonempty(s: Seq<char>, sep: char)
    ensures
        split_on(s, sep).len() >= 1,
    decreases s.len(),
{
    if s.len() > 0 {
        lemma_split_on_nonempty(s.drop_last(), sep);
    }
}

/// Splitting `x`, a separator and `y` gives the pieces of `x`, then those of `y`.
pub proof fn lemma_split_on_join(x: Seq<char>, y: Seq<char>, sep: char)
    ensures
        split_on(x + seq![sep] + y, sep) == split_on(x, sep) + split_on(y, sep),
    decreases y.len(),
{
    let s = x + seq![sep] + y;
    if y.len() == 0 {
        assert(s.drop_last() =~= x);
        assert(split_on(y, sep) =~= seq![Seq::<char>::empty()]);
        assert(split_on(x, sep).push(Seq::<char>::empty()) =~= split_on(x, sep) + split_on(y, sep));
    } else {
        assert(s.drop_last() =~= x + seq![sep] + y.drop_last());
        lemma_split_on_join(x, y.drop_last(), sep);
        lemma_split_on_nonempty(y.drop_last(), sep);
        let a = split_on(x, sep);
        let b = split_on(y.drop_last(), sep);
        if y.last() == sep {
            assert((a + b).push(Seq::<char>::empty()) =~= a + b.push(Seq::<char>::empty()));
        } else {
            assert((a + b).update((a + b).len() - 1, (a + b).last().push(y.last())) =~= a + b.update(
                b.len() - 1,
                b.last().push(y.last()),
            ));
        }
    }
}

/// Text with no separator in it is a single piece.
pub proof fn lemma_split_on_whole(s: Seq<char>, sep: char)
    requires
        !s.contains(sep),
    ensures
        split_on(s, sep) == seq![s],
    decreases s.len(),
{
    if s.len() > 0 {
        assert(!s.drop_last().contains(sep)) by {
            if s.drop_last().contains(sep) {
                let i = choose|i: int| 0 <= i < s.drop_last().len() && s.drop_last()[i] == sep;
                assert(s[i] == sep);
            }
        }
        lemma_split_on_whole(s.drop_last(), sep);
        assert(s.last() != sep) by {
            if s.last() == sep {
                assert(s[s.len() - 1] == sep);
            }
        }
        assert(s.drop_last().push(s.last()) =~= s);
        assert(seq![s.drop_last()].update(0, s.drop_last().push(s.last())) =~= seq![s]);
    } else {
        assert(s =~= Seq::<char>::empty());
    }
}

/// The pieces of a dotted name, its leading dot dropped, are the pieces it was made of,
/// when none of them holds a dot, then those of what follows.
pub proof fn lemma_split_dotted(pieces: Seq<Seq<char>>, w: Seq<char>)
    requires
        forall|i: int| 0 <= i < pieces.len() ==> !(#[trigger] pieces[i]).contains('.'),
    ensures
        split_on((dotted(pieces) + seq!['.'] + w).drop_first(), '.') == pieces + split_on(w, '.'),
    decreases pieces.len(),
{
    if pieces.len() == 0 {
        assert((dotted(pieces) + seq!['.'] + w).drop_first() =~= w);
        assert(pieces + split_on(w, '.') =~= split_on(w, '.'));
    } else {
        let init = pieces.drop_last();
        let last = pieces.last();
        let w2 = last + seq!['.'] + w;
        assert(dotted(pieces) + seq!['.'] + w =~= dotted(init) + seq!['.'] + w2);
        lemma_split_dotted(init, w2);
        lemma_split_on_join(last, w, '.');
        lemma_split_on_whole(last, '.');
        assert(init + split_on(w2, '.') =~= pieces + split_on(w, '.'));
    }
}

/// Every piece, each preceded by a dot.
pub open spec fn dotted(pieces: Seq<Seq<char>>) -> Seq<char>
    decreases pieces.len(),
{
    if pieces.len() == 0 {
        Seq::empty()
    } else {
        dotted(pieces.drop_last()) + seq!['.'] + pieces.last()
    }
}

/// The text of each string.
pub open spec fn texts(v: Seq<String>) -> Seq<Seq<char>> {
    v.map_values(|s: String| s@)
}

/// Appends one character to a string.
///
/// Calls `String::push`, which std documents to append the character at the end.
#[verifier::external_body]
pub(crate) fn push_char(s: &mut String, c: char)
    ensures
        final(s)@ == old(s)@.push(c),
{
    s.push(c);
}

/// Whether two strings hold the same characters.
pub fn str_eq(a: &str, b: &str) -> (r: bool)
    ensures
        r == (a@ == b@),
{
    let n = a.unicode_len();
    if n != b.unicode_len() {
        return false;
    }
    let mut i: usize = 0;
    while i < n
        invariant
            n == a@.len() == b@.len(),
            i <= n,
            forall|j: int| 0 <= j < i ==> a@[j] == b@[j],
        decreases n - i,
    {
        if a.get_char(i) != b.get_char(i) {
            return false;
        }
        i = i + 1;
    }
    assert(a@ =~= b@);
    true
}

/// A string holding the characters of `s`.
pub fn to_string(s: &str) -> (r: String)
    ensures
        r@ == s@,
{
    String::from_str(s)
}

/// Cuts `s` at every `.`.
pub fn split_dots(s: &str) -> (r: Vec<String>)
    ensures
        texts(r@) == split_on(s@, '.'),
{
    let n = s.unicode_len();
    let mut out: Vec<String> = Vec::new();
    let mut cur = String::new();
    let mut i: usize = 0;
    while i < n
        invariant
            n == s@.len(),
            i <= n,
            texts(out@).push(cur@) == split_on(s@.subrange(0, i as int), '.'),
        decreases n - i,
    {
        let c = s.get_char(i);
        let ghost prefix = s@.subrange(0, (i + 1) as int);
        assert(prefix.drop_last() =~= s@.subrange(0, i as int));
        assert(prefix.last() == c);
        let ghost old_out = out@;
        let ghost old_cur = cur@;
        if c == '.' {
            out.push(cur);
            cur = String::new();
            assert(texts(out@) =~= texts(old_out).push(old_cur));
            assert(texts(out@).push(cur@) =~= texts(old_out).push(old_cur).push(Seq::<char>::empty()));
        } else {
            push_char(&mut cur, c);
            assert(texts(out@).push(cur@) =~= texts(old_out).push(old_cur).update(
                texts(old_out).push(old_cur).len() - 1,
                texts(old_out).push(old_cur).last().push(c),
            ));
        }
        i = i + 1;
    }
    out.push(cur);
    assert(s@.subrange(0, n as int) =~= s@);
    assert(texts(out@) =~= split_on(s@, '.'));
    out
}

} // verus!
