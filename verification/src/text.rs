//! Text helpers: the order of labels, and the string functions of other
//! libraries whose behaviour is stated here without proof.

use vstd::prelude::*;
use vstd::std_specs::iter::IteratorSpec;
use winnow::stream::SliceLen;

verus! {

/// `String::push` appends one character to the text. Stated as the
/// standard library documents it; not proved.
pub assume_specification[ String::push ](text: &mut String, c: char)
    ensures
        final(text)@ == old(text)@.push(c),
;

/// The lowercase form that `str::to_lowercase` gives a text, by the Unicode
/// rules that the standard library carries.
pub uninterp spec fn lowercase_of(text: Seq<char>) -> Seq<char>;

/// `str::to_lowercase` gives the lowercase form of the text, which depends
/// on the characters of the text alone. Not proved; what the form is, the
/// standard library decides.
pub assume_specification[ str::to_lowercase ](text: &str) -> (lower: String)
    ensures
        lower@ == lowercase_of(text@),
;

/// What `str::trim` leaves of a text: the text without its leading and
/// trailing Unicode white space.
pub uninterp spec fn trimmed_of(text: Seq<char>) -> Seq<char>;

/// `str::trim` gives the text without the white space at its ends, which
/// depends on the characters of the text alone. Not proved; which
/// characters are white space, the standard library decides.
pub assume_specification<'a>[ str::trim ](text: &'a str) -> (inner: &'a str)
    ensures
        inner@ == trimmed_of(text@),
;

/// `winnow::stream::SliceLen::slice_len` of a string slice is its
/// `str::len`: the number of bytes of the text in UTF-8. Not proved.
#[verifier::external_body]
pub(crate) fn slice_len(text: &str) -> (n: usize)
    ensures
        n == text.len(),
{
    text.slice_len()
}

/// Lexicographic order of two texts by the code points of their characters;
/// a proper prefix comes before the longer text.
pub open spec fn label_lt(a: Seq<char>, b: Seq<char>) -> bool
    decreases a.len(),
{
    if b.len() == 0 {
        false
    } else if a.len() == 0 {
        true
    } else if a[0] != b[0] {
        (a[0] as u32) < (b[0] as u32)
    } else {
        label_lt(a.drop_first(), b.drop_first())
    }
}

/// No text comes before itself.
pub proof fn lemma_label_lt_irreflexive(a: Seq<char>)
    ensures
        !label_lt(a, a),
    decreases a.len(),
{
    if a.len() > 0 {
        lemma_label_lt_irreflexive(a.drop_first());
    }
}

/// Of two different texts one comes before the other.
pub proof fn lemma_label_lt_total(a: Seq<char>, b: Seq<char>)
    ensures
        a == b || label_lt(a, b) || label_lt(b, a),
    decreases a.len(),
{
    if a.len() == 0 || b.len() == 0 {
        assert(a.len() == 0 && b.len() == 0 ==> a =~= b);
    } else if a[0] == b[0] {
        lemma_label_lt_total(a.drop_first(), b.drop_first());
        if a.drop_first() == b.drop_first() {
            assert(a =~= seq![a[0]] + a.drop_first());
            assert(b =~= seq![b[0]] + b.drop_first());
        }
    } else {
        vstd::utf8::char_u32_cast(a[0], a[0] as u32);
        vstd::utf8::char_u32_cast(b[0], b[0] as u32);
    }
}

/// The order is transitive.
pub proof fn lemma_label_lt_transitive(a: Seq<char>, b: Seq<char>, c: Seq<char>)
    requires
        label_lt(a, b),
        label_lt(b, c),
    ensures
        label_lt(a, c),
    decreases a.len(),
{
    if a.len() > 0 && a[0] == b[0] && b[0] == c[0] {
        lemma_label_lt_transitive(a.drop_first(), b.drop_first(), c.drop_first());
    }
}

/// Labels in strictly ascending order: each comes before all that follow it.
pub open spec fn ascending(labels: Seq<Seq<char>>) -> bool {
    forall|i: int, j: int|
        0 <= i < j < labels.len() ==> label_lt(#[trigger] labels[i], #[trigger] labels[j])
}

/// Ascending labels differ from place to place.
pub proof fn lemma_ascending_distinct(labels: Seq<Seq<char>>, i: int, j: int)
    requires
        ascending(labels),
        0 <= i < labels.len(),
        0 <= j < labels.len(),
        i != j,
    ensures
        labels[i] != labels[j],
{
    lemma_label_lt_irreflexive(labels[i]);
    if i < j {
        assert(label_lt(labels[i], labels[j]));
    } else {
        assert(label_lt(labels[j], labels[i]));
    }
}

/// Whether `a` comes before `b` in the order of labels.
pub fn label_less(a: &str, b: &str) -> (less: bool)
    ensures
        less == label_lt(a@, b@),
{
    let mut left = a.chars();
    let mut right = b.chars();
    loop
        invariant
            left.obeys_prophetic_iter_laws(),
            right.obeys_prophetic_iter_laws(),
            left.decrease() is Some,
            label_lt(a@, b@) == label_lt(left.remaining(), right.remaining()),
        decreases left.decrease()->0,
    {
        let x = left.next();
        let y = right.next();
        match (x, y) {
            (_, None) => {
                return false;
            },
            (None, Some(_)) => {
                return true;
            },
            (Some(p), Some(q)) => {
                if p != q {
                    return (p as u32) < (q as u32);
                }
            },
        }
    }
}

/// Whether two texts hold the same characters.
pub fn label_same(a: &str, b: &str) -> (same: bool)
    ensures
        same == (a@ == b@),
{
    let mut left = a.chars();
    let mut right = b.chars();
    let ghost mut done: Seq<char> = Seq::empty();
    loop
        invariant
            left.obeys_prophetic_iter_laws(),
            right.obeys_prophetic_iter_laws(),
            left.decrease() is Some,
            a@ == done + left.remaining(),
            b@ == done + right.remaining(),
        decreases left.decrease()->0,
    {
        let x = left.next();
        let y = right.next();
        match (x, y) {
            (None, None) => {
                return true;
            },
            (Some(p), Some(q)) => {
                if p != q {
                    assert(a@[done.len() as int] == p);
                    assert(b@[done.len() as int] == q);
                    return false;
                }
                proof {
                    done = done.push(p);
                }
            },
            _ => {
                return false;
            },
        }
    }
}

} // verus!
