//! Three-way comparators on identifiers and numbers.

use std::cmp::Ordering;
use std::vec::IntoIter;
use vstd::prelude::*;
use vstd::std_specs::iter::IteratorSpec;

verus! {

/// Module identifiers are the modules' resource strings.
pub type Identifier = String;

/// What std's `str::to_lowercase` gives for a string, as a sequence of chars.
pub uninterp spec fn spec_to_lowercase(s: Seq<char>) -> Seq<char>;

/// Calls std's `str::to_lowercase`. The contract claims only that the result
/// depends on the characters of the argument alone (Unicode lowercase mapping);
/// which characters it holds is left to the name `spec_to_lowercase`.
#[verifier::external_body]
fn str_to_lowercase(s: &str) -> (r: String)
    ensures
        r@ == spec_to_lowercase(s@),
{
    s.to_lowercase()
}

/// Lexicographic order of two char sequences by code point, which is the
/// order of Rust's `<` on `str` (UTF-8 byte order agrees with code point order).
pub open spec fn lex_order(a: Seq<char>, b: Seq<char>) -> Ordering
    decreases a.len(),
{
    if a.len() == 0 {
        if b.len() == 0 {
            Ordering::Equal
        } else {
            Ordering::Less
        }
    } else if b.len() == 0 {
        Ordering::Greater
    } else if a[0] < b[0] {
        Ordering::Less
    } else if a[0] > b[0] {
        Ordering::Greater
    } else {
        lex_order(a.drop_first(), b.drop_first())
    }
}

/// The order in which `compare_ids` puts two identifiers.
pub open spec fn ids_order(a: Seq<char>, b: Seq<char>) -> Ordering {
    lex_order(spec_to_lowercase(a), spec_to_lowercase(b))
}

/// The characters of `s` from position `i` on.
pub open spec fn suffix(s: Seq<char>, i: usize) -> Seq<char> {
    s.skip(i as int)
}

/// Compares two strings char by char (code point order), as `<` and `>` on
/// `String` do.
pub fn compare_strs(a: &str, b: &str) -> (r: Ordering)
    ensures
        r == lex_order(a@, b@),
{
    let la = a.unicode_len();
    let lb = b.unicode_len();
    let mut i: usize = 0;
    assert(suffix(a@, i) =~= a@);
    assert(suffix(b@, i) =~= b@);
    while i < la && i < lb
        invariant
            la == a@.len(),
            lb == b@.len(),
            i <= la,
            i <= lb,
            lex_order(a@, b@) == lex_order(suffix(a@, i), suffix(b@, i)),
        decreases la - i,
    {
        let ca = a.get_char(i);
        let cb = b.get_char(i);
        assert(suffix(a@, i)[0] == ca);
        assert(suffix(b@, i)[0] == cb);
        if ca < cb {
            return Ordering::Less;
        }
        if ca > cb {
            return Ordering::Greater;
        }
        let ghost j = i;
        i = i + 1;
        assert(suffix(a@, j).drop_first() =~= suffix(a@, i));
        assert(suffix(b@, j).drop_first() =~= suffix(b@, i));
    }
    if i < la {
        Ordering::Greater
    } else if i < lb {
        Ordering::Less
    } else {
        Ordering::Equal
    }
}

/// Whether two strings are the same.
pub fn str_equals(a: &str, b: &str) -> (r: bool)
    ensures
        r == (a@ == b@),
{
    proof {
        lemma_lex_order_flip(a@, b@);
    }
    match compare_strs(a, b) {
        Ordering::Equal => true,
        _ => false,
    }
}

/// Compares two ids case-insensitively: both are lowercased, then compared
/// as strings.
pub fn compare_ids(a: &str, b: &str) -> (r: Ordering)
    ensures
        r == ids_order(a@, b@),
{
    let a = str_to_lowercase(a);
    let b = str_to_lowercase(b);
    compare_strs(a.as_str(), b.as_str())
}

/// The usual order of two numbers.
pub open spec fn numbers_order(a: usize, b: usize) -> Ordering {
    if a < b {
        Ordering::Less
    } else if a > b {
        Ordering::Greater
    } else {
        Ordering::Equal
    }
}

/// Compares two numbers.
pub fn compare_numbers(a: usize, b: usize) -> (r: Ordering)
    ensures
        r == numbers_order(a, b),
{
    if a < b {
        Ordering::Less
    } else if a > b {
        Ordering::Greater
    } else {
        Ordering::Equal
    }
}

/// Compares two module identifiers case-insensitively.
pub fn compare_modules_by_identifier(a: &Identifier, b: &Identifier) -> (r: Ordering)
    ensures
        r == ids_order(a@, b@),
{
    compare_ids(a.as_str(), b.as_str())
}

/// The order of two identifier sequences: element by element with
/// `compare_ids`, the first difference deciding; a proper prefix comes first.
pub open spec fn id_seqs_order(a: Seq<Identifier>, b: Seq<Identifier>) -> Ordering
    decreases a.len(),
{
    if a.len() == 0 {
        if b.len() == 0 {
            Ordering::Equal
        } else {
            Ordering::Less
        }
    } else if b.len() == 0 {
        Ordering::Greater
    } else if ids_order(a[0]@, b[0]@) != Ordering::Equal {
        ids_order(a[0]@, b[0]@)
    } else {
        id_seqs_order(a.drop_first(), b.drop_first())
    }
}

/// How many times each iterator is advanced when two sequences are compared
/// element by element: once per compared pair, and once more for the round
/// in which one of them runs out.
pub open spec fn id_seqs_rounds(a: Seq<Identifier>, b: Seq<Identifier>) -> nat
    decreases a.len(),
{
    if a.len() == 0 || b.len() == 0 {
        1
    } else if ids_order(a[0]@, b[0]@) != Ordering::Equal {
        1
    } else {
        1 + id_seqs_rounds(a.drop_first(), b.drop_first())
    }
}

/// What is left of `s` after `n` elements have been taken from its front
/// (nothing, once `n` reaches its length).
pub open spec fn after_taking<A>(s: Seq<A>, n: nat) -> Seq<A> {
    if n >= s.len() {
        Seq::empty()
    } else {
        s.skip(n as int)
    }
}

/// Taking one more element from what is left.
proof fn lemma_after_taking_step<A>(s: Seq<A>, n: nat)
    requires
        n < s.len(),
    ensures
        after_taking(s, n + 1) =~= after_taking(s, n).drop_first(),
        after_taking(s, n)[0] == s[n as int],
{
}

/// Advances an iterator once: it hands out the first of the items it has
/// left, or nothing when none is left.
fn advance<I: Iterator>(it: &mut I) -> (r: Option<I::Item>)
    requires
        (*old(it)).obeys_prophetic_iter_laws(),
        (*old(it)).decrease() is Some,
    ensures
        (*final(it)).obeys_prophetic_iter_laws(),
        (*final(it)).decrease() is Some,
        (*old(it)).remaining().len() > 0 ==> decreases_to!(
            (*old(it)).decrease()->0 => (*final(it)).decrease()->0),
        (*old(it)).remaining().len() > 0 ==> {
            &&& (*final(it)).remaining() == (*old(it)).remaining().drop_first()
            &&& r == Some((*old(it)).remaining()[0])
        },
        (*old(it)).remaining().len() == 0 ==> {
            &&& (*final(it)).remaining() == (*old(it)).remaining()
            &&& r is None
        },
{
    it.next()
}

/// One step of the element-by-element comparison.
proof fn lemma_id_seqs_step(a: Seq<Identifier>, b: Seq<Identifier>)
    requires
        a.len() > 0,
        b.len() > 0,
    ensures
        ids_order(a[0]@, b[0]@) != Ordering::Equal ==> {
            &&& id_seqs_order(a, b) == ids_order(a[0]@, b[0]@)
            &&& id_seqs_rounds(a, b) == 1
        },
        ids_order(a[0]@, b[0]@) == Ordering::Equal ==> {
            &&& id_seqs_order(a, b) == id_seqs_order(a.drop_first(), b.drop_first())
            &&& id_seqs_rounds(a, b) == 1 + id_seqs_rounds(a.drop_first(), b.drop_first())
        },
{
}

/// Compares the remaining identifiers of two iterators pairwise with
/// `compare_modules_by_identifier`; the first unequal pair decides, and an
/// iterator that runs out first is the smaller.
pub fn compare_modules_by_identifier_iter(
    a: &mut IntoIter<Identifier>,
    b: &mut IntoIter<Identifier>,
) -> (r: Ordering)
    requires
        (*old(a)).decrease() is Some,
        (*old(b)).decrease() is Some,
    ensures
        r == id_seqs_order((*old(a)).remaining(), (*old(b)).remaining()),
        (*final(a)).remaining() == after_taking(
            (*old(a)).remaining(),
            id_seqs_rounds((*old(a)).remaining(), (*old(b)).remaining()),
        ),
        (*final(b)).remaining() == after_taking(
            (*old(b)).remaining(),
            id_seqs_rounds((*old(a)).remaining(), (*old(b)).remaining()),
        ),
{
    let ghost a0 = (*a).remaining();
    let ghost b0 = (*b).remaining();
    let ghost mut k: nat = 0;
    assert(after_taking(a0, 0) =~= a0);
    assert(after_taking(b0, 0) =~= b0);
    loop
        invariant
            a0 == (*old(a)).remaining(),
            b0 == (*old(b)).remaining(),
            (*a).remaining() == after_taking(a0, k),
            (*b).remaining() == after_taking(b0, k),
            k < a0.len() || (*a).remaining().len() == 0,
            k < b0.len() || (*b).remaining().len() == 0,
            id_seqs_order(a0, b0) == id_seqs_order((*a).remaining(), (*b).remaining()),
            id_seqs_rounds(a0, b0) == k + id_seqs_rounds((*a).remaining(), (*b).remaining()),
            (*a).decrease() is Some,
            (*b).decrease() is Some,
        decreases (*a).decrease()->0,
    {
        let ghost ra = (*a).remaining();
        let ghost rb = (*b).remaining();
        let item_a = advance(a);
        let item_b = advance(b);
        proof {
            if ra.len() > 0 {
                lemma_after_taking_step(a0, k);
            } else {
                assert(after_taking(a0, k + 1) =~= Seq::<Identifier>::empty());
            }
            if rb.len() > 0 {
                lemma_after_taking_step(b0, k);
            } else {
                assert(after_taking(b0, k + 1) =~= Seq::<Identifier>::empty());
            }
            k = k + 1;
        }
        match (item_a, item_b) {
            (None, None) => {
                return Ordering::Equal;
            },
            (None, Some(_)) => {
                return Ordering::Less;
            },
            (Some(_), None) => {
                return Ordering::Greater;
            },
            (Some(ia), Some(ib)) => {
                let result = compare_modules_by_identifier(&ia, &ib);
                assert(ra[0] == ia && rb[0] == ib);
                proof {
                    lemma_id_seqs_step(ra, rb);
                }
                match result {
                    Ordering::Equal => {},
                    _ => {
                        return result;
                    },
                }
            },
        }
    }
}

/// The opposite outcome of a comparison.
pub open spec fn flipped(o: Ordering) -> Ordering {
    match o {
        Ordering::Less => Ordering::Greater,
        Ordering::Equal => Ordering::Equal,
        Ordering::Greater => Ordering::Less,
    }
}

/// "Not after" in lexicographic order.
pub open spec fn lex_le(a: Seq<char>, b: Seq<char>) -> bool {
    lex_order(a, b) != Ordering::Greater
}

/// Swapping the arguments of `lex_order` flips its outcome, and only equal
/// sequences compare equal.
pub proof fn lemma_lex_order_flip(a: Seq<char>, b: Seq<char>)
    ensures
        lex_order(b, a) == flipped(lex_order(a, b)),
        lex_order(a, b) == Ordering::Equal <==> a == b,
    decreases a.len(),
{
    if a.len() > 0 && b.len() > 0 && a[0] == b[0] {
        lemma_lex_order_flip(a.drop_first(), b.drop_first());
        if a.drop_first() == b.drop_first() {
            assert(a =~= seq![a[0]] + a.drop_first());
            assert(b =~= seq![b[0]] + b.drop_first());
        }
    }
    if a == b && a.len() > 0 {
        lemma_lex_order_flip(a.drop_first(), b.drop_first());
    }
    if a.len() == 0 && b.len() == 0 {
        assert(a =~= b);
    }
}

/// `lex_le` is transitive.
pub proof fn lemma_lex_le_transitive(a: Seq<char>, b: Seq<char>, c: Seq<char>)
    requires
        lex_le(a, b),
        lex_le(b, c),
    ensures
        lex_le(a, c),
    decreases a.len(),
{
    if a.len() > 0 && b.len() > 0 && c.len() > 0 && a[0] == b[0] && b[0] == c[0] {
        lemma_lex_le_transitive(a.drop_first(), b.drop_first(), c.drop_first());
    }
}

/// `lex_le` is a total order.
pub proof fn lemma_lex_le_total()
    ensures
        vstd::relations::total_ordering(|a: Seq<char>, b: Seq<char>| lex_le(a, b)),
{
    assert forall|x: Seq<char>| #[trigger] lex_le(x, x) by {
        lemma_lex_order_flip(x, x);
    }
    assert forall|x: Seq<char>, y: Seq<char>| #[trigger] lex_le(x, y) && #[trigger] lex_le(
        y,
        x,
    ) implies x == y by {
        lemma_lex_order_flip(x, y);
    }
    assert forall|x: Seq<char>, y: Seq<char>, z: Seq<char>| #[trigger] lex_le(x, y)
        && #[trigger] lex_le(y, z) implies lex_le(x, z) by {
        lemma_lex_le_transitive(x, y, z);
    }
    assert forall|x: Seq<char>, y: Seq<char>| #[trigger] lex_le(x, y) || #[trigger] lex_le(
        y,
        x,
    ) by {
        lemma_lex_order_flip(x, y);
    }
}

/// Comparing ids is antisymmetric: swapping them flips the outcome.
pub proof fn law_compare_ids_antisymmetric(a: Seq<char>, b: Seq<char>)
    ensures
        ids_order(b, a) == flipped(ids_order(a, b)),
{
    lemma_lex_order_flip(spec_to_lowercase(a), spec_to_lowercase(b));
}

/// Comparing ids is transitive: an id not after a second, which is not
/// after a third, is not after the third.
pub proof fn law_compare_ids_transitive(a: Seq<char>, b: Seq<char>, c: Seq<char>)
    requires
        ids_order(a, b) != Ordering::Greater,
        ids_order(b, c) != Ordering::Greater,
    ensures
        ids_order(a, c) != Ordering::Greater,
{
    lemma_lex_le_transitive(spec_to_lowercase(a), spec_to_lowercase(b), spec_to_lowercase(c));
}

/// Every id compares equal to itself, and ids compare equal exactly when
/// their lowercase forms are the same.
pub proof fn law_compare_ids_equal(a: Seq<char>, b: Seq<char>)
    ensures
        ids_order(a, a) == Ordering::Equal,
        ids_order(a, b) == Ordering::Equal <==> spec_to_lowercase(a) == spec_to_lowercase(b),
{
    lemma_lex_order_flip(spec_to_lowercase(a), spec_to_lowercase(a));
    lemma_lex_order_flip(spec_to_lowercase(a), spec_to_lowercase(b));
}

/// Comparing numbers is antisymmetric, and equal only for equal numbers.
pub proof fn law_compare_numbers_antisymmetric(a: usize, b: usize)
    ensures
        numbers_order(b, a) == flipped(numbers_order(a, b)),
        numbers_order(a, b) == Ordering::Equal <==> a == b,
{
}

} // verus!
