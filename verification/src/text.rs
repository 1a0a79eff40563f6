//! Text: the order of strings, and views of optional and repeated strings.

use vstd::prelude::*;
use vstd::seq_lib::seq_to_set_is_finite;
use vstd::set_lib::lemma_subset_equality;

verus! {

/// Whether `a` comes strictly before `b` when strings are compared code
/// point by code point, a proper prefix coming before its extensions.
pub open spec fn lex_less(a: Seq<char>, b: Seq<char>) -> bool
    decreases a.len(),
{
    if b.len() == 0 {
        false
    } else if a.len() == 0 {
        true
    } else if a[0] != b[0] {
        (a[0] as u32) < (b[0] as u32)
    } else {
        lex_less(a.drop_first(), b.drop_first())
    }
}

/// Whether a sequence of strings is strictly increasing, so that it is
/// sorted and holds no string twice.
pub open spec fn strictly_increasing(s: Seq<Seq<char>>) -> bool {
    forall|i: int, j: int| 0 <= i < j < s.len() ==> lex_less(s[i], s[j])
}

/// `==` on `str`: two string slices are equal when they hold the same
/// text.
pub assume_specification[ <str as PartialEq>::eq ](a: &str, b: &str) -> (r: bool)
    ensures
        r == (a@ == b@),
;

/// `<` on `str`, which the standard library documents as comparing strings
/// lexicographically by byte, and with that by code point.
#[verifier::external_body]
pub(crate) fn str_less(a: &str, b: &str) -> (r: bool)
    ensures
        r == lex_less(a@, b@),
{
    a < b
}

/// No string comes before itself.
pub proof fn lemma_lex_irreflexive(a: Seq<char>)
    ensures
        !lex_less(a, a),
    decreases a.len(),
{
    if a.len() > 0 {
        lemma_lex_irreflexive(a.drop_first());
    }
}

/// Of two different strings, one comes before the other.
pub proof fn lemma_lex_total(a: Seq<char>, b: Seq<char>)
    ensures
        a == b || lex_less(a, b) || lex_less(b, a),
    decreases a.len(),
{
    if a.len() == 0 || b.len() == 0 {
        if a.len() == 0 && b.len() == 0 {
            assert(a =~= b);
        }
    } else if a[0] == b[0] {
        lemma_lex_total(a.drop_first(), b.drop_first());
        if a.drop_first() == b.drop_first() {
            assert(a =~= seq![a[0]] + a.drop_first());
            assert(b =~= seq![b[0]] + b.drop_first());
        }
    } else {
        vstd::utf8::char_u32_cast(a[0], a[0] as u32);
        vstd::utf8::char_u32_cast(b[0], b[0] as u32);
    }
}

/// The order of strings is transitive.
pub proof fn lemma_lex_transitive(a: Seq<char>, b: Seq<char>, c: Seq<char>)
    requires
        lex_less(a, b),
        lex_less(b, c),
    ensures
        lex_less(a, c),
    decreases a.len(),
{
    if a.len() > 0 && a[0] == b[0] && b[0] == c[0] {
        lemma_lex_transitive(a.drop_first(), b.drop_first(), c.drop_first());
    }
}

/// Two strings never come before each other.
pub proof fn lemma_lex_asymmetric(a: Seq<char>, b: Seq<char>)
    requires
        lex_less(a, b),
    ensures
        !lex_less(b, a),
{
    if lex_less(b, a) {
        lemma_lex_transitive(a, b, a);
        lemma_lex_irreflexive(a);
    }
}

/// A strictly increasing sequence holds no string twice.
pub proof fn lemma_increasing_no_duplicates(s: Seq<Seq<char>>)
    requires
        strictly_increasing(s),
    ensures
        s.no_duplicates(),
{
    assert forall|i: int, j: int| 0 <= i < s.len() && 0 <= j < s.len() && i != j implies s[i]
        != s[j] by {
        lemma_lex_irreflexive(s[i]);
        if i < j {
            assert(lex_less(s[i], s[j]));
        } else {
            assert(lex_less(s[j], s[i]));
        }
    }
}

/// The text of an optional string.
pub open spec fn opt_text(s: Option<String>) -> Option<Seq<char>> {
    match s {
        Some(t) => Some(t@),
        None => None,
    }
}

/// The texts of a list of strings.
pub open spec fn texts(v: Seq<String>) -> Seq<Seq<char>> {
    Seq::new(v.len(), |i: int| v[i]@)
}

/// Whether two optional strings are both absent or hold the same text.
pub fn opt_text_eq(a: &Option<String>, b: &Option<String>) -> (r: bool)
    ensures
        r == (opt_text(*a) == opt_text(*b)),
{
    match (a, b) {
        (Some(x), Some(y)) => *x == *y,
        (None, None) => true,
        _ => false,
    }
}

/// An owned copy of an optional string slice.
pub fn opt_owned(s: Option<&str>) -> (r: Option<String>)
    ensures
        opt_text(r) == match s {
            Some(t) => Some(t@),
            None => None,
        },
{
    match s {
        Some(t) => Some(t.to_owned()),
        None => None,
    }
}

/// Whether a list of strings holds a given text.
pub fn holds_text(v: &Vec<String>, needle: &str) -> (r: bool)
    ensures
        r == texts(v@).contains(needle@),
{
    let mut i: usize = 0;
    while i < v.len()
        invariant
            i <= v.len(),
            forall|k: int| 0 <= k < i ==> texts(v@)[k] != needle@,
        decreases v.len() - i,
    {
        if *v[i].as_str() == *needle {
            assert(texts(v@)[i as int] == needle@);
            return true;
        }
        i += 1;
    }
    false
}

/// Dropping elements from a list without repeats leaves a list without
/// repeats.
pub proof fn lemma_filter_no_duplicates(s: Seq<Seq<char>>, pred: spec_fn(Seq<char>) -> bool)
    requires
        s.no_duplicates(),
    ensures
        s.filter(pred).no_duplicates(),
    decreases s.len(),
{
    if s.len() == 0 {
        assert(s =~= Seq::empty());
        assert(s.filter(pred).len() <= s.len()) by {
            s.lemma_filter_len(pred);
        }
    } else {
        let rest = s.drop_last();
        let last = s.last();
        assert(s =~= rest.push(last));
        lemma_filter_no_duplicates(rest, pred);
        rest.lemma_filter_push(last, pred);
        if pred(last) {
            let kept = rest.filter(pred);
            if kept.contains(last) {
                rest.lemma_filter_contains_rev(pred, last);
                let k = choose|k: int| 0 <= k < rest.len() && rest[k] == last;
                assert(s[k] == s[s.len() - 1]);
            }
            assert forall|i: int, j: int|
                0 <= i < kept.push(last).len() && 0 <= j < kept.push(last).len() && i
                    != j implies kept.push(last)[i] != kept.push(last)[j] by {
                if i < kept.len() && j < kept.len() {
                } else if i < kept.len() {
                    assert(kept.contains(kept[i]));
                } else {
                    assert(kept.contains(kept[j]));
                }
            }
        }
    }
}

/// Two lists without repeats that have the same length, one of which holds
/// every element of the other, hold the same elements.
pub proof fn lemma_same_length_subset(a: Seq<Seq<char>>, b: Seq<Seq<char>>)
    requires
        a.no_duplicates(),
        b.no_duplicates(),
        a.len() == b.len(),
        forall|i: int| 0 <= i < a.len() ==> b.contains(#[trigger] a[i]),
    ensures
        a.to_set() == b.to_set(),
{
    a.unique_seq_to_set();
    b.unique_seq_to_set();
    seq_to_set_is_finite(a);
    seq_to_set_is_finite(b);
    assert(a.to_set().subset_of(b.to_set())) by {
        assert forall|x: Seq<char>| a.to_set().contains(x) implies b.to_set().contains(x) by {
            let i = choose|i: int| 0 <= i < a.len() && a[i] == x;
            assert(b.contains(a[i]));
        }
    }
    lemma_subset_equality(a.to_set(), b.to_set());
}

/// Whether two lists without repeats hold the same texts, in whatever
/// order.
pub fn same_texts(a: &Vec<String>, b: &Vec<String>) -> (r: bool)
    requires
        texts(a@).no_duplicates(),
        texts(b@).no_duplicates(),
    ensures
        r == (texts(a@).to_set() == texts(b@).to_set()),
{
    if a.len() != b.len() {
        proof {
            texts(a@).unique_seq_to_set();
            texts(b@).unique_seq_to_set();
        }
        return false;
    }
    let mut i: usize = 0;
    while i < a.len()
        invariant
            i <= a.len(),
            forall|k: int| 0 <= k < i ==> texts(b@).contains(#[trigger] texts(a@)[k]),
        decreases a.len() - i,
    {
        if !holds_text(b, a[i].as_str()) {
            proof {
                let x = texts(a@)[i as int];
                assert(texts(a@).to_set().contains(x));
                assert(!texts(b@).to_set().contains(x));
            }
            return false;
        }
        i += 1;
    }
    proof {
        lemma_same_length_subset(texts(a@), texts(b@));
    }
    true
}

/// Whether `out` is `input` sorted with every repeat dropped.
pub open spec fn normalized(input: Seq<Seq<char>>, out: Seq<Seq<char>>) -> bool {
    &&& strictly_increasing(out)
    &&& out.to_set() == input.to_set()
}

/// Puts a string into a strictly increasing list at its place, unless the
/// list holds it already.
pub fn insert_sorted(v: &mut Vec<String>, s: String)
    requires
        strictly_increasing(texts(old(v)@)),
    ensures
        strictly_increasing(texts(final(v)@)),
        texts(final(v)@).to_set() == texts(old(v)@).to_set().insert(s@),
{
    let mut pos: usize = 0;
    while pos < v.len() && str_less(v[pos].as_str(), s.as_str())
        invariant
            pos <= v.len(),
            forall|k: int| 0 <= k < pos ==> lex_less(#[trigger] texts(v@)[k], s@),
        decreases v.len() - pos,
    {
        pos += 1;
    }
    let ghost before = texts(v@);
    if pos < v.len() && *v[pos].as_str() == *s.as_str() {
        assert(before.to_set() =~= before.to_set().insert(s@)) by {
            assert(before[pos as int] == s@);
        }
        return ;
    }
    proof {
        if pos < v.len() {
            lemma_lex_total(before[pos as int], s@);
        }
    }
    v.insert(pos, s);
    proof {
        let after = texts(v@);
        assert(after =~= before.insert(pos as int, s@));
        assert forall|i: int, j: int| 0 <= i < j < after.len() implies lex_less(
            after[i],
            after[j],
        ) by {
            if j < pos {
                assert(after[i] == before[i] && after[j] == before[j]);
            } else if j == pos {
                assert(after[i] == before[i]);
            } else if i < pos {
                assert(after[i] == before[i] && after[j] == before[j - 1]);
            } else if i == pos {
                assert(after[j] == before[j - 1]);
                if j - 1 > pos {
                    assert(lex_less(before[pos as int], before[j - 1]));
                    lemma_lex_transitive(s@, before[pos as int], before[j - 1]);
                }
            } else {
                assert(after[i] == before[i - 1] && after[j] == before[j - 1]);
            }
        }
        assert(after.to_set() =~= before.to_set().insert(s@)) by {
            assert forall|x: Seq<char>| after.to_set().contains(x) implies before.to_set().insert(
                s@,
            ).contains(x) by {
                let k = choose|k: int| 0 <= k < after.len() && after[k] == x;
                if k < pos {
                    assert(before[k] == x);
                } else if k > pos {
                    assert(before[k - 1] == x);
                }
            }
            assert forall|x: Seq<char>| before.to_set().insert(s@).contains(x) implies after.to_set().contains(
                x,
            ) by {
                if x == s@ {
                    assert(after[pos as int] == x);
                } else {
                    let k = choose|k: int| 0 <= k < before.len() && before[k] == x;
                    if k < pos {
                        assert(after[k] == x);
                    } else {
                        assert(after[k + 1] == x);
                    }
                }
            }
        }
    }
}

/// The strings of a list in increasing order, each of them once.
pub fn sorted_distinct(input: &Vec<String>) -> (out: Vec<String>)
    ensures
        normalized(texts(input@), texts(out@)),
{
    let mut out: Vec<String> = Vec::new();
    let mut i: usize = 0;
    assert(texts(input@).take(0).to_set() =~= texts(out@).to_set());
    while i < input.len()
        invariant
            i <= input.len(),
            strictly_increasing(texts(out@)),
            texts(out@).to_set() == texts(input@).take(i as int).to_set(),
        decreases input.len() - i,
    {
        insert_sorted(&mut out, input[i].clone());
        proof {
            let all = texts(input@);
            assert(all.take(i + 1) =~= all.take(i as int).push(all[i as int]));
            all.take(i as int).lemma_push_to_set_commute(all[i as int]);
        }
        i += 1;
    }
    assert(texts(input@).take(i as int) =~= texts(input@));
    out
}

/// There is only one way to sort a list and drop its repeats.
pub proof fn lemma_normalized_unique(input: Seq<Seq<char>>, a: Seq<Seq<char>>, b: Seq<Seq<char>>)
    requires
        normalized(input, a),
        normalized(input, b),
    ensures
        a == b,
    decreases a.len(),
{
    lemma_increasing_no_duplicates(a);
    lemma_increasing_no_duplicates(b);
    a.unique_seq_to_set();
    b.unique_seq_to_set();
    if a.len() > 0 {
        // The last element of each list is the largest of the common set.
        let la = a.last();
        let lb = b.last();
        assert(a.to_set().contains(la));
        assert(b.to_set().contains(lb));
        let ia = choose|k: int| 0 <= k < b.len() && b[k] == la;
        let ib = choose|k: int| 0 <= k < a.len() && a[k] == lb;
        if la != lb {
            assert(ia < b.len() - 1);
            assert(lex_less(b[ia], b[b.len() - 1]));
            assert(ib < a.len() - 1);
            assert(lex_less(a[ib], a[a.len() - 1]));
            lemma_lex_asymmetric(la, lb);
        }
        let ra = a.drop_last();
        let rb = b.drop_last();
        assert(ra.to_set() =~= a.to_set().remove(la)) by {
            assert forall|x: Seq<char>| ra.to_set().contains(x) implies a.to_set().remove(
                la,
            ).contains(x) by {
                let k = choose|k: int| 0 <= k < ra.len() && ra[k] == x;
                assert(a[k] == x);
                lemma_lex_irreflexive(la);
                assert(lex_less(a[k], a[a.len() - 1]));
            }
            assert forall|x: Seq<char>| a.to_set().remove(la).contains(x) implies ra.to_set().contains(
                x,
            ) by {
                let k = choose|k: int| 0 <= k < a.len() && a[k] == x;
                assert(ra[k] == x);
            }
        }
        assert(rb.to_set() =~= b.to_set().remove(lb)) by {
            assert forall|x: Seq<char>| rb.to_set().contains(x) implies b.to_set().remove(
                lb,
            ).contains(x) by {
                let k = choose|k: int| 0 <= k < rb.len() && rb[k] == x;
                assert(b[k] == x);
                lemma_lex_irreflexive(lb);
                assert(lex_less(b[k], b[b.len() - 1]));
            }
            assert forall|x: Seq<char>| b.to_set().remove(lb).contains(x) implies rb.to_set().contains(
                x,
            ) by {
                let k = choose|k: int| 0 <= k < b.len() && b[k] == x;
                assert(rb[k] == x);
            }
        }
        assert(strictly_increasing(ra)) by {
            assert forall|i: int, j: int| 0 <= i < j < ra.len() implies lex_less(ra[i], ra[j]) by {
                assert(lex_less(a[i], a[j]));
            }
        }
        assert(strictly_increasing(rb)) by {
            assert forall|i: int, j: int| 0 <= i < j < rb.len() implies lex_less(rb[i], rb[j]) by {
                assert(lex_less(b[i], b[j]));
            }
        }
        lemma_normalized_unique(ra, ra, rb);
        assert(a =~= ra.push(la));
        assert(b =~= rb.push(lb));
    } else {
        assert(a =~= b);
    }
}

} // verus!
