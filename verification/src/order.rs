use vstd::prelude::*;
use crate::text::chars_of;

verus! {

/// The order of strings that `Ord for str` uses: lexicographic, character by
/// character (UTF-8 byte order and code point order agree).
pub open spec fn chars_lt(a: Seq<char>, b: Seq<char>) -> bool
    decreases a.len(),
{
    if a.len() == 0 {
        b.len() > 0
    } else if b.len() == 0 {
        false
    } else if a[0] != b[0] {
        a[0] < b[0]
    } else {
        chars_lt(a.drop_first(), b.drop_first())
    }
}

pub open spec fn strings_view(v: Seq<String>) -> Seq<Seq<char>> {
    v.map_values(|s: String| s@)
}

/// Every string is smaller than the ones after it: sorted, without repeats.
pub open spec fn sorted_strict(s: Seq<Seq<char>>) -> bool {
    forall|i: int, j: int| 0 <= i < j < s.len() ==> chars_lt(#[trigger] s[i], #[trigger] s[j])
}

/// `chars_lt` is a strict total order.
pub proof fn lemma_chars_lt_order(a: Seq<char>, b: Seq<char>, c: Seq<char>)
    ensures
        !chars_lt(a, a),
        chars_lt(a, b) ==> !chars_lt(b, a),
        chars_lt(a, b) && chars_lt(b, c) ==> chars_lt(a, c),
        a == b || chars_lt(a, b) || chars_lt(b, a),
    decreases a.len(),
{
    if a.len() > 0 && b.len() > 0 && c.len() > 0 {
        lemma_chars_lt_order(a.drop_first(), b.drop_first(), c.drop_first());
        if a[0] == b[0] && a.drop_first() == b.drop_first() {
            assert(a =~= b) by {
                assert forall|i: int| 0 <= i < a.len() implies a[i] == b[i] by {
                    if i > 0 {
                        assert(a[i] == a.drop_first()[i - 1]);
                        assert(b[i] == b.drop_first()[i - 1]);
                    }
                }
            }
        }
    } else if a.len() > 0 && b.len() > 0 {
        lemma_chars_lt_order(a.drop_first(), b.drop_first(), b.drop_first());
        if a[0] == b[0] && a.drop_first() == b.drop_first() {
            assert(a =~= b) by {
                assert forall|i: int| 0 <= i < a.len() implies a[i] == b[i] by {
                    if i > 0 {
                        assert(a[i] == a.drop_first()[i - 1]);
                        assert(b[i] == b.drop_first()[i - 1]);
                    }
                }
            }
        }
    } else if a.len() > 0 {
        lemma_chars_lt_order(a.drop_first(), a.drop_first(), a.drop_first());
    } else {
        if b.len() == 0 {
            assert(a =~= b);
        }
    }
}

/// Whether `a` comes before `b` in string order.
pub fn chars_less(a: &Vec<char>, b: &Vec<char>) -> (r: bool)
    ensures
        r == chars_lt(a@, b@),
{
    let mut i: usize = 0;
    assert(a@.skip(0) == a@);
    assert(b@.skip(0) == b@);
    while i < a.len() && i < b.len()
        invariant
            0 <= i <= a.len(),
            i <= b.len(),
            chars_lt(a@, b@) == chars_lt(a@.skip(i as int), b@.skip(i as int)),
        decreases a.len() - i,
    {
        let ghost sa = a@.skip(i as int);
        let ghost sb = b@.skip(i as int);
        assert(sa[0] == a@[i as int]);
        assert(sb[0] == b@[i as int]);
        if a[i] != b[i] {
            return a[i] < b[i];
        }
        assert(sa.drop_first() == a@.skip(i + 1));
        assert(sb.drop_first() == b@.skip(i + 1));
        i = i + 1;
    }
    if i == a.len() {
        assert(a@.skip(i as int).len() == 0);
        i < b.len()
    } else {
        assert(b@.skip(i as int).len() == 0);
        assert(a@.skip(i as int).len() > 0);
        false
    }
}

/// Whether `a` and `b` hold the same characters.
pub fn chars_equal(a: &Vec<char>, b: &Vec<char>) -> (r: bool)
    ensures
        r == (a@ == b@),
{
    if a.len() != b.len() {
        return false;
    }
    let mut i: usize = 0;
    while i < a.len()
        invariant
            0 <= i <= a.len(),
            a.len() == b.len(),
            forall|j: int| 0 <= j < i ==> a@[j] == b@[j],
        decreases a.len() - i,
    {
        if a[i] != b[i] {
            return false;
        }
        i = i + 1;
    }
    assert(a@ =~= b@);
    true
}

/// Puts `item` into a sorted list of distinct strings, keeping it sorted;
/// a string already present is not added twice.
pub fn insert_sorted(list: &mut Vec<String>, item: String)
    requires
        sorted_strict(strings_view(old(list)@)),
    ensures
        sorted_strict(strings_view(final(list)@)),
        strings_view(final(list)@).to_set() == strings_view(old(list)@).to_set().insert(item@),
{
    let ghost old_view = strings_view(list@);
    let key = chars_of(item.as_str());
    let mut k: usize = 0;
    while k < list.len()
        invariant
            0 <= k <= list.len(),
            list@ == old(list)@,
            old_view == strings_view(list@),
            key@ == item@,
            forall|j: int| 0 <= j < k ==> chars_lt(#[trigger] old_view[j], item@),
        ensures
            0 <= k <= list.len(),
            list@ == old(list)@,
            forall|j: int| 0 <= j < k ==> chars_lt(#[trigger] old_view[j], item@),
            k < list.len() ==> !chars_lt(old_view[k as int], item@),
        decreases list.len() - k,
    {
        let here = chars_of(list[k].as_str());
        assert(old_view[k as int] == list@[k as int]@);
        if !chars_less(&here, &key) {
            break;
        }
        k = k + 1;
    }
    proof {
        lemma_chars_lt_order(item@, item@, item@);
    }
    if k < list.len() {
        let here = chars_of(list[k].as_str());
        assert(old_view[k as int] == list@[k as int]@);
        if chars_equal(&here, &key) {
            assert(old_view.to_set().insert(item@) =~= old_view.to_set()) by {
                assert(old_view.to_set().contains(old_view[k as int]));
            }
            return;
        }
        proof {
            lemma_chars_lt_order(old_view[k as int], item@, item@);
        }
    }
    list.insert(k, item);
    let ghost new_view = strings_view(list@);
    assert(new_view =~= old_view.insert(k as int, item@));
    assert forall|i: int, j: int| 0 <= i < j < new_view.len() implies chars_lt(
        #[trigger] new_view[i],
        #[trigger] new_view[j],
    ) by {
        if j < k {
            assert(new_view[i] == old_view[i] && new_view[j] == old_view[j]);
        } else if j == k {
            assert(new_view[i] == old_view[i]);
        } else if i == k {
            assert(new_view[j] == old_view[j - 1]);
            assert(new_view[i] == item@);
            assert(chars_lt(item@, old_view[k as int]));
            if j - 1 > k {
                assert(chars_lt(old_view[k as int], old_view[j - 1]));
                lemma_chars_lt_order(item@, old_view[k as int], old_view[j - 1]);
            }
        } else if i < k {
            assert(new_view[i] == old_view[i] && new_view[j] == old_view[j - 1]);
        } else {
            assert(new_view[i] == old_view[i - 1] && new_view[j] == old_view[j - 1]);
        }
    }
    assert(new_view.to_set() =~= old_view.to_set().insert(item@)) by {
        assert forall|x: Seq<char>| new_view.to_set().contains(x) implies old_view.to_set().insert(item@).contains(x) by {
            let i = choose|i: int| 0 <= i < new_view.len() && new_view[i] == x;
            if i < k {
                assert(old_view[i] == x);
            } else if i > k {
                assert(old_view[i - 1] == x);
            }
        }
        assert forall|x: Seq<char>| old_view.to_set().insert(item@).contains(x) implies new_view.to_set().contains(x) by {
            if x == item@ {
                assert(new_view[k as int] == x);
            } else {
                let i = choose|i: int| 0 <= i < old_view.len() && old_view[i] == x;
                if i < k {
                    assert(new_view[i] == x);
                } else {
                    assert(new_view[i + 1] == x);
                }
            }
        }
    }
}

} // verus!
