//! Text as sequences of characters: comparing, ordering, cutting and joining.
use vstd::prelude::*;
use vstd::relations::{sorted_by, total_ordering};

verus! {

/// The characters of each string of a list.
pub open spec fn texts(list: Seq<String>) -> Seq<Seq<char>> {
    list.map_values(|s: String| s@)
}

/// The text of a variable, where it is set.
pub open spec fn set_text(value: Option<&str>) -> Option<Seq<char>> {
    match value {
        Some(t) => Some(t@),
        None => None,
    }
}

/// `a` comes strictly before `b`, comparing character by character by code
/// point; a proper prefix comes before the longer text.
pub open spec fn text_lt(a: Seq<char>, b: Seq<char>) -> bool
    decreases a.len(),
{
    if b.len() == 0 {
        false
    } else if a.len() == 0 {
        true
    } else if a[0] == b[0] {
        text_lt(a.drop_first(), b.drop_first())
    } else {
        a[0] < b[0]
    }
}

/// `a` comes before `b` or equals it.
pub open spec fn text_le(a: Seq<char>, b: Seq<char>) -> bool {
    a == b || text_lt(a, b)
}

/// The order of texts as a function, for the sorting vocabulary of vstd.
pub open spec fn text_order() -> spec_fn(Seq<char>, Seq<char>) -> bool {
    |a: Seq<char>, b: Seq<char>| text_le(a, b)
}

proof fn lemma_lt_irreflexive(a: Seq<char>)
    ensures
        !text_lt(a, a),
    decreases a.len(),
{
    if a.len() > 0 {
        lemma_lt_irreflexive(a.drop_first());
    }
}

proof fn lemma_split_first(a: Seq<char>, b: Seq<char>)
    requires
        a.len() > 0,
        b.len() > 0,
        a[0] == b[0],
        a.drop_first() == b.drop_first(),
    ensures
        a == b,
{
    assert(a =~= seq![a[0]] + a.drop_first());
    assert(b =~= seq![b[0]] + b.drop_first());
}

/// Of two different texts, one comes before the other.
pub proof fn lemma_lt_connected(a: Seq<char>, b: Seq<char>)
    ensures
        text_lt(a, b) || a == b || text_lt(b, a),
    decreases a.len(),
{
    if a.len() == 0 && b.len() == 0 {
        assert(a =~= b);
    } else if a.len() > 0 && b.len() > 0 && a[0] == b[0] {
        lemma_lt_connected(a.drop_first(), b.drop_first());
        if a.drop_first() == b.drop_first() {
            lemma_split_first(a, b);
        }
    }
}

/// The order of texts is transitive.
pub proof fn lemma_lt_transitive(a: Seq<char>, b: Seq<char>, c: Seq<char>)
    requires
        text_lt(a, b),
        text_lt(b, c),
    ensures
        text_lt(a, c),
    decreases a.len(),
{
    if a.len() > 0 && a[0] == b[0] && b[0] == c[0] {
        lemma_lt_transitive(a.drop_first(), b.drop_first(), c.drop_first());
    }
}

/// No text comes before one that comes before it; in particular none comes
/// before itself.
pub proof fn lemma_lt_asymmetric(a: Seq<char>, b: Seq<char>)
    requires
        text_lt(a, b),
    ensures
        !text_lt(b, a),
        a != b,
{
    lemma_lt_irreflexive(a);
    if text_lt(b, a) {
        lemma_lt_transitive(a, b, a);
    }
}

/// The order of texts is total.
pub proof fn lemma_text_order_total()
    ensures
        total_ordering(text_order()),
{
    let r = text_order();
    assert forall|x: Seq<char>, y: Seq<char>| #[trigger] r(x, y) && #[trigger] r(y, x) implies x
        == y by {
        if x != y {
            lemma_lt_asymmetric(x, y);
        }
    }
    assert forall|x: Seq<char>, y: Seq<char>, z: Seq<char>| #[trigger]
        r(x, y) && #[trigger] r(y, z) implies r(x, z) by {
        if x != y && y != z {
            lemma_lt_transitive(x, y, z);
        }
    }
    assert forall|x: Seq<char>, y: Seq<char>| #[trigger] r(x, y) || #[trigger] r(y, x) by {
        lemma_lt_connected(x, y);
    }
}

/// The characters of `s`, one by one.
pub fn chars_of(s: &str) -> (list: Vec<char>)
    ensures
        list@ == s@,
{
    let mut list: Vec<char> = Vec::new();
    for c in it: s.chars()
        invariant
            list@ =~= it.seq().take(it.index()),
            it.seq() == s@,
    {
        list.push(c);
    }
    list
}

/// Whether `a` and `b` hold the same characters.
pub fn same_text(a: &str, b: &str) -> (same: bool)
    ensures
        same == (a@ == b@),
{
    let left = chars_of(a);
    let right = chars_of(b);
    if left.len() != right.len() {
        return false;
    }
    let mut i: usize = 0;
    while i < left.len()
        invariant
            i <= left.len(),
            left.len() == right.len(),
            left@.take(i as int) =~= right@.take(i as int),
            left@ == a@,
            right@ == b@,
        decreases left.len() - i,
    {
        if left[i] != right[i] {
            assert(a@[i as int] != b@[i as int]);
            return false;
        }
        assert(left@.take(i + 1) =~= left@.take(i as int).push(left@[i as int]));
        assert(right@.take(i + 1) =~= right@.take(i as int).push(right@[i as int]));
        i += 1;
    }
    assert(left@ =~= left@.take(i as int));
    assert(right@ =~= right@.take(i as int));
    true
}

/// Whether `a` comes strictly before `b` in the order of texts.
pub fn text_before(a: &str, b: &str) -> (before: bool)
    ensures
        before == text_lt(a@, b@),
{
    let left = chars_of(a);
    let right = chars_of(b);
    let mut i: usize = 0;
    assert(left@.skip(0) =~= left@);
    assert(right@.skip(0) =~= right@);
    while i < left.len() && i < right.len()
        invariant
            i <= left.len(),
            i <= right.len(),
            left@ == a@,
            right@ == b@,
            text_lt(a@, b@) == text_lt(left@.skip(i as int), right@.skip(i as int)),
        decreases left.len() - i,
    {
        if left[i] != right[i] {
            return left[i] < right[i];
        }
        assert(left@.skip(i as int).drop_first() =~= left@.skip(i + 1));
        assert(right@.skip(i as int).drop_first() =~= right@.skip(i + 1));
        i += 1;
    }
    i < right.len()
}

/// Whether `s` begins with `prefix`.
pub fn begins_with(s: &str, prefix: &str) -> (begins: bool)
    ensures
        begins == prefix@.is_prefix_of(s@),
{
    let whole = chars_of(s);
    let start = chars_of(prefix);
    if start.len() > whole.len() {
        return false;
    }
    let mut i: usize = 0;
    while i < start.len()
        invariant
            i <= start.len() <= whole.len(),
            whole@ == s@,
            start@ == prefix@,
            forall|j: int| 0 <= j < i ==> start@[j] == whole@[j],
        decreases start.len() - i,
    {
        if start[i] != whole[i] {
            assert(prefix@[i as int] != s@.subrange(0, prefix@.len() as int)[i as int]);
            return false;
        }
        i += 1;
    }
    assert(prefix@ =~= s@.subrange(0, prefix@.len() as int));
    true
}

/// `s` cut at the first `mark`: what stands before it and what stands after
/// it, or nothing where `s` has no `mark`.
pub open spec fn cut_at_first(s: Seq<char>, mark: char) -> Option<(Seq<char>, Seq<char>)> {
    match s.index_of_first(mark) {
        Some(i) => Some((s.take(i), s.skip(i + 1))),
        None => None,
    }
}

/// Cuts `s` at the first `mark`.
pub fn cut_once(s: &str, mark: char) -> (parts: Option<(String, String)>)
    ensures
        match parts {
            Some(p) => cut_at_first(s@, mark) == Some((p.0@, p.1@)),
            None => cut_at_first(s@, mark) is None,
        },
{
    let list = chars_of(s);
    let mut i: usize = 0;
    while i < list.len()
        invariant
            i <= list.len(),
            list@ == s@,
            forall|j: int| 0 <= j < i ==> list@[j] != mark,
        decreases list.len() - i,
    {
        if list[i] == mark {
            proof {
                s@.index_of_first_ensures(mark);
                assert(s@[i as int] == mark);
                assert(s@.contains(mark));
            }
            let before = s.substring_char(0, i).to_owned();
            let after = s.substring_char(i + 1, list.len()).to_owned();
            assert(before@ =~= s@.take(i as int));
            assert(after@ =~= s@.skip(i + 1));
            return Some((before, after));
        }
        i += 1;
    }
    proof {
        s@.index_of_first_ensures(mark);
    }
    None
}

/// The texts of `list` in order, with `sep` between each two.
pub open spec fn joined(list: Seq<Seq<char>>, sep: Seq<char>) -> Seq<char>
    decreases list.len(),
{
    if list.len() == 0 {
        seq![]
    } else if list.len() == 1 {
        list[0]
    } else {
        joined(list.drop_last(), sep) + sep + list.last()
    }
}

/// Joins `list` with `sep` between each two.
pub fn join_texts(list: &Vec<String>, sep: &str) -> (whole: String)
    ensures
        whole@ == joined(texts(list@), sep@),
{
    let mut whole = String::new();
    let mut i: usize = 0;
    while i < list.len()
        invariant
            i <= list.len(),
            whole@ == joined(texts(list@).take(i as int), sep@),
        decreases list.len() - i,
    {
        if i > 0 {
            whole.append(sep);
        }
        whole.append(list[i].as_str());
        assert(texts(list@).take(i + 1).drop_last() =~= texts(list@).take(i as int));
        assert(texts(list@).take(i + 1).last() == list@[i as int]@);
        i += 1;
    }
    assert(texts(list@).take(i as int) =~= texts(list@));
    whole
}

/// A copy of `list`.
pub fn copy_texts(list: &Vec<String>) -> (copy: Vec<String>)
    ensures
        texts(copy@) == texts(list@),
{
    let mut copy: Vec<String> = Vec::new();
    let mut i: usize = 0;
    while i < list.len()
        invariant
            i <= list.len(),
            texts(copy@) =~= texts(list@).take(i as int),
        decreases list.len() - i,
    {
        let ghost so_far = texts(copy@);
        copy.push(list[i].clone());
        assert(texts(copy@) =~= so_far.push(list@[i as int]@));
        assert(texts(list@).take(i + 1) =~= texts(list@).take(i as int).push(list@[i as int]@));
        i += 1;
    }
    assert(texts(list@).take(i as int) =~= texts(list@));
    copy
}

/// Whether `item` is one of `list`.
pub fn contains_text(list: &Vec<String>, item: &str) -> (found: bool)
    ensures
        found == texts(list@).contains(item@),
{
    let mut i: usize = 0;
    while i < list.len()
        invariant
            i <= list.len(),
            forall|j: int| 0 <= j < i ==> #[trigger] texts(list@)[j] != item@,
        decreases list.len() - i,
    {
        if same_text(list[i].as_str(), item) {
            assert(texts(list@)[i as int] == item@);
            return true;
        }
        i += 1;
    }
    false
}

/// `list` in ascending order of text.
pub open spec fn sorted_texts(list: Seq<Seq<char>>) -> Seq<Seq<char>> {
    list.sort_by(text_order())
}

/// Sorts `list` in ascending order of text.
pub fn sort_texts(list: &Vec<String>) -> (sorted: Vec<String>)
    ensures
        texts(sorted@) == sorted_texts(texts(list@)),
{
    let mut sorted: Vec<String> = Vec::new();
    let mut i: usize = 0;
    assert(texts(sorted@) =~= texts(list@).take(0));
    while i < list.len()
        invariant
            i <= list.len(),
            sorted_by(texts(sorted@), text_order()),
            texts(sorted@).to_multiset() =~= texts(list@).take(i as int).to_multiset(),
        decreases list.len() - i,
    {
        let ghost item = list@[i as int]@;
        let copy = list[i].clone();
        assert(copy@ == item);
        insert_text(&mut sorted, copy);
        proof {
            vstd::seq_lib::to_multiset_build(texts(list@).take(i as int), item);
            assert(texts(list@).take(i + 1) =~= texts(list@).take(i as int).push(item));
        }
        i += 1;
    }
    proof {
        assert(texts(list@).take(i as int) =~= texts(list@));
        lemma_text_order_total();
        texts(list@).lemma_sort_by_ensures(text_order());
        vstd::seq_lib::lemma_sorted_unique(
            texts(sorted@),
            sorted_texts(texts(list@)),
            text_order(),
        );
    }
    sorted
}

/// Puts `item` where it belongs in an ascending list.
fn insert_text(sorted: &mut Vec<String>, item: String)
    requires
        sorted_by(texts(old(sorted)@), text_order()),
    ensures
        sorted_by(texts(final(sorted)@), text_order()),
        texts(final(sorted)@).to_multiset() =~= texts(old(sorted)@).to_multiset().insert(item@),
{
    let ghost before = texts(sorted@);
    let mut at: usize = 0;
    while at < sorted.len() && !text_before(item.as_str(), sorted[at].as_str())
        invariant
            at <= sorted.len(),
            sorted@ == old(sorted)@,
            before == texts(sorted@),
            forall|j: int| 0 <= j < at ==> !text_lt(item@, #[trigger] before[j]),
        decreases sorted.len() - at,
    {
        at += 1;
    }
    proof {
        let order = text_order();
        assert forall|j: int| 0 <= j < at implies #[trigger] order(before[j], item@) by {
            lemma_lt_connected(before[j], item@);
        }
        assert forall|j: int| at <= j < before.len() implies #[trigger] order(
            item@,
            before[j],
        ) by {
            if j > at {
                assert(order(before[at as int], before[j]));
                if before[at as int] != before[j] {
                    lemma_lt_transitive(item@, before[at as int], before[j]);
                }
            }
        }
        vstd::seq_lib::to_multiset_insert(before, at as int, item@);
    }
    sorted.insert(at, item);
    proof {
        let after = texts(sorted@);
        let order = text_order();
        assert(after =~= before.insert(at as int, item@));
        assert forall|i: int, j: int| 0 <= i < j < after.len() implies #[trigger] order(
            after[i],
            after[j],
        ) by {
            if i < at {
                assert(after[i] == before[i]);
                assert(order(before[i], item@));
            }
            if j < at {
                assert(after[j] == before[j]);
                assert(order(before[i], before[j]));
            } else if j > at {
                assert(after[j] == before[j - 1]);
                assert(order(item@, before[j - 1]));
                if i > at {
                    assert(after[i] == before[i - 1]);
                    assert(order(before[i - 1], before[j - 1]));
                } else if i < at {
                    assert(order(before[i], before[j - 1]));
                }
            }
        }
    }
}

/// One text comes before another where the two part: at the first place at
/// which they differ the one has the smaller character, or has ended.
pub proof fn texts_are_ordered_where_they_part(a: Seq<char>, b: Seq<char>)
    ensures
        text_lt(a, b) <==> exists|k: int|
            0 <= k <= a.len() && k < b.len() && #[trigger] a.take(k) == b.take(k) && (k == a.len()
                || a[k] < b[k]),
    decreases a.len(),
{
    if b.len() > 0 && a.len() == 0 {
        assert(a.take(0) =~= b.take(0));
    } else if a.len() > 0 && b.len() > 0 {
        let (x, y) = (a.drop_first(), b.drop_first());
        if a[0] == b[0] {
            texts_are_ordered_where_they_part(x, y);
            if text_lt(a, b) {
                let k = choose|k: int|
                    0 <= k <= x.len() && k < y.len() && #[trigger] x.take(k) == y.take(k) && (k
                        == x.len() || x[k] < y[k]);
                assert(a.take(k + 1) =~= seq![a[0]] + x.take(k));
                assert(b.take(k + 1) =~= seq![b[0]] + y.take(k));
                assert(a.take(k + 1) == b.take(k + 1));
            }
            if exists|k: int|
                0 <= k <= a.len() && k < b.len() && #[trigger] a.take(k) == b.take(k) && (k
                    == a.len() || a[k] < b[k]) {
                let k = choose|k: int|
                    0 <= k <= a.len() && k < b.len() && #[trigger] a.take(k) == b.take(k) && (k
                        == a.len() || a[k] < b[k]);
                assert(k > 0);
                assert(x.take(k - 1) =~= a.take(k).drop_first());
                assert(y.take(k - 1) =~= b.take(k).drop_first());
                assert(x.take(k - 1) == y.take(k - 1));
            }
        } else {
            if text_lt(a, b) {
                assert(a.take(0) =~= b.take(0));
            }
            assert forall|k: int|
                0 < k <= a.len() && k < b.len() implies #[trigger] a.take(k) != b.take(k) by {
                assert(a.take(k)[0] != b.take(k)[0]);
            }
        }
    }
}

/// A text that is cut is the part before, the mark and the part behind, and the
/// part before has no mark. A text that is not cut has none.
pub proof fn a_text_is_cut_at_its_first_mark(s: Seq<char>, mark: char)
    ensures
        match cut_at_first(s, mark) {
            Some((before, behind)) => s == before + seq![mark] + behind && !before.contains(mark),
            None => !s.contains(mark),
        },
{
    s.index_of_first_ensures(mark);
    match cut_at_first(s, mark) {
        Some((before, behind)) => {
            let i = s.index_of_first(mark)->0;
            assert(s =~= before + seq![mark] + behind);
            if before.contains(mark) {
                let j = choose|j: int| 0 <= j < before.len() && before[j] == mark;
                assert(s[j] == mark);
            }
        },
        None => {},
    }
}

/// Joining: nothing of no texts, one text as it is, and behind a joined list
/// the separator and the next text.
pub proof fn joining_adds_a_separator_and_a_text(
    list: Seq<Seq<char>>,
    next: Seq<char>,
    sep: Seq<char>,
)
    ensures
        joined(seq![], sep) == Seq::<char>::empty(),
        joined(seq![next], sep) == next,
        list.len() > 0 ==> joined(list.push(next), sep) == joined(list, sep) + sep + next,
{
    assert(list.push(next).drop_last() =~= list);
}

/// Sorting keeps every text as often as it is there, and puts each before
/// those that come behind it in the order of texts.
pub proof fn sorting_keeps_texts_and_orders_them(list: Seq<Seq<char>>, i: int, j: int)
    ensures
        sorted_texts(list).to_multiset() == list.to_multiset(),
        0 <= i < j < sorted_texts(list).len() ==> sorted_texts(list)[i] == sorted_texts(list)[j]
            || text_lt(sorted_texts(list)[i], sorted_texts(list)[j]),
{
    lemma_text_order_total();
    list.lemma_sort_by_ensures(text_order());
    let order = text_order();
    if 0 <= i < j < sorted_texts(list).len() {
        assert(order(sorted_texts(list)[i], sorted_texts(list)[j]));
    }
}

/// The texts of a list are those of its strings, one for one, and the text of a
/// variable is the text that it is set to.
pub proof fn texts_are_those_of_the_strings(list: Seq<String>, i: int, value: &str)
    ensures
        texts(list).len() == list.len(),
        0 <= i < list.len() ==> texts(list)[i] == list[i]@,
        set_text(Some(value)) == Some(value@),
        set_text(None) is None,
{
}

} // verus!
