//! A map from text to values that keeps its keys in ascending order.
use crate::text::{lemma_lt_asymmetric, lemma_lt_connected, lemma_lt_transitive, text_lt};
use crate::text::{same_text, text_before};
use vstd::prelude::*;

verus! {

/// Each text of `keys` comes before every later one.
pub open spec fn ascending(keys: Seq<Seq<char>>) -> bool {
    forall|i: int, j: int| 0 <= i < j < keys.len() ==> #[trigger] text_lt(keys[i], keys[j])
}

/// `keys` lists the keys of `map`, each once, in ascending order.
pub open spec fn lists_keys<W>(keys: Seq<Seq<char>>, map: Map<Seq<char>, W>) -> bool {
    &&& ascending(keys)
    &&& forall|k: Seq<char>| #[trigger] keys.contains(k) <==> map.contains_key(k)
}

/// The keys of `map`, each once, in ascending order.
pub open spec fn ordered_keys<W>(map: Map<Seq<char>, W>) -> Seq<Seq<char>> {
    choose|keys: Seq<Seq<char>>| lists_keys(keys, map)
}

proof fn lemma_ascending_tail(keys: Seq<Seq<char>>)
    requires
        ascending(keys),
        keys.len() > 0,
    ensures
        ascending(keys.drop_first()),
        forall|k: Seq<char>| #[trigger]
            keys.drop_first().contains(k) <==> keys.contains(k) && k != keys[0],
{
    let rest = keys.drop_first();
    assert forall|i: int, j: int| 0 <= i < j < rest.len() implies #[trigger] text_lt(
        rest[i],
        rest[j],
    ) by {
        assert(text_lt(keys[i + 1], keys[j + 1]));
    }
    assert forall|k: Seq<char>| #[trigger] rest.contains(k) <==> keys.contains(k) && k
        != keys[0] by {
        if rest.contains(k) {
            let i = choose|i: int| 0 <= i < rest.len() && rest[i] == k;
            assert(text_lt(keys[0], keys[i + 1]));
            lemma_lt_asymmetric(keys[0], keys[i + 1]);
            assert(keys[i + 1] == k);
        }
        if keys.contains(k) && k != keys[0] {
            let i = choose|i: int| 0 <= i < keys.len() && keys[i] == k;
            assert(rest[i - 1] == k);
        }
    }
}

/// Two ascending listings of the same texts are the same listing.
pub proof fn lemma_ascending_unique(a: Seq<Seq<char>>, b: Seq<Seq<char>>)
    requires
        ascending(a),
        ascending(b),
        forall|k: Seq<char>| #[trigger] a.contains(k) <==> b.contains(k),
    ensures
        a == b,
    decreases a.len(),
{
    if a.len() == 0 {
        if b.len() > 0 {
            assert(b.contains(b[0]));
            assert(a.contains(b[0]));
        }
        assert(a =~= b);
    } else {
        assert(a.contains(a[0]));
        assert(b.contains(a[0]));
        let i = choose|i: int| 0 <= i < b.len() && b[i] == a[0];
        assert(b.contains(b[0]));
        assert(a.contains(b[0]));
        let j = choose|j: int| 0 <= j < a.len() && a[j] == b[0];
        if i > 0 && j > 0 {
            assert(text_lt(b[0], b[i]));
            assert(text_lt(a[0], a[j]));
            lemma_lt_asymmetric(b[0], b[i]);
        }
        assert(a[0] == b[0]);
        lemma_ascending_tail(a);
        lemma_ascending_tail(b);
        assert forall|k: Seq<char>| #[trigger]
            a.drop_first().contains(k) <==> b.drop_first().contains(k) by {
            assert(a.contains(k) <==> b.contains(k));
        }
        lemma_ascending_unique(a.drop_first(), b.drop_first());
        assert(a =~= seq![a[0]] + a.drop_first());
        assert(b =~= seq![b[0]] + b.drop_first());
    }
}

/// A listing of the keys of `map` is the listing that `ordered_keys` names.
pub proof fn lemma_ordered_keys<W>(keys: Seq<Seq<char>>, map: Map<Seq<char>, W>)
    requires
        lists_keys(keys, map),
    ensures
        ordered_keys(map) == keys,
{
    let named = ordered_keys(map);
    assert(lists_keys(named, map));
    assert forall|k: Seq<char>| #[trigger] named.contains(k) <==> keys.contains(k) by {
        assert(named.contains(k) <==> map.contains_key(k));
        assert(keys.contains(k) <==> map.contains_key(k));
    }
    lemma_ascending_unique(named, keys);
}

/// The keys of a map with finitely many keys can be listed in order.
pub proof fn lemma_keys_listed<W>(map: Map<Seq<char>, W>)
    requires
        map.dom().finite(),
    ensures
        lists_keys(ordered_keys(map), map),
    decreases map.dom().len(),
{
    if map.dom().len() == 0 {
        let keys = Seq::<Seq<char>>::empty();
        assert forall|k: Seq<char>| #[trigger] keys.contains(k) <==> map.contains_key(k) by {
            assert(!map.dom().contains(k));
        }
        assert(lists_keys(keys, map));
    } else {
        let key = map.dom().choose();
        let rest = map.remove(key);
        lemma_keys_listed(rest);
        let at = lemma_listed_with(rest, key, map[key]);
        assert(rest.insert(key, map[key]) =~= map);
    }
}

/// Where a new key stands in the listing of the keys of a map.
pub proof fn lemma_listed_with<W>(map: Map<Seq<char>, W>, key: Seq<char>, value: W) -> (at: int)
    requires
        lists_keys(ordered_keys(map), map),
        !map.contains_key(key),
    ensures
        0 <= at <= ordered_keys(map).len(),
        lists_keys(ordered_keys(map).insert(at, key), map.insert(key, value)),
{
    let keys = ordered_keys(map);
    let after = map.insert(key, value);
    let at = lemma_place(keys, key, 0);
    let whole = keys.insert(at, key);
    assert(!keys.contains(key)) by {
        assert(keys.contains(key) <==> map.contains_key(key));
    }
    assert(at < keys.len() ==> text_lt(key, keys[at])) by {
        if at < keys.len() {
            lemma_lt_connected(keys[at], key);
            assert(keys.contains(keys[at]));
        }
    }
    lemma_ascending_insert(keys, at, key);
    assert forall|k: Seq<char>| #[trigger] whole.contains(k) <==> after.contains_key(k) by {
        assert(keys.contains(k) <==> map.contains_key(k));
        if k == key {
            assert(whole[at] == key);
        } else if keys.contains(k) {
            let i = choose|i: int| 0 <= i < keys.len() && keys[i] == k;
            if i < at {
                assert(whole[i] == k);
            } else {
                assert(whole[i + 1] == k);
            }
        } else if whole.contains(k) {
            let i = choose|i: int| 0 <= i < whole.len() && whole[i] == k;
            if i < at {
                assert(keys[i] == k);
            } else if i > at {
                assert(keys[i - 1] == k);
            }
        }
    }
    at
}

/// A position in an ascending listing, at or behind `from`, such that
/// everything before it comes before `key` and what stands there does not.
proof fn lemma_place(keys: Seq<Seq<char>>, key: Seq<char>, from: int) -> (at: int)
    requires
        0 <= from <= keys.len(),
        forall|j: int| 0 <= j < from ==> text_lt(#[trigger] keys[j], key),
    ensures
        0 <= at <= keys.len(),
        forall|j: int| 0 <= j < at ==> text_lt(#[trigger] keys[j], key),
        at < keys.len() ==> !text_lt(keys[at], key),
    decreases keys.len() - from,
{
    if from < keys.len() && text_lt(keys[from], key) {
        lemma_place(keys, key, from + 1)
    } else {
        from
    }
}

/// A map whose keys can be listed has finitely many.
pub proof fn lemma_listed_finite<W>(keys: Seq<Seq<char>>, map: Map<Seq<char>, W>)
    requires
        lists_keys(keys, map),
    ensures
        map.dom().finite(),
{
    vstd::seq_lib::seq_to_set_is_finite(keys);
    assert forall|k: Seq<char>| #[trigger] map.dom().contains(k) <==> keys.to_set().contains(k) by {
        assert(keys.contains(k) <==> map.contains_key(k));
    }
    assert(map.dom() =~= keys.to_set());
}

/// A listing of the keys of a map is as long as there are keys.
pub proof fn lemma_key_count<W>(map: Map<Seq<char>, W>)
    requires
        lists_keys(ordered_keys(map), map),
    ensures
        ordered_keys(map).len() == map.dom().len(),
{
    let keys = ordered_keys(map);
    assert(keys.no_duplicates()) by {
        assert forall|i: int, j: int| 0 <= i < keys.len() && 0 <= j < keys.len() && i
            != j implies keys[i] != keys[j] by {
            if i < j {
                lemma_lt_asymmetric(keys[i], keys[j]);
            } else {
                lemma_lt_asymmetric(keys[j], keys[i]);
            }
        }
    }
    keys.unique_seq_to_set();
    assert forall|k: Seq<char>| #[trigger] map.dom().contains(k) <==> keys.to_set().contains(k) by {
        assert(keys.contains(k) <==> map.contains_key(k));
    }
    assert(map.dom() =~= keys.to_set());
}

/// A map from text to values. Its view is the map of the views; its entries
/// stand in ascending order of key.
#[derive(Debug)]
pub struct TextMap<V> {
    entries: Vec<(String, V)>,
}

/// The keys of a list of entries, in order.
pub open spec fn entry_keys<V>(entries: Seq<(String, V)>) -> Seq<Seq<char>> {
    entries.map_values(|e: (String, V)| e.0@)
}

/// The map that a list of entries with distinct keys stands for.
pub open spec fn entry_map<V: View>(entries: Seq<(String, V)>) -> Map<Seq<char>, V::V> {
    Map::new(
        |k: Seq<char>| entry_keys(entries).contains(k),
        |k: Seq<char>| entries[entry_keys(entries).index_of(k)].1@,
    )
}

impl<V: View> View for TextMap<V> {
    type V = Map<Seq<char>, V::V>;

    closed spec fn view(&self) -> Map<Seq<char>, V::V> {
        entry_map(self.entries@)
    }
}

proof fn lemma_entry_at<V: View>(entries: Seq<(String, V)>, i: int)
    requires
        ascending(entry_keys(entries)),
        0 <= i < entries.len(),
    ensures
        entry_map(entries).contains_key(entries[i].0@),
        entry_map(entries)[entries[i].0@] == entries[i].1@,
{
    let keys = entry_keys(entries);
    assert(keys[i] == entries[i].0@);
    assert(keys.contains(keys[i]));
    let j = keys.index_of(keys[i]);
    if j < i {
        lemma_lt_asymmetric(keys[j], keys[i]);
    } else if i < j {
        lemma_lt_asymmetric(keys[i], keys[j]);
    }
}

impl<V> TextMap<V> {
    #[verifier::type_invariant]
    spec fn in_order(self) -> bool {
        ascending(entry_keys(self.entries@))
    }
}

impl<V: View> TextMap<V> {
    /// The empty map.
    pub fn new() -> (map: Self)
        ensures
            map@ == Map::<Seq<char>, V::V>::empty(),
    {
        let map = TextMap { entries: Vec::new() };
        assert(map@ =~= Map::<Seq<char>, V::V>::empty());
        map
    }

    /// The map with the given entries, which stand in ascending order of key.
    pub fn from_ascending(entries: Vec<(String, V)>) -> (map: Self)
        requires
            ascending(entry_keys(entries@)),
        ensures
            map@ == entry_map(entries@),
    {
        TextMap { entries }
    }

    /// The entries in ascending order of key.
    pub fn entries(&self) -> (entries: &Vec<(String, V)>)
        ensures
            ascending(entry_keys(entries@)),
            entry_map(entries@) == self@,
    {
        proof {
            use_type_invariant(self);
        }
        &self.entries
    }

    /// How many keys the map has.
    pub fn len(&self) -> (n: usize)
        ensures
            n == ordered_keys(self@).len(),
            lists_keys(ordered_keys(self@), self@),
            self@.dom().finite(),
    {
        proof {
            use_type_invariant(self);
            lemma_ordered_keys(entry_keys(self.entries@), self@);
            lemma_listed_finite(ordered_keys(self@), self@);
        }
        self.entries.len()
    }

    /// The key at position `i` of the ascending order.
    pub fn key_at(&self, i: usize) -> (key: &String)
        requires
            i < ordered_keys(self@).len(),
        ensures
            key@ == ordered_keys(self@)[i as int],
            self@.contains_key(key@),
    {
        proof {
            use_type_invariant(self);
            lemma_ordered_keys(entry_keys(self.entries@), self@);
            lemma_entry_at(self.entries@, i as int);
        }
        &self.entries[i].0
    }

    /// The value of the key at position `i` of the ascending order.
    pub fn value_at(&self, i: usize) -> (value: &V)
        requires
            i < ordered_keys(self@).len(),
        ensures
            value@ == self@[ordered_keys(self@)[i as int]],
    {
        proof {
            use_type_invariant(self);
            lemma_ordered_keys(entry_keys(self.entries@), self@);
            lemma_entry_at(self.entries@, i as int);
        }
        &self.entries[i].1
    }

    /// The value of `key`, where the map has it.
    pub fn get(&self, key: &str) -> (value: Option<&V>)
        ensures
            match value {
                Some(v) => self@.contains_key(key@) && v@ == self@[key@],
                None => !self@.contains_key(key@),
            },
    {
        proof {
            use_type_invariant(self);
        }
        let ghost keys = entry_keys(self.entries@);
        let mut i: usize = 0;
        while i < self.entries.len()
            invariant
                i <= self.entries.len(),
                keys == entry_keys(self.entries@),
                ascending(keys),
                forall|j: int| 0 <= j < i ==> #[trigger] keys[j] != key@,
            decreases self.entries.len() - i,
        {
            if same_text(self.entries[i].0.as_str(), key) {
                proof {
                    lemma_entry_at(self.entries@, i as int);
                }
                return Some(&self.entries[i].1);
            }
            assert(keys[i as int] != key@);
            i += 1;
        }
        None
    }

    /// Whether the map has `key`.
    pub fn contains_key(&self, key: &str) -> (found: bool)
        ensures
            found == self@.contains_key(key@),
    {
        self.get(key).is_some()
    }

    /// Gives `key` the value `value`, in place of any that it had.
    pub fn insert(&mut self, key: String, value: V)
        ensures
            final(self)@ == old(self)@.insert(key@, value@),
    {
        proof {
            use_type_invariant(&*self);
        }
        let mut entries: Vec<(String, V)> = Vec::new();
        std::mem::swap(&mut entries, &mut self.entries);
        let ghost before = entries@;
        let ghost keys = entry_keys(before);
        let mut at: usize = 0;
        while at < entries.len() && text_before(entries[at].0.as_str(), key.as_str())
            invariant
                at <= entries.len(),
                entries@ == before,
                keys == entry_keys(before),
                forall|j: int| 0 <= j < at ==> text_lt(#[trigger] keys[j], key@),
            decreases entries.len() - at,
        {
            assert(keys[at as int] == entries@[at as int].0@);
            at += 1;
        }
        if at < entries.len() && same_text(entries[at].0.as_str(), key.as_str()) {
            entries.set(at, (key, value));
            proof {
                let after = entries@;
                assert(entry_keys(after) =~= keys);
                lemma_maps_agree_after_set(before, after, at as int);
            }
        } else {
            proof {
                if at < entries.len() {
                    assert(keys[at as int] == entries@[at as int].0@);
                    lemma_lt_connected(keys[at as int], key@);
                }
                lemma_ascending_insert(keys, at as int, key@);
            }
            entries.insert(at, (key, value));
            proof {
                let after = entries@;
                assert(entry_keys(after) =~= keys.insert(at as int, key@));
                lemma_maps_agree_after_insert(before, after, at as int);
            }
        }
        self.entries = entries;
    }
}

proof fn lemma_ascending_insert(keys: Seq<Seq<char>>, at: int, key: Seq<char>)
    requires
        ascending(keys),
        0 <= at <= keys.len(),
        forall|j: int| 0 <= j < at ==> text_lt(#[trigger] keys[j], key),
        at < keys.len() ==> text_lt(key, keys[at]),
    ensures
        ascending(keys.insert(at, key)),
        !keys.contains(key),
{
    assert forall|j: int| at <= j < keys.len() implies text_lt(key, #[trigger] keys[j]) by {
        if j > at {
            lemma_lt_transitive(key, keys[at], keys[j]);
        }
    }
    let after = keys.insert(at, key);
    assert forall|i: int, j: int| 0 <= i < j < after.len() implies #[trigger] text_lt(
        after[i],
        after[j],
    ) by {
        let a = if i < at { keys[i] } else if i == at { key } else { keys[i - 1] };
        let b = if j < at { keys[j] } else if j == at { key } else { keys[j - 1] };
        assert(after[i] == a && after[j] == b);
        if i < at && j > at {
            assert(text_lt(keys[i], keys[j - 1]));
        }
    }
    if keys.contains(key) {
        let i = choose|i: int| 0 <= i < keys.len() && keys[i] == key;
        if i < at {
            lemma_lt_asymmetric(keys[i], key);
        } else {
            lemma_lt_asymmetric(key, keys[i]);
        }
    }
}

proof fn lemma_maps_agree_after_set<V: View>(
    before: Seq<(String, V)>,
    after: Seq<(String, V)>,
    at: int,
)
    requires
        ascending(entry_keys(before)),
        0 <= at < before.len(),
        after.len() == before.len(),
        entry_keys(after) == entry_keys(before),
        forall|j: int| 0 <= j < before.len() && j != at ==> #[trigger] after[j] == before[j],
    ensures
        entry_map(after) == entry_map(before).insert(after[at].0@, after[at].1@),
{
    let keys = entry_keys(before);
    assert(keys[at] == after[at].0@) by {
        assert(entry_keys(after)[at] == after[at].0@);
    }
    assert(keys.contains(keys[at]));
    assert forall|k: Seq<char>| keys.contains(k) implies #[trigger] entry_map(after)[k]
        == entry_map(before).insert(after[at].0@, after[at].1@)[k] by {
        let i = keys.index_of(k);
        assert(0 <= i < keys.len() && keys[i] == k);
        lemma_entry_at(after, i);
        lemma_entry_at(before, i);
        assert(entry_keys(after)[i] == after[i].0@);
        assert(keys[i] == before[i].0@);
        if i != at && k == keys[at] {
            if i < at {
                lemma_lt_asymmetric(keys[i], keys[at]);
            } else {
                lemma_lt_asymmetric(keys[at], keys[i]);
            }
        }
    }
    assert(entry_map(after) =~= entry_map(before).insert(after[at].0@, after[at].1@));
}

proof fn lemma_maps_agree_after_insert<V: View>(
    before: Seq<(String, V)>,
    after: Seq<(String, V)>,
    at: int,
)
    requires
        ascending(entry_keys(before)),
        ascending(entry_keys(after)),
        0 <= at <= before.len(),
        after.len() == before.len() + 1,
        after == before.insert(at, after[at]),
        !entry_keys(before).contains(after[at].0@),
    ensures
        entry_map(after) == entry_map(before).insert(after[at].0@, after[at].1@),
{
    let old_keys = entry_keys(before);
    let keys = entry_keys(after);
    let goal = entry_map(before).insert(after[at].0@, after[at].1@);
    assert forall|k: Seq<char>| keys.contains(k) implies goal.contains_key(k)
        && #[trigger] entry_map(after)[k] == goal[k] by {
        let i = keys.index_of(k);
        assert(0 <= i < keys.len() && keys[i] == k);
        lemma_entry_at(after, i);
        if i < at {
            assert(after[i] == before[i]);
            lemma_entry_at(before, i);
            assert(old_keys[i] == k);
            assert(old_keys.contains(k));
        } else if i > at {
            assert(after[i] == before[i - 1]);
            lemma_entry_at(before, i - 1);
            assert(old_keys[i - 1] == k);
            assert(old_keys.contains(k));
        }
    }
    assert forall|k: Seq<char>| goal.contains_key(k) implies #[trigger] keys.contains(k) by {
        if k == after[at].0@ {
            assert(keys[at] == k);
        } else {
            let i = old_keys.index_of(k);
            assert(0 <= i < old_keys.len() && old_keys[i] == k);
            if i < at {
                assert(after[i] == before[i]);
                assert(keys[i] == k);
            } else {
                assert(after[i + 1] == before[i]);
                assert(keys[i + 1] == k);
            }
        }
    }
    assert forall|k: Seq<char>| #[trigger]
        entry_map(after).contains_key(k) <==> goal.contains_key(k) by {
        assert(entry_map(after).contains_key(k) <==> keys.contains(k));
        if keys.contains(k) {
            assert(entry_map(after)[k] == goal[k]);
        }
    }
    assert(entry_map(after) =~= goal);
}

/// A copy of a map whose values are texts.
pub fn copy_text_map(map: &TextMap<String>) -> (copy: TextMap<String>)
    ensures
        copy@ == map@,
{
    let mut copy: TextMap<String> = TextMap::new();
    let n = map.len();
    let ghost keys = ordered_keys(map@);
    let mut i: usize = 0;
    while i < n
        invariant
            i <= n,
            n == keys.len(),
            keys == ordered_keys(map@),
            lists_keys(keys, map@),
            forall|k: Seq<char>| #[trigger]
                copy@.contains_key(k) <==> keys.take(i as int).contains(k),
            forall|k: Seq<char>| #[trigger] copy@.contains_key(k) ==> copy@[k] == map@[k],
        decreases n - i,
    {
        copy.insert(map.key_at(i).clone(), map.value_at(i).clone());
        assert(keys.take(i + 1) =~= keys.take(i as int).push(keys[i as int]));
        assert forall|k: Seq<char>| #[trigger]
            copy@.contains_key(k) <==> keys.take(i + 1).contains(k) by {
            lemma_push_contains(keys.take(i as int), keys[i as int], k);
        }
        i += 1;
    }
    assert(keys.take(i as int) =~= keys);
    assert forall|k: Seq<char>| #[trigger] copy@.contains_key(k) <==> map@.contains_key(k) by {
        assert(keys.contains(k) <==> map@.contains_key(k));
    }
    assert(copy@ =~= map@);
    copy
}

/// Pushing `x` adds `x` to what a sequence contains, and nothing else.
pub proof fn lemma_push_contains<A>(s: Seq<A>, x: A, k: A)
    ensures
        s.push(x).contains(k) <==> s.contains(k) || k == x,
{
    let t = s.push(x);
    if s.contains(k) {
        let i = choose|i: int| 0 <= i < s.len() && s[i] == k;
        assert(t[i] == k);
    }
    if k == x {
        assert(t[s.len() as int] == k);
    }
    if t.contains(k) && k != x {
        let i = choose|i: int| 0 <= i < t.len() && t[i] == k;
        assert(s[i] == k);
    }
}

/// A listing of the keys of a map has every key and nothing else, and each text
/// in it comes before those behind it.
pub proof fn a_listing_has_every_key_in_order<W>(
    keys: Seq<Seq<char>>,
    map: Map<Seq<char>, W>,
    k: Seq<char>,
    i: int,
    j: int,
)
    requires
        lists_keys(keys, map),
    ensures
        keys.contains(k) <==> map.contains_key(k),
        0 <= i < j < keys.len() ==> text_lt(keys[i], keys[j]),
        ordered_keys(map) == keys,
{
    lemma_ordered_keys(keys, map);
}

/// The map of a list of entries with ascending keys has the keys of the entries
/// and nothing else, each with the value that stands beside it.
pub proof fn a_map_has_the_values_of_its_entries<V: View>(
    entries: Seq<(String, V)>,
    k: Seq<char>,
    i: int,
)
    requires
        ascending(entry_keys(entries)),
    ensures
        entry_map(entries).contains_key(k) <==> exists|j: int|
            0 <= j < entries.len() && #[trigger] entries[j].0@ == k,
        0 <= i < entries.len() ==> entry_map(entries)[entries[i].0@] == entries[i].1@,
{
    let keys = entry_keys(entries);
    if 0 <= i < entries.len() {
        lemma_entry_at(entries, i);
    }
    if keys.contains(k) {
        let j = choose|j: int| 0 <= j < keys.len() && keys[j] == k;
        assert(entries[j].0@ == k);
    }
    if exists|j: int| 0 <= j < entries.len() && #[trigger] entries[j].0@ == k {
        let j = choose|j: int| 0 <= j < entries.len() && #[trigger] entries[j].0@ == k;
        assert(keys[j] == k);
    }
}

} // verus!
