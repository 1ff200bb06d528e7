//! The header map as mathematics: Title-Case keys, the order of keys, and
//! what lookups and updates do to an ordered list of entries.

use vstd::prelude::*;
use crate::ascii::spec_ascii_upper;

verus! {

/// The bytes of one header: its name as the caller wrote it, and its value.
pub struct HeaderView {
    pub name: Seq<u8>,
    pub value: Seq<u8>,
}

/// A key of the map with the headers filed under it, in insertion order.
pub struct EntryView {
    pub key: Seq<u8>,
    pub values: Seq<HeaderView>,
}

/// The byte `-`, behind which a name starts a new word.
pub const BYTE_DASH: u8 = 0x2d;

/// The Title-Case form of a name: the first byte, and every byte behind a
/// `-`, in upper case; the others as they are.
pub open spec fn spec_title_case(s: Seq<u8>) -> Seq<u8> {
    Seq::new(
        s.len(),
        |i: int|
            if i == 0 || s[i - 1] == BYTE_DASH {
                spec_ascii_upper(s[i])
            } else {
                s[i]
            },
    )
}

/// Title-Case of a Title-Case name is that name.
pub proof fn lemma_title_case_idempotent(x: Seq<u8>)
    ensures
        spec_title_case(spec_title_case(x)) == spec_title_case(x),
{
}

/// Whether `a` comes before `b` in byte order, looking from position `i` on
/// where the two agree before `i`.
pub open spec fn lex_lt_from(a: Seq<u8>, b: Seq<u8>, i: int) -> bool
    decreases a.len() - i,
{
    if i < 0 || i >= b.len() {
        false
    } else if i >= a.len() {
        true
    } else if a[i] != b[i] {
        a[i] < b[i]
    } else {
        lex_lt_from(a, b, i + 1)
    }
}

/// Whether `a` comes before `b` in byte order: at the first position where
/// they differ `a` has the smaller byte, or `a` is a proper prefix of `b`.
pub open spec fn lex_lt(a: Seq<u8>, b: Seq<u8>) -> bool {
    lex_lt_from(a, b, 0)
}

proof fn lemma_lex_irreflexive_from(a: Seq<u8>, i: int)
    requires
        0 <= i,
    ensures
        !lex_lt_from(a, a, i),
    decreases a.len() - i,
{
    if i < a.len() {
        lemma_lex_irreflexive_from(a, i + 1);
    }
}

/// No byte string comes before itself.
pub proof fn lemma_lex_irreflexive(a: Seq<u8>)
    ensures
        !lex_lt(a, a),
{
    lemma_lex_irreflexive_from(a, 0);
}

proof fn lemma_lex_transitive_from(a: Seq<u8>, b: Seq<u8>, c: Seq<u8>, i: int)
    requires
        0 <= i,
        lex_lt_from(a, b, i),
        lex_lt_from(b, c, i),
    ensures
        lex_lt_from(a, c, i),
    decreases a.len() - i,
{
    if i < a.len() && i < b.len() && i < c.len() && a[i] == b[i] && b[i] == c[i] {
        lemma_lex_transitive_from(a, b, c, i + 1);
    }
}

/// The byte order is transitive.
pub proof fn lemma_lex_transitive(a: Seq<u8>, b: Seq<u8>, c: Seq<u8>)
    requires
        lex_lt(a, b),
        lex_lt(b, c),
    ensures
        lex_lt(a, c),
{
    lemma_lex_transitive_from(a, b, c, 0);
}

proof fn lemma_lex_total_from(a: Seq<u8>, b: Seq<u8>, i: int)
    requires
        0 <= i <= a.len(),
        i <= b.len(),
        forall|j: int| 0 <= j < i ==> a[j] == b[j],
        !lex_lt_from(a, b, i),
        !lex_lt_from(b, a, i),
    ensures
        a == b,
    decreases a.len() - i,
{
    if i < a.len() && i < b.len() {
        lemma_lex_total_from(a, b, i + 1);
    }
}

/// Of two different byte strings one comes before the other.
pub proof fn lemma_lex_total(a: Seq<u8>, b: Seq<u8>)
    requires
        !lex_lt(a, b),
        !lex_lt(b, a),
    ensures
        a == b,
{
    lemma_lex_total_from(a, b, 0);
}

/// The keys of `m` ascend strictly in byte order.
pub open spec fn keys_ascend(m: Seq<EntryView>) -> bool {
    forall|i: int, j: int| 0 <= i < j < m.len() ==> lex_lt(#[trigger] m[i].key, #[trigger] m[j].key)
}

/// Every header of the entry is filed under the Title-Case form of its name,
/// and the entry holds at least one.
pub open spec fn entry_wf(e: EntryView) -> bool {
    &&& e.values.len() > 0
    &&& forall|k: int| 0 <= k < e.values.len() ==> spec_title_case((#[trigger] e.values[k]).name) == e.key
}

/// The list of entries is a header map: keys ascend, so none occurs twice,
/// and every entry is in order.
pub open spec fn map_wf(m: Seq<EntryView>) -> bool {
    &&& keys_ascend(m)
    &&& forall|i: int| 0 <= i < m.len() ==> entry_wf(#[trigger] m[i])
}

/// The position of the first entry from `i` on whose key does not come
/// before `key`, or the length: where `key` is, or where it belongs.
pub open spec fn lower_bound(m: Seq<EntryView>, key: Seq<u8>, i: int) -> int
    decreases m.len() - i,
{
    if i < 0 || i >= m.len() {
        m.len() as int
    } else if !lex_lt(m[i].key, key) {
        i
    } else {
        lower_bound(m, key, i + 1)
    }
}

/// Whether the map has an entry under `key`.
pub open spec fn has_key(m: Seq<EntryView>, key: Seq<u8>) -> bool {
    lower_bound(m, key, 0) < m.len() && m[lower_bound(m, key, 0)].key == key
}

/// The headers filed under the Title-Case form of `name`, if there are any.
pub open spec fn spec_get(m: Seq<EntryView>, name: Seq<u8>) -> Option<Seq<HeaderView>> {
    let key = spec_title_case(name);
    if has_key(m, key) {
        Some(m[lower_bound(m, key, 0)].values)
    } else {
        None
    }
}

/// The map in which `values` are the headers under `key`.
pub open spec fn with_entry(m: Seq<EntryView>, key: Seq<u8>, values: Seq<HeaderView>) -> Seq<
    EntryView,
> {
    let at = lower_bound(m, key, 0);
    if has_key(m, key) {
        m.update(at, EntryView { key, values })
    } else {
        m.insert(at, EntryView { key, values })
    }
}

/// The map after `set`: the one header replaces what was under its key.
pub open spec fn spec_set(m: Seq<EntryView>, name: Seq<u8>, value: Seq<u8>) -> Seq<EntryView> {
    with_entry(m, spec_title_case(name), seq![HeaderView { name, value }])
}

/// The map after `append`: the header stands behind what was under its key.
pub open spec fn spec_append(m: Seq<EntryView>, name: Seq<u8>, value: Seq<u8>) -> Seq<EntryView> {
    let key = spec_title_case(name);
    let before = match spec_get(m, name) {
        Some(values) => values,
        None => Seq::empty(),
    };
    with_entry(m, key, before.push(HeaderView { name, value }))
}

/// The map after `remove`: nothing is under the key.
pub open spec fn spec_remove(m: Seq<EntryView>, name: Seq<u8>) -> Seq<EntryView> {
    let key = spec_title_case(name);
    if has_key(m, key) {
        m.remove(lower_bound(m, key, 0))
    } else {
        m
    }
}

/// Where `lower_bound` points: every key before it comes before `key`, and
/// the key at it does not.
pub proof fn lemma_lower_bound(m: Seq<EntryView>, key: Seq<u8>, i: int)
    requires
        0 <= i <= m.len(),
    ensures
        i <= lower_bound(m, key, i) <= m.len(),
        forall|j: int| i <= j < lower_bound(m, key, i) ==> lex_lt(#[trigger] m[j].key, key),
        lower_bound(m, key, i) < m.len() ==> !lex_lt(m[lower_bound(m, key, i)].key, key),
    decreases m.len() - i,
{
    if i < m.len() && lex_lt(m[i].key, key) {
        lemma_lower_bound(m, key, i + 1);
    }
}

/// Looking a name up gives what looking up its Title-Case form gives.
pub proof fn lemma_get_by_title_case(m: Seq<EntryView>, s: Seq<u8>)
    ensures
        spec_get(m, s) == spec_get(m, spec_title_case(s)),
{
    lemma_title_case_idempotent(s);
}

/// Putting an entry into a header map gives a header map.
pub proof fn lemma_with_entry_wf(m: Seq<EntryView>, key: Seq<u8>, values: Seq<HeaderView>)
    requires
        map_wf(m),
        entry_wf(EntryView { key, values }),
    ensures
        map_wf(with_entry(m, key, values)),
{
    let at = lower_bound(m, key, 0);
    let r = with_entry(m, key, values);
    lemma_lower_bound(m, key, 0);
    if !has_key(m, key) {
        assert forall|i: int, j: int| 0 <= i < j < r.len() implies lex_lt(
            #[trigger] r[i].key,
            #[trigger] r[j].key,
        ) by {
            if i == at {
                if !lex_lt(key, m[at].key) {
                    lemma_lex_total(key, m[at].key);
                }
                if j - 1 > at {
                    lemma_lex_transitive(key, m[at].key, m[j - 1].key);
                }
            }
        }
    }
}

/// Setting a header in a header map gives a header map.
pub proof fn lemma_set_wf(m: Seq<EntryView>, name: Seq<u8>, value: Seq<u8>)
    requires
        map_wf(m),
    ensures
        map_wf(spec_set(m, name, value)),
{
    lemma_with_entry_wf(m, spec_title_case(name), seq![HeaderView { name, value }]);
}

/// Appending a header to a header map gives a header map.
pub proof fn lemma_append_wf(m: Seq<EntryView>, name: Seq<u8>, value: Seq<u8>)
    requires
        map_wf(m),
    ensures
        map_wf(spec_append(m, name, value)),
{
    let key = spec_title_case(name);
    let before = match spec_get(m, name) {
        Some(values) => values,
        None => Seq::empty(),
    };
    let values = before.push(HeaderView { name, value });
    lemma_lower_bound(m, key, 0);
    lemma_with_entry_wf(m, key, values);
}

/// Removing a name from a header map gives a header map.
pub proof fn lemma_remove_wf(m: Seq<EntryView>, name: Seq<u8>)
    requires
        map_wf(m),
    ensures
        map_wf(spec_remove(m, name)),
{
    let key = spec_title_case(name);
    lemma_lower_bound(m, key, 0);
}

/// Of two byte strings at most one comes before the other.
pub proof fn lemma_lex_asymmetric(a: Seq<u8>, b: Seq<u8>)
    requires
        lex_lt(a, b),
    ensures
        !lex_lt(b, a),
        a != b,
{
    lemma_lex_irreflexive(a);
    if lex_lt(b, a) {
        lemma_lex_transitive(a, b, a);
    }
}

/// A position with only smaller keys before it, and none smaller at it, is
/// what `lower_bound` gives.
pub proof fn lemma_lower_bound_is(m: Seq<EntryView>, key: Seq<u8>, i: int, p: int)
    requires
        0 <= i <= p <= m.len(),
        forall|j: int| i <= j < p ==> lex_lt(#[trigger] m[j].key, key),
        p < m.len() ==> !lex_lt(m[p].key, key),
    ensures
        lower_bound(m, key, i) == p,
    decreases p - i,
{
    if i < p {
        lemma_lower_bound_is(m, key, i + 1, p);
    }
}

/// The entry that was put under a key is what a lookup of the key finds.
pub proof fn lemma_find_after_put(m: Seq<EntryView>, key: Seq<u8>, values: Seq<HeaderView>)
    ensures
        has_key(with_entry(m, key, values), key),
        with_entry(m, key, values)[lower_bound(with_entry(m, key, values), key, 0)].values
            == values,
{
    let at = lower_bound(m, key, 0);
    let r = with_entry(m, key, values);
    lemma_lower_bound(m, key, 0);
    lemma_lex_irreflexive(key);
    lemma_lower_bound_is(r, key, 0, at);
}

/// A lookup of another key finds what it found before an entry was put.
pub proof fn lemma_find_other_after_put(
    m: Seq<EntryView>,
    key: Seq<u8>,
    values: Seq<HeaderView>,
    other: Seq<u8>,
)
    requires
        other != key,
    ensures
        has_key(with_entry(m, key, values), other) == has_key(m, other),
        has_key(m, other) ==> with_entry(m, key, values)[lower_bound(
            with_entry(m, key, values),
            other,
            0,
        )] == m[lower_bound(m, other, 0)],
{
    let at = lower_bound(m, key, 0);
    let p = lower_bound(m, other, 0);
    let r = with_entry(m, key, values);
    lemma_lower_bound(m, key, 0);
    lemma_lower_bound(m, other, 0);
    if has_key(m, key) {
        lemma_lower_bound_is(r, other, 0, p);
    } else if p < at {
        lemma_lower_bound_is(r, other, 0, p);
    } else if lex_lt(other, key) {
        // `other` belongs just where the new key went: p == at.
        if p > at {
            lemma_lex_transitive(m[at].key, other, key);
        }
        lemma_lex_asymmetric(other, key);
        lemma_lower_bound_is(r, other, 0, at);
    } else {
        // The new key comes before `other`: what `other` finds moves up by one.
        if !lex_lt(key, other) {
            lemma_lex_total(key, other);
        }
        lemma_lower_bound_is(r, other, 0, p + 1);
    }
}

/// After `set` a lookup of the name finds the one header, and a lookup
/// under another key finds what it found before.
pub proof fn lemma_get_after_set(m: Seq<EntryView>, name: Seq<u8>, value: Seq<u8>, other: Seq<u8>)
    ensures
        spec_get(spec_set(m, name, value), name) == Some(seq![HeaderView { name, value }]),
        spec_title_case(other) != spec_title_case(name) ==> spec_get(
            spec_set(m, name, value),
            other,
        ) == spec_get(m, other),
{
    let key = spec_title_case(name);
    lemma_find_after_put(m, key, seq![HeaderView { name, value }]);
    if spec_title_case(other) != key {
        lemma_find_other_after_put(
            m,
            key,
            seq![HeaderView { name, value }],
            spec_title_case(other),
        );
    }
}

/// After `append` a lookup of the name finds the headers that it found
/// before and the new one behind them, and a lookup under another key finds
/// what it found before.
pub proof fn lemma_get_after_append(
    m: Seq<EntryView>,
    name: Seq<u8>,
    value: Seq<u8>,
    other: Seq<u8>,
)
    ensures
        spec_get(spec_append(m, name, value), name) == Some(
            match spec_get(m, name) {
                Some(values) => values,
                None => Seq::empty(),
            }.push(HeaderView { name, value }),
        ),
        spec_title_case(other) != spec_title_case(name) ==> spec_get(
            spec_append(m, name, value),
            other,
        ) == spec_get(m, other),
{
    let key = spec_title_case(name);
    let before = match spec_get(m, name) {
        Some(values) => values,
        None => Seq::empty(),
    };
    lemma_find_after_put(m, key, before.push(HeaderView { name, value }));
    if spec_title_case(other) != key {
        lemma_find_other_after_put(
            m,
            key,
            before.push(HeaderView { name, value }),
            spec_title_case(other),
        );
    }
}

/// After `remove` a lookup of the name finds nothing, and a lookup under
/// another key finds what it found before.
pub proof fn lemma_get_after_remove(m: Seq<EntryView>, name: Seq<u8>, other: Seq<u8>)
    requires
        keys_ascend(m),
    ensures
        spec_get(spec_remove(m, name), name) is None,
        spec_title_case(other) != spec_title_case(name) ==> spec_get(spec_remove(m, name), other)
            == spec_get(m, other),
{
    let key = spec_title_case(name);
    let at = lower_bound(m, key, 0);
    let r = spec_remove(m, name);
    lemma_lower_bound(m, key, 0);
    if has_key(m, key) {
        if at < r.len() {
            lemma_lex_asymmetric(key, m[at + 1].key);
        }
        lemma_lower_bound_is(r, key, 0, at);

        let k2 = spec_title_case(other);
        if k2 != key {
            let p = lower_bound(m, k2, 0);
            lemma_lower_bound(m, k2, 0);
            if p < at {
                lemma_lower_bound_is(r, k2, 0, p);
            } else if p == at {
                if !lex_lt(k2, key) {
                    lemma_lex_total(k2, key);
                }
                if at < r.len() {
                    lemma_lex_transitive(k2, key, m[at + 1].key);
                    lemma_lex_asymmetric(k2, m[at + 1].key);
                }
                lemma_lower_bound_is(r, k2, 0, at);
            } else {
                lemma_lower_bound_is(r, k2, 0, p - 1);
            }
        }
    }
}

} // verus!
