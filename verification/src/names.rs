//! The order of names, and lists kept in that order.
//!
//! Modules, constants and procedures are each found under a name, and are
//! listed by name: in the order of `str`, which compares the bytes of the
//! UTF-8 encodings from the left. A list in that order holds no name twice,
//! so it is a finite map written down in the one way that the order allows.

use vstd::prelude::*;
use vstd::string::StringSliceAdditionalSpecFns;
use vstd::utf8::encode_utf8;
use crate::text::str_eq;

verus! {

/// `a` and `b` agree on their first `k` bytes, and there `a` ends while `b`
/// goes on, or has the smaller byte.
pub open spec fn decided_at(a: Seq<u8>, b: Seq<u8>, k: int) -> bool {
    &&& 0 <= k <= a.len()
    &&& k < b.len()
    &&& forall|j: int| 0 <= j < k ==> a[j] == b[j]
    &&& (k == a.len() || a[k] < b[k])
}

/// `a` comes before `b` where byte strings are compared from the left.
pub open spec fn bytes_before(a: Seq<u8>, b: Seq<u8>) -> bool {
    exists|k: int| decided_at(a, b, k)
}

/// `a` comes before `b` in the order of names.
pub open spec fn name_before(a: Seq<char>, b: Seq<char>) -> bool {
    bytes_before(encode_utf8(a), encode_utf8(b))
}

/// Each name comes before all that follow it.
pub open spec fn ordered(names: Seq<Seq<char>>) -> bool {
    forall|i: int, j: int| 0 <= i < j < names.len() ==> name_before(names[i], names[j])
}

/// The names under which the entries of a list are found.
pub open spec fn names_of<V>(entries: Seq<(Seq<char>, V)>) -> Seq<Seq<char>> {
    Seq::new(entries.len(), |i: int| entries[i].0)
}

/// How many of `names` in a row, from the first, come before `name`: in an
/// ordered list, where `name` is or belongs.
pub open spec fn position(names: Seq<Seq<char>>, name: Seq<char>) -> nat
    decreases names.len(),
{
    if names.len() == 0 || !name_before(names[0], name) {
        0
    } else {
        1 + position(names.skip(1), name)
    }
}

/// The list with `value` under `name`: in place of what was under that name,
/// or else where the order puts the name.
pub open spec fn put<V>(entries: Seq<(Seq<char>, V)>, name: Seq<char>, value: V) -> Seq<
    (Seq<char>, V),
> {
    let at = position(names_of(entries), name) as int;
    if at < entries.len() && entries[at].0 == name {
        entries.update(at, (name, value))
    } else {
        entries.insert(at, (name, value))
    }
}

/// Whether a list of flags marks the item at `i`: a flag that is missing
/// marks nothing.
pub open spec fn flagged(flags: Seq<bool>, i: int) -> bool {
    0 <= i < flags.len() && flags[i]
}

/// The items that `flags` does not mark, in their order.
pub open spec fn without<T>(items: Seq<T>, flags: Seq<bool>) -> Seq<T>
    decreases items.len(),
{
    if items.len() == 0 {
        Seq::empty()
    } else if flagged(flags, items.len() - 1) {
        without(items.drop_last(), flags)
    } else {
        without(items.drop_last(), flags).push(items.last())
    }
}

/// What comes before something that comes before a third comes before the
/// third.
pub proof fn lemma_bytes_transitive(a: Seq<u8>, b: Seq<u8>, c: Seq<u8>)
    requires
        bytes_before(a, b),
        bytes_before(b, c),
    ensures
        bytes_before(a, c),
{
    let k = choose|k: int| decided_at(a, b, k);
    let m = choose|m: int| decided_at(b, c, m);
    if k <= m {
        assert(decided_at(a, c, k));
    } else {
        assert(decided_at(a, c, m));
    }
}

/// Two byte strings that agree on their first `k` bytes are equal, or one of
/// them comes before the other.
proof fn lemma_bytes_total_from(a: Seq<u8>, b: Seq<u8>, k: int)
    requires
        0 <= k <= a.len(),
        k <= b.len(),
        forall|j: int| 0 <= j < k ==> a[j] == b[j],
    ensures
        bytes_before(a, b) || bytes_before(b, a) || a == b,
    decreases a.len() - k,
{
    if k == a.len() {
        if k == b.len() {
            assert(a =~= b);
        } else {
            assert(decided_at(a, b, k));
        }
    } else if k == b.len() {
        assert(decided_at(b, a, k));
    } else if a[k] < b[k] {
        assert(decided_at(a, b, k));
    } else if b[k] < a[k] {
        assert(decided_at(b, a, k));
    } else {
        lemma_bytes_total_from(a, b, k + 1);
    }
}

/// No name comes before itself.
pub proof fn lemma_name_irreflexive(a: Seq<char>)
    ensures
        !name_before(a, a),
{
}

/// The order of names is transitive.
pub proof fn lemma_name_transitive(a: Seq<char>, b: Seq<char>, c: Seq<char>)
    requires
        name_before(a, b),
        name_before(b, c),
    ensures
        name_before(a, c),
{
    lemma_bytes_transitive(encode_utf8(a), encode_utf8(b), encode_utf8(c));
}

/// Of two different names one comes before the other.
pub proof fn lemma_name_total(a: Seq<char>, b: Seq<char>)
    ensures
        name_before(a, b) || name_before(b, a) || a == b,
{
    lemma_bytes_total_from(encode_utf8(a), encode_utf8(b), 0);
    // Equal encodings decode to equal names.
    vstd::utf8::encode_utf8_decode_utf8(a);
    vstd::utf8::encode_utf8_decode_utf8(b);
}

/// An ordered list holds no name twice.
pub proof fn lemma_ordered_names_differ(names: Seq<Seq<char>>, i: int, j: int)
    requires
        ordered(names),
        0 <= i < names.len(),
        0 <= j < names.len(),
        names[i] == names[j],
    ensures
        i == j,
{
    lemma_name_irreflexive(names[i]);
}

/// In an ordered list, the place `at` with all names before it coming before
/// `name`, and none from it on, is the position of `name`.
pub proof fn lemma_position(names: Seq<Seq<char>>, name: Seq<char>, at: int)
    requires
        0 <= at <= names.len(),
        forall|j: int| 0 <= j < at ==> name_before(#[trigger] names[j], name),
        at < names.len() ==> !name_before(names[at], name),
    ensures
        position(names, name) == at,
    decreases at,
{
    if at > 0 {
        let rest = names.skip(1);
        assert forall|j: int| 0 <= j < at - 1 implies name_before(#[trigger] rest[j], name) by {
            assert(rest[j] == names[j + 1]);
        }
        if at < names.len() {
            assert(rest[at - 1] == names[at]);
        }
        lemma_position(rest, name, at - 1);
    }
}

/// Putting a name into an ordered list leaves it ordered.
pub proof fn lemma_put_ordered<V>(entries: Seq<(Seq<char>, V)>, name: Seq<char>, value: V)
    requires
        ordered(names_of(entries)),
    ensures
        ordered(names_of(put(entries, name, value))),
{
    let names = names_of(entries);
    let at = position(names, name) as int;
    lemma_position_splits(names, name);
    let after = names_of(put(entries, name, value));
    if at < entries.len() && entries[at].0 == name {
        assert(after =~= names);
    } else {
        if at < names.len() {
            lemma_name_total(names[at], name);
        }
        assert forall|i: int, j: int| 0 <= i < j < after.len() implies name_before(
            after[i],
            after[j],
        ) by {
            if j < at {
                assert(after[i] == names[i] && after[j] == names[j]);
            } else if j == at {
                assert(after[i] == names[i]);
            } else if i < at {
                assert(after[i] == names[i] && after[j] == names[j - 1]);
            } else if i == at {
                assert(after[j] == names[j - 1]);
                if j - 1 > at {
                    lemma_name_transitive(name, names[at], names[j - 1]);
                }
            } else {
                assert(after[i] == names[i - 1] && after[j] == names[j - 1]);
            }
        }
    }
}

/// The position of `name` splits a list: the names before it come before
/// `name`, and the name at it, if there is one, does not.
pub proof fn lemma_position_splits(names: Seq<Seq<char>>, name: Seq<char>)
    ensures
        position(names, name) <= names.len(),
        forall|j: int| 0 <= j < position(names, name) ==> name_before(#[trigger] names[j], name),
        position(names, name) < names.len() ==> !name_before(
            names[position(names, name) as int],
            name,
        ),
    decreases names.len(),
{
    if names.len() != 0 && name_before(names[0], name) {
        let rest = names.skip(1);
        lemma_position_splits(rest, name);
        assert forall|j: int| 0 <= j < position(names, name) implies name_before(
            #[trigger] names[j],
            name,
        ) by {
            if j > 0 {
                assert(names[j] == rest[j - 1]);
            }
        }
        if position(names, name) < names.len() {
            assert(names[position(names, name) as int] == rest[position(rest, name) as int]);
        }
    }
}

/// What is left of a list was in the list, unmarked.
pub proof fn lemma_without_source<T>(items: Seq<T>, flags: Seq<bool>, k: int) -> (i: int)
    requires
        0 <= k < without(items, flags).len(),
    ensures
        0 <= i < items.len(),
        !flagged(flags, i),
        without(items, flags)[k] == items[i],
        without(items.take(i), flags).len() == k,
    decreases items.len(),
{
    let front = without(items.drop_last(), flags);
    if !flagged(flags, items.len() - 1) && k == front.len() {
        assert(items.take(items.len() - 1) =~= items.drop_last());
        items.len() - 1
    } else {
        let i = lemma_without_source(items.drop_last(), flags, k);
        assert(items.drop_last().take(i) =~= items.take(i));
        i
    }
}

/// An unmarked item of a list is left, after those before it that are left.
pub proof fn lemma_without_keeps<T>(items: Seq<T>, flags: Seq<bool>, i: int)
    requires
        0 <= i < items.len(),
        !flagged(flags, i),
    ensures
        without(items.take(i), flags).len() < without(items, flags).len(),
        without(items, flags)[without(items.take(i), flags).len() as int] == items[i],
    decreases items.len(),
{
    if i == items.len() - 1 {
        assert(items.take(i) =~= items.drop_last());
    } else {
        lemma_without_keeps(items.drop_last(), flags, i);
        assert(items.drop_last().take(i) =~= items.take(i));
    }
}

/// What is left of an ordered list is ordered.
pub proof fn lemma_without_ordered<V>(entries: Seq<(Seq<char>, V)>, flags: Seq<bool>)
    requires
        ordered(names_of(entries)),
    ensures
        ordered(names_of(without(entries, flags))),
{
    let left = without(entries, flags);
    assert forall|a: int, b: int| 0 <= a < b < left.len() implies name_before(
        names_of(left)[a],
        names_of(left)[b],
    ) by {
        let i = lemma_without_source(entries, flags, a);
        let j = lemma_without_source(entries, flags, b);
        if j <= i {
            lemma_without_prefix(entries, flags, j, i);
        }
        assert(names_of(entries)[i] == entries[i].0);
        assert(names_of(entries)[j] == entries[j].0);
    }
}

/// Of a longer beginning of a list no less is left.
pub proof fn lemma_without_prefix<T>(items: Seq<T>, flags: Seq<bool>, shorter: int, longer: int)
    requires
        0 <= shorter <= longer <= items.len(),
    ensures
        without(items.take(shorter), flags).len() <= without(items.take(longer), flags).len(),
    decreases longer - shorter,
{
    if shorter < longer {
        lemma_without_prefix(items, flags, shorter, longer - 1);
        assert(items.take(longer).drop_last() =~= items.take(longer - 1));
    }
}

/// Whether `a` comes before `b` in the order of names, as `a < b` tells of
/// two `str`.
pub fn name_lt(a: &str, b: &str) -> (before: bool)
    ensures
        before == name_before(a@, b@),
{
    let x = a.as_bytes();
    let y = b.as_bytes();
    let mut i: usize = 0;
    while i < x.len() && i < y.len()
        invariant
            i <= x.len(),
            i <= y.len(),
            x@ == encode_utf8(a@),
            y@ == encode_utf8(b@),
            forall|j: int| 0 <= j < i ==> x@[j] == y@[j],
        decreases x.len() - i,
    {
        if x[i] != y[i] {
            proof {
                if x@[i as int] < y@[i as int] {
                    assert(decided_at(x@, y@, i as int));
                } else {
                    assert forall|k: int| !decided_at(x@, y@, k) by {
                        if decided_at(x@, y@, k) {
                            if k > i {
                                assert(x@[i as int] == y@[i as int]);
                            }
                        }
                    }
                }
            }
            return x[i] < y[i];
        }
        i += 1;
    }
    proof {
        if x.len() < y.len() {
            assert(decided_at(x@, y@, i as int));
        } else {
            assert forall|k: int| !decided_at(x@, y@, k) by {}
        }
    }
    x.len() < y.len()
}

/// The names under which the entries of a list are found.
pub open spec fn keys<T>(entries: Seq<(String, T)>) -> Seq<Seq<char>> {
    Seq::new(entries.len(), |i: int| entries[i].0@)
}

/// Puts `value` under `name` into a list that is in the order of names: in
/// place of the entry of that name, or else where the order puts the name.
/// Returns the place.
pub(crate) fn insert_sorted<T>(entries: &mut Vec<(String, T)>, name: String, value: T) -> (at:
    usize)
    requires
        ordered(keys(old(entries)@)),
    ensures
        at == position(keys(old(entries)@), name@),
        at <= old(entries)@.len(),
        at < old(entries)@.len() && keys(old(entries)@)[at as int] == name@ ==> final(entries)@
            == old(entries)@.update(at as int, (name, value)),
        !(at < old(entries)@.len() && keys(old(entries)@)[at as int] == name@)
            ==> final(entries)@ == old(entries)@.insert(at as int, (name, value)),
        ordered(keys(final(entries)@)),
{
    let ghost names = keys(entries@);
    let mut at: usize = 0;
    while at < entries.len() && name_lt(entries[at].0.as_str(), name.as_str())
        invariant
            at <= entries@.len(),
            entries@ == old(entries)@,
            names == keys(entries@),
            forall|j: int| 0 <= j < at ==> name_before(#[trigger] names[j], name@),
        decreases entries@.len() - at,
    {
        assert(names[at as int] == entries@[at as int].0@);
        at += 1;
    }
    proof {
        if at < entries@.len() {
            assert(names[at as int] == entries@[at as int].0@);
        }
        lemma_position(names, name@, at as int);
    }
    if at < entries.len() && str_eq(entries[at].0.as_str(), name.as_str()) {
        proof {
            assert(keys(entries@.update(at as int, (name, value))) =~= names);
        }
        entries.set(at, (name, value));
    } else {
        proof {
            let unit = Seq::new(entries@.len(), |i: int| (names[i], ()));
            assert(names_of(unit) =~= names);
            lemma_put_ordered(unit, name@, ());
            assert(keys(entries@.insert(at as int, (name, value))) =~= names_of(
                put(unit, name@, ()),
            ));
        }
        entries.insert(at, (name, value));
    }
    at
}

} // verus!
