//! Entries of annotations, each a name and a value: what it means for them
//! to ascend, and what giving a name a value does to them.

use vstd::prelude::*;
use crate::order::{lemma_name_before_total, lemma_name_before_transitive, name_before};

verus! {

/// Each entry's name comes before the names of all entries behind it.
pub open spec fn ascending<M>(entries: Seq<(Seq<char>, M)>) -> bool {
    forall|i: int, j: int|
        0 <= i < j < entries.len() ==> name_before(#[trigger] entries[i].0, #[trigger] entries[j].0)
}

/// Some entry has the name `name`.
pub open spec fn names<M>(entries: Seq<(Seq<char>, M)>, name: Seq<char>) -> bool {
    exists|i: int| 0 <= i < entries.len() && #[trigger] entries[i].0 == name
}

/// The number of entries whose names come before `name`. Among ascending
/// entries this is where `name` stands, or where it would have to go.
pub open spec fn rank<M>(entries: Seq<(Seq<char>, M)>, name: Seq<char>) -> int
    decreases entries.len(),
{
    if entries.len() == 0 {
        0
    } else {
        rank(entries.drop_last(), name) + if name_before(entries.last().0, name) {
            1int
        } else {
            0int
        }
    }
}

/// The entries after `name` has been given `value`: in the place of the
/// entry of that name, or as a new entry where the order asks for it.
pub open spec fn with_entry<M>(entries: Seq<(Seq<char>, M)>, name: Seq<char>, value: M) -> Seq<
    (Seq<char>, M),
> {
    if names(entries, name) {
        entries.update(rank(entries, name), (name, value))
    } else {
        entries.insert(rank(entries, name), (name, value))
    }
}

/// Among ascending entries, the rank of a name is the one offset that
/// parts the entries before the name from the others.
pub proof fn lemma_rank_parts<M>(entries: Seq<(Seq<char>, M)>, name: Seq<char>, at: int)
    requires
        ascending(entries),
        0 <= at <= entries.len(),
        forall|j: int| 0 <= j < at ==> name_before(#[trigger] entries[j].0, name),
        at < entries.len() ==> !name_before(entries[at].0, name),
    ensures
        rank(entries, name) == at,
    decreases entries.len(),
{
    if entries.len() > 0 {
        let rest = entries.drop_last();
        let last = entries.last();
        if at == entries.len() {
            lemma_rank_parts(rest, name, at - 1);
        } else {
            if at < rest.len() {
                assert(rest[at] == entries[at]);
            }
            lemma_rank_parts(rest, name, at);
            if name_before(last.0, name) {
                if at < entries.len() - 1 {
                    assert(name_before(entries[at].0, entries[entries.len() - 1].0));
                    lemma_name_before_transitive(entries[at].0, last.0, name);
                }
            }
        }
    }
}

/// Giving a name a value keeps ascending entries ascending.
pub proof fn lemma_with_entry_ascending<M>(entries: Seq<(Seq<char>, M)>, name: Seq<char>, value: M)
    requires
        ascending(entries),
    ensures
        ascending(with_entry(entries, name, value)),
{
    let at = rank(entries, name);
    lemma_rank_bounds(entries, name);
    lemma_rank_is_place(entries, name);
    let after = with_entry(entries, name, value);
    assert forall|i: int, j: int| 0 <= i < j < after.len() implies name_before(
        #[trigger] after[i].0,
        #[trigger] after[j].0,
    ) by {
        if names(entries, name) {
            if i != at && j != at {
                assert(name_before(entries[i].0, entries[j].0));
            } else if i == at {
                assert(name_before(entries[at].0, entries[j].0));
            } else {
                assert(name_before(entries[i].0, entries[at].0));
            }
        } else {
            let oi = if i < at { i } else { i - 1 };
            let oj = if j < at { j } else { j - 1 };
            if i != at && j != at {
                assert(name_before(entries[oi].0, entries[oj].0));
            } else if i == at {
                assert(name_before(entries[at].0, entries[oj].0) || oj == at);
                if oj != at {
                    lemma_name_before_transitive(name, entries[at].0, entries[oj].0);
                }
            } else {
                assert(name_before(entries[oi].0, name));
            }
        }
    }
}

/// A rank is an offset into the entries, or their length.
pub proof fn lemma_rank_bounds<M>(entries: Seq<(Seq<char>, M)>, name: Seq<char>)
    ensures
        0 <= rank(entries, name) <= entries.len(),
    decreases entries.len(),
{
    if entries.len() > 0 {
        lemma_rank_bounds(entries.drop_last(), name);
    }
}

/// Among ascending entries, those before the rank of a name come before
/// the name, the others do not, and the name stands at its rank if it
/// stands anywhere.
pub proof fn lemma_rank_is_place<M>(entries: Seq<(Seq<char>, M)>, name: Seq<char>)
    requires
        ascending(entries),
    ensures
        forall|j: int| 0 <= j < rank(entries, name) ==> name_before(#[trigger] entries[j].0, name),
        forall|j: int|
            rank(entries, name) <= j < entries.len() ==> !name_before(
                #[trigger] entries[j].0,
                name,
            ),
        forall|j: int|
            0 <= j < entries.len() && #[trigger] entries[j].0 == name ==> j == rank(entries, name),
        !names(entries, name) ==> forall|j: int|
            rank(entries, name) <= j < entries.len() ==> name_before(
                name,
                #[trigger] entries[j].0,
            ),
{
    let at = first_not_before(entries, name, 0);
    lemma_first_not_before(entries, name, 0);
    lemma_rank_parts(entries, name, at);
    assert forall|j: int| at <= j < entries.len() implies !name_before(
        #[trigger] entries[j].0,
        name,
    ) by {
        if j > at && name_before(entries[j].0, name) {
            assert(name_before(entries[at].0, entries[j].0));
            lemma_name_before_transitive(entries[at].0, entries[j].0, name);
        }
    }
    assert forall|j: int| 0 <= j < entries.len() && #[trigger] entries[j].0 == name implies j
        == at by {
        lemma_name_before_total(name, name);
        if j > at {
            assert(name_before(entries[at].0, entries[j].0));
        }
    }
    if !names(entries, name) {
        assert forall|j: int| at <= j < entries.len() implies name_before(
            name,
            #[trigger] entries[j].0,
        ) by {
            lemma_name_before_total(name, entries[j].0);
        }
    }
}

/// The first offset from `from` on whose entry does not come before
/// `name`, or the length of the entries if there is none.
spec fn first_not_before<M>(entries: Seq<(Seq<char>, M)>, name: Seq<char>, from: int) -> int
    decreases entries.len() - from,
{
    if 0 <= from < entries.len() && name_before(entries[from].0, name) {
        first_not_before(entries, name, from + 1)
    } else {
        from
    }
}

/// What `first_not_before` finds: all entries from `from` up to it come
/// before `name`, and the entry at it does not.
proof fn lemma_first_not_before<M>(entries: Seq<(Seq<char>, M)>, name: Seq<char>, from: int)
    requires
        0 <= from <= entries.len(),
    ensures
        from <= first_not_before(entries, name, from) <= entries.len(),
        forall|j: int|
            from <= j < first_not_before(entries, name, from) ==> name_before(
                #[trigger] entries[j].0,
                name,
            ),
        first_not_before(entries, name, from) < entries.len() ==> !name_before(
            entries[first_not_before(entries, name, from)].0,
            name,
        ),
    decreases entries.len() - from,
{
    if from < entries.len() && name_before(entries[from].0, name) {
        lemma_first_not_before(entries, name, from + 1);
    }
}

/// The entries as a map: each name that some entry has, with the value of
/// an entry of that name. Among ascending entries there is one such entry.
pub open spec fn as_map<M>(entries: Seq<(Seq<char>, M)>) -> Map<Seq<char>, M> {
    Map::new(
        |name: Seq<char>| names(entries, name),
        |name: Seq<char>| entries[choose|i: int| 0 <= i < entries.len() && entries[i].0 == name].1,
    )
}

/// Among ascending entries no two have the same name.
pub proof fn lemma_names_differ<M>(entries: Seq<(Seq<char>, M)>, i: int, j: int)
    requires
        ascending(entries),
        0 <= i < entries.len(),
        0 <= j < entries.len(),
        entries[i].0 == entries[j].0,
    ensures
        i == j,
{
    lemma_name_before_total(entries[i].0, entries[j].0);
    if i < j {
        assert(name_before(entries[i].0, entries[j].0));
    } else if j < i {
        assert(name_before(entries[j].0, entries[i].0));
    }
}

/// The map of ascending entries gives each entry's name the entry's value.
pub proof fn lemma_as_map_at<M>(entries: Seq<(Seq<char>, M)>, i: int)
    requires
        ascending(entries),
        0 <= i < entries.len(),
    ensures
        as_map(entries).contains_key(entries[i].0),
        as_map(entries)[entries[i].0] == entries[i].1,
{
    let name = entries[i].0;
    assert(names(entries, name));
    let k = choose|k: int| 0 <= k < entries.len() && entries[k].0 == name;
    lemma_names_differ(entries, i, k);
}

/// Giving a name a value among ascending entries is what `insert` is on
/// their map.
pub proof fn lemma_with_entry_as_map<M>(entries: Seq<(Seq<char>, M)>, name: Seq<char>, value: M)
    requires
        ascending(entries),
    ensures
        as_map(with_entry(entries, name, value)) == as_map(entries).insert(name, value),
{
    let at = rank(entries, name);
    let after = with_entry(entries, name, value);
    let had = names(entries, name);
    lemma_rank_bounds(entries, name);
    lemma_rank_is_place(entries, name);
    lemma_with_entry_ascending(entries, name, value);
    assert(after[at] == (name, value));
    lemma_as_map_at(after, at);
    assert forall|other: Seq<char>| other != name implies (names(after, other) <==> names(
        entries,
        other,
    )) by {
        if names(entries, other) {
            let i = choose|i: int| 0 <= i < entries.len() && entries[i].0 == other;
            let to = if had || i < at {
                i
            } else {
                i + 1
            };
            assert(after[to].0 == other);
        }
        if names(after, other) {
            let i = choose|i: int| 0 <= i < after.len() && after[i].0 == other;
            let from = if had || i < at {
                i
            } else {
                i - 1
            };
            assert(entries[from].0 == other);
        }
    }
    assert forall|other: Seq<char>| other != name && names(entries, other) implies as_map(after)[other]
        == as_map(entries)[other] by {
        let i = choose|i: int| 0 <= i < entries.len() && entries[i].0 == other;
        let to = if had || i < at {
            i
        } else {
            i + 1
        };
        assert(after[to] == entries[i]);
        lemma_as_map_at(entries, i);
        lemma_as_map_at(after, to);
    }
    assert(as_map(after) =~= as_map(entries).insert(name, value));
}

/// The map of ascending entries without their first is the map of all of
/// them without the first name.
proof fn lemma_as_map_rest<M>(entries: Seq<(Seq<char>, M)>)
    requires
        ascending(entries),
        entries.len() > 0,
    ensures
        ascending(entries.skip(1)),
        as_map(entries.skip(1)) == as_map(entries).remove(entries[0].0),
{
    let rest = entries.skip(1);
    let first = entries[0].0;
    assert forall|i: int, j: int| 0 <= i < j < rest.len() implies name_before(
        #[trigger] rest[i].0,
        #[trigger] rest[j].0,
    ) by {
        assert(name_before(entries[i + 1].0, entries[j + 1].0));
    }
    assert forall|name: Seq<char>| names(rest, name) <==> (names(entries, name) && name
        != first) by {
        if names(rest, name) {
            let i = choose|i: int| 0 <= i < rest.len() && rest[i].0 == name;
            assert(entries[i + 1].0 == name);
            if name == first {
                lemma_names_differ(entries, 0, i + 1);
            }
        }
        if names(entries, name) && name != first {
            let i = choose|i: int| 0 <= i < entries.len() && entries[i].0 == name;
            assert(rest[i - 1].0 == name);
        }
    }
    assert forall|name: Seq<char>| names(rest, name) implies as_map(rest)[name] == as_map(
        entries,
    )[name] by {
        let i = choose|i: int| 0 <= i < rest.len() && rest[i].0 == name;
        assert(rest[i] == entries[i + 1]);
        lemma_as_map_at(rest, i);
        lemma_as_map_at(entries, i + 1);
    }
    assert(as_map(rest) =~= as_map(entries).remove(first));
}

/// Ascending entries are known by their map: two ways of putting the same
/// names and values in ascending order are the same.
pub proof fn lemma_ascending_unique<M>(a: Seq<(Seq<char>, M)>, b: Seq<(Seq<char>, M)>)
    requires
        ascending(a),
        ascending(b),
        as_map(a) == as_map(b),
    ensures
        a == b,
    decreases a.len(),
{
    if a.len() == 0 {
        if b.len() > 0 {
            lemma_as_map_at(b, 0);
            assert(names(a, b[0].0));
        }
        assert(a =~= b);
    } else {
        lemma_as_map_at(a, 0);
        assert(names(b, a[0].0));
        let k = choose|k: int| 0 <= k < b.len() && b[k].0 == a[0].0;
        lemma_as_map_at(b, 0);
        assert(names(a, b[0].0));
        let l = choose|l: int| 0 <= l < a.len() && a[l].0 == b[0].0;
        if k > 0 {
            assert(name_before(b[0].0, b[k].0));
            lemma_name_before_total(a[0].0, a[l].0);
            if l > 0 {
                assert(name_before(a[0].0, a[l].0));
            }
        }
        lemma_as_map_at(b, k);
        assert(a[0] == b[0]);
        lemma_as_map_rest(a);
        lemma_as_map_rest(b);
        lemma_ascending_unique(a.skip(1), b.skip(1));
        assert(a =~= seq![a[0]] + a.skip(1));
        assert(b =~= seq![b[0]] + b.skip(1));
    }
}

/// The order in which two different names are given their values makes no
/// difference to the entries.
pub proof fn lemma_with_entry_commutes<M>(
    entries: Seq<(Seq<char>, M)>,
    name: Seq<char>,
    value: M,
    other: Seq<char>,
    other_value: M,
)
    requires
        ascending(entries),
        name != other,
    ensures
        with_entry(with_entry(entries, name, value), other, other_value) == with_entry(
            with_entry(entries, other, other_value),
            name,
            value,
        ),
{
    let one = with_entry(entries, name, value);
    let two = with_entry(entries, other, other_value);
    lemma_with_entry_ascending(entries, name, value);
    lemma_with_entry_ascending(entries, other, other_value);
    lemma_with_entry_ascending(one, other, other_value);
    lemma_with_entry_ascending(two, name, value);
    lemma_with_entry_as_map(entries, name, value);
    lemma_with_entry_as_map(entries, other, other_value);
    lemma_with_entry_as_map(one, other, other_value);
    lemma_with_entry_as_map(two, name, value);
    assert(as_map(entries).insert(name, value).insert(other, other_value) =~= as_map(
        entries,
    ).insert(other, other_value).insert(name, value));
    lemma_ascending_unique(
        with_entry(one, other, other_value),
        with_entry(two, name, value),
    );
}

} // verus!
