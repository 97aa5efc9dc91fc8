//! Name-keyed association tables, held as vectors of pairs so that their
//! contents and their iteration order are plain mathematical sequences.
//! Lookup finds the first entry with the key; insertion replaces that entry
//! or appends a new one, so a table built by insertions keeps its keys unique
//! and in first-insertion order.

use vstd::prelude::*;

verus! {

/// The value under the first entry carrying `name`, if any.
pub open spec fn spec_lookup<V>(entries: Seq<(Seq<char>, V)>, name: Seq<char>) -> Option<V>
    decreases entries.len(),
{
    if entries.len() == 0 {
        None
    } else if entries[0].0 == name {
        Some(entries[0].1)
    } else {
        spec_lookup(entries.drop_first(), name)
    }
}

/// The table after binding `name` to `value`: the first entry carrying
/// `name` is replaced, or a new entry is appended.
pub open spec fn spec_insert<V>(
    entries: Seq<(Seq<char>, V)>,
    name: Seq<char>,
    value: V,
) -> Seq<(Seq<char>, V)>
    decreases entries.len(),
{
    if entries.len() == 0 {
        seq![(name, value)]
    } else if entries[0].0 == name {
        seq![(name, value)] + entries.drop_first()
    } else {
        seq![entries[0]] + spec_insert(entries.drop_first(), name, value)
    }
}

/// True when no two entries carry the same name.
pub open spec fn spec_unique_keys<V>(entries: Seq<(Seq<char>, V)>) -> bool {
    forall|i: int, j: int| 0 <= i < j < entries.len() ==> entries[i].0 != entries[j].0
}

/// A lookup succeeds exactly when some entry carries the name.
pub proof fn lemma_lookup_exists<V>(entries: Seq<(Seq<char>, V)>, name: Seq<char>)
    ensures
        spec_lookup(entries, name) is Some <==> exists|i: int|
            0 <= i < entries.len() && entries[i].0 == name,
    decreases entries.len(),
{
    if entries.len() > 0 {
        lemma_lookup_exists(entries.drop_first(), name);
        if entries[0].0 == name {
            assert(entries[0].0 == name);
        } else {
            if spec_lookup(entries.drop_first(), name) is Some {
                let i = choose|i: int|
                    0 <= i < entries.drop_first().len() && entries.drop_first()[i].0 == name;
                assert(entries[i + 1].0 == name);
            }
            if exists|i: int| 0 <= i < entries.len() && entries[i].0 == name {
                let i = choose|i: int| 0 <= i < entries.len() && entries[i].0 == name;
                assert(entries.drop_first()[i - 1].0 == name);
            }
        }
    }
}

/// What a lookup sees after an insertion: the new value under the inserted
/// name, and the old ones under every other name.
pub proof fn lemma_lookup_insert<V>(
    entries: Seq<(Seq<char>, V)>,
    name: Seq<char>,
    value: V,
    queried: Seq<char>,
)
    ensures
        spec_lookup(spec_insert(entries, name, value), queried) == if queried == name {
            Some(value)
        } else {
            spec_lookup(entries, queried)
        },
    decreases entries.len(),
{
    let inserted = spec_insert(entries, name, value);
    if entries.len() == 0 {
        assert(inserted.len() == 1 && inserted[0] == (name, value));
        assert(inserted.drop_first() =~= Seq::<(Seq<char>, V)>::empty());
        if queried != name {
            assert(spec_lookup(inserted, queried) == spec_lookup(inserted.drop_first(), queried));
        }
    } else if entries[0].0 == name {
        assert(inserted.len() == 1 + entries.drop_first().len());
        assert(inserted[0] == (name, value));
        assert(inserted.drop_first() =~= entries.drop_first());
        if queried != name {
            assert(spec_lookup(inserted, queried) == spec_lookup(entries.drop_first(), queried));
            assert(spec_lookup(entries, queried) == spec_lookup(entries.drop_first(), queried));
        }
    } else {
        assert(inserted.len() == 1 + spec_insert(entries.drop_first(), name, value).len());
        assert(inserted[0] == entries[0]);
        assert(inserted.drop_first() =~= spec_insert(entries.drop_first(), name, value));
        lemma_lookup_insert(entries.drop_first(), name, value, queried);
        if queried == entries[0].0 {
            assert(spec_lookup(inserted, queried) == Some(entries[0].1));
        } else {
            assert(spec_lookup(inserted, queried) == spec_lookup(inserted.drop_first(), queried));
        }
    }
}

/// What a successful lookup returns is the value of some entry carrying
/// the name.
pub proof fn lemma_lookup_entry<V>(entries: Seq<(Seq<char>, V)>, name: Seq<char>)
    requires
        spec_lookup(entries, name) is Some,
    ensures
        exists|i: int|
            0 <= i < entries.len() && entries[i] == (name, spec_lookup(entries, name)->0),
    decreases entries.len(),
{
    if entries.len() > 0 {
        if entries[0].0 == name {
            assert(entries[0] == (name, spec_lookup(entries, name)->0));
        } else {
            lemma_lookup_entry(entries.drop_first(), name);
            let i = choose|i: int|
                0 <= i < entries.drop_first().len() && entries.drop_first()[i] == (
                    name,
                    spec_lookup(entries.drop_first(), name)->0,
                );
            assert(entries[i + 1] == (name, spec_lookup(entries, name)->0));
        }
    }
}

/// With unique keys, lookup finds each entry exactly where it stands.
pub proof fn lemma_lookup_at_unique<V>(entries: Seq<(Seq<char>, V)>, at: int)
    requires
        spec_unique_keys(entries),
        0 <= at < entries.len(),
    ensures
        spec_lookup(entries, entries[at].0) == Some(entries[at].1),
    decreases at,
{
    if at == 0 {
    } else {
        assert(spec_unique_keys(entries.drop_first())) by {
            assert forall|i: int, j: int|
                #![trigger entries.drop_first()[i], entries.drop_first()[j]]
                0 <= i < j < entries.drop_first().len() implies entries.drop_first()[i].0
                != entries.drop_first()[j].0 by {
                assert(entries.drop_first()[i] == entries[i + 1]);
                assert(entries.drop_first()[j] == entries[j + 1]);
            }
        }
        assert(entries.drop_first()[at - 1] == entries[at]);
        lemma_lookup_at_unique(entries.drop_first(), at - 1);
        assert(entries[0].0 != entries[at].0);
    }
}

/// When the first `count` entries miss the name, the lookup is decided by
/// the rest of the table.
pub proof fn lemma_lookup_skip<V>(entries: Seq<(Seq<char>, V)>, name: Seq<char>, count: int)
    requires
        0 <= count <= entries.len(),
        forall|j: int| 0 <= j < count ==> entries[j].0 != name,
    ensures
        spec_lookup(entries, name) == spec_lookup(entries.skip(count), name),
    decreases count,
{
    if count > 0 {
        lemma_lookup_skip(entries.drop_first(), name, count - 1);
        assert(entries.drop_first().skip(count - 1) =~= entries.skip(count));
    } else {
        assert(entries.skip(0) =~= entries);
    }
}

/// Inserting over the first entry carrying the name is an update in place.
pub proof fn lemma_insert_update<V>(
    entries: Seq<(Seq<char>, V)>,
    name: Seq<char>,
    value: V,
    at: int,
)
    requires
        0 <= at < entries.len(),
        entries[at].0 == name,
        forall|j: int| 0 <= j < at ==> entries[j].0 != name,
    ensures
        spec_insert(entries, name, value) =~= entries.update(at, (name, value)),
    decreases at,
{
    if at == 0 {
    } else {
        lemma_insert_update(entries.drop_first(), name, value, at - 1);
    }
}

/// Inserting a name no entry carries appends the new entry.
pub proof fn lemma_insert_append<V>(entries: Seq<(Seq<char>, V)>, name: Seq<char>, value: V)
    requires
        forall|j: int| 0 <= j < entries.len() ==> entries[j].0 != name,
    ensures
        spec_insert(entries, name, value) =~= entries.push((name, value)),
    decreases entries.len(),
{
    if entries.len() > 0 {
        lemma_insert_append(entries.drop_first(), name, value);
    }
}

/// Insertion keeps the keys unique.
pub proof fn lemma_insert_unique<V>(entries: Seq<(Seq<char>, V)>, name: Seq<char>, value: V)
    requires
        spec_unique_keys(entries),
    ensures
        spec_unique_keys(spec_insert(entries, name, value)),
{
    lemma_lookup_exists(entries, name);
    if spec_lookup(entries, name) is Some {
        let at = choose|i: int|
            0 <= i < entries.len() && entries[i].0 == name && forall|j: int|
                0 <= j < i ==> entries[j].0 != name;
        assert(exists|i: int|
            0 <= i < entries.len() && entries[i].0 == name && forall|j: int|
                0 <= j < i ==> entries[j].0 != name) by {
            let first = choose|i: int| 0 <= i < entries.len() && entries[i].0 == name;
            lemma_first_match_exists(entries, name, first);
        }
        lemma_insert_update(entries, name, value, at);
    } else {
        lemma_lookup_exists(entries, name);
        lemma_insert_append(entries, name, value);
    }
}

/// Among the entries carrying the name there is a first one.
proof fn lemma_first_match_exists<V>(entries: Seq<(Seq<char>, V)>, name: Seq<char>, witness: int)
    requires
        0 <= witness < entries.len(),
        entries[witness].0 == name,
    ensures
        exists|i: int|
            0 <= i < entries.len() && entries[i].0 == name && forall|j: int|
                0 <= j < i ==> entries[j].0 != name,
    decreases witness,
{
    if forall|j: int| 0 <= j < witness ==> entries[j].0 != name {
    } else {
        let earlier = choose|j: int| 0 <= j < witness && entries[j].0 == name;
        lemma_first_match_exists(entries, name, earlier);
    }
}

} // verus!
