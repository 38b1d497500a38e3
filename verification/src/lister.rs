//! Turning what was read of a directory into its listing.
//!
//! Reading the directory is the caller's part. From the children that were
//! read, the listing keeps those whose metadata could be had, gives each a
//! recency key, and orders them by that key, most recent first, without
//! reordering entries of equal recency.
use vstd::prelude::*;

verus! {

/// One child of a directory, as it is listed.
#[derive(Clone, Debug, PartialEq, Eq)]
pub struct Entry {
    pub display_name: String,
    pub full_path: String,
    pub is_directory: bool,
    pub recency_key: u128,
}

/// What the metadata of a child said, with each timestamp that could be
/// read given as a count from the epoch.
#[derive(Clone, Debug, PartialEq, Eq)]
pub struct Metadata {
    pub is_directory: bool,
    pub accessed: Option<u128>,
    pub modified: Option<u128>,
}

/// A child as it was read: its name, its path, and its metadata where that
/// could be read.
#[derive(Clone, Debug, PartialEq, Eq)]
pub struct Child {
    pub name: String,
    pub path: String,
    pub metadata: Option<Metadata>,
}

/// The directory could not be read.
#[derive(Clone, Debug, PartialEq, Eq)]
pub struct IoError {
    pub message: String,
}

/// The recency of a child: its last access, else its last modification,
/// else the epoch itself.
pub open spec fn recency_of(accessed: Option<u128>, modified: Option<u128>) -> u128 {
    match accessed {
        Some(at) => at,
        None => match modified {
            Some(at) => at,
            None => 0,
        },
    }
}

pub fn recency_key(accessed: Option<u128>, modified: Option<u128>) -> (key: u128)
    ensures
        key == recency_of(accessed, modified),
{
    match accessed {
        Some(at) => at,
        None => match modified {
            Some(at) => at,
            None => 0,
        },
    }
}

/// The entry that a child is listed as, if it is listed at all.
pub open spec fn entry_of(child: Child) -> Option<Entry> {
    match child.metadata {
        Some(metadata) => Some(
            Entry {
                display_name: child.name,
                full_path: child.path,
                is_directory: metadata.is_directory,
                recency_key: recency_of(metadata.accessed, metadata.modified),
            },
        ),
        None => None,
    }
}

/// `entry_of` as a value.
pub open spec fn listing_rule() -> spec_fn(Child) -> Option<Entry> {
    |child: Child| entry_of(child)
}

/// The entries of the children whose metadata could be read, in the order
/// in which the children were read.
pub open spec fn readable(children: Seq<Child>) -> Seq<Entry> {
    children.filter_map(listing_rule())
}

/// The test for a given recency key.
pub open spec fn has_key(key: u128) -> spec_fn(Entry) -> bool {
    |entry: Entry| entry.recency_key == key
}

/// The entries with a given recency key, in the order in which they stand.
pub open spec fn with_key(entries: Seq<Entry>, key: u128) -> Seq<Entry> {
    entries.filter(has_key(key))
}

/// No entry stands before a more recent one.
pub open spec fn is_descending(entries: Seq<Entry>) -> bool {
    forall|i: int, j: int|
        0 <= i < j < entries.len() ==> entries[i].recency_key >= entries[j].recency_key
}

/// `sorted` holds the entries of `listed`, most recent first, and entries of
/// equal recency stand as they stood in `listed`.
pub open spec fn is_recency_order(sorted: Seq<Entry>, listed: Seq<Entry>) -> bool {
    &&& sorted.len() == listed.len()
    &&& sorted.to_multiset() == listed.to_multiset()
    &&& is_descending(sorted)
    &&& forall|key: u128| #[trigger] with_key(sorted, key) == with_key(listed, key)
}

/// Putting an entry in front of the first entry that is not more recent
/// keeps the order and puts it first among its equals.
proof fn lemma_insert_keeps_order(sorted: Seq<Entry>, slot: int, entry: Entry)
    requires
        0 <= slot <= sorted.len(),
        is_descending(sorted),
        forall|i: int| 0 <= i < slot ==> sorted[i].recency_key > entry.recency_key,
        slot < sorted.len() ==> sorted[slot].recency_key <= entry.recency_key,
    ensures
        is_descending(sorted.insert(slot, entry)),
        forall|key: u128| #[trigger]
            with_key(sorted.insert(slot, entry), key) == with_key(seq![entry] + sorted, key),
{
    let grown = sorted.insert(slot, entry);
    sorted.insert_ensures(slot, entry);
    assert forall|i: int, j: int| 0 <= i < j < grown.len() implies grown[i].recency_key
        >= grown[j].recency_key by {
        let before = if i < slot {
            sorted[i].recency_key
        } else if i == slot {
            entry.recency_key
        } else {
            sorted[i - 1].recency_key
        };
        let after = if j < slot {
            sorted[j].recency_key
        } else if j == slot {
            entry.recency_key
        } else {
            sorted[j - 1].recency_key
        };
        assert(grown[i].recency_key == before);
        assert(grown[j].recency_key == after);
        if j > slot {
            assert(sorted[slot].recency_key >= sorted[j - 1].recency_key || slot == j - 1);
        }
    }
    let front = sorted.subrange(0, slot);
    let back = sorted.subrange(slot, sorted.len() as int);
    assert(sorted =~= front + back);
    assert(grown =~= front + (seq![entry] + back));
    assert forall|key: u128| #[trigger]
        with_key(grown, key) == with_key(seq![entry] + sorted, key) by {
        let test = has_key(key);
        Seq::filter_distributes_over_add(front, back, test);
        Seq::filter_distributes_over_add(front, seq![entry] + back, test);
        back.lemma_filter_prepend(entry, test);
        sorted.lemma_filter_prepend(entry, test);
        if key == entry.recency_key {
            assert(front.all(|e: Entry| !test(e)));
            front.lemma_all_neg_filter_empty(test);
            assert(front.filter(test) =~= Seq::<Entry>::empty());
            assert(with_key(grown, key) =~= with_key(seq![entry] + sorted, key));
        } else {
            assert(with_key(grown, key) =~= with_key(seq![entry] + sorted, key));
        }
    }
}

/// Two entries with the same key both show among the entries with that key.
proof fn lemma_two_with_key(entries: Seq<Entry>, key: u128, i: int, j: int)
    requires
        0 <= i < j < entries.len(),
        entries[i].recency_key == key,
        entries[j].recency_key == key,
    ensures
        with_key(entries, key).len() >= 2,
    decreases entries.len(),
{
    reveal(Seq::filter);
    let shorter = entries.drop_last();
    if j == entries.len() - 1 {
        shorter.lemma_filter_contains(has_key(key), i);
    } else {
        lemma_two_with_key(shorter, key, i, j);
    }
}

/// Where no two entries share a key, at most one entry has it.
proof fn lemma_one_with_key(entries: Seq<Entry>, key: u128)
    requires
        forall|a: int, b: int|
            0 <= a < b < entries.len() ==> entries[a].recency_key != entries[b].recency_key,
    ensures
        with_key(entries, key).len() <= 1,
    decreases entries.len(),
{
    reveal(Seq::filter);
    if entries.len() > 0 {
        let shorter = entries.drop_last();
        let test = has_key(key);
        if entries.last().recency_key == key {
            assert forall|i: int| 0 <= i < shorter.len() implies !test(#[trigger] shorter[i]) by {
                assert(entries[i].recency_key != entries[entries.len() - 1].recency_key);
            }
            assert(shorter.all(|e: Entry| !test(e)));
            shorter.lemma_all_neg_filter_empty(test);
        } else {
            lemma_one_with_key(shorter, key);
        }
    }
}

/// Where every entry of a directory has a recency of its own, each entry
/// of the listing is strictly more recent than the next.
pub proof fn lemma_distinct_recency_is_strict(sorted: Seq<Entry>, listed: Seq<Entry>)
    requires
        is_recency_order(sorted, listed),
        forall|a: int, b: int|
            0 <= a < b < listed.len() ==> listed[a].recency_key != listed[b].recency_key,
    ensures
        forall|i: int, j: int|
            0 <= i < j < sorted.len() ==> sorted[i].recency_key > sorted[j].recency_key,
{
    assert forall|i: int, j: int| 0 <= i < j < sorted.len() implies sorted[i].recency_key
        > sorted[j].recency_key by {
        let key = sorted[i].recency_key;
        if sorted[j].recency_key == key {
            lemma_two_with_key(sorted, key, i, j);
            lemma_one_with_key(listed, key);
            assert(with_key(sorted, key) == with_key(listed, key));
        }
    }
}

/// Two descending arrangements in which the entries of each key stand alike
/// are the same arrangement.
proof fn lemma_same_runs_same_order(first: Seq<Entry>, second: Seq<Entry>)
    requires
        first.len() == second.len(),
        is_descending(first),
        is_descending(second),
        forall|key: u128| #[trigger] with_key(first, key) == with_key(second, key),
    ensures
        first =~= second,
    decreases first.len(),
{
    if first.len() > 0 {
        let a = first[0];
        let b = second[0];
        let rest_a = first.drop_first();
        let rest_b = second.drop_first();
        assert(first =~= seq![a] + rest_a);
        assert(second =~= seq![b] + rest_b);
        assert(a.recency_key >= b.recency_key) by {
            let test = has_key(b.recency_key);
            second.lemma_filter_contains(test, 0);
            assert(with_key(first, b.recency_key) == with_key(second, b.recency_key));
            first.lemma_filter_contains_rev(test, b);
            let m = choose|m: int| 0 <= m < first.len() && first[m] == b;
            assert(first[0].recency_key >= first[m].recency_key || m == 0);
        }
        assert(b.recency_key >= a.recency_key) by {
            let test = has_key(a.recency_key);
            first.lemma_filter_contains(test, 0);
            assert(with_key(first, a.recency_key) == with_key(second, a.recency_key));
            second.lemma_filter_contains_rev(test, a);
            let m = choose|m: int| 0 <= m < second.len() && second[m] == a;
            assert(second[0].recency_key >= second[m].recency_key || m == 0);
        }
        assert forall|key: u128| #[trigger]
            with_key(rest_a, key) == with_key(rest_b, key) && (key == a.recency_key ==> a
                == b) by {
            let test = has_key(key);
            rest_a.lemma_filter_prepend(a, test);
            rest_b.lemma_filter_prepend(b, test);
            assert(with_key(first, key) == with_key(second, key));
            if key == a.recency_key {
                let kept_a = seq![a] + rest_a.filter(test);
                let kept_b = seq![b] + rest_b.filter(test);
                assert(kept_a == kept_b);
                assert(kept_a[0] == a && kept_b[0] == b);
                assert(rest_a.filter(test) =~= kept_a.drop_first());
                assert(rest_b.filter(test) =~= kept_b.drop_first());
            } else {
                assert(Seq::<Entry>::empty() + rest_a.filter(test) =~= rest_a.filter(test));
                assert(Seq::<Entry>::empty() + rest_b.filter(test) =~= rest_b.filter(test));
            }
        }
        assert(with_key(rest_a, a.recency_key) == with_key(rest_b, a.recency_key));
        assert(a == b);
        assert(is_descending(rest_a)) by {
            assert forall|i: int, j: int| 0 <= i < j < rest_a.len() implies rest_a[i].recency_key
                >= rest_a[j].recency_key by {
                assert(first[i + 1].recency_key >= first[j + 1].recency_key);
            }
        }
        assert(is_descending(rest_b)) by {
            assert forall|i: int, j: int| 0 <= i < j < rest_b.len() implies rest_b[i].recency_key
                >= rest_b[j].recency_key by {
                assert(second[i + 1].recency_key >= second[j + 1].recency_key);
            }
        }
        lemma_same_runs_same_order(rest_a, rest_b);
    }
}

/// The listing order of a directory is settled by what was read: however
/// often the same children are listed, the entries come out in the same
/// order, those of equal recency included.
pub proof fn lemma_recency_order_is_unique(
    first: Seq<Entry>,
    second: Seq<Entry>,
    listed: Seq<Entry>,
)
    requires
        is_recency_order(first, listed),
        is_recency_order(second, listed),
    ensures
        first == second,
{
    assert forall|key: u128| #[trigger] with_key(first, key) == with_key(second, key) by {
        assert(with_key(first, key) == with_key(listed, key));
        assert(with_key(second, key) == with_key(listed, key));
    }
    lemma_same_runs_same_order(first, second);
}

/// Orders entries by recency, most recent first, leaving entries of equal
/// recency in the order in which they came.
pub fn sort_by_recency(entries: Vec<Entry>) -> (sorted: Vec<Entry>)
    ensures
        is_recency_order(sorted@, entries@),
{
    let ghost listed = entries@;
    let mut pending = entries;
    let mut sorted: Vec<Entry> = Vec::new();
    assert(listed.skip(listed.len() as int) =~= Seq::<Entry>::empty());
    assert(listed.take(listed.len() as int) =~= listed);
    while pending.len() > 0
        invariant
            pending@.len() <= listed.len(),
            pending@ == listed.take(pending@.len() as int),
            sorted@.len() + pending@.len() == listed.len(),
            sorted@.to_multiset() == listed.skip(pending@.len() as int).to_multiset(),
            is_descending(sorted@),
            forall|key: u128| #[trigger]
                with_key(sorted@, key) == with_key(listed.skip(pending@.len() as int), key),
        decreases pending@.len(),
    {
        let ghost left = pending@.len() - 1;
        let ghost settled = sorted@;
        let entry = pending.pop().unwrap();
        let mut slot: usize = 0;
        while slot < sorted.len() && sorted[slot].recency_key > entry.recency_key
            invariant
                slot <= sorted.len(),
                forall|i: int| 0 <= i < slot ==> sorted@[i].recency_key > entry.recency_key,
            decreases sorted.len() - slot,
        {
            slot += 1;
        }
        sorted.insert(slot, entry);
        proof {
            lemma_insert_keeps_order(settled, slot as int, entry);
            vstd::seq_lib::to_multiset_insert(settled, slot as int, entry);
            let tail = listed.skip(left + 1);
            assert(listed.skip(left) =~= seq![entry] + tail);
            assert((seq![entry] + tail) =~= tail.insert(0, entry));
            vstd::seq_lib::to_multiset_insert(tail, 0, entry);
            assert(pending@ =~= listed.take(left));
            assert forall|key: u128| #[trigger]
                with_key(sorted@, key) == with_key(listed.skip(left), key) by {
                settled.lemma_filter_prepend(entry, has_key(key));
                tail.lemma_filter_prepend(entry, has_key(key));
                assert(with_key(settled, key) == with_key(tail, key));
                assert(with_key(sorted@, key) == with_key(seq![entry] + settled, key));
            }
        }
    }
    assert(listed.skip(0) =~= listed);
    sorted
}

/// Keeps the children whose metadata could be read and gives each its
/// recency key. The order of reading is kept.
pub fn collect_readable(children: Vec<Child>) -> (entries: Vec<Entry>)
    ensures
        entries@ == readable(children@),
{
    let ghost all = children@;
    let mut entries: Vec<Entry> = Vec::new();
    for child in it: children
        invariant
            it.seq() == all,
            entries@ == all.take(it.index()).filter_map(listing_rule()),
    {
        proof {
            all.lemma_filter_map_take_succ(listing_rule(), it.index());
        }
        match child.metadata {
            Some(metadata) => {
                let recency_key = recency_key(metadata.accessed, metadata.modified);
                entries.push(
                    Entry {
                        display_name: child.name,
                        full_path: child.path,
                        is_directory: metadata.is_directory,
                        recency_key,
                    },
                );
            },
            None => {},
        }
    }
    assert(all.take(all.len() as int) =~= all);
    entries
}

/// The listing of a directory whose children were read: the readable
/// children, most recently touched first.
pub fn list_children(children: Vec<Child>) -> (listing: Vec<Entry>)
    ensures
        is_recency_order(listing@, readable(children@)),
{
    sort_by_recency(collect_readable(children))
}

/// The listing of a directory from the outcome of reading it. A failed
/// read is handed on as it came.
pub fn list(read: Result<Vec<Child>, IoError>) -> (listing: Result<Vec<Entry>, IoError>)
    ensures
        match read {
            Ok(children) => listing matches Ok(entries) && is_recency_order(
                entries@,
                readable(children@),
            ),
            Err(error) => listing == Err::<Vec<Entry>, IoError>(error),
        },
{
    match read {
        Ok(children) => Ok(list_children(children)),
        Err(error) => Err(error),
    }
}

} // verus!
