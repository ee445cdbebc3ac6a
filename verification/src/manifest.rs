//! The manifest of a share: the imported entries in the order of their
//! names, and the number of bytes that they hold together.

use crate::text::{lemma_name_le_total_order, name_le, name_le_exec};
use vstd::prelude::*;

verus! {

/// The fingerprint that the content store computes of a blob.
#[derive(Clone, Copy, Debug, PartialEq, Eq)]
pub struct ContentId {
    pub bytes: [u8; 32],
}

/// A file that has been imported into the content store. `tag` is whatever
/// keeps the content alive there; the library hands it through.
#[derive(Debug)]
pub struct ContentEntry<T> {
    /// The name of the file in the share.
    pub name: String,
    /// The fingerprint of its content.
    pub hash: ContentId,
    /// Its length in bytes, as the store counted it.
    pub size: u64,
    /// What keeps the content alive.
    pub tag: T,
}

/// Whether the names of a sequence of entries ascend in byte-wise order.
pub open spec fn sorted_by_name<T>(entries: Seq<ContentEntry<T>>) -> bool {
    forall|i: int, j: int|
        #![trigger entries[i], entries[j]]
        0 <= i < j < entries.len() ==> name_le(entries[i].name@, entries[j].name@)
}

/// The entries of a sequence that bear a given name, in their order.
pub open spec fn named<T>(entries: Seq<ContentEntry<T>>, name: Seq<char>) -> Seq<
    ContentEntry<T>,
> {
    entries.filter(|e: ContentEntry<T>| e.name@ == name)
}

/// Whether `sorted` holds the entries of `entries` in the order of their
/// names, those of one name in the order in which `entries` has them.
pub open spec fn is_sorted_arrangement<T>(
    sorted: Seq<ContentEntry<T>>,
    entries: Seq<ContentEntry<T>>,
) -> bool {
    &&& sorted_by_name(sorted)
    &&& sorted.to_multiset() == entries.to_multiset()
    &&& forall|name: Seq<char>| #[trigger] named(sorted, name) == named(entries, name)
}

/// Whether no two entries of a sequence bear the same name.
pub open spec fn unique_names<T>(entries: Seq<ContentEntry<T>>) -> bool {
    forall|i: int, j: int|
        #![trigger entries[i], entries[j]]
        0 <= i < j < entries.len() ==> entries[i].name@ != entries[j].name@
}

/// The entries of one name after an entry is put in at position `p`.
proof fn lemma_named_insert<T>(
    entries: Seq<ContentEntry<T>>,
    p: int,
    entry: ContentEntry<T>,
    name: Seq<char>,
)
    requires
        0 <= p <= entries.len(),
    ensures
        named(entries, name) == named(entries.take(p), name) + named(entries.skip(p), name),
        entry.name@ == name ==> named(entries.insert(p, entry), name) == named(
            entries.take(p),
            name,
        ).push(entry) + named(entries.skip(p), name),
        entry.name@ != name ==> named(entries.insert(p, entry), name) == named(entries, name),
{
    let pred = |e: ContentEntry<T>| e.name@ == name;
    let front = entries.take(p);
    let back = entries.skip(p);
    assert(entries =~= front + back);
    assert(entries.insert(p, entry) =~= front.push(entry) + back);
    Seq::filter_distributes_over_add(front, back, pred);
    Seq::filter_distributes_over_add(front.push(entry), back, pred);
    assert(front.push(entry).drop_last() =~= front);
    reveal_with_fuel(Seq::filter, 2);
}

/// No entry bears a name that all entries differ from.
proof fn lemma_named_none<T>(entries: Seq<ContentEntry<T>>, name: Seq<char>)
    requires
        forall|i: int| 0 <= i < entries.len() ==> (#[trigger] entries[i]).name@ != name,
    ensures
        named(entries, name) == Seq::<ContentEntry<T>>::empty(),
    decreases entries.len(),
{
    reveal_with_fuel(Seq::filter, 2);
    if entries.len() > 0 {
        lemma_named_none(entries.drop_last(), name);
    }
}

/// Putting an entry before its equals, and after all smaller names, keeps a
/// sorted arrangement.
proof fn lemma_insert_keeps_arrangement<T>(
    sorted: Seq<ContentEntry<T>>,
    done: Seq<ContentEntry<T>>,
    entry: ContentEntry<T>,
    p: int,
)
    requires
        is_sorted_arrangement(sorted, done),
        0 <= p <= sorted.len(),
        forall|j: int| 0 <= j < p ==> !name_le(entry.name@, (#[trigger] sorted[j]).name@),
        p < sorted.len() ==> name_le(entry.name@, sorted[p].name@),
    ensures
        is_sorted_arrangement(sorted.insert(p, entry), done.insert(0, entry)),
{
    let after = sorted.insert(p, entry);
    assert forall|i: int, j: int| 0 <= i < j < after.len() implies name_le(
        after[i].name@,
        after[j].name@,
    ) by {
        let a = after[i];
        let b = after[j];
        if j == p {
            assert(a == sorted[i]);
            lemma_name_le_total_order(a.name@, entry.name@, entry.name@);
        } else if i == p {
            assert(b == sorted[j - 1]);
            if j - 1 > p {
                assert(name_le(sorted[p].name@, sorted[j - 1].name@));
            }
            lemma_name_le_total_order(entry.name@, sorted[p].name@, b.name@);
        } else {
            let i0 = if i < p {
                i
            } else {
                i - 1
            };
            let j0 = if j < p {
                j
            } else {
                j - 1
            };
            assert(a == sorted[i0] && b == sorted[j0]);
        }
    }
    vstd::seq_lib::to_multiset_insert(sorted, p, entry);
    vstd::seq_lib::to_multiset_insert(done, 0, entry);
    assert forall|name: Seq<char>| #[trigger]
        named(after, name) == named(done.insert(0, entry), name) by {
        lemma_named_insert(sorted, p, entry, name);
        lemma_named_insert(done, 0, entry, name);
        assert(named(sorted, name) == named(done, name));
        if entry.name@ == name {
            assert forall|i: int| 0 <= i < sorted.take(p).len() implies (#[trigger] sorted.take(
                p,
            )[i]).name@ != name by {
                assert(sorted.take(p)[i] == sorted[i]);
                lemma_name_le_total_order(name, name, name);
            }
            lemma_named_none(sorted.take(p), name);
            assert(done.take(0) =~= Seq::<ContentEntry<T>>::empty());
            lemma_named_none(done.take(0), name);
            assert(done.skip(0) =~= done);
            assert(named(after, name) =~= named(done.insert(0, entry), name));
        }
    }
}

/// Puts entries in the order of their names, byte by byte. Entries of one
/// name keep the order that they came in.
pub fn sort_by_name<T>(entries: Vec<ContentEntry<T>>) -> (sorted: Vec<ContentEntry<T>>)
    ensures
        is_sorted_arrangement(sorted@, entries@),
{
    let ghost given = entries@;
    let mut rest = entries;
    let mut sorted: Vec<ContentEntry<T>> = Vec::new();
    let ghost mut done: Seq<ContentEntry<T>> = Seq::empty();
    proof {
        assert(given =~= rest@ + done);
    }
    while rest.len() > 0
        invariant
            given == rest@ + done,
            is_sorted_arrangement(sorted@, done),
        decreases rest.len(),
    {
        let entry = rest.pop().unwrap();
        let mut p: usize = 0;
        while p < sorted.len() && !name_le_exec(entry.name.as_str(), sorted[p].name.as_str())
            invariant
                p <= sorted.len(),
                forall|j: int| 0 <= j < p ==> !name_le(entry.name@, (#[trigger] sorted@[j]).name@),
            decreases sorted.len() - p,
        {
            p += 1;
        }
        proof {
            lemma_insert_keeps_arrangement(sorted@, done, entry, p as int);
            assert(rest@ + done.insert(0, entry) =~= given);
            done = done.insert(0, entry);
        }
        sorted.insert(p, entry);
    }
    proof {
        assert(rest@ + done =~= done);
    }
    sorted
}

/// The last entries of two sequences that hold the same entries in the order
/// of their names bear the same name.
proof fn lemma_last_names_agree<T>(a: Seq<ContentEntry<T>>, b: Seq<ContentEntry<T>>)
    requires
        sorted_by_name(a),
        sorted_by_name(b),
        a.to_multiset() == b.to_multiset(),
        a.len() > 0,
    ensures
        b.len() == a.len(),
        a.last().name@ == b.last().name@,
        a.drop_last().to_multiset() == b.drop_last().to_multiset() || a.last() != b.last(),
{
    broadcast use vstd::seq_lib::group_to_multiset_ensures;

    a.to_multiset_ensures();
    b.to_multiset_ensures();
    let la = a.last();
    let lb = b.last();
    assert(a.contains(la));
    assert(b.contains(lb));
    assert(b.to_multiset().count(la) > 0);
    assert(a.to_multiset().count(lb) > 0);
    assert(b.contains(la));
    assert(a.contains(lb));
    let i = choose|i: int| 0 <= i < b.len() && b[i] == la;
    let j = choose|j: int| 0 <= j < a.len() && a[j] == lb;
    lemma_name_le_total_order(la.name@, lb.name@, la.name@);
    if i < b.len() - 1 {
        assert(name_le(b[i].name@, b[b.len() - 1].name@));
    }
    if j < a.len() - 1 {
        assert(name_le(a[j].name@, a[a.len() - 1].name@));
    }
    if la == lb {
        assert(a.remove(a.len() - 1) =~= a.drop_last());
        assert(b.remove(b.len() - 1) =~= b.drop_last());
        vstd::seq_lib::to_multiset_remove(a, a.len() - 1);
        vstd::seq_lib::to_multiset_remove(b, b.len() - 1);
    }
}

/// There is one sorted arrangement of a sequence of entries and no other.
pub proof fn lemma_arrangement_determined<T>(
    a: Seq<ContentEntry<T>>,
    b: Seq<ContentEntry<T>>,
    entries: Seq<ContentEntry<T>>,
)
    requires
        is_sorted_arrangement(a, entries),
        is_sorted_arrangement(b, entries),
    ensures
        a == b,
    decreases a.len(),
{
    a.to_multiset_ensures();
    b.to_multiset_ensures();
    if a.len() == 0 {
        assert(a =~= b);
    } else {
        lemma_last_names_agree(a, b);
        let name = a.last().name@;
        reveal_with_fuel(Seq::filter, 2);
        assert(named(a, name) == named(b, name));
        assert(named(a, name) == named(a.drop_last(), name).push(a.last()));
        assert(named(b, name) == named(b.drop_last(), name).push(b.last()));
        assert(named(a, name).last() == a.last());
        assert(named(b, name).last() == b.last());
        assert(a.last() == b.last());
        let shorter = a.drop_last();
        assert forall|other: Seq<char>| #[trigger]
            named(b.drop_last(), other) == named(shorter, other) by {
            assert(named(a, other) == named(b, other));
            if other == name {
                assert(named(a, name).drop_last() =~= named(a.drop_last(), name));
                assert(named(b, name).drop_last() =~= named(b.drop_last(), name));
            }
        }
        lemma_arrangement_determined(shorter, b.drop_last(), shorter);
        assert(a =~= a.drop_last().push(a.last()));
        assert(b =~= b.drop_last().push(b.last()));
    }
}

/// Two sequences that hold the same entries in the order of their names are
/// equal, if no two entries bear the same name.
proof fn lemma_sorted_unique<T>(a: Seq<ContentEntry<T>>, b: Seq<ContentEntry<T>>)
    requires
        sorted_by_name(a),
        sorted_by_name(b),
        a.to_multiset() == b.to_multiset(),
        unique_names(a),
    ensures
        a == b,
    decreases a.len(),
{
    a.to_multiset_ensures();
    b.to_multiset_ensures();
    if a.len() == 0 {
        assert(a =~= b);
    } else {
        lemma_last_names_agree(a, b);
        let lb = b.last();
        assert(b.contains(lb));
        assert(a.to_multiset().count(lb) > 0);
        assert(a.contains(lb));
        let j = choose|j: int| 0 <= j < a.len() && a[j] == lb;
        if j < a.len() - 1 {
            assert(a[j].name@ != a[a.len() - 1].name@);
        }
        assert(a.last() == b.last());
        lemma_sorted_unique(a.drop_last(), b.drop_last());
        assert(a =~= a.drop_last().push(a.last()));
        assert(b =~= b.drop_last().push(b.last()));
    }
}

/// The sorted arrangement of a set of entries does not depend on the order
/// in which they come: two sequences that hold the same entries, no two of
/// one name, have the same sorted arrangement.
pub proof fn lemma_arrangement_independent_of_order<T>(
    a: Seq<ContentEntry<T>>,
    b: Seq<ContentEntry<T>>,
    first: Seq<ContentEntry<T>>,
    second: Seq<ContentEntry<T>>,
)
    requires
        is_sorted_arrangement(a, first),
        is_sorted_arrangement(b, second),
        first.to_multiset() == second.to_multiset(),
        unique_names(first),
    ensures
        a == b,
{
    lemma_unique_names_of_same_entries(first, a);
    lemma_sorted_unique(a, b);
}

/// A sequence that holds the same entries as one without two entries of one
/// name has no two entries of one name either.
proof fn lemma_unique_names_of_same_entries<T>(
    entries: Seq<ContentEntry<T>>,
    other: Seq<ContentEntry<T>>,
)
    requires
        unique_names(entries),
        entries.to_multiset() == other.to_multiset(),
    ensures
        unique_names(other),
{
    entries.to_multiset_ensures();
    other.to_multiset_ensures();
    assert(entries.no_duplicates()) by {
        assert forall|i: int, j: int|
            0 <= i < entries.len() && 0 <= j < entries.len() && i != j implies entries[i]
            != entries[j] by {
            if i < j {
                assert(entries[i].name@ != entries[j].name@);
            } else {
                assert(entries[j].name@ != entries[i].name@);
            }
        }
    }
    entries.lemma_multiset_has_no_duplicates();
    other.lemma_multiset_has_no_duplicates_conv();
    assert forall|i: int, j: int| 0 <= i < j < other.len() implies other[i].name@
        != other[j].name@ by {
        assert(other.contains(other[i]));
        assert(other.contains(other[j]));
        assert(entries.to_multiset().count(other[i]) > 0);
        assert(entries.to_multiset().count(other[j]) > 0);
        assert(entries.contains(other[i]));
        assert(entries.contains(other[j]));
        let x = choose|x: int| 0 <= x < entries.len() && entries[x] == other[i];
        let y = choose|y: int| 0 <= y < entries.len() && entries[y] == other[j];
        assert(other[i] != other[j]);
        if x < y {
            assert(entries[x].name@ != entries[y].name@);
        } else {
            assert(entries[y].name@ != entries[x].name@);
        }
    }
}

/// The sorted arrangement of a sequence of entries: the same entries in the
/// byte-wise order of their names, those of one name in the order in which
/// they came.
pub open spec fn arranged<T>(entries: Seq<ContentEntry<T>>) -> Seq<ContentEntry<T>> {
    choose|sorted: Seq<ContentEntry<T>>| is_sorted_arrangement(sorted, entries)
}

/// The number of bytes that a sequence of entries holds together.
pub open spec fn total_size_of<T>(entries: Seq<ContentEntry<T>>) -> nat
    decreases entries.len(),
{
    if entries.len() == 0 {
        0
    } else {
        total_size_of(entries.drop_last()) + entries.last().size as nat
    }
}

/// The total grows with every entry.
proof fn lemma_total_size_prefix<T>(entries: Seq<ContentEntry<T>>, k: int)
    requires
        0 <= k <= entries.len(),
    ensures
        total_size_of(entries.take(k)) <= total_size_of(entries),
    decreases entries.len(),
{
    if k == entries.len() {
        assert(entries.take(k) =~= entries);
    } else {
        lemma_total_size_prefix(entries.drop_last(), k);
        assert(entries.drop_last().take(k) =~= entries.take(k));
    }
}

/// The total without one entry.
proof fn lemma_total_size_remove<T>(entries: Seq<ContentEntry<T>>, i: int)
    requires
        0 <= i < entries.len(),
    ensures
        total_size_of(entries) == total_size_of(entries.remove(i)) + entries[i].size as nat,
    decreases entries.len(),
{
    if i == entries.len() - 1 {
        assert(entries.remove(i) =~= entries.drop_last());
    } else {
        lemma_total_size_remove(entries.drop_last(), i);
        assert(entries.remove(i).drop_last() =~= entries.drop_last().remove(i));
    }
}

/// The total does not depend on the order of the entries.
pub proof fn lemma_total_size_independent_of_order<T>(
    first: Seq<ContentEntry<T>>,
    second: Seq<ContentEntry<T>>,
)
    requires
        first.to_multiset() == second.to_multiset(),
    ensures
        total_size_of(first) == total_size_of(second),
    decreases first.len(),
{
    first.to_multiset_ensures();
    second.to_multiset_ensures();
    if first.len() > 0 {
        let last = first.last();
        assert(first.contains(last));
        assert(second.to_multiset().count(last) > 0);
        assert(second.contains(last));
        let i = choose|i: int| 0 <= i < second.len() && second[i] == last;
        assert(first.remove(first.len() - 1) =~= first.drop_last());
        vstd::seq_lib::to_multiset_remove(first, first.len() - 1);
        vstd::seq_lib::to_multiset_remove(second, i);
        lemma_total_size_remove(second, i);
        lemma_total_size_independent_of_order(first.drop_last(), second.remove(i));
    } else {
        assert(second.len() == 0);
    }
}

/// Where an entry of a given name goes among sorted entries: before the
/// first whose name is not smaller.
spec fn insert_position<T>(sorted: Seq<ContentEntry<T>>, name: Seq<char>) -> int
    decreases sorted.len(),
{
    if sorted.len() == 0 || name_le(name, sorted[0].name@) {
        0
    } else {
        1 + insert_position(sorted.drop_first(), name)
    }
}

proof fn lemma_insert_position<T>(sorted: Seq<ContentEntry<T>>, name: Seq<char>)
    ensures
        0 <= insert_position(sorted, name) <= sorted.len(),
        forall|j: int|
            0 <= j < insert_position(sorted, name) ==> !name_le(name, (#[trigger] sorted[j]).name@),
        insert_position(sorted, name) < sorted.len() ==> name_le(
            name,
            sorted[insert_position(sorted, name)].name@,
        ),
    decreases sorted.len(),
{
    if !(sorted.len() == 0 || name_le(name, sorted[0].name@)) {
        let rest = sorted.drop_first();
        lemma_insert_position(rest, name);
        let p = insert_position(sorted, name);
        assert forall|j: int| 0 <= j < p implies !name_le(name, (#[trigger] sorted[j]).name@) by {
            if j > 0 {
                assert(sorted[j] == rest[j - 1]);
            }
        }
        if p < sorted.len() {
            assert(sorted[p] == rest[p - 1]);
        }
    }
}

/// Every sequence of entries has a sorted arrangement.
pub proof fn lemma_arrangement_exists<T>(entries: Seq<ContentEntry<T>>)
    ensures
        is_sorted_arrangement(arranged(entries), entries),
    decreases entries.len(),
{
    if entries.len() == 0 {
        assert(is_sorted_arrangement(entries, entries));
    } else {
        let first = entries[0];
        let rest = entries.drop_first();
        lemma_arrangement_exists(rest);
        let sorted = arranged(rest);
        lemma_insert_position(sorted, first.name@);
        let p = insert_position(sorted, first.name@);
        lemma_insert_keeps_arrangement(sorted, rest, first, p);
        assert(rest.insert(0, first) =~= entries);
        assert(is_sorted_arrangement(sorted.insert(p, first), entries));
    }
}

/// The manifest does not depend on the order in which the imports end: two
/// sequences that hold the same entries, no two of one name, have the same
/// sorted arrangement and the same total.
pub proof fn lemma_manifest_independent_of_order<T>(
    first: Seq<ContentEntry<T>>,
    second: Seq<ContentEntry<T>>,
)
    requires
        first.to_multiset() == second.to_multiset(),
        unique_names(first),
    ensures
        arranged(first) == arranged(second),
        total_size_of(first) == total_size_of(second),
{
    lemma_arrangement_exists(first);
    lemma_arrangement_exists(second);
    lemma_arrangement_independent_of_order(arranged(first), arranged(second), first, second);
    lemma_total_size_independent_of_order(first, second);
}

/// One line of a manifest: a name and the fingerprint of the content that
/// it names.
#[derive(Clone, Debug, PartialEq, Eq)]
pub struct ManifestEntry {
    pub name: String,
    pub hash: ContentId,
}

/// The manifest of a share.
#[derive(Clone, Debug, PartialEq, Eq)]
pub struct Manifest {
    /// The entries, in the byte-wise order of their names.
    pub entries: Vec<ManifestEntry>,
    /// The number of bytes that the entries hold together.
    pub total_size: u64,
}

/// Whether a sequence of manifest lines names the given entries, one by one
/// and in their order.
pub open spec fn lists<T>(lines: Seq<ManifestEntry>, entries: Seq<ContentEntry<T>>) -> bool {
    &&& lines.len() == entries.len()
    &&& forall|i: int|
        0 <= i < lines.len() ==> (#[trigger] lines[i]).name == entries[i].name && lines[i].hash
            == entries[i].hash
}

/// The tags of a sequence of entries, in their order.
pub open spec fn tags_of<T>(entries: Seq<ContentEntry<T>>) -> Seq<T> {
    Seq::new(entries.len(), |i: int| entries[i].tag)
}

impl Manifest {
    /// The invariant of a manifest: the names of its entries ascend in
    /// byte-wise order.
    pub open spec fn wf(&self) -> bool {
        forall|i: int, j: int|
            #![trigger self.entries@[i], self.entries@[j]]
            0 <= i < j < self.entries@.len() ==> name_le(
                self.entries@[i].name@,
                self.entries@[j].name@,
            )
    }
}

/// Adds up the sizes of the entries, if the sum fits.
pub fn total_size<T>(entries: &Vec<ContentEntry<T>>) -> (total: Option<u64>)
    ensures
        match total {
            Some(sum) => sum == total_size_of(entries@),
            None => total_size_of(entries@) > u64::MAX,
        },
{
    let mut sum: u64 = 0;
    let mut i: usize = 0;
    proof {
        assert(entries@.take(0) =~= Seq::<ContentEntry<T>>::empty());
    }
    while i < entries.len()
        invariant
            i <= entries.len(),
            sum == total_size_of(entries@.take(i as int)),
        decreases entries.len() - i,
    {
        proof {
            assert(entries@.take(i + 1).drop_last() =~= entries@.take(i as int));
            lemma_total_size_prefix(entries@, i + 1);
        }
        match sum.checked_add(entries[i].size) {
            Some(next) => {
                sum = next;
            },
            None => {
                return None;
            },
        }
        i += 1;
    }
    proof {
        assert(entries@.take(i as int) =~= entries@);
    }
    Some(sum)
}

/// Builds the manifest of a set of imported entries, and hands back what
/// keeps their content alive, in the order of the manifest.
///
/// The manifest lists the entries in the byte-wise order of their names,
/// whatever order they come in, and its total is the exact sum of their
/// sizes. There is no manifest if that sum does not fit in 64 bits.
pub fn build_manifest<T>(entries: Vec<ContentEntry<T>>) -> (built: Option<(Manifest, Vec<T>)>)
    ensures
        built is Some <==> total_size_of(entries@) <= u64::MAX,
        match built {
            Some((manifest, tags)) => {
                &&& manifest.wf()
                &&& manifest.total_size == total_size_of(entries@)
                &&& lists(manifest.entries@, arranged(entries@))
                &&& tags@ == tags_of(arranged(entries@))
            },
            None => true,
        },
{
    let sum = match total_size(&entries) {
        Some(sum) => sum,
        None => {
            return None;
        },
    };
    let ghost given = entries@;
    let mut sorted = sort_by_name(entries);
    proof {
        lemma_arrangement_determined(sorted@, arranged(given), given);
    }
    let ghost all = sorted@;
    let mut lines: Vec<ManifestEntry> = Vec::new();
    let mut tags: Vec<T> = Vec::new();
    while sorted.len() > 0
        invariant
            sorted@ == all.take(sorted@.len() as int),
            lines@.len() == all.len() - sorted@.len(),
            tags@.len() == lines@.len(),
            forall|i: int|
                0 <= i < lines@.len() ==> (#[trigger] lines@[i]).name == all[sorted@.len()
                    + i].name && lines@[i].hash == all[sorted@.len() + i].hash,
            forall|i: int|
                0 <= i < tags@.len() ==> #[trigger] tags@[i] == all[sorted@.len() + i].tag,
        decreases sorted.len(),
    {
        let ghost before = lines@;
        let ghost tags_before = tags@;
        let entry = sorted.pop().unwrap();
        lines.insert(0, ManifestEntry { name: entry.name, hash: entry.hash });
        tags.insert(0, entry.tag);
        proof {
            assert(sorted@ =~= all.take(sorted@.len() as int));
            assert forall|i: int| 0 <= i < lines@.len() implies (#[trigger] lines@[i]).name
                == all[sorted@.len() + i].name && lines@[i].hash == all[sorted@.len()
                + i].hash by {
                if i > 0 {
                    assert(lines@[i] == before[i - 1]);
                }
            }
            assert forall|i: int| 0 <= i < tags@.len() implies #[trigger] tags@[i]
                == all[sorted@.len() + i].tag by {
                if i > 0 {
                    assert(tags@[i] == tags_before[i - 1]);
                }
            }
        }
    }
    proof {
        assert(tags@ =~= tags_of(all));
    }
    Some((Manifest { entries: lines, total_size: sum }, tags))
}

} // verus!
