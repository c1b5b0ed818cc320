//! A canonical order for the files of a bundle, so that what is packed does
//! not depend on the order in which a directory happened to be listed.

use crate::archive::archive_weight;
use crate::archive::create_zip;
use crate::archive::entry_weight;
use crate::archive::packs;
use crate::archive::entries_view;
use crate::archive::name_fits;
use crate::archive::names_distinct;
use crate::archive::names_fit;
use crate::archive::zip_encoding;
use crate::archive::ArchiveError;
use crate::digest::md5_hex;
use crate::archive::FileEntry;
use vstd::prelude::*;
use vstd::relations::sorted_by;
use vstd::relations::total_ordering;
use vstd::seq_lib::lemma_sorted_unique;
use vstd::seq_lib::to_multiset_build;
use vstd::seq_lib::to_multiset_insert;
use vstd::utf8::encode_utf8;

verus! {

/// The lexicographic order on byte sequences: the first byte in which two
/// sequences differ decides, and a sequence comes before all those that
/// continue it.
pub open spec fn bytes_le(a: Seq<u8>, b: Seq<u8>) -> bool
    decreases a.len(),
{
    if a.len() == 0 {
        true
    } else if b.len() == 0 {
        false
    } else if a[0] != b[0] {
        a[0] < b[0]
    } else {
        bytes_le(a.skip(1), b.skip(1))
    }
}

/// Every byte sequence comes before or at itself.
pub proof fn lemma_bytes_le_reflexive(a: Seq<u8>)
    ensures
        bytes_le(a, a),
    decreases a.len(),
{
    if a.len() > 0 {
        lemma_bytes_le_reflexive(a.skip(1));
    }
}

/// Two byte sequences that come before each other are the same.
pub proof fn lemma_bytes_le_antisymmetric(a: Seq<u8>, b: Seq<u8>)
    requires
        bytes_le(a, b),
        bytes_le(b, a),
    ensures
        a == b,
    decreases a.len(),
{
    if a.len() == 0 {
        assert(a =~= b);
    } else {
        lemma_bytes_le_antisymmetric(a.skip(1), b.skip(1));
        assert(a =~= seq![a[0]] + a.skip(1));
        assert(b =~= seq![b[0]] + b.skip(1));
    }
}

/// The order on byte sequences is transitive.
pub proof fn lemma_bytes_le_transitive(a: Seq<u8>, b: Seq<u8>, c: Seq<u8>)
    requires
        bytes_le(a, b),
        bytes_le(b, c),
    ensures
        bytes_le(a, c),
    decreases a.len(),
{
    if a.len() > 0 && a[0] == b[0] && b[0] == c[0] {
        lemma_bytes_le_transitive(a.skip(1), b.skip(1), c.skip(1));
    }
}

/// Of two byte sequences one comes before the other.
pub proof fn lemma_bytes_le_total(a: Seq<u8>, b: Seq<u8>)
    ensures
        bytes_le(a, b) || bytes_le(b, a),
    decreases a.len(),
{
    if a.len() > 0 && b.len() > 0 && a[0] == b[0] {
        lemma_bytes_le_total(a.skip(1), b.skip(1));
    }
}

/// The canonical order on files: by name, as the bytes of its UTF-8
/// encoding, and among files of one name by content.
pub open spec fn entry_le(x: (Seq<char>, Seq<u8>), y: (Seq<char>, Seq<u8>)) -> bool {
    if x.0 == y.0 {
        bytes_le(x.1, y.1)
    } else {
        bytes_le(encode_utf8(x.0), encode_utf8(y.0))
    }
}

/// The canonical order as a relation.
pub open spec fn entry_order() -> spec_fn((Seq<char>, Seq<u8>), (Seq<char>, Seq<u8>)) -> bool {
    |x: (Seq<char>, Seq<u8>), y: (Seq<char>, Seq<u8>)| entry_le(x, y)
}

/// Names with the same UTF-8 encoding are the same.
proof fn lemma_encoding_tells_names_apart(a: Seq<char>, b: Seq<char>)
    requires
        encode_utf8(a) == encode_utf8(b),
    ensures
        a == b,
{
    vstd::utf8::encode_utf8_decode_utf8(a);
    vstd::utf8::encode_utf8_decode_utf8(b);
}

/// The canonical order is a total order.
pub proof fn lemma_entry_order_total()
    ensures
        total_ordering(entry_order()),
{
    let order = entry_order();
    assert forall|x: (Seq<char>, Seq<u8>)| #[trigger] order(x, x) by {
        lemma_bytes_le_reflexive(x.1);
    }
    assert forall|x: (Seq<char>, Seq<u8>), y: (Seq<char>, Seq<u8>)| #[trigger]
        order(x, y) && #[trigger] order(y, x) implies x == y by {
        if x.0 == y.0 {
            lemma_bytes_le_antisymmetric(x.1, y.1);
        } else {
            lemma_bytes_le_antisymmetric(encode_utf8(x.0), encode_utf8(y.0));
            lemma_encoding_tells_names_apart(x.0, y.0);
        }
    }
    assert forall|x: (Seq<char>, Seq<u8>), y: (Seq<char>, Seq<u8>), z: (Seq<char>, Seq<u8>)|
        #[trigger] order(x, y) && #[trigger] order(y, z) implies order(x, z) by {
        if x.0 == y.0 && y.0 == z.0 {
            lemma_bytes_le_transitive(x.1, y.1, z.1);
        } else if x.0 != y.0 && y.0 != z.0 {
            lemma_bytes_le_transitive(encode_utf8(x.0), encode_utf8(y.0), encode_utf8(z.0));
            if x.0 == z.0 {
                lemma_bytes_le_antisymmetric(encode_utf8(x.0), encode_utf8(y.0));
                lemma_encoding_tells_names_apart(x.0, y.0);
            }
        }
    }
    assert forall|x: (Seq<char>, Seq<u8>), y: (Seq<char>, Seq<u8>)| #[trigger]
        order(x, y) || #[trigger] order(y, x) by {
        if x.0 == y.0 {
            lemma_bytes_le_total(x.1, y.1);
        } else {
            lemma_bytes_le_total(encode_utf8(x.0), encode_utf8(y.0));
        }
    }
}

/// The files in canonical order.
pub open spec fn canonical(entries: Seq<(Seq<char>, Seq<u8>)>) -> Seq<(Seq<char>, Seq<u8>)> {
    entries.sort_by(entry_order())
}

/// The canonical order of files does not depend on the order in which they
/// are given: two lists that hold the same files, each as often as the
/// other, have the same canonical order.
pub proof fn lemma_canonical_ignores_order(
    first: Seq<(Seq<char>, Seq<u8>)>,
    second: Seq<(Seq<char>, Seq<u8>)>,
)
    requires
        first.to_multiset() == second.to_multiset(),
    ensures
        canonical(first) == canonical(second),
{
    lemma_entry_order_total();
    first.lemma_sort_by_ensures(entry_order());
    second.lemma_sort_by_ensures(entry_order());
    lemma_sorted_unique(canonical(first), canonical(second), entry_order());
}

/// Whether `a` comes before or at `b` in the lexicographic order.
pub fn bytes_before(a: &[u8], b: &[u8]) -> (le: bool)
    ensures
        le == bytes_le(a@, b@),
{
    let mut i: usize = 0;
    assert(a@.skip(0) =~= a@);
    assert(b@.skip(0) =~= b@);
    while i < a.len() && i < b.len()
        invariant
            i <= a.len(),
            i <= b.len(),
            bytes_le(a@, b@) == bytes_le(a@.skip(i as int), b@.skip(i as int)),
        decreases a.len() - i,
    {
        if a[i] != b[i] {
            return a[i] < b[i];
        }
        assert(a@.skip(i as int).skip(1) =~= a@.skip(i + 1));
        assert(b@.skip(i as int).skip(1) =~= b@.skip(i + 1));
        i = i + 1;
    }
    i == a.len()
}

/// Whether `a` comes before or at `b` in the canonical order.
pub fn entry_before(a: &FileEntry, b: &FileEntry) -> (le: bool)
    ensures
        le == entry_le(a@, b@),
{
    if a.name == b.name {
        bytes_before(a.content.as_slice(), b.content.as_slice())
    } else {
        bytes_before(a.name.as_str().as_bytes(), b.name.as_str().as_bytes())
    }
}

/// Puts files in canonical order.
pub fn canonical_order(files: &Vec<FileEntry>) -> (sorted: Vec<FileEntry>)
    ensures
        entries_view(sorted@) == canonical(entries_view(files@)),
{
    let ghost given = entries_view(files@);
    let ghost order = entry_order();
    let mut sorted: Vec<FileEntry> = Vec::new();
    proof {
        lemma_entry_order_total();
        assert(given.take(0) =~= Seq::<(Seq<char>, Seq<u8>)>::empty());
        assert(entries_view(sorted@) =~= Seq::<(Seq<char>, Seq<u8>)>::empty());
    }
    let mut i: usize = 0;
    while i < files.len()
        invariant
            i <= files.len(),
            given == entries_view(files@),
            order == entry_order(),
            total_ordering(order),
            sorted_by(entries_view(sorted@), order),
            entries_view(sorted@).to_multiset() == given.take(i as int).to_multiset(),
        decreases files.len() - i,
    {
        let ghost before = entries_view(sorted@);
        let entry = FileEntry { name: files[i].name.clone(), content: files[i].content.clone() };
        assert(entry@ == given[i as int]);
        let mut place: usize = 0;
        while place < sorted.len() && entry_before(&sorted[place], &entry)
            invariant
                place <= sorted.len(),
                before == entries_view(sorted@),
                forall|j: int| 0 <= j < place ==> entry_le(#[trigger] before[j], entry@),
            decreases sorted.len() - place,
        {
            assert(before[place as int] == sorted@[place as int]@);
            place = place + 1;
        }
        proof {
            if place < sorted.len() {
                assert(before[place as int] == sorted@[place as int]@);
                assert(order(before[place as int], entry@) || order(entry@, before[place as int]));
            }
        }
        sorted.insert(place, entry);
        proof {
            let after = entries_view(sorted@);
            assert(after =~= before.insert(place as int, entry@));
            to_multiset_insert(before, place as int, entry@);
            assert(given.take(i + 1) =~= given.take(i as int).push(given[i as int]));
            to_multiset_build(given.take(i as int), given[i as int]);
            assert forall|a: int, b: int| 0 <= a < b < after.len() implies #[trigger] order(
                after[a],
                after[b],
            ) by {
                let a0 = if a < place { a } else { a - 1 };
                let b0 = if b < place { b } else { b - 1 };
                if a == place {
                    assert(after[b] == before[b0]);
                    assert(order(entry@, before[place as int]));
                    if b0 > place {
                        assert(order(before[place as int], before[b0]));
                    }
                } else if b == place {
                    assert(after[a] == before[a0]);
                } else {
                    assert(after[a] == before[a0] && after[b] == before[b0]);
                    assert(order(before[a0], before[b0]));
                }
            }
        }
        i = i + 1;
    }
    proof {
        assert(given.take(i as int) =~= given);
        given.lemma_sort_by_ensures(order);
        lemma_sorted_unique(entries_view(sorted@), canonical(given), order);
    }
    sorted
}

/// The canonical order holds the files that were given, no other and no
/// fewer.
pub proof fn lemma_canonical_same_files(entries: Seq<(Seq<char>, Seq<u8>)>)
    ensures
        canonical(entries).len() == entries.len(),
        forall|x: (Seq<char>, Seq<u8>)|
            #[trigger] canonical(entries).contains(x) <==> entries.contains(x),
        names_fit(canonical(entries)) == names_fit(entries),
{
    broadcast use vstd::seq_lib::group_to_multiset_ensures;

    lemma_entry_order_total();
    entries.lemma_sort_by_ensures(entry_order());
    let sorted = canonical(entries);
    vstd::seq_lib::to_multiset_len(sorted);
    vstd::seq_lib::to_multiset_len(entries);
    assert forall|x: (Seq<char>, Seq<u8>)| #[trigger] sorted.contains(x) <==> entries.contains(
        x,
    ) by {
        assert(sorted.to_multiset().count(x) == entries.to_multiset().count(x));
    }
    if names_fit(entries) {
        assert forall|i: int| 0 <= i < sorted.len() implies name_fits((#[trigger] sorted[i]).0) by {
            assert(sorted.contains(sorted[i]));
            assert(entries.contains(sorted[i]));
            let j = choose|j: int| 0 <= j < entries.len() && entries[j] == sorted[i];
            assert(name_fits(entries[j].0));
        }
    }
    if names_fit(sorted) {
        assert forall|i: int| 0 <= i < entries.len() implies name_fits(
            (#[trigger] entries[i]).0,
        ) by {
            assert(entries.contains(entries[i]));
            assert(sorted.contains(entries[i]));
            let j = choose|j: int| 0 <= j < sorted.len() && sorted[j] == entries[i];
            assert(name_fits(sorted[j].0));
        }
    }
}

/// Without one of its entries a list weighs less by the weight of that
/// entry.
pub proof fn lemma_weight_without(entries: Seq<(Seq<char>, Seq<u8>)>, place: int)
    requires
        0 <= place < entries.len(),
    ensures
        archive_weight(entries) == archive_weight(entries.remove(place)) + entry_weight(
            entries[place],
        ),
    decreases entries.len(),
{
    if place == entries.len() - 1 {
        assert(entries.remove(place) =~= entries.drop_last());
    } else {
        lemma_weight_without(entries.drop_last(), place);
        assert(entries.remove(place).drop_last() =~= entries.drop_last().remove(place));
        assert(entries.remove(place).last() == entries.last());
    }
}

/// Two lists that hold the same files, each as often as the other, weigh
/// the same.
pub proof fn lemma_weight_ignores_order(
    first: Seq<(Seq<char>, Seq<u8>)>,
    second: Seq<(Seq<char>, Seq<u8>)>,
)
    requires
        first.to_multiset() == second.to_multiset(),
    ensures
        archive_weight(first) == archive_weight(second),
    decreases first.len(),
{
    broadcast use vstd::seq_lib::group_to_multiset_ensures;

    vstd::seq_lib::to_multiset_len(first);
    vstd::seq_lib::to_multiset_len(second);
    if first.len() > 0 {
        let last = first.last();
        assert(first.contains(last));
        assert(second.to_multiset().count(last) > 0);
        assert(second.contains(last));
        let place = choose|k: int| 0 <= k < second.len() && second[k] == last;
        vstd::seq_lib::to_multiset_remove(first, first.len() - 1);
        vstd::seq_lib::to_multiset_remove(second, place);
        assert(first.remove(first.len() - 1) =~= first.drop_last());
        lemma_weight_ignores_order(first.drop_last(), second.remove(place));
        lemma_weight_without(second, place);
    }
}

/// Where no two files of a list have the same name, none have in any list
/// that holds the same files, each as often as the other.
pub proof fn lemma_distinct_ignores_order(
    first: Seq<(Seq<char>, Seq<u8>)>,
    second: Seq<(Seq<char>, Seq<u8>)>,
)
    requires
        first.to_multiset() == second.to_multiset(),
        names_distinct(first),
    ensures
        names_distinct(second),
{
    broadcast use vstd::seq_lib::group_to_multiset_ensures;

    assert(first.no_duplicates()) by {
        assert forall|i: int, j: int| 0 <= i < first.len() && 0 <= j < first.len() && i
            != j implies first[i] != first[j] by {
            if i < j {
                assert(first[i].0 != first[j].0);
            } else {
                assert(first[j].0 != first[i].0);
            }
        }
    }
    first.lemma_multiset_has_no_duplicates();
    second.lemma_multiset_has_no_duplicates_conv();
    assert forall|i: int, j: int| 0 <= i < j < second.len() implies (#[trigger] second[i]).0 != (
    #[trigger] second[j]).0 by {
        assert(second[i] != second[j]);
        assert(second.contains(second[i]));
        assert(second.contains(second[j]));
        assert(first.to_multiset().count(second[i]) > 0);
        assert(first.to_multiset().count(second[j]) > 0);
        assert(first.contains(second[i]));
        assert(first.contains(second[j]));
        let p = choose|p: int| 0 <= p < first.len() && first[p] == second[i];
        let q = choose|q: int| 0 <= q < first.len() && first[q] == second[j];
        if p < q {
            assert(first[p].0 != first[q].0);
        } else if q < p {
            assert(first[q].0 != first[p].0);
        }
    }
}

/// Files that are sure to be packed in the order given are sure to be
/// packed in canonical order.
pub proof fn lemma_canonical_packs(entries: Seq<(Seq<char>, Seq<u8>)>)
    requires
        packs(entries),
    ensures
        packs(canonical(entries)),
{
    lemma_entry_order_total();
    entries.lemma_sort_by_ensures(entry_order());
    lemma_canonical_same_files(entries);
    lemma_weight_ignores_order(entries, canonical(entries));
    lemma_distinct_ignores_order(entries, canonical(entries));
}

/// Packs the files of a directory, in canonical order, into one archive.
///
/// The archive depends on the names and bytes of the files alone, not on
/// the order in which they are given. Files whose names fit and differ and
/// that weigh no more than one GiB together are packed.
pub fn pack_canonical(files: &Vec<FileEntry>) -> (r: Result<Vec<u8>, ArchiveError>)
    ensures
        match r {
            Ok(bytes) => names_fit(entries_view(files@)) && names_distinct(
                canonical(entries_view(files@)),
            ) && bytes@ == zip_encoding(canonical(entries_view(files@))),
            Err(ArchiveError::NameTooLong) => !names_fit(entries_view(files@)),
            Err(ArchiveError::Codec(_)) => names_fit(entries_view(files@)),
            Err(_) => false,
        },
        packs(entries_view(files@)) ==> r is Ok,
{
    proof {
        lemma_canonical_same_files(entries_view(files@));
        if packs(entries_view(files@)) {
            lemma_canonical_packs(entries_view(files@));
        }
    }
    let sorted = canonical_order(files);
    create_zip(&sorted)
}

/// Two listings of one directory, in whatever order, are packed into the
/// same archive and so have the same digest.
pub proof fn lemma_packing_ignores_order(
    first: Seq<(Seq<char>, Seq<u8>)>,
    second: Seq<(Seq<char>, Seq<u8>)>,
)
    requires
        first.to_multiset() == second.to_multiset(),
    ensures
        zip_encoding(canonical(first)) == zip_encoding(canonical(second)),
        md5_hex(zip_encoding(canonical(first))) == md5_hex(zip_encoding(canonical(second))),
{
    lemma_canonical_ignores_order(first, second);
}

} // verus!
