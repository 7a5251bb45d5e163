use crate::archive::{first_with_suffix, Archive, EntryView};
use crate::size_text::{format_size, size_text};
use indexmap::IndexSet;
use std::collections::hash_map::RandomState;
use vstd::prelude::*;
use vstd::string::StringExecFns;

verus! {

/// `indexmap::IndexSet`: a set that remembers the order of insertion. What
/// a set of strings holds is [`set_items`].
#[verifier::external_type_specification]
#[verifier::external_body]
#[verifier::reject_recursive_types(T)]
#[verifier::reject_recursive_types(S)]
pub struct ExIndexSet<T, S>(IndexSet<T, S>);

/// The strings that an insertion-ordered set holds, in insertion order.
pub uninterp spec fn set_items(set: IndexSet<String, RandomState>) -> Seq<Seq<char>>;

/// `IndexSet::new` makes a set that holds nothing.
#[verifier::external_body]
fn new_set() -> (set: IndexSet<String, RandomState>)
    ensures
        set_items(set) == Seq::<Seq<char>>::empty(),
{
    IndexSet::new()
}

/// `IndexSet::insert` puts a value that the set does not hold yet behind all
/// others and returns `true`; for a value that it holds already it changes
/// nothing and returns `false`.
#[verifier::external_body]
fn set_insert(set: &mut IndexSet<String, RandomState>, value: String) -> (fresh: bool)
    ensures
        fresh == !set_items(*old(set)).contains(value@),
        set_items(*final(set)) == if fresh {
            set_items(*old(set)).push(value@)
        } else {
            set_items(*old(set))
        },
{
    set.insert(value)
}

/// The iterator of an `IndexSet` hands the values out in insertion order.
#[verifier::external_body]
fn set_into_vec(set: IndexSet<String, RandomState>) -> (items: Vec<String>)
    ensures
        items.deep_view() == set_items(set),
{
    set.into_iter().collect()
}

/// The items of `s` without repetitions: each one stands where it first
/// occurs.
pub open spec fn unique_ordered(s: Seq<Seq<char>>) -> Seq<Seq<char>>
    decreases s.len(),
{
    if s.len() == 0 {
        Seq::empty()
    } else {
        let init = unique_ordered(s.drop_last());
        if init.contains(s.last()) {
            init
        } else {
            init.push(s.last())
        }
    }
}

/// Removes the repetitions from `vec`, keeping of each item its first
/// occurrence and the order of those.
pub fn ensure_unique_ordered(vec: Vec<String>) -> (r: Vec<String>)
    ensures
        r.deep_view() == unique_ordered(vec.deep_view()),
{
    let mut set = new_set();
    let n = vec.len();
    let mut i: usize = 0;
    proof {
        assert(vec.deep_view().take(0) =~= Seq::<Seq<char>>::empty());
    }
    while i < n
        invariant
            n == vec@.len(),
            i <= n,
            set_items(set) == unique_ordered(vec.deep_view().take(i as int)),
        decreases n - i,
    {
        proof {
            let next = vec.deep_view().take(i + 1);
            assert(next.drop_last() =~= vec.deep_view().take(i as int));
            assert(next.last() == vec@[i as int]@);
        }
        set_insert(&mut set, vec[i].clone());
        i += 1;
    }
    proof {
        assert(vec.deep_view().take(n as int) =~= vec.deep_view());
    }
    set_into_vec(set)
}

/// The size of a library's binary: the text of the byte length that the
/// archive records for the first entry whose path ends with `binary_path`.
pub open spec fn library_size(entries: Seq<EntryView>, binary_path: Seq<char>) -> Option<Seq<char>> {
    match first_with_suffix(entries, binary_path) {
        Some(i) => Some(size_text(entries[i].size)),
        None => None,
    }
}

/// What is said of a binary that the archive does not hold.
pub open spec fn missing_binary_text(binary_path: Seq<char>) -> Seq<char> {
    "Binary file '"@ + binary_path + "' not found in archive."@
}

/// The size of the binary at `binary_path`, as text. Fails exactly when no
/// entry's path ends with `binary_path`.
pub fn calculate_library_size(archive: &Archive, binary_path: &str) -> (r: Result<String, String>)
    ensures
        match r {
            Ok(text) => library_size(archive@, binary_path@) == Some(text@),
            Err(text) => library_size(archive@, binary_path@) is None && text@
                == missing_binary_text(binary_path@),
        },
{
    match archive.find_first(binary_path) {
        Some(i) => Ok(format_size(archive.entry(i).size)),
        None => {
            let mut text = String::from_str("Binary file '");
            text.append(binary_path);
            text.append("' not found in archive.");
            Err(text)
        },
    }
}

/// An item is in the result exactly when it is in the input.
pub proof fn lemma_unique_ordered_same_items(s: Seq<Seq<char>>)
    ensures
        forall|x: Seq<char>| unique_ordered(s).contains(x) <==> s.contains(x),
    decreases s.len(),
{
    if s.len() > 0 {
        let init = unique_ordered(s.drop_last());
        lemma_unique_ordered_same_items(s.drop_last());
        assert forall|x: Seq<char>| unique_ordered(s).contains(x) <==> s.contains(x) by {
            if s.contains(x) {
                let i = choose|i: int| 0 <= i < s.len() && s[i] == x;
                if i < s.len() - 1 {
                    assert(s.drop_last()[i] == x);
                    assert(s.drop_last().contains(x));
                    assert(init.contains(x));
                    let j = choose|j: int| 0 <= j < init.len() && init[j] == x;
                    assert(unique_ordered(s)[j] == x);
                } else {
                    if init.contains(x) {
                    } else {
                        assert(unique_ordered(s)[init.len() as int] == x);
                    }
                }
            }
            if unique_ordered(s).contains(x) {
                let j = choose|j: int| 0 <= j < unique_ordered(s).len() && unique_ordered(s)[j] == x;
                if j < init.len() {
                    assert(init[j] == x);
                    assert(init.contains(x));
                    assert(s.drop_last().contains(x));
                    let i = choose|i: int| 0 <= i < s.drop_last().len() && s.drop_last()[i] == x;
                    assert(s[i] == x);
                } else {
                    assert(x == s.last());
                    assert(s[s.len() - 1] == x);
                }
            }
        }
    }
}

/// `x` occurs in `s` before `y` does: some occurrence of `x` has no
/// occurrence of `y` at or before it.
pub open spec fn seen_before(s: Seq<Seq<char>>, x: Seq<char>, y: Seq<char>) -> bool {
    exists|p: int| seen_before_at(s, x, y, p)
}

/// `x` stands at position `p` of `s`, and `y` at no position up to `p`.
pub open spec fn seen_before_at(s: Seq<Seq<char>>, x: Seq<char>, y: Seq<char>, p: int) -> bool {
    0 <= p < s.len() && s[p] == x && forall|q: int| 0 <= q <= p ==> s[q] != y
}

/// The result keeps the order in which the items are first seen: of two
/// items of the result, the earlier one occurs in the input before the later
/// one does.
pub proof fn lemma_unique_ordered_first_seen(s: Seq<Seq<char>>)
    ensures
        forall|i: int, j: int|
            0 <= i < j < unique_ordered(s).len() ==> seen_before(
                s,
                #[trigger] unique_ordered(s)[i],
                #[trigger] unique_ordered(s)[j],
            ),
    decreases s.len(),
{
    if s.len() > 0 {
        let head = s.drop_last();
        let init = unique_ordered(head);
        let r = unique_ordered(s);
        lemma_unique_ordered_first_seen(head);
        lemma_unique_ordered_same_items(head);
        assert forall|i: int, j: int| 0 <= i < j < r.len() implies seen_before(
            s,
            #[trigger] r[i],
            #[trigger] r[j],
        ) by {
            if j < init.len() {
                assert(r[i] == init[i] && r[j] == init[j]);
                assert(seen_before(head, init[i], init[j]));
                let p = choose|p: int| seen_before_at(head, init[i], init[j], p);
                assert forall|q: int| 0 <= q <= p implies s[q] != r[j] by {
                    assert(head[q] == s[q]);
                }
                assert(s[p] == head[p]);
                assert(seen_before_at(s, r[i], r[j], p));
            } else {
                assert(r[j] == s.last());
                assert(r[i] == init[i]);
                assert(init.contains(init[i]));
                assert(head.contains(r[i]));
                let p = choose|p: int| 0 <= p < head.len() && head[p] == r[i];
                assert(!init.contains(s.last()));
                assert forall|q: int| 0 <= q <= p implies s[q] != r[j] by {
                    if s[q] == r[j] {
                        assert(head[q] == s.last());
                        assert(head.contains(s.last()));
                    }
                }
                assert(s[p] == head[p]);
                assert(seen_before_at(s, r[i], r[j], p));
            }
        }
    }
}

/// No item occurs twice in the result.
pub proof fn lemma_unique_ordered_no_duplicates(s: Seq<Seq<char>>)
    ensures
        unique_ordered(s).no_duplicates(),
    decreases s.len(),
{
    if s.len() > 0 {
        lemma_unique_ordered_no_duplicates(s.drop_last());
    }
}

} // verus!
