use crate::text::{chars_of, has_infix, has_suffix, occurs_at, occurs_in};
use vstd::prelude::*;

verus! {

/// One entry of an opened container: its full path, the byte length the
/// container records for it, and its bytes.
#[derive(Debug, Clone, PartialEq, Eq)]
pub struct ArchiveEntry {
    pub name: String,
    pub size: u64,
    pub content: Vec<u8>,
}

/// Mathematical value of an [`ArchiveEntry`].
pub struct EntryView {
    pub name: Seq<char>,
    pub size: u64,
    pub content: Seq<u8>,
}

impl DeepView for ArchiveEntry {
    type V = EntryView;

    open spec fn deep_view(&self) -> EntryView {
        EntryView { name: self.name@, size: self.size, content: self.content@ }
    }
}

impl View for ArchiveEntry {
    type V = EntryView;

    open spec fn view(&self) -> EntryView {
        self.deep_view()
    }
}

/// The entries of a container, in container order.
#[derive(Debug, Clone, PartialEq, Eq)]
pub struct Archive {
    pub entries: Vec<ArchiveEntry>,
}

impl View for Archive {
    type V = Seq<EntryView>;

    open spec fn view(&self) -> Seq<EntryView> {
        self.entries.deep_view()
    }
}

/// A path lies in a scope when it contains `infix` and ends with `suffix`.
pub open spec fn in_scope(name: Seq<char>, infix: Seq<char>, suffix: Seq<char>) -> bool {
    occurs_in(infix, name) && suffix.is_suffix_of(name)
}

/// Index of the first entry at or after `from` whose path lies in the scope.
pub open spec fn first_scoped_from(
    entries: Seq<EntryView>,
    infix: Seq<char>,
    suffix: Seq<char>,
    from: int,
) -> Option<int>
    decreases entries.len() - from,
{
    if from < 0 || from >= entries.len() {
        None
    } else if in_scope(entries[from].name, infix, suffix) {
        Some(from)
    } else {
        first_scoped_from(entries, infix, suffix, from + 1)
    }
}

/// Index of the first entry whose path contains `infix` and ends with `suffix`.
pub open spec fn first_scoped(entries: Seq<EntryView>, infix: Seq<char>, suffix: Seq<char>) -> Option<
    int,
> {
    first_scoped_from(entries, infix, suffix, 0)
}

/// Index of the first entry whose path ends with `suffix`.
pub open spec fn first_with_suffix(entries: Seq<EntryView>, suffix: Seq<char>) -> Option<int> {
    first_scoped(entries, Seq::empty(), suffix)
}

/// Indices below `n` of the entries whose path lies in the scope, ascending.
pub open spec fn scoped_below(
    entries: Seq<EntryView>,
    infix: Seq<char>,
    suffix: Seq<char>,
    n: int,
) -> Seq<int>
    decreases n,
{
    if n <= 0 {
        Seq::empty()
    } else if in_scope(entries[n - 1].name, infix, suffix) {
        scoped_below(entries, infix, suffix, n - 1).push(n - 1)
    } else {
        scoped_below(entries, infix, suffix, n - 1)
    }
}

/// Indices of all entries whose path lies in the scope, ascending.
pub open spec fn all_scoped(entries: Seq<EntryView>, infix: Seq<char>, suffix: Seq<char>) -> Seq<
    int,
> {
    scoped_below(entries, infix, suffix, entries.len() as int)
}

/// The empty run occurs in every path, so a scope with an empty infix is
/// decided by the suffix alone.
pub proof fn lemma_empty_infix(name: Seq<char>, suffix: Seq<char>)
    ensures
        in_scope(name, Seq::empty(), suffix) == suffix.is_suffix_of(name),
{
    assert(name.subrange(0, 0) =~= Seq::<char>::empty());
    assert(occurs_at(Seq::<char>::empty(), name, 0));
}

/// `first_scoped_from` names the least index at or after `from` that lies in
/// the scope, and is `None` exactly when there is none.
pub proof fn lemma_first_scoped_from(
    entries: Seq<EntryView>,
    infix: Seq<char>,
    suffix: Seq<char>,
    from: int,
)
    requires
        0 <= from,
    ensures
        match first_scoped_from(entries, infix, suffix, from) {
            Some(i) => from <= i < entries.len() && in_scope(entries[i].name, infix, suffix)
                && forall|j: int| from <= j < i ==> !in_scope(entries[j].name, infix, suffix),
            None => forall|j: int|
                from <= j < entries.len() ==> !in_scope(entries[j].name, infix, suffix),
        },
    decreases entries.len() - from,
{
    if from < entries.len() && !in_scope(entries[from].name, infix, suffix) {
        lemma_first_scoped_from(entries, infix, suffix, from + 1);
    }
}

/// `scoped_below` lists, in ascending order, exactly the indices below `n`
/// whose path lies in the scope.
pub proof fn lemma_scoped_below(
    entries: Seq<EntryView>,
    infix: Seq<char>,
    suffix: Seq<char>,
    n: int,
)
    requires
        0 <= n <= entries.len(),
    ensures
        forall|k: int|
            0 <= k < scoped_below(entries, infix, suffix, n).len() ==> {
                let i = #[trigger] scoped_below(entries, infix, suffix, n)[k];
                0 <= i < n && in_scope(entries[i].name, infix, suffix)
            },
        forall|k: int, l: int|
            0 <= k < l < scoped_below(entries, infix, suffix, n).len() ==> scoped_below(
                entries,
                infix,
                suffix,
                n,
            )[k] < scoped_below(entries, infix, suffix, n)[l],
        forall|i: int|
            0 <= i < n && in_scope(entries[i].name, infix, suffix) ==> scoped_below(
                entries,
                infix,
                suffix,
                n,
            ).contains(i),
    decreases n,
{
    if n > 0 {
        let init = scoped_below(entries, infix, suffix, n - 1);
        let all = scoped_below(entries, infix, suffix, n);
        lemma_scoped_below(entries, infix, suffix, n - 1);
        assert forall|i: int|
            0 <= i < n && in_scope(entries[i].name, infix, suffix) implies all.contains(i) by {
            if i < n - 1 {
                assert(init.contains(i));
                let k = choose|k: int| 0 <= k < init.len() && init[k] == i;
                assert(all[k] == i);
            } else {
                assert(all[all.len() - 1] == i);
            }
        }
    }
}

/// A first match, once found at `i`, is the first match from every earlier
/// starting point that has no match before `i`.
proof fn lemma_first_scoped_found(
    entries: Seq<EntryView>,
    infix: Seq<char>,
    suffix: Seq<char>,
    from: int,
    i: int,
)
    requires
        0 <= from <= i < entries.len(),
        in_scope(entries[i].name, infix, suffix),
        forall|j: int| from <= j < i ==> !in_scope(entries[j].name, infix, suffix),
    ensures
        first_scoped_from(entries, infix, suffix, from) == Some(i),
    decreases i - from,
{
    if from < i {
        lemma_first_scoped_found(entries, infix, suffix, from + 1, i);
    }
}

proof fn lemma_first_scoped_missing(
    entries: Seq<EntryView>,
    infix: Seq<char>,
    suffix: Seq<char>,
    from: int,
)
    requires
        0 <= from,
        forall|j: int| from <= j < entries.len() ==> !in_scope(entries[j].name, infix, suffix),
    ensures
        first_scoped_from(entries, infix, suffix, from) is None,
    decreases entries.len() - from,
{
    if from < entries.len() {
        lemma_first_scoped_missing(entries, infix, suffix, from + 1);
    }
}

impl Archive {
    /// Number of entries.
    pub fn len(&self) -> (n: usize)
        ensures
            n == self@.len(),
    {
        self.entries.len()
    }

    /// The entry at position `i`.
    pub fn entry(&self, i: usize) -> (e: &ArchiveEntry)
        requires
            i < self@.len(),
        ensures
            e@ == self@[i as int],
    {
        &self.entries[i]
    }

    /// Scans the entries in container order and returns the position of the
    /// first whose path contains `infix` and ends with `suffix`.
    pub fn find_scoped(&self, infix: &str, suffix: &str) -> (r: Option<usize>)
        ensures
            match r {
                Some(i) => i < self@.len() && first_scoped(self@, infix@, suffix@) == Some(i as int),
                None => first_scoped(self@, infix@, suffix@) is None,
            },
    {
        let inner = chars_of(infix);
        let tail = chars_of(suffix);
        let n = self.entries.len();
        let mut i: usize = 0;
        while i < n
            invariant
                n == self@.len(),
                i <= n,
                inner@ == infix@,
                tail@ == suffix@,
                forall|j: int| 0 <= j < i ==> !in_scope(self@[j].name, infix@, suffix@),
            decreases n - i,
        {
            let name = chars_of(self.entries[i].name.as_str());
            if has_infix(name.as_slice(), inner.as_slice()) && has_suffix(
                name.as_slice(),
                tail.as_slice(),
            ) {
                proof {
                    lemma_first_scoped_found(self@, infix@, suffix@, 0, i as int);
                }
                return Some(i);
            }
            i += 1;
        }
        proof {
            lemma_first_scoped_missing(self@, infix@, suffix@, 0);
        }
        None
    }

    /// Scans the entries in container order and returns the position of the
    /// first whose path ends with `suffix`.
    pub fn find_first(&self, suffix: &str) -> (r: Option<usize>)
        ensures
            match r {
                Some(i) => i < self@.len() && first_with_suffix(self@, suffix@) == Some(i as int),
                None => first_with_suffix(self@, suffix@) is None,
            },
    {
        proof {
            reveal_strlit("");
            assert(""@ =~= Seq::<char>::empty());
        }
        self.find_scoped("", suffix)
    }

    /// The positions, ascending, of all entries whose path contains `infix`
    /// and ends with `suffix`.
    pub fn find_all_scoped(&self, infix: &str, suffix: &str) -> (r: Vec<usize>)
        ensures
            r@.len() == all_scoped(self@, infix@, suffix@).len(),
            forall|k: int| 0 <= k < r@.len() ==> r@[k] as int == all_scoped(self@, infix@, suffix@)[k],
            forall|k: int| 0 <= k < r@.len() ==> r@[k] < self@.len(),
    {
        let inner = chars_of(infix);
        let tail = chars_of(suffix);
        let n = self.entries.len();
        let mut found: Vec<usize> = Vec::new();
        let mut i: usize = 0;
        while i < n
            invariant
                n == self@.len(),
                i <= n,
                inner@ == infix@,
                tail@ == suffix@,
                found@.len() == scoped_below(self@, infix@, suffix@, i as int).len(),
                forall|k: int|
                    0 <= k < found@.len() ==> found@[k] as int == scoped_below(
                        self@,
                        infix@,
                        suffix@,
                        i as int,
                    )[k],
                forall|k: int| 0 <= k < found@.len() ==> found@[k] < i,
            decreases n - i,
        {
            let name = chars_of(self.entries[i].name.as_str());
            if has_infix(name.as_slice(), inner.as_slice()) && has_suffix(
                name.as_slice(),
                tail.as_slice(),
            ) {
                found.push(i);
            }
            i += 1;
        }
        found
    }
}

} // verus!
