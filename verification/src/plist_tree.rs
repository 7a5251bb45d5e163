use vstd::prelude::*;

verus! {

/// A decoded property list, reduced to what the extraction rules read:
/// booleans, strings, arrays and dictionaries. Every other kind of value
/// (numbers, dates, raw data) is `Other`.
///
/// A dictionary keeps its entries in document order; a lookup takes the first
/// entry with the key.
#[derive(Debug, PartialEq, Eq)]
pub enum PlistValue {
    Boolean(bool),
    String(String),
    Array(Vec<PlistValue>),
    Dictionary(Vec<(String, PlistValue)>),
    Other,
}

/// Mathematical value of a [`PlistValue`].
pub enum PlistTree {
    Boolean(bool),
    String(Seq<char>),
    Array(Seq<PlistTree>),
    Dictionary(Seq<(Seq<char>, PlistTree)>),
    Other,
}

/// The mathematical value of a decoded property list.
pub open spec fn tree_of(v: PlistValue) -> PlistTree
    decreases v,
{
    match v {
        PlistValue::Boolean(b) => PlistTree::Boolean(b),
        PlistValue::String(s) => PlistTree::String(s@),
        PlistValue::Array(items) => PlistTree::Array(
            Seq::new(
                items@.len(),
                |i: int|
                    if 0 <= i < items@.len() {
                        tree_of(items@[i])
                    } else {
                        PlistTree::Other
                    },
            ),
        ),
        PlistValue::Dictionary(entries) => PlistTree::Dictionary(
            Seq::new(
                entries@.len(),
                |i: int|
                    if 0 <= i < entries@.len() {
                        (entries@[i].0@, tree_of(entries@[i].1))
                    } else {
                        (Seq::<char>::empty(), PlistTree::Other)
                    },
            ),
        ),
        PlistValue::Other => PlistTree::Other,
    }
}

impl DeepView for PlistValue {
    type V = PlistTree;

    open spec fn deep_view(&self) -> PlistTree {
        tree_of(*self)
    }
}

impl View for PlistValue {
    type V = PlistTree;

    open spec fn view(&self) -> PlistTree {
        self.deep_view()
    }
}

/// Position of the first entry at or after `from` with the key.
pub open spec fn key_position(entries: Seq<(Seq<char>, PlistTree)>, key: Seq<char>, from: int) -> Option<
    int,
>
    decreases entries.len() - from,
{
    if from < 0 || from >= entries.len() {
        None
    } else if entries[from].0 == key {
        Some(from)
    } else {
        key_position(entries, key, from + 1)
    }
}

/// The value of the first entry with the key.
pub open spec fn lookup(entries: Seq<(Seq<char>, PlistTree)>, key: Seq<char>) -> Option<PlistTree> {
    match key_position(entries, key, 0) {
        Some(i) => Some(entries[i].1),
        None => None,
    }
}

/// The strings among the items, in order; items of another kind are left out.
pub open spec fn strings_of(items: Seq<PlistTree>) -> Seq<Seq<char>>
    decreases items.len(),
{
    if items.len() == 0 {
        Seq::empty()
    } else {
        match items.last() {
            PlistTree::String(s) => strings_of(items.drop_last()).push(s),
            _ => strings_of(items.drop_last()),
        }
    }
}

impl PlistTree {
    /// The value under `key`, where this is a dictionary that has the key.
    pub open spec fn get(self, key: Seq<char>) -> Option<PlistTree> {
        match self {
            PlistTree::Dictionary(entries) => lookup(entries, key),
            _ => None,
        }
    }

    /// The text, where this is a string.
    pub open spec fn as_string(self) -> Option<Seq<char>> {
        match self {
            PlistTree::String(s) => Some(s),
            _ => None,
        }
    }

    /// The flag, where this is a boolean.
    pub open spec fn as_boolean(self) -> Option<bool> {
        match self {
            PlistTree::Boolean(b) => Some(b),
            _ => None,
        }
    }

    /// The items, where this is an array.
    pub open spec fn as_array(self) -> Option<Seq<PlistTree>> {
        match self {
            PlistTree::Array(items) => Some(items),
            _ => None,
        }
    }

    /// The text under `key`, where this is a dictionary whose value there is
    /// a string.
    pub open spec fn string_at(self, key: Seq<char>) -> Option<Seq<char>> {
        match self.get(key) {
            Some(v) => v.as_string(),
            None => None,
        }
    }

    /// The flag under `key`, where this is a dictionary whose value there is
    /// a boolean.
    pub open spec fn boolean_at(self, key: Seq<char>) -> Option<bool> {
        match self.get(key) {
            Some(v) => v.as_boolean(),
            None => None,
        }
    }

    /// The items under `key`, where this is a dictionary whose value there is
    /// an array.
    pub open spec fn array_at(self, key: Seq<char>) -> Option<Seq<PlistTree>> {
        match self.get(key) {
            Some(v) => v.as_array(),
            None => None,
        }
    }

    /// The strings of the array under `key`.
    pub open spec fn strings_at(self, key: Seq<char>) -> Option<Seq<Seq<char>>> {
        match self.array_at(key) {
            Some(items) => Some(strings_of(items)),
            None => None,
        }
    }
}

/// `key_position` names the first entry at or after `from` with the key.
pub proof fn lemma_key_position(entries: Seq<(Seq<char>, PlistTree)>, key: Seq<char>, from: int)
    requires
        0 <= from,
    ensures
        match key_position(entries, key, from) {
            Some(i) => from <= i < entries.len() && entries[i].0 == key && forall|j: int|
                from <= j < i ==> entries[j].0 != key,
            None => forall|j: int| from <= j < entries.len() ==> entries[j].0 != key,
        },
    decreases entries.len() - from,
{
    if from < entries.len() && entries[from].0 != key {
        lemma_key_position(entries, key, from + 1);
    }
}

proof fn lemma_key_found(entries: Seq<(Seq<char>, PlistTree)>, key: Seq<char>, from: int, i: int)
    requires
        0 <= from <= i < entries.len(),
        entries[i].0 == key,
        forall|j: int| from <= j < i ==> entries[j].0 != key,
    ensures
        key_position(entries, key, from) == Some(i),
    decreases i - from,
{
    if from < i {
        lemma_key_found(entries, key, from + 1, i);
    }
}

proof fn lemma_key_missing(entries: Seq<(Seq<char>, PlistTree)>, key: Seq<char>, from: int)
    requires
        0 <= from,
        forall|j: int| from <= j < entries.len() ==> entries[j].0 != key,
    ensures
        key_position(entries, key, from) is None,
    decreases entries.len() - from,
{
    if from < entries.len() {
        lemma_key_missing(entries, key, from + 1);
    }
}

impl PlistValue {
    /// The value under `key`: the first entry with that key, where this is a
    /// dictionary that has one.
    pub fn get(&self, key: &str) -> (r: Option<&PlistValue>)
        ensures
            match r {
                Some(v) => self@.get(key@) == Some(v@),
                None => self@.get(key@) is None,
            },
    {
        match self {
            PlistValue::Dictionary(entries) => {
                let wanted = key.to_owned();
                let n = entries.len();
                let mut i: usize = 0;
                while i < n
                    invariant
                        n == entries@.len(),
                        i <= n,
                        wanted@ == key@,
                        self@ is Dictionary,
                        self@->Dictionary_0.len() == n,
                        forall|j: int|
                            0 <= j < n ==> #[trigger] self@->Dictionary_0[j] == (
                                entries@[j].0@,
                                entries@[j].1@,
                            ),
                        forall|j: int| 0 <= j < i ==> self@->Dictionary_0[j].0 != key@,
                    decreases n - i,
                {
                    if entries[i].0 == wanted {
                        proof {
                            lemma_key_found(self@->Dictionary_0, key@, 0, i as int);
                        }
                        return Some(&entries[i].1);
                    }
                    i += 1;
                }
                proof {
                    lemma_key_missing(self@->Dictionary_0, key@, 0);
                }
                None
            },
            _ => None,
        }
    }

    /// The text, where this is a string.
    pub fn as_string(&self) -> (r: Option<&String>)
        ensures
            match r {
                Some(s) => self@.as_string() == Some(s@),
                None => self@.as_string() is None,
            },
    {
        match self {
            PlistValue::String(s) => Some(s),
            _ => None,
        }
    }

    /// The flag, where this is a boolean.
    pub fn as_boolean(&self) -> (r: Option<bool>)
        ensures
            r == self@.as_boolean(),
    {
        match self {
            PlistValue::Boolean(b) => Some(*b),
            _ => None,
        }
    }

    /// The items, where this is an array.
    pub fn as_array(&self) -> (r: Option<&Vec<PlistValue>>)
        ensures
            match r {
                Some(items) => self@.as_array() == Some(items.deep_view()),
                None => self@.as_array() is None,
            },
    {
        match self {
            PlistValue::Array(items) => {
                proof {
                    assert(self@->Array_0 =~= items.deep_view());
                }
                Some(items)
            },
            _ => None,
        }
    }

    /// The text under `key`, where this is a dictionary whose value there is
    /// a string.
    pub fn string_at(&self, key: &str) -> (r: Option<String>)
        ensures
            r.deep_view() == self@.string_at(key@),
    {
        match self.get(key) {
            Some(v) => match v.as_string() {
                Some(s) => Some(s.clone()),
                None => None,
            },
            None => None,
        }
    }

    /// The flag under `key`, where this is a dictionary whose value there is
    /// a boolean.
    pub fn boolean_at(&self, key: &str) -> (r: Option<bool>)
        ensures
            r == self@.boolean_at(key@),
    {
        match self.get(key) {
            Some(v) => v.as_boolean(),
            None => None,
        }
    }

    /// The items under `key`, where this is a dictionary whose value there is
    /// an array.
    pub fn array_at(&self, key: &str) -> (r: Option<&Vec<PlistValue>>)
        ensures
            match r {
                Some(items) => self@.array_at(key@) == Some(items.deep_view()),
                None => self@.array_at(key@) is None,
            },
    {
        match self.get(key) {
            Some(v) => v.as_array(),
            None => None,
        }
    }

    /// The strings of the array under `key`; items of another kind are left
    /// out.
    pub fn strings_at(&self, key: &str) -> (r: Option<Vec<String>>)
        ensures
            r.deep_view() == self@.strings_at(key@),
    {
        match self.array_at(key) {
            Some(items) => Some(string_items(items)),
            None => None,
        }
    }
}

/// The strings among the items, in order; items of another kind are left out.
pub fn string_items(items: &Vec<PlistValue>) -> (r: Vec<String>)
    ensures
        r.deep_view() == strings_of(items.deep_view()),
{
    let mut out: Vec<String> = Vec::new();
    let n = items.len();
    let mut i: usize = 0;
    proof {
        assert(out.deep_view() =~= Seq::<Seq<char>>::empty());
        assert(items.deep_view().take(0) =~= Seq::<PlistTree>::empty());
    }
    while i < n
        invariant
            n == items@.len(),
            i <= n,
            out.deep_view() == strings_of(items.deep_view().take(i as int)),
        decreases n - i,
    {
        let ghost before = out.deep_view();
        proof {
            let next = items.deep_view().take(i + 1);
            assert(next.drop_last() =~= items.deep_view().take(i as int));
            assert(next.last() == items@[i as int]@);
        }
        match &items[i] {
            PlistValue::String(s) => {
                out.push(s.clone());
                proof {
                    assert(out.deep_view() =~= before.push(s@));
                }
            },
            _ => {},
        }
        i += 1;
    }
    proof {
        assert(items.deep_view().take(n as int) =~= items.deep_view());
    }
    out
}

} // verus!
