use vstd::prelude::*;
use vstd::slice::slice_subrange;
use vstd::utf8::{decode_utf8, valid_utf8};

verus! {

/// `needle` occurs somewhere in `hay` as a contiguous run.
pub open spec fn occurs_in<T>(needle: Seq<T>, hay: Seq<T>) -> bool {
    exists|i: int| occurs_at(needle, hay, i)
}

/// `needle` occurs in `hay` starting at position `i`.
pub open spec fn occurs_at<T>(needle: Seq<T>, hay: Seq<T>, i: int) -> bool {
    0 <= i && i + needle.len() <= hay.len() && hay.subrange(i, i + needle.len()) == needle
}

/// The characters of a string, in order.
pub fn chars_of(s: &str) -> (v: Vec<char>)
    ensures
        v@ == s@,
{
    let mut v: Vec<char> = Vec::new();
    for c in it: s.chars()
        invariant
            it.seq() == s@,
            v@ == it.seq().take(it.index() as int),
    {
        v.push(c);
    }
    v
}

/// Whether `hay` holds `needle` at position `at`.
pub fn matches_at(hay: &[char], needle: &[char], at: usize) -> (b: bool)
    requires
        at + needle@.len() <= hay@.len(),
    ensures
        b == occurs_at(needle@, hay@, at as int),
{
    let n = needle.len();
    let len = hay.len();
    let mut k: usize = 0;
    while k < n
        invariant
            n == needle@.len(),
            len == hay@.len(),
            at + n <= len,
            k <= n,
            forall|j: int| 0 <= j < k ==> hay@[at + j] == needle@[j],
        decreases n - k,
    {
        if hay[at + k] != needle[k] {
            proof {
                assert(hay@.subrange(at as int, at + n)[k as int] == hay@[at + k]);
            }
            return false;
        }
        k += 1;
    }
    proof {
        assert(hay@.subrange(at as int, at + n) =~= needle@);
    }
    true
}

/// Whether `hay` begins with `prefix`.
pub fn has_prefix(hay: &[char], prefix: &[char]) -> (b: bool)
    ensures
        b == prefix@.is_prefix_of(hay@),
{
    if prefix.len() > hay.len() {
        return false;
    }
    matches_at(hay, prefix, 0)
}

/// Whether `hay` ends with `suffix`.
pub fn has_suffix(hay: &[char], suffix: &[char]) -> (b: bool)
    ensures
        b == suffix@.is_suffix_of(hay@),
{
    if suffix.len() > hay.len() {
        return false;
    }
    matches_at(hay, suffix, hay.len() - suffix.len())
}

/// Whether `needle` occurs anywhere in `hay`.
pub fn has_infix(hay: &[char], needle: &[char]) -> (b: bool)
    ensures
        b == occurs_in(needle@, hay@),
{
    if needle.len() > hay.len() {
        return false;
    }
    let last = hay.len() - needle.len();
    let mut i: usize = 0;
    loop
        invariant
            last == hay@.len() - needle@.len(),
            i <= last,
            forall|j: int| 0 <= j < i ==> !occurs_at(needle@, hay@, j),
        decreases last - i,
    {
        if matches_at(hay, needle, i) {
            return true;
        }
        if i == last {
            return false;
        }
        i += 1;
    }
}

/// The characters that separate words: those with the Unicode property
/// `White_Space`.
pub open spec fn is_whitespace(c: char) -> bool {
    let u = c as u32;
    ||| 0x09 <= u <= 0x0D
    ||| u == 0x20
    ||| u == 0x85
    ||| u == 0xA0
    ||| u == 0x1680
    ||| 0x2000 <= u <= 0x200A
    ||| u == 0x2028
    ||| u == 0x2029
    ||| u == 0x202F
    ||| u == 0x205F
    ||| u == 0x3000
}

/// Whether `c` separates words.
pub fn char_is_whitespace(c: char) -> (b: bool)
    ensures
        b == is_whitespace(c),
{
    let u: u32 = c as u32;
    (0x09 <= u && u <= 0x0D) || u == 0x20 || u == 0x85 || u == 0xA0 || u == 0x1680 || (0x2000 <= u
        && u <= 0x200A) || u == 0x2028 || u == 0x2029 || u == 0x202F || u == 0x205F || u == 0x3000
}

/// Length of the run of characters at the start of `s` that are not
/// whitespace.
pub open spec fn word_len(s: Seq<char>) -> nat
    decreases s.len(),
{
    if s.len() == 0 || is_whitespace(s[0]) {
        0
    } else {
        1 + word_len(s.drop_first())
    }
}

/// The words of `s`: its maximal runs of characters that are not whitespace,
/// in order.
pub open spec fn tokens(s: Seq<char>) -> Seq<Seq<char>>
    decreases s.len(),
{
    let n = word_len(s) as int;
    if s.len() == 0 {
        Seq::empty()
    } else if n == 0 {
        tokens(s.drop_first())
    } else if n >= s.len() {
        seq![s]
    } else {
        seq![s.take(n)] + tokens(s.skip(n))
    }
}

/// A run `[from, to)` without whitespace that ends at whitespace or at the
/// end of `s` is the first word of `s.skip(from)`.
pub proof fn lemma_word_len(s: Seq<char>, from: int, to: int)
    requires
        0 <= from <= to <= s.len(),
        forall|k: int| from <= k < to ==> !is_whitespace(s[k]),
        to == s.len() || is_whitespace(s[to]),
    ensures
        word_len(s.skip(from)) == to - from,
    decreases to - from,
{
    let rest = s.skip(from);
    if from < to {
        lemma_word_len(s, from + 1, to);
        assert(rest.drop_first() =~= s.skip(from + 1));
    }
}

/// Every word is non-empty and holds no whitespace.
pub proof fn lemma_tokens_are_words(s: Seq<char>)
    ensures
        forall|i: int, k: int|
            0 <= i < tokens(s).len() && 0 <= k < tokens(s)[i].len() ==> !is_whitespace(
                #[trigger] tokens(s)[i][k],
            ),
        forall|i: int| 0 <= i < tokens(s).len() ==> (#[trigger] tokens(s)[i]).len() > 0,
    decreases s.len(),
{
    let n = word_len(s) as int;
    let t = tokens(s);
    if s.len() == 0 {
    } else if n == 0 {
        lemma_tokens_are_words(s.drop_first());
        assert(t == tokens(s.drop_first()));
    } else {
        lemma_word_run(s);
        if n >= s.len() {
            assert(t =~= seq![s]);
            assert forall|i: int, k: int|
                0 <= i < t.len() && 0 <= k < t[i].len() implies !is_whitespace(
                #[trigger] t[i][k],
            ) by {
                assert(t[i] == s);
            }
            assert forall|i: int| 0 <= i < t.len() implies (#[trigger] t[i]).len() > 0 by {
                assert(t[i] == s);
            }
        } else {
            let rest = tokens(s.skip(n));
            lemma_tokens_are_words(s.skip(n));
            assert(t =~= seq![s.take(n)] + rest);
            assert forall|i: int, k: int|
                0 <= i < t.len() && 0 <= k < t[i].len() implies !is_whitespace(
                #[trigger] t[i][k],
            ) by {
                if i == 0 {
                    assert(t[0] == s.take(n));
                    assert(t[0][k] == s[k]);
                } else {
                    assert(t[i] == rest[i - 1]);
                }
            }
            assert forall|i: int| 0 <= i < t.len() implies (#[trigger] t[i]).len() > 0 by {
                if i == 0 {
                    assert(t[0] == s.take(n));
                } else {
                    assert(t[i] == rest[i - 1]);
                }
            }
        }
    }
}

/// The first `word_len(s)` characters of `s` are not whitespace, and the run
/// stops at whitespace or at the end.
pub proof fn lemma_word_run(s: Seq<char>)
    ensures
        word_len(s) <= s.len(),
        forall|k: int| 0 <= k < word_len(s) ==> !is_whitespace(s[k]),
        word_len(s) == s.len() || is_whitespace(s[word_len(s) as int]),
    decreases s.len(),
{
    if s.len() == 0 || is_whitespace(s[0]) {
    } else {
        let rest = s.drop_first();
        lemma_word_run(rest);
        assert forall|k: int| 0 <= k < word_len(s) implies !is_whitespace(s[k]) by {
            if k > 0 {
                assert(s[k] == rest[k - 1]);
            }
        }
        if word_len(s) < s.len() {
            assert(s[word_len(s) as int] == rest[word_len(rest) as int]);
        }
    }
}

/// `std::str::from_utf8`: the text of a well-formed UTF-8 byte string, and
/// `None` for bytes that are not well-formed UTF-8.
#[verifier::external_body]
pub(crate) fn utf8_text(bytes: &[u8]) -> (r: Option<&str>)
    ensures
        match r {
            Some(s) => valid_utf8(bytes@) && s@ == decode_utf8(bytes@),
            None => !valid_utf8(bytes@),
        },
{
    std::str::from_utf8(bytes).ok()
}

/// Collecting characters into a `String` (`FromIterator<&char>`) keeps them
/// in order.
#[verifier::external_body]
pub(crate) fn string_of(chars: &[char]) -> (r: String)
    ensures
        r@ == chars@,
{
    chars.iter().collect()
}

/// Splits `s` into its words.
pub fn split_whitespace(s: &[char]) -> (r: Vec<String>)
    ensures
        r.deep_view() == tokens(s@),
{
    let mut out: Vec<String> = Vec::new();
    let n = s.len();
    let mut i: usize = 0;
    proof {
        assert(s@.skip(0) =~= s@);
        assert(out.deep_view() =~= Seq::<Seq<char>>::empty());
    }
    while i < n
        invariant
            n == s@.len(),
            i <= n,
            tokens(s@) == out.deep_view() + tokens(s@.skip(i as int)),
        decreases n - i,
    {
        let ghost rest = s@.skip(i as int);
        if char_is_whitespace(s[i]) {
            proof {
                assert(rest.drop_first() =~= s@.skip(i + 1));
            }
            i += 1;
        } else {
            let mut j: usize = i + 1;
            while j < n && !char_is_whitespace(s[j])
                invariant
                    n == s@.len(),
                    i < j <= n,
                    forall|k: int| i <= k < j ==> !is_whitespace(s@[k]),
                decreases n - j,
            {
                j += 1;
            }
            let word = string_of(slice_subrange(s, i, j));
            let ghost before = out.deep_view();
            out.push(word);
            proof {
                lemma_word_len(s@, i as int, j as int);
                assert(rest.take(j - i) =~= s@.subrange(i as int, j as int));
                assert(rest.skip(j - i) =~= s@.skip(j as int));
                assert(out.deep_view() =~= before.push(word@));
                if j == n {
                    assert(rest =~= s@.subrange(i as int, j as int));
                    assert(s@.skip(j as int) =~= Seq::<char>::empty());
                    assert(tokens(s@.skip(j as int)) =~= Seq::<Seq<char>>::empty());
                    assert(tokens(rest) =~= seq![word@]);
                } else {
                    assert(tokens(rest) =~= seq![word@] + tokens(s@.skip(j as int)));
                }
                assert(before + tokens(rest) =~= out.deep_view() + tokens(s@.skip(j as int)));
            }
            i = j;
        }
    }
    proof {
        assert(s@.skip(n as int) =~= Seq::<char>::empty());
        assert(out.deep_view() + tokens(s@.skip(n as int)) =~= out.deep_view());
    }
    out
}

/// Number of bytes before the first line feed of `b`, or the length of `b`
/// where it holds none.
pub open spec fn line_len(b: Seq<u8>) -> nat
    decreases b.len(),
{
    if b.len() == 0 || b[0] == 0x0A {
        0
    } else {
        1 + line_len(b.drop_first())
    }
}

/// A line without the carriage return that stood before its line feed.
pub open spec fn strip_cr(line: Seq<u8>) -> Seq<u8> {
    if line.len() > 0 && line.last() == 0x0D {
        line.drop_last()
    } else {
        line
    }
}

/// The lines of a byte stream. A line ends at a line feed, which is left out
/// together with a carriage return just before it; what follows the last
/// line feed is a line of its own unless it is empty.
pub open spec fn lines(b: Seq<u8>) -> Seq<Seq<u8>>
    decreases b.len(),
{
    let n = line_len(b) as int;
    if b.len() == 0 {
        Seq::empty()
    } else if n >= b.len() {
        seq![b]
    } else {
        seq![strip_cr(b.take(n))] + lines(b.skip(n + 1))
    }
}

/// A run `[from, to)` without a line feed that ends at a line feed or at the
/// end of `b` is the first line of `b.skip(from)`.
pub proof fn lemma_line_len(b: Seq<u8>, from: int, to: int)
    requires
        0 <= from <= to <= b.len(),
        forall|k: int| from <= k < to ==> b[k] != 0x0A,
        to == b.len() || b[to] == 0x0A,
    ensures
        line_len(b.skip(from)) == to - from,
    decreases to - from,
{
    let rest = b.skip(from);
    if from < to {
        lemma_line_len(b, from + 1, to);
        assert(rest.drop_first() =~= b.skip(from + 1));
    }
}

/// The first `line_len(b)` bytes of `b` are no line feeds, and the run stops
/// at a line feed or at the end.
pub proof fn lemma_line_run(b: Seq<u8>)
    ensures
        line_len(b) <= b.len(),
        forall|k: int| 0 <= k < line_len(b) ==> b[k] != 0x0A,
        line_len(b) == b.len() || b[line_len(b) as int] == 0x0A,
    decreases b.len(),
{
    if b.len() == 0 || b[0] == 0x0A {
    } else {
        let rest = b.drop_first();
        lemma_line_run(rest);
        assert forall|k: int| 0 <= k < line_len(b) implies b[k] != 0x0A by {
            if k > 0 {
                assert(b[k] == rest[k - 1]);
            }
        }
        if line_len(b) < b.len() {
            assert(b[line_len(b) as int] == rest[line_len(rest) as int]);
        }
    }
}

/// No line holds a line feed.
pub proof fn lemma_lines_hold_no_line_feed(b: Seq<u8>)
    ensures
        forall|i: int, k: int|
            0 <= i < lines(b).len() && 0 <= k < lines(b)[i].len() ==> #[trigger] lines(b)[i][k]
                != 0x0A,
    decreases b.len(),
{
    let n = line_len(b) as int;
    let all = lines(b);
    if b.len() > 0 {
        lemma_line_run(b);
        if n >= b.len() {
            assert(all =~= seq![b]);
            assert forall|i: int, k: int|
                0 <= i < all.len() && 0 <= k < all[i].len() implies #[trigger] all[i][k]
                != 0x0A by {
                assert(all[i] == b);
            }
        } else {
            let rest = lines(b.skip(n + 1));
            lemma_lines_hold_no_line_feed(b.skip(n + 1));
            assert(all =~= seq![strip_cr(b.take(n))] + rest);
            assert forall|i: int, k: int|
                0 <= i < all.len() && 0 <= k < all[i].len() implies #[trigger] all[i][k]
                != 0x0A by {
                if i == 0 {
                    assert(all[0] == strip_cr(b.take(n)));
                    assert(all[0][k] == b[k]);
                } else {
                    assert(all[i] == rest[i - 1]);
                }
            }
        }
    }
}

/// The views of a list of byte slices.
pub open spec fn slice_views(v: Seq<&[u8]>) -> Seq<Seq<u8>> {
    v.map_values(|l: &[u8]| l@)
}

/// Splits a byte stream into its lines.
pub fn split_lines(b: &[u8]) -> (r: Vec<&[u8]>)
    ensures
        slice_views(r@) == lines(b@),
{
    let mut out: Vec<&[u8]> = Vec::new();
    let n = b.len();
    let mut i: usize = 0;
    proof {
        assert(b@.skip(0) =~= b@);
        assert(slice_views(out@) =~= Seq::<Seq<u8>>::empty());
    }
    while i < n
        invariant
            n == b@.len(),
            i <= n,
            lines(b@) == slice_views(out@) + lines(b@.skip(i as int)),
        decreases n - i,
    {
        let ghost rest = b@.skip(i as int);
        let mut j: usize = i;
        while j < n && b[j] != 0x0A
            invariant
                n == b@.len(),
                i <= j <= n,
                forall|k: int| i <= k < j ==> b@[k] != 0x0A,
            decreases n - j,
        {
            j += 1;
        }
        let ghost before = slice_views(out@);
        proof {
            lemma_line_len(b@, i as int, j as int);
            assert(rest.take(j - i) =~= b@.subrange(i as int, j as int));
        }
        if j == n {
            let line = slice_subrange(b, i, n);
            out.push(line);
            proof {
                assert(rest =~= line@);
                assert(b@.skip(n as int) =~= Seq::<u8>::empty());
                assert(lines(b@.skip(n as int)) =~= Seq::<Seq<u8>>::empty());
                assert(slice_views(out@) =~= before.push(line@));
                assert(before + lines(rest) =~= slice_views(out@) + lines(b@.skip(n as int)));
            }
            i = n;
        } else {
            let end = if j > i && b[j - 1] == 0x0D {
                j - 1
            } else {
                j
            };
            let line = slice_subrange(b, i, end);
            out.push(line);
            proof {
                assert(line@ =~= strip_cr(rest.take(j - i)));
                assert(rest.skip(j - i + 1) =~= b@.skip(j + 1));
                assert(slice_views(out@) =~= before.push(line@));
                assert(before + lines(rest) =~= slice_views(out@) + lines(b@.skip(j + 1)));
            }
            i = j + 1;
        }
    }
    proof {
        assert(b@.skip(n as int) =~= Seq::<u8>::empty());
        assert(slice_views(out@) + lines(b@.skip(n as int)) =~= slice_views(out@));
    }
    out
}

} // verus!
