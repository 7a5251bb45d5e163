use crate::archive::{first_with_suffix, Archive, EntryView};
use crate::framework_info::{FrameworkInfo, FrameworkInfoView};
use crate::text::{
    chars_of, has_infix, has_prefix, lines, occurs_in, split_lines, split_whitespace, string_of,
    tokens, utf8_text,
};
use vstd::prelude::*;
use vstd::slice::slice_subrange;
use vstd::utf8::{decode_utf8, valid_utf8};

verus! {

/// The prefix of the line that names the compiler.
pub open spec fn compiler_directive() -> Seq<char> {
    "// swift-compiler-version: "@
}

/// The prefix of the line that lists the module's flags.
pub open spec fn flags_directive() -> Seq<char> {
    "// swift-module-flags: "@
}

/// The first word that contains `swiftlang-`.
pub open spec fn swiftlang_token(words: Seq<Seq<char>>) -> Option<Seq<char>>
    decreases words.len(),
{
    if words.len() == 0 {
        None
    } else if occurs_in("swiftlang-"@, words[0]) {
        Some(words[0])
    } else {
        swiftlang_token(words.drop_first())
    }
}

/// Number of characters before the first `-` of `word`, or its length where
/// it holds none.
pub open spec fn dash_position(word: Seq<char>) -> nat
    decreases word.len(),
{
    if word.len() == 0 || word[0] == '-' {
        0
    } else {
        1 + dash_position(word.drop_first())
    }
}

/// What follows the first `-` of `word`; empty where it holds none.
pub open spec fn after_first_dash(word: Seq<char>) -> Seq<char> {
    let n = dash_position(word) as int;
    if n < word.len() {
        word.skip(n + 1)
    } else {
        Seq::empty()
    }
}

/// The word that follows the last occurrence of `flag` that has a word after
/// it.
pub open spec fn last_flag_value(words: Seq<Seq<char>>, flag: Seq<char>) -> Option<Seq<char>>
    decreases words.len(),
{
    if words.len() < 2 {
        None
    } else if words[words.len() - 2] == flag {
        Some(words.last())
    } else {
        last_flag_value(words.drop_last(), flag)
    }
}

/// The report after a line of module flags. `-module-name` and
/// `-swift-version` each hand the next word to the report, the last
/// occurrence winning; `-enable-library-evolution` sets its flag wherever it
/// stands. A word that served as a value is still read as a flag in its turn.
pub open spec fn apply_flags(info: FrameworkInfoView, words: Seq<Seq<char>>) -> FrameworkInfoView {
    FrameworkInfoView {
        framework_name: match last_flag_value(words, "-module-name"@) {
            Some(name) => Some(name),
            None => info.framework_name,
        },
        swift_version: match last_flag_value(words, "-swift-version"@) {
            Some(version) => Some(version),
            None => info.swift_version,
        },
        library_evolution_enabled: info.library_evolution_enabled || words.contains(
            "-enable-library-evolution"@,
        ),
        ..info
    }
}

/// The report after a compiler line whose text behind the directive is
/// `rest`: the text is kept as it stands, and the compiler version is what
/// follows the first `-` of the first word that contains `swiftlang-`.
pub open spec fn apply_compiler(info: FrameworkInfoView, rest: Seq<char>) -> FrameworkInfoView {
    FrameworkInfoView {
        swift_compiler_info: Some(rest),
        swift_compiler_version: match swiftlang_token(tokens(rest)) {
            Some(word) => Some(after_first_dash(word)),
            None => info.swift_compiler_version,
        },
        ..info
    }
}

/// The report after one line of an interface resource. Lines that begin with
/// neither directive leave it as it is.
pub open spec fn apply_line(info: FrameworkInfoView, line: Seq<char>) -> FrameworkInfoView {
    if compiler_directive().is_prefix_of(line) {
        apply_compiler(info, line.skip(compiler_directive().len() as int))
    } else if flags_directive().is_prefix_of(line) {
        apply_flags(info, tokens(line.skip(flags_directive().len() as int)))
    } else {
        info
    }
}

/// The report after one raw line. A line that is not well-formed UTF-8 is
/// passed over.
pub open spec fn apply_raw_line(info: FrameworkInfoView, raw: Seq<u8>) -> FrameworkInfoView {
    if valid_utf8(raw) {
        apply_line(info, decode_utf8(raw))
    } else {
        info
    }
}

/// The report after the raw lines, taken in order.
pub open spec fn apply_raw_lines(info: FrameworkInfoView, raws: Seq<Seq<u8>>) -> FrameworkInfoView
    decreases raws.len(),
{
    if raws.len() == 0 {
        info
    } else {
        apply_raw_line(apply_raw_lines(info, raws.drop_last()), raws.last())
    }
}

/// The report after the first resource of the archive whose path ends in
/// `.swiftinterface`; unchanged where the archive has none.
pub open spec fn with_swift_details(
    info: FrameworkInfoView,
    entries: Seq<EntryView>,
) -> FrameworkInfoView {
    match first_with_suffix(entries, ".swiftinterface"@) {
        Some(i) => apply_raw_lines(info, lines(entries[i].content)),
        None => info,
    }
}

/// A line of module flags that holds `-enable-library-evolution` among its
/// words, wherever it stands, sets the library-evolution flag.
pub proof fn lemma_evolution_flag_at_any_position(info: FrameworkInfoView, line: Seq<char>)
    requires
        flags_directive().is_prefix_of(line),
        tokens(line.skip(flags_directive().len() as int)).contains("-enable-library-evolution"@),
    ensures
        apply_line(info, line).library_evolution_enabled,
{
    reveal_strlit("// swift-compiler-version: ");
    reveal_strlit("// swift-module-flags: ");
    if compiler_directive().is_prefix_of(line) {
        assert(line.subrange(0, compiler_directive().len() as int)[9] == 'c');
        assert(line.subrange(0, flags_directive().len() as int)[9] == 'm');
        assert(line[9] == 'c');
        assert(line[9] == 'm');
    }
}

/// The library-evolution flag, once set, stays set through every later
/// line.
pub proof fn lemma_evolution_flag_stays(info: FrameworkInfoView, raws: Seq<Seq<u8>>)
    requires
        info.library_evolution_enabled,
    ensures
        apply_raw_lines(info, raws).library_evolution_enabled,
    decreases raws.len(),
{
    if raws.len() > 0 {
        lemma_evolution_flag_stays(info, raws.drop_last());
    }
}

/// An interface resource sets the library-evolution flag when one of its
/// lines is a line of module flags that holds `-enable-library-evolution`.
pub proof fn lemma_evolution_flag_in_resource(info: FrameworkInfoView, raws: Seq<Seq<u8>>, k: int)
    requires
        0 <= k < raws.len(),
        valid_utf8(raws[k]),
        flags_directive().is_prefix_of(decode_utf8(raws[k])),
        tokens(decode_utf8(raws[k]).skip(flags_directive().len() as int)).contains(
            "-enable-library-evolution"@,
        ),
    ensures
        apply_raw_lines(info, raws).library_evolution_enabled,
    decreases raws.len(),
{
    if k == raws.len() - 1 {
        lemma_evolution_flag_at_any_position(
            apply_raw_lines(info, raws.drop_last()),
            decode_utf8(raws[k]),
        );
    } else {
        lemma_evolution_flag_in_resource(info, raws.drop_last(), k);
        let before = apply_raw_lines(info, raws.drop_last());
        assert(before.library_evolution_enabled);
        assert(apply_raw_line(before, raws.last()).library_evolution_enabled);
    }
}

/// A run `[0, to)` without `-` that ends at a `-` or at the end of `word`
/// is what stands before the first `-`.
proof fn lemma_dash_position(word: Seq<char>, to: int)
    requires
        0 <= to <= word.len(),
        forall|k: int| 0 <= k < to ==> word[k] != '-',
        to == word.len() || word[to] == '-',
    ensures
        dash_position(word) == to,
    decreases to,
{
    if to > 0 {
        let rest = word.drop_first();
        assert forall|k: int| 0 <= k < to - 1 implies rest[k] != '-' by {
            assert(rest[k] == word[k + 1]);
        }
        lemma_dash_position(rest, to - 1);
    }
}

/// What follows the first `-` of `word`.
pub fn text_after_first_dash(word: &[char]) -> (r: String)
    ensures
        r@ == after_first_dash(word@),
{
    let n = word.len();
    let mut i: usize = 0;
    while i < n && word[i] != '-'
        invariant
            n == word@.len(),
            i <= n,
            forall|k: int| 0 <= k < i ==> word@[k] != '-',
        decreases n - i,
    {
        i += 1;
    }
    proof {
        lemma_dash_position(word@, i as int);
    }
    if i < n {
        string_of(slice_subrange(word, i + 1, n))
    } else {
        let r = String::new();
        proof {
            assert(r@ =~= after_first_dash(word@));
        }
        r
    }
}

/// The compiler version that a compiler line names, where it names one.
pub fn swiftlang_version(words: &Vec<String>) -> (r: Option<String>)
    ensures
        r.deep_view() == match swiftlang_token(words.deep_view()) {
            Some(word) => Some(after_first_dash(word)),
            None => None,
        },
{
    let marker = chars_of("swiftlang-");
    let n = words.len();
    let mut i: usize = 0;
    proof {
        assert(words.deep_view().skip(0) =~= words.deep_view());
    }
    while i < n
        invariant
            n == words@.len(),
            i <= n,
            marker@ == "swiftlang-"@,
            swiftlang_token(words.deep_view()) == swiftlang_token(words.deep_view().skip(i as int)),
        decreases n - i,
    {
        let ghost rest = words.deep_view().skip(i as int);
        let word = chars_of(words[i].as_str());
        proof {
            assert(rest[0] == words@[i as int]@);
            assert(rest.drop_first() =~= words.deep_view().skip(i + 1));
        }
        if has_infix(word.as_slice(), marker.as_slice()) {
            return Some(text_after_first_dash(word.as_slice()));
        }
        i += 1;
    }
    None
}

/// The word that follows the last occurrence of `flag` that has a word after
/// it.
pub fn flag_value(words: &Vec<String>, flag: &str) -> (r: Option<String>)
    ensures
        r.deep_view() == last_flag_value(words.deep_view(), flag@),
{
    let wanted = flag.to_owned();
    let mut n = words.len();
    proof {
        assert(words.deep_view().take(n as int) =~= words.deep_view());
    }
    while n >= 2
        invariant
            n <= words@.len(),
            wanted@ == flag@,
            last_flag_value(words.deep_view(), flag@) == last_flag_value(
                words.deep_view().take(n as int),
                flag@,
            ),
        decreases n,
    {
        let ghost head = words.deep_view().take(n as int);
        proof {
            assert(head[n - 2] == words@[n - 2]@);
            assert(head.last() == words@[n - 1]@);
            assert(head.drop_last() =~= words.deep_view().take(n - 1));
        }
        if words[n - 2] == wanted {
            return Some(words[n - 1].clone());
        }
        n -= 1;
    }
    None
}

/// Whether `flag` is among the words.
pub fn has_flag(words: &Vec<String>, flag: &str) -> (b: bool)
    ensures
        b == words.deep_view().contains(flag@),
{
    let wanted = flag.to_owned();
    let n = words.len();
    let mut i: usize = 0;
    while i < n
        invariant
            n == words@.len(),
            i <= n,
            wanted@ == flag@,
            forall|k: int| 0 <= k < i ==> words.deep_view()[k] != flag@,
        decreases n - i,
    {
        if words[i] == wanted {
            proof {
                assert(words.deep_view()[i as int] == flag@);
            }
            return true;
        }
        i += 1;
    }
    false
}

/// Reads one line of an interface resource into the report.
pub fn apply_interface_line(framework_info: &mut FrameworkInfo, line: &str)
    ensures
        final(framework_info)@ == apply_line(old(framework_info)@, line@),
{
    let text = chars_of(line);
    let compiler = chars_of("// swift-compiler-version: ");
    let flags = chars_of("// swift-module-flags: ");
    if has_prefix(text.as_slice(), compiler.as_slice()) {
        let rest = slice_subrange(text.as_slice(), compiler.len(), text.len());
        let words = split_whitespace(rest);
        framework_info.swift_compiler_info = Some(string_of(rest));
        match swiftlang_version(&words) {
            Some(version) => {
                framework_info.swift_compiler_version = Some(version);
            },
            None => {},
        }
    } else if has_prefix(text.as_slice(), flags.as_slice()) {
        let rest = slice_subrange(text.as_slice(), flags.len(), text.len());
        let words = split_whitespace(rest);
        match flag_value(&words, "-module-name") {
            Some(name) => {
                framework_info.framework_name = Some(name);
            },
            None => {},
        }
        match flag_value(&words, "-swift-version") {
            Some(version) => {
                framework_info.swift_version = Some(version);
            },
            None => {},
        }
        if has_flag(&words, "-enable-library-evolution") {
            framework_info.library_evolution_enabled = true;
        }
    }
}

/// Reads the compiler, the language version, the module name and the
/// library-evolution flag from the first resource of the archive whose path
/// ends in `.swiftinterface`. Without such a resource the report stays as it
/// is.
pub fn extract_swift_details(archive: &Archive, framework_info: &mut FrameworkInfo)
    ensures
        final(framework_info)@ == with_swift_details(old(framework_info)@, archive@),
{
    match archive.find_first(".swiftinterface") {
        Some(i) => {
            let raws = split_lines(archive.entry(i).content.as_slice());
            let n = raws.len();
            let ghost all = lines(archive@[i as int].content);
            let mut k: usize = 0;
            proof {
                assert(all.take(0) =~= Seq::<Seq<u8>>::empty());
            }
            while k < n
                invariant
                    n == raws@.len(),
                    k <= n,
                    all.len() == n,
                    forall|j: int| 0 <= j < n ==> (#[trigger] raws@[j])@ == all[j],
                    framework_info@ == apply_raw_lines(old(framework_info)@, all.take(k as int)),
                decreases n - k,
            {
                proof {
                    assert(all.take(k + 1).drop_last() =~= all.take(k as int));
                    assert(all.take(k + 1).last() == all[k as int]);
                }
                match utf8_text(raws[k]) {
                    Some(line) => {
                        apply_interface_line(framework_info, line);
                    },
                    None => {},
                }
                k += 1;
            }
            proof {
                assert(all.take(n as int) =~= all);
            }
        },
        None => {},
    }
}

} // verus!
