use crate::archive::{
    all_scoped, first_scoped, first_with_suffix, in_scope, lemma_first_scoped_from, Archive,
    EntryView,
};
use crate::error::{ErrorKind, ReportError};
use crate::framework_info::{
    AccessedAPIType, AccessedAPITypeView, CollectedDataType, CollectedDataTypeView, LibraryInfo,
    LibraryInfoView, PrivacyInfo, PrivacyInfoView,
};
use crate::plist_source::{decode_plist, decoded_plist};
use crate::plist_tree::{PlistTree, PlistValue};
use crate::text::{chars_of, has_prefix, lines, split_lines, split_whitespace, tokens, utf8_text};
use crate::utils::{
    calculate_library_size, ensure_unique_ordered, lemma_unique_ordered_no_duplicates,
    lemma_unique_ordered_same_items, library_size, unique_ordered,
};
use vstd::prelude::*;
use vstd::string::StringExecFns;
use vstd::utf8::{decode_utf8, valid_utf8};

verus! {

/// The infix that scopes a lookup to one library's subtree.
pub open spec fn library_scope(library_identifier: Seq<char>, library_path: Seq<char>) -> Seq<char> {
    library_identifier + "/"@ + library_path
}

/// The infix that scopes a lookup to the `Modules` directory of one library.
pub open spec fn modules_scope(library_identifier: Seq<char>, library_path: Seq<char>) -> Seq<char> {
    library_identifier + "/"@ + library_path + "/Modules"@
}

/// Whether some library descriptor of the manifest carries
/// `MergeableMetadata` set to true.
pub open spec fn is_mergeable(manifest: PlistTree) -> bool {
    match manifest.array_at("AvailableLibraries"@) {
        Some(libraries) => exists|i: int|
            0 <= i < libraries.len() && (#[trigger] libraries[i]).boolean_at("MergeableMetadata"@)
                == Some(true),
        None => false,
    }
}

/// Whether the framework counts as built for distribution: what the
/// manifest's boolean `DTSDKBuild` says, and without one, whether the
/// archive ships an interface resource.
pub open spec fn built_for_distribution(entries: Seq<EntryView>, manifest: PlistTree) -> bool {
    match manifest.boolean_at("DTSDKBuild"@) {
        Some(flag) => flag,
        None => first_with_suffix(entries, ".swiftinterface"@) is Some,
    }
}

/// The marketing version of a library: `CFBundleShortVersionString` of the
/// first `Info.plist` in the library's scope, where that resource exists,
/// decodes, and holds a string there.
pub open spec fn library_version(
    entries: Seq<EntryView>,
    library_identifier: Seq<char>,
    library_path: Seq<char>,
) -> Option<Seq<char>> {
    match first_scoped(entries, library_scope(library_identifier, library_path), "Info.plist"@) {
        Some(i) => match decoded_plist(entries[i].content) {
            Some(tree) => tree.string_at("CFBundleShortVersionString"@),
            None => None,
        },
        None => None,
    }
}

/// The module that a line imports: the second word of a line that begins
/// with `import `.
pub open spec fn import_of(line: Seq<char>) -> Option<Seq<char>> {
    if "import "@.is_prefix_of(line) && tokens(line).len() >= 2 {
        Some(tokens(line)[1])
    } else {
        None
    }
}

/// The modules that the raw lines import, in order, repetitions included. A
/// line that is not well-formed UTF-8 is passed over.
pub open spec fn imports_in(raws: Seq<Seq<u8>>) -> Seq<Seq<char>>
    decreases raws.len(),
{
    if raws.len() == 0 {
        Seq::empty()
    } else {
        let init = imports_in(raws.drop_last());
        if valid_utf8(raws.last()) {
            match import_of(decode_utf8(raws.last())) {
                Some(module) => init.push(module),
                None => init,
            }
        } else {
            init
        }
    }
}

/// The modules that the entries at `positions` import, entry after entry.
pub open spec fn imports_of(entries: Seq<EntryView>, positions: Seq<int>) -> Seq<Seq<char>>
    decreases positions.len(),
{
    if positions.len() == 0 {
        Seq::empty()
    } else {
        imports_of(entries, positions.drop_last()) + imports_in(
            lines(entries[positions.last()].content),
        )
    }
}

/// The dependencies of a library: what the interface resources under its
/// `Modules` directory import, each module once, where it first occurs.
pub open spec fn library_dependencies(
    entries: Seq<EntryView>,
    library_identifier: Seq<char>,
    library_path: Seq<char>,
) -> Seq<Seq<char>> {
    unique_ordered(
        imports_of(
            entries,
            all_scoped(
                entries,
                modules_scope(library_identifier, library_path),
                ".swiftinterface"@,
            ),
        ),
    )
}

/// The record that one item of `NSPrivacyCollectedDataTypes` declares. An
/// item that lacks the type name, either flag or the list of purposes
/// declares none.
pub open spec fn collected_record(item: PlistTree) -> Option<CollectedDataTypeView> {
    match (
        item.string_at("NSPrivacyCollectedDataType"@),
        item.boolean_at("NSPrivacyCollectedDataTypeLinked"@),
        item.boolean_at("NSPrivacyCollectedDataTypeTracking"@),
        item.strings_at("NSPrivacyCollectedDataTypePurposes"@),
    ) {
        (Some(data_type), Some(linked_to_user), Some(tracking), Some(purposes)) => Some(
            CollectedDataTypeView { data_type, linked_to_user, tracking, purposes },
        ),
        _ => None,
    }
}

/// The records that the items declare, in order; items that declare none
/// are left out.
pub open spec fn collected_records(items: Seq<PlistTree>) -> Seq<CollectedDataTypeView>
    decreases items.len(),
{
    if items.len() == 0 {
        Seq::empty()
    } else {
        match collected_record(items.last()) {
            Some(record) => collected_records(items.drop_last()).push(record),
            None => collected_records(items.drop_last()),
        }
    }
}

/// The record that one item of `NSPrivacyAccessedAPITypes` declares. An item
/// that lacks the API name or the list of reasons declares none.
pub open spec fn accessed_record(item: PlistTree) -> Option<AccessedAPITypeView> {
    match (
        item.string_at("NSPrivacyAccessedAPIType"@),
        item.strings_at("NSPrivacyAccessedAPITypeReasons"@),
    ) {
        (Some(api), Some(reasons)) => Some(AccessedAPITypeView { api, reasons }),
        _ => None,
    }
}

/// The records that the items declare, in order; items that declare none
/// are left out.
pub open spec fn accessed_records(items: Seq<PlistTree>) -> Seq<AccessedAPITypeView>
    decreases items.len(),
{
    if items.len() == 0 {
        Seq::empty()
    } else {
        match accessed_record(items.last()) {
            Some(record) => accessed_records(items.drop_last()).push(record),
            None => accessed_records(items.drop_last()),
        }
    }
}

/// What a decoded privacy manifest discloses. Only a dictionary is a
/// manifest.
pub open spec fn privacy_of_manifest(manifest: PlistTree) -> Result<PrivacyInfoView, ErrorKind> {
    if manifest is Dictionary {
        Ok(
            PrivacyInfoView {
                present: true,
                tracking: manifest.boolean_at("NSPrivacyTracking"@),
                tracking_domains: manifest.strings_at("NSPrivacyTrackingDomains"@),
                collected_data_types: match manifest.array_at("NSPrivacyCollectedDataTypes"@) {
                    Some(items) => Some(collected_records(items)),
                    None => None,
                },
                accessed_api_types: match manifest.array_at("NSPrivacyAccessedAPITypes"@) {
                    Some(items) => Some(accessed_records(items)),
                    None => None,
                },
            },
        )
    } else {
        Err(ErrorKind::PrivacyManifestNotDictionary)
    }
}

/// The privacy disclosure of a library: that of the first
/// `PrivacyInfo.xcprivacy` in the library's scope. Without such a resource
/// the disclosure is absent, which is no failure; a resource that does not
/// decode, or decodes to something other than a dictionary, is one.
pub open spec fn library_privacy(
    entries: Seq<EntryView>,
    library_identifier: Seq<char>,
    library_path: Seq<char>,
) -> Result<PrivacyInfoView, ErrorKind> {
    match first_scoped(
        entries,
        library_scope(library_identifier, library_path),
        "PrivacyInfo.xcprivacy"@,
    ) {
        Some(i) => match decoded_plist(entries[i].content) {
            Some(manifest) => privacy_of_manifest(manifest),
            None => Err(ErrorKind::PrivacyManifestUndecodable),
        },
        None => Ok(PrivacyInfoView::absent()),
    }
}

/// What a library descriptor itself states. A descriptor that lacks
/// `BinaryPath`, `LibraryIdentifier`, `LibraryPath`, `SupportedPlatform` or
/// a `SupportedArchitectures` list with at least one string states nothing.
/// The fields that come from the archive are left empty.
pub open spec fn descriptor_fields(item: PlistTree) -> Option<LibraryInfoView> {
    match (
        item.string_at("BinaryPath"@),
        item.string_at("LibraryIdentifier"@),
        item.string_at("LibraryPath"@),
        item.strings_at("SupportedArchitectures"@),
        item.string_at("SupportedPlatform"@),
    ) {
        (
            Some(binary_path),
            Some(library_identifier),
            Some(library_path),
            Some(supported_architectures),
            Some(supported_platform),
        ) => if supported_architectures.len() > 0 {
            Some(
                LibraryInfoView {
                    binary_path,
                    library_identifier,
                    library_path,
                    marketing_version: None,
                    mergeable_metadata: item.boolean_at("MergeableMetadata"@),
                    supported_architectures,
                    supported_platform,
                    supported_platform_variant: item.string_at("SupportedPlatformVariant"@),
                    minimum_os_version: item.string_at("MinimumOSVersion"@),
                    size: None,
                    dependencies: Seq::empty(),
                    privacy_info: None,
                },
            )
        } else {
            None
        },
        _ => None,
    }
}

/// The record of one library descriptor: `Ok(None)` for a descriptor that is
/// dropped, and a failure where the library's privacy manifest is broken.
pub open spec fn library_record(entries: Seq<EntryView>, item: PlistTree) -> Result<
    Option<LibraryInfoView>,
    ErrorKind,
> {
    match descriptor_fields(item) {
        None => Ok(None),
        Some(fields) => match library_privacy(
            entries,
            fields.library_identifier,
            fields.library_path,
        ) {
            Err(kind) => Err(kind),
            Ok(privacy) => Ok(
                Some(
                    LibraryInfoView {
                        marketing_version: library_version(
                            entries,
                            fields.library_identifier,
                            fields.library_path,
                        ),
                        size: library_size(entries, fields.binary_path),
                        dependencies: library_dependencies(
                            entries,
                            fields.library_identifier,
                            fields.library_path,
                        ),
                        privacy_info: Some(privacy),
                        ..fields
                    },
                ),
            ),
        },
    }
}

/// The records of the descriptors, in their order, without the dropped
/// ones; the first failure among them fails the whole list.
pub open spec fn library_records(entries: Seq<EntryView>, items: Seq<PlistTree>) -> Result<
    Seq<LibraryInfoView>,
    ErrorKind,
>
    decreases items.len(),
{
    if items.len() == 0 {
        Ok(Seq::empty())
    } else {
        match library_records(entries, items.drop_last()) {
            Err(kind) => Err(kind),
            Ok(records) => match library_record(entries, items.last()) {
                Err(kind) => Err(kind),
                Ok(None) => Ok(records),
                Ok(Some(record)) => Ok(records.push(record)),
            },
        }
    }
}

/// The library list of the report: absent where the manifest has no
/// `AvailableLibraries` array, which differs from an empty list.
pub open spec fn available_libraries(entries: Seq<EntryView>, manifest: PlistTree) -> Result<
    Option<Seq<LibraryInfoView>>,
    ErrorKind,
> {
    match manifest.array_at("AvailableLibraries"@) {
        None => Ok(None),
        Some(items) => match library_records(entries, items) {
            Err(kind) => Err(kind),
            Ok(records) => Ok(Some(records)),
        },
    }
}

/// Joins a library's identifier and path into the infix of its scope.
pub fn scope_of(library_identifier: &str, library_path: &str) -> (scope: String)
    ensures
        scope@ == library_scope(library_identifier@, library_path@),
{
    let mut scope = String::from_str(library_identifier);
    scope.append("/");
    scope.append(library_path);
    scope
}

/// The framework's name: the string under `CFBundleName`.
pub fn extract_framework_name(plist: &PlistValue) -> (name: Option<String>)
    ensures
        name.deep_view() == plist@.string_at("CFBundleName"@),
{
    plist.string_at("CFBundleName")
}

/// Whether some library descriptor carries `MergeableMetadata` set to true.
pub fn check_mergeable_metadata(plist: &PlistValue) -> (mergeable: bool)
    ensures
        mergeable == is_mergeable(plist@),
{
    match plist.array_at("AvailableLibraries") {
        Some(libraries) => {
            let n = libraries.len();
            let mut i: usize = 0;
            while i < n
                invariant
                    n == libraries@.len(),
                    i <= n,
                    plist@.array_at("AvailableLibraries"@) == Some(libraries.deep_view()),
                    forall|j: int|
                        0 <= j < i ==> (#[trigger] libraries.deep_view()[j]).boolean_at(
                            "MergeableMetadata"@,
                        ) != Some(true),
                decreases n - i,
            {
                match libraries[i].boolean_at("MergeableMetadata") {
                    Some(true) => {
                        proof {
                            assert(libraries.deep_view()[i as int] == libraries@[i as int]@);
                        }
                        return true;
                    },
                    _ => {},
                }
                i += 1;
            }
            false
        },
        None => false,
    }
}

/// Whether the framework counts as built for distribution.
pub fn extract_built_for_distribution(archive: &Archive, plist: &PlistValue) -> (built: bool)
    ensures
        built == built_for_distribution(archive@, plist@),
{
    match plist.boolean_at("DTSDKBuild") {
        Some(flag) => flag,
        None => archive.find_first(".swiftinterface").is_some(),
    }
}

/// The marketing version that a library's own manifest states.
pub fn short_version_string(plist: &PlistValue) -> (version: Option<String>)
    ensures
        version.deep_view() == plist@.string_at("CFBundleShortVersionString"@),
{
    plist.string_at("CFBundleShortVersionString")
}

/// The marketing version of the library at `library_identifier` /
/// `library_path`. A missing manifest, one that does not decode, and one
/// without the field all give `None`.
pub fn extract_framework_version(
    archive: &Archive,
    library_identifier: &str,
    library_path: &str,
) -> (version: Option<String>)
    ensures
        version.deep_view() == library_version(archive@, library_identifier@, library_path@),
{
    let scope = scope_of(library_identifier, library_path);
    match archive.find_scoped(scope.as_str(), "Info.plist") {
        Some(i) => match decode_plist(archive.entry(i).content.as_slice()) {
            Ok(plist) => short_version_string(&plist),
            Err(_) => None,
        },
        None => None,
    }
}

/// The module that a line imports, where it is an import line.
pub fn imported_module(line: &str) -> (module: Option<String>)
    ensures
        module.deep_view() == import_of(line@),
{
    let text = chars_of(line);
    let keyword = chars_of("import ");
    if has_prefix(text.as_slice(), keyword.as_slice()) {
        let words = split_whitespace(text.as_slice());
        if words.len() >= 2 {
            proof {
                assert(words.deep_view()[1] == words@[1]@);
            }
            Some(words[1].clone())
        } else {
            None
        }
    } else {
        None
    }
}

/// Appends to `found` the modules that an interface resource imports.
pub fn collect_imports(content: &[u8], found: &mut Vec<String>)
    ensures
        final(found).deep_view() == old(found).deep_view() + imports_in(lines(content@)),
{
    let raws = split_lines(content);
    let n = raws.len();
    let ghost all = lines(content@);
    let mut k: usize = 0;
    proof {
        assert(all.take(0) =~= Seq::<Seq<u8>>::empty());
        assert(found.deep_view() + imports_in(all.take(0)) =~= found.deep_view());
    }
    while k < n
        invariant
            n == raws@.len(),
            k <= n,
            all.len() == n,
            forall|j: int| 0 <= j < n ==> (#[trigger] raws@[j])@ == all[j],
            found.deep_view() == old(found).deep_view() + imports_in(all.take(k as int)),
        decreases n - k,
    {
        let ghost before = found.deep_view();
        proof {
            assert(all.take(k + 1).drop_last() =~= all.take(k as int));
            assert(all.take(k + 1).last() == all[k as int]);
        }
        match utf8_text(raws[k]) {
            Some(line) => match imported_module(line) {
                Some(module) => {
                    found.push(module);
                    proof {
                        assert(found.deep_view() =~= before.push(module@));
                        assert(before.push(module@) =~= old(found).deep_view() + imports_in(
                            all.take(k + 1),
                        ));
                    }
                },
                None => {},
            },
            None => {},
        }
        k += 1;
    }
    proof {
        assert(all.take(n as int) =~= all);
    }
}

/// The dependencies of the library at `library_identifier` /
/// `library_path`: the modules imported by every interface resource under
/// its `Modules` directory, each once, in first-seen order.
pub fn extract_dependencies(
    archive: &Archive,
    library_identifier: &str,
    library_path: &str,
) -> (dependencies: Vec<String>)
    ensures
        dependencies.deep_view() == library_dependencies(
            archive@,
            library_identifier@,
            library_path@,
        ),
{
    let mut scope = scope_of(library_identifier, library_path);
    scope.append("/Modules");
    let positions = archive.find_all_scoped(scope.as_str(), ".swiftinterface");
    let ghost wanted = all_scoped(archive@, scope@, ".swiftinterface"@);
    let mut found: Vec<String> = Vec::new();
    let n = positions.len();
    let mut k: usize = 0;
    proof {
        assert(wanted.take(0) =~= Seq::<int>::empty());
        assert(found.deep_view() =~= Seq::<Seq<char>>::empty());
    }
    while k < n
        invariant
            n == positions@.len(),
            k <= n,
            wanted.len() == n,
            forall|j: int| 0 <= j < n ==> positions@[j] as int == wanted[j],
            forall|j: int| 0 <= j < n ==> positions@[j] < archive@.len(),
            found.deep_view() == imports_of(archive@, wanted.take(k as int)),
        decreases n - k,
    {
        proof {
            assert(wanted.take(k + 1).drop_last() =~= wanted.take(k as int));
            assert(wanted.take(k + 1).last() == wanted[k as int]);
        }
        collect_imports(archive.entry(positions[k]).content.as_slice(), &mut found);
        k += 1;
    }
    proof {
        assert(wanted.take(n as int) =~= wanted);
    }
    ensure_unique_ordered(found)
}

/// The record that one item of `NSPrivacyCollectedDataTypes` declares.
pub fn collected_data_type(item: &PlistValue) -> (record: Option<CollectedDataType>)
    ensures
        record.deep_view() == collected_record(item@),
{
    let data_type = item.string_at("NSPrivacyCollectedDataType");
    let linked_to_user = item.boolean_at("NSPrivacyCollectedDataTypeLinked");
    let tracking = item.boolean_at("NSPrivacyCollectedDataTypeTracking");
    let purposes = item.strings_at("NSPrivacyCollectedDataTypePurposes");
    match (data_type, linked_to_user, tracking, purposes) {
        (Some(data_type), Some(linked_to_user), Some(tracking), Some(purposes)) => Some(
            CollectedDataType { data_type, linked_to_user, tracking, purposes },
        ),
        _ => None,
    }
}

/// The record that one item of `NSPrivacyAccessedAPITypes` declares.
pub fn accessed_api_type(item: &PlistValue) -> (record: Option<AccessedAPIType>)
    ensures
        record.deep_view() == accessed_record(item@),
{
    let api = item.string_at("NSPrivacyAccessedAPIType");
    let reasons = item.strings_at("NSPrivacyAccessedAPITypeReasons");
    match (api, reasons) {
        (Some(api), Some(reasons)) => Some(AccessedAPIType { api, reasons }),
        _ => None,
    }
}

/// The collected-data records that the items declare.
pub fn collected_data_types(items: &Vec<PlistValue>) -> (records: Vec<CollectedDataType>)
    ensures
        records.deep_view() == collected_records(items.deep_view()),
{
    let mut out: Vec<CollectedDataType> = Vec::new();
    let n = items.len();
    let mut i: usize = 0;
    proof {
        assert(out.deep_view() =~= Seq::<CollectedDataTypeView>::empty());
        assert(items.deep_view().take(0) =~= Seq::<PlistTree>::empty());
    }
    while i < n
        invariant
            n == items@.len(),
            i <= n,
            out.deep_view() == collected_records(items.deep_view().take(i as int)),
        decreases n - i,
    {
        let ghost before = out.deep_view();
        proof {
            let next = items.deep_view().take(i + 1);
            assert(next.drop_last() =~= items.deep_view().take(i as int));
            assert(next.last() == items@[i as int]@);
        }
        match collected_data_type(&items[i]) {
            Some(record) => {
                let ghost added = record.deep_view();
                out.push(record);
                proof {
                    assert(out.deep_view() =~= before.push(added));
                }
            },
            None => {},
        }
        i += 1;
    }
    proof {
        assert(items.deep_view().take(n as int) =~= items.deep_view());
    }
    out
}

/// The accessed-API records that the items declare.
pub fn accessed_api_types(items: &Vec<PlistValue>) -> (records: Vec<AccessedAPIType>)
    ensures
        records.deep_view() == accessed_records(items.deep_view()),
{
    let mut out: Vec<AccessedAPIType> = Vec::new();
    let n = items.len();
    let mut i: usize = 0;
    proof {
        assert(out.deep_view() =~= Seq::<AccessedAPITypeView>::empty());
        assert(items.deep_view().take(0) =~= Seq::<PlistTree>::empty());
    }
    while i < n
        invariant
            n == items@.len(),
            i <= n,
            out.deep_view() == accessed_records(items.deep_view().take(i as int)),
        decreases n - i,
    {
        let ghost before = out.deep_view();
        proof {
            let next = items.deep_view().take(i + 1);
            assert(next.drop_last() =~= items.deep_view().take(i as int));
            assert(next.last() == items@[i as int]@);
        }
        match accessed_api_type(&items[i]) {
            Some(record) => {
                let ghost added = record.deep_view();
                out.push(record);
                proof {
                    assert(out.deep_view() =~= before.push(added));
                }
            },
            None => {},
        }
        i += 1;
    }
    proof {
        assert(items.deep_view().take(n as int) =~= items.deep_view());
    }
    out
}

/// Reads a decoded privacy manifest. Fails, with
/// `PrivacyManifestNotDictionary`, exactly when the manifest is no
/// dictionary.
pub fn privacy_info_from(plist: &PlistValue) -> (r: Result<PrivacyInfo, ReportError>)
    ensures
        match r {
            Ok(info) => privacy_of_manifest(plist@) == Ok::<PrivacyInfoView, ErrorKind>(info@),
            Err(e) => privacy_of_manifest(plist@) == Err::<PrivacyInfoView, ErrorKind>(e.kind),
        },
{
    match plist {
        PlistValue::Dictionary(_) => {
            let collected = match plist.array_at("NSPrivacyCollectedDataTypes") {
                Some(items) => Some(collected_data_types(items)),
                None => None,
            };
            let accessed = match plist.array_at("NSPrivacyAccessedAPITypes") {
                Some(items) => Some(accessed_api_types(items)),
                None => None,
            };
            Ok(
                PrivacyInfo {
                    present: true,
                    tracking: plist.boolean_at("NSPrivacyTracking"),
                    tracking_domains: plist.strings_at("NSPrivacyTrackingDomains"),
                    collected_data_types: collected,
                    accessed_api_types: accessed,
                },
            )
        },
        _ => Err(ReportError::new(ErrorKind::PrivacyManifestNotDictionary)),
    }
}

/// The privacy disclosure of the library at `library_identifier` /
/// `library_path`. A library without a privacy manifest has an absent
/// disclosure; a manifest that does not decode to a dictionary fails the
/// extraction.
pub fn extract_privacy_info(
    archive: &Archive,
    library_identifier: &str,
    library_path: &str,
) -> (r: Result<PrivacyInfo, ReportError>)
    ensures
        match r {
            Ok(info) => library_privacy(archive@, library_identifier@, library_path@) == Ok::<
                PrivacyInfoView,
                ErrorKind,
            >(info@),
            Err(e) => library_privacy(archive@, library_identifier@, library_path@) == Err::<
                PrivacyInfoView,
                ErrorKind,
            >(e.kind),
        },
{
    let scope = scope_of(library_identifier, library_path);
    match archive.find_scoped(scope.as_str(), "PrivacyInfo.xcprivacy") {
        Some(i) => match decode_plist(archive.entry(i).content.as_slice()) {
            Ok(plist) => privacy_info_from(&plist),
            Err(detail) => Err(
                ReportError::with_detail(ErrorKind::PrivacyManifestUndecodable, detail),
            ),
        },
        None => Ok(
            PrivacyInfo {
                present: false,
                tracking: None,
                tracking_domains: None,
                collected_data_types: None,
                accessed_api_types: None,
            },
        ),
    }
}

/// Reads what a library descriptor itself states, leaving the fields that
/// come from the archive empty.
pub fn read_descriptor(item: &PlistValue) -> (fields: Option<LibraryInfo>)
    ensures
        fields.deep_view() == descriptor_fields(item@),
{
    let binary_path = item.string_at("BinaryPath");
    let library_identifier = item.string_at("LibraryIdentifier");
    let library_path = item.string_at("LibraryPath");
    let supported_architectures = item.strings_at("SupportedArchitectures");
    let supported_platform = item.string_at("SupportedPlatform");
    match (
        binary_path,
        library_identifier,
        library_path,
        supported_architectures,
        supported_platform,
    ) {
        (
            Some(binary_path),
            Some(library_identifier),
            Some(library_path),
            Some(supported_architectures),
            Some(supported_platform),
        ) => {
            if supported_architectures.len() > 0 {
                let dependencies: Vec<String> = Vec::new();
                proof {
                    assert(dependencies.deep_view() =~= Seq::<Seq<char>>::empty());
                }
                Some(
                    LibraryInfo {
                        binary_path,
                        library_identifier,
                        library_path,
                        marketing_version: None,
                        mergeable_metadata: item.boolean_at("MergeableMetadata"),
                        supported_architectures,
                        supported_platform,
                        supported_platform_variant: item.string_at("SupportedPlatformVariant"),
                        minimum_os_version: item.string_at("MinimumOSVersion"),
                        size: None,
                        dependencies,
                        privacy_info: None,
                    },
                )
            } else {
                None
            }
        },
        _ => None,
    }
}

/// Assembles the record of one library descriptor: the descriptor's own
/// fields, and from the archive the size of the binary, the marketing
/// version, the dependencies and the privacy disclosure, each looked up in
/// the library's scope.
pub fn assemble_library(archive: &Archive, item: &PlistValue) -> (r: Result<
    Option<LibraryInfo>,
    ReportError,
>)
    ensures
        match r {
            Ok(record) => library_record(archive@, item@) == Ok::<
                Option<LibraryInfoView>,
                ErrorKind,
            >(record.deep_view()),
            Err(e) => library_record(archive@, item@) == Err::<
                Option<LibraryInfoView>,
                ErrorKind,
            >(e.kind),
        },
{
    match read_descriptor(item) {
        None => Ok(None),
        Some(fields) => {
            let mut library = fields;
            let size = match calculate_library_size(archive, library.binary_path.as_str()) {
                Ok(text) => Some(text),
                Err(_) => None,
            };
            let marketing_version = extract_framework_version(
                archive,
                library.library_identifier.as_str(),
                library.library_path.as_str(),
            );
            let dependencies = extract_dependencies(
                archive,
                library.library_identifier.as_str(),
                library.library_path.as_str(),
            );
            match extract_privacy_info(
                archive,
                library.library_identifier.as_str(),
                library.library_path.as_str(),
            ) {
                Err(e) => Err(e),
                Ok(privacy) => {
                    library.size = size;
                    library.marketing_version = marketing_version;
                    library.dependencies = dependencies;
                    library.privacy_info = Some(privacy);
                    Ok(Some(library))
                },
            }
        },
    }
}

/// The library list of the report: one record for each descriptor under
/// `AvailableLibraries` that states all mandatory fields, in the
/// descriptors' order. `Ok(None)` where the manifest has no such array.
pub fn extract_available_libraries(archive: &Archive, plist: &PlistValue) -> (r: Result<
    Option<Vec<LibraryInfo>>,
    ReportError,
>)
    ensures
        match r {
            Ok(libraries) => available_libraries(archive@, plist@) == Ok::<
                Option<Seq<LibraryInfoView>>,
                ErrorKind,
            >(libraries.deep_view()),
            Err(e) => available_libraries(archive@, plist@) == Err::<
                Option<Seq<LibraryInfoView>>,
                ErrorKind,
            >(e.kind),
        },
{
    match plist.array_at("AvailableLibraries") {
        None => Ok(None),
        Some(items) => {
            let mut out: Vec<LibraryInfo> = Vec::new();
            let n = items.len();
            let mut i: usize = 0;
            proof {
                assert(out.deep_view() =~= Seq::<LibraryInfoView>::empty());
                assert(items.deep_view().take(0) =~= Seq::<PlistTree>::empty());
            }
            while i < n
                invariant
                    n == items@.len(),
                    i <= n,
                    plist@.array_at("AvailableLibraries"@) == Some(items.deep_view()),
                    library_records(archive@, items.deep_view().take(i as int)) == Ok::<
                        Seq<LibraryInfoView>,
                        ErrorKind,
                    >(out.deep_view()),
                decreases n - i,
            {
                let ghost before = out.deep_view();
                proof {
                    let next = items.deep_view().take(i + 1);
                    assert(next.drop_last() =~= items.deep_view().take(i as int));
                    assert(next.last() == items@[i as int]@);
                }
                match assemble_library(archive, &items[i]) {
                    Err(e) => {
                        proof {
                            lemma_failure_stays(archive@, items.deep_view(), i + 1, e.kind);
                        }
                        return Err(e);
                    },
                    Ok(None) => {},
                    Ok(Some(library)) => {
                        let ghost added = library.deep_view();
                        out.push(library);
                        proof {
                            assert(out.deep_view() =~= before.push(added));
                        }
                    },
                }
                i += 1;
            }
            proof {
                assert(items.deep_view().take(n as int) =~= items.deep_view());
            }
            Ok(Some(out))
        },
    }
}

/// The records of a list made of two parts are those of the first part
/// followed by those of the second; a failure in the first part comes before
/// one in the second.
pub proof fn lemma_records_of_parts(entries: Seq<EntryView>, a: Seq<PlistTree>, b: Seq<PlistTree>)
    ensures
        library_records(entries, a + b) == match library_records(entries, a) {
            Err(kind) => Err::<Seq<LibraryInfoView>, ErrorKind>(kind),
            Ok(first) => match library_records(entries, b) {
                Err(kind) => Err(kind),
                Ok(second) => Ok(first + second),
            },
        },
    decreases b.len(),
{
    if b.len() == 0 {
        assert(a + b =~= a);
        if let Ok(first) = library_records(entries, a) {
            assert(first + Seq::<LibraryInfoView>::empty() =~= first);
        }
    } else {
        lemma_records_of_parts(entries, a, b.drop_last());
        assert((a + b).drop_last() =~= a + b.drop_last());
        assert((a + b).last() == b.last());
        if let Ok(first) = library_records(entries, a) {
            if let Ok(second) = library_records(entries, b.drop_last()) {
                if let Ok(Some(record)) = library_record(entries, b.last()) {
                    assert((first + second).push(record) =~= first + second.push(record));
                }
            }
        }
    }
}

/// A descriptor without `SupportedArchitectures` is dropped.
pub proof fn lemma_descriptor_without_architectures(entries: Seq<EntryView>, item: PlistTree)
    requires
        item.get("SupportedArchitectures"@) is None,
    ensures
        descriptor_fields(item) is None,
        library_record(entries, item) == Ok::<Option<LibraryInfoView>, ErrorKind>(None),
{
}

/// A dropped descriptor leaves no trace: the records of the descriptors
/// before and after it are what they are without it, in the same order.
pub proof fn lemma_dropped_descriptor_leaves_no_trace(
    entries: Seq<EntryView>,
    before: Seq<PlistTree>,
    item: PlistTree,
    after: Seq<PlistTree>,
)
    requires
        descriptor_fields(item) is None,
    ensures
        library_records(entries, before + seq![item] + after) == library_records(
            entries,
            before + after,
        ),
{
    let one = seq![item];
    assert(one.drop_last() =~= Seq::<PlistTree>::empty());
    assert(one.last() == item);
    assert(library_records(entries, one.drop_last()) == Ok::<Seq<LibraryInfoView>, ErrorKind>(
        Seq::empty(),
    ));
    assert(library_records(entries, one) == Ok::<Seq<LibraryInfoView>, ErrorKind>(Seq::empty()));
    lemma_records_of_parts(entries, before, one);
    lemma_records_of_parts(entries, before + one, after);
    lemma_records_of_parts(entries, before, after);
    if let Ok(first) = library_records(entries, before) {
        assert(first + Seq::<LibraryInfoView>::empty() =~= first);
    }
}

/// A descriptor that states every field, the optional ones too, has each of
/// them in its record as the descriptor states it.
pub proof fn lemma_descriptor_reproduced(entries: Seq<EntryView>, item: PlistTree)
    requires
        item.string_at("BinaryPath"@) is Some,
        item.string_at("LibraryIdentifier"@) is Some,
        item.string_at("LibraryPath"@) is Some,
        item.strings_at("SupportedArchitectures"@) is Some,
        item.strings_at("SupportedArchitectures"@)->0.len() > 0,
        item.string_at("SupportedPlatform"@) is Some,
        item.boolean_at("MergeableMetadata"@) is Some,
        item.string_at("SupportedPlatformVariant"@) is Some,
        item.string_at("MinimumOSVersion"@) is Some,
    ensures
        descriptor_fields(item) is Some,
        match library_record(entries, item) {
            Ok(record) => record is Some && {
                let library = record->0;
                &&& Some(library.binary_path) == item.string_at("BinaryPath"@)
                &&& Some(library.library_identifier) == item.string_at("LibraryIdentifier"@)
                &&& Some(library.library_path) == item.string_at("LibraryPath"@)
                &&& Some(library.supported_architectures) == item.strings_at(
                    "SupportedArchitectures"@,
                )
                &&& Some(library.supported_platform) == item.string_at("SupportedPlatform"@)
                &&& library.mergeable_metadata == item.boolean_at("MergeableMetadata"@)
                &&& library.supported_platform_variant == item.string_at(
                    "SupportedPlatformVariant"@,
                )
                &&& library.minimum_os_version == item.string_at("MinimumOSVersion"@)
            },
            Err(kind) => library_privacy(
                entries,
                item.string_at("LibraryIdentifier"@)->0,
                item.string_at("LibraryPath"@)->0,
            ) == Err::<PrivacyInfoView, ErrorKind>(kind),
        },
{
}

/// A privacy manifest that is a dictionary without any of the four
/// recognised keys is present, and discloses nothing.
pub proof fn lemma_empty_privacy_manifest(manifest: PlistTree)
    requires
        manifest is Dictionary,
        manifest.get("NSPrivacyTracking"@) is None,
        manifest.get("NSPrivacyTrackingDomains"@) is None,
        manifest.get("NSPrivacyCollectedDataTypes"@) is None,
        manifest.get("NSPrivacyAccessedAPITypes"@) is None,
    ensures
        privacy_of_manifest(manifest) == Ok::<PrivacyInfoView, ErrorKind>(
            PrivacyInfoView { present: true, ..PrivacyInfoView::absent() },
        ),
{
}

/// A library without a privacy manifest in its scope has an absent
/// disclosure, and no failure.
pub proof fn lemma_privacy_absent(
    entries: Seq<EntryView>,
    library_identifier: Seq<char>,
    library_path: Seq<char>,
)
    requires
        forall|i: int|
            0 <= i < entries.len() ==> !in_scope(
                (#[trigger] entries[i]).name,
                library_scope(library_identifier, library_path),
                "PrivacyInfo.xcprivacy"@,
            ),
    ensures
        library_privacy(entries, library_identifier, library_path) == Ok::<
            PrivacyInfoView,
            ErrorKind,
        >(PrivacyInfoView::absent()),
{
    lemma_first_scoped_from(
        entries,
        library_scope(library_identifier, library_path),
        "PrivacyInfo.xcprivacy"@,
        0,
    );
}

/// No module occurs twice among the dependencies of a library, and the
/// modules are those that its interface resources import.
pub proof fn lemma_dependencies_are_unique(
    entries: Seq<EntryView>,
    library_identifier: Seq<char>,
    library_path: Seq<char>,
)
    ensures
        library_dependencies(entries, library_identifier, library_path).no_duplicates(),
        forall|module: Seq<char>|
            library_dependencies(entries, library_identifier, library_path).contains(module)
                <==> imports_of(
                entries,
                all_scoped(
                    entries,
                    modules_scope(library_identifier, library_path),
                    ".swiftinterface"@,
                ),
            ).contains(module),
{
    let imports = imports_of(
        entries,
        all_scoped(entries, modules_scope(library_identifier, library_path), ".swiftinterface"@),
    );
    lemma_unique_ordered_no_duplicates(imports);
    lemma_unique_ordered_same_items(imports);
}

/// Every record of a library is well formed, and carries a privacy
/// disclosure.
pub proof fn lemma_library_record_well_formed(entries: Seq<EntryView>, item: PlistTree)
    ensures
        match library_record(entries, item) {
            Ok(Some(library)) => library.well_formed() && library.privacy_info is Some,
            _ => true,
        },
{
    if let Some(fields) = descriptor_fields(item) {
        lemma_dependencies_are_unique(entries, fields.library_identifier, fields.library_path);
    }
}

/// Every record of a library list is well formed.
pub proof fn lemma_library_records_well_formed(entries: Seq<EntryView>, items: Seq<PlistTree>)
    ensures
        match library_records(entries, items) {
            Ok(records) => forall|i: int|
                0 <= i < records.len() ==> (#[trigger] records[i]).well_formed(),
            Err(_) => true,
        },
    decreases items.len(),
{
    if items.len() > 0 {
        lemma_library_records_well_formed(entries, items.drop_last());
        lemma_library_record_well_formed(entries, items.last());
    }
}

/// A failure among the first `n` descriptors is the failure of the whole
/// list.
proof fn lemma_failure_stays(entries: Seq<EntryView>, items: Seq<PlistTree>, n: int, kind: ErrorKind)
    requires
        0 <= n <= items.len(),
        library_records(entries, items.take(n)) == Err::<Seq<LibraryInfoView>, ErrorKind>(kind),
    ensures
        library_records(entries, items) == Err::<Seq<LibraryInfoView>, ErrorKind>(kind),
    decreases items.len() - n,
{
    if n < items.len() {
        assert(items.take(n + 1).drop_last() =~= items.take(n));
        lemma_failure_stays(entries, items, n + 1, kind);
    } else {
        assert(items.take(n) =~= items);
    }
}

} // verus!
