use crate::archive::{
    first_with_suffix, in_scope, lemma_empty_infix, lemma_first_scoped_from, Archive, EntryView,
};
use crate::container::{container_entries, read_archive};
use crate::error::{ErrorKind, ReportError};
use crate::framework_info::{FrameworkInfo, FrameworkInfoView};
use crate::plist_source::{decode_plist, decoded_plist};
use crate::plist_tree::{PlistTree, PlistValue};
use vstd::prelude::*;

pub mod extractors;
pub mod swift_details;

verus! {

/// The report before anything but the root manifest's own name and
/// mergeable flag is known.
pub open spec fn manifest_base(manifest: PlistTree) -> FrameworkInfoView {
    FrameworkInfoView {
        framework_name: manifest.string_at("CFBundleName"@),
        is_mergeable: extractors::is_mergeable(manifest),
        swift_compiler_info: None,
        swift_compiler_version: None,
        swift_version: None,
        library_evolution_enabled: false,
        built_for_distribution: false,
        available_libraries: None,
    }
}

/// The report of an archive whose root manifest decoded to `manifest`: the
/// manifest's name and mergeable flag, over them what the first interface
/// resource of the archive states, the distribution flag, and the library
/// list. Fails where a library's privacy manifest is broken.
pub open spec fn manifest_report(entries: Seq<EntryView>, manifest: PlistTree) -> Result<
    FrameworkInfoView,
    ErrorKind,
> {
    match extractors::available_libraries(entries, manifest) {
        Err(kind) => Err(kind),
        Ok(libraries) => Ok(
            FrameworkInfoView {
                built_for_distribution: extractors::built_for_distribution(entries, manifest),
                available_libraries: libraries,
                ..swift_details::with_swift_details(manifest_base(manifest), entries)
            },
        ),
    }
}

/// The report of an archive. The root manifest is the first entry whose
/// path ends in `Info.plist`; an archive without one, or with one that does
/// not decode to a dictionary, has no report.
pub open spec fn archive_report(entries: Seq<EntryView>) -> Result<FrameworkInfoView, ErrorKind> {
    match first_with_suffix(entries, "Info.plist"@) {
        None => Err(ErrorKind::ManifestMissing),
        Some(i) => match decoded_plist(entries[i].content) {
            None => Err(ErrorKind::ManifestUndecodable),
            Some(manifest) => if manifest is Dictionary {
                manifest_report(entries, manifest)
            } else {
                Err(ErrorKind::ManifestNotDictionary)
            },
        },
    }
}

/// The report of a container held in memory.
pub open spec fn container_report(bytes: Seq<u8>) -> Result<FrameworkInfoView, ErrorKind> {
    match container_entries(bytes) {
        None => Err(ErrorKind::ArchiveUnreadable),
        Some(entries) => archive_report(entries),
    }
}

/// An archive in which no entry's path ends in `Info.plist` has no report:
/// it fails for want of the manifest.
pub proof fn lemma_no_manifest_no_report(entries: Seq<EntryView>)
    requires
        forall|i: int|
            0 <= i < entries.len() ==> !"Info.plist"@.is_suffix_of((#[trigger] entries[i]).name),
    ensures
        archive_report(entries) == Err::<FrameworkInfoView, ErrorKind>(ErrorKind::ManifestMissing),
{
    lemma_first_scoped_from(entries, Seq::empty(), "Info.plist"@, 0);
    assert forall|i: int| 0 <= i < entries.len() implies !in_scope(
        (#[trigger] entries[i]).name,
        Seq::empty(),
        "Info.plist"@,
    ) by {
        lemma_empty_infix(entries[i].name, "Info.plist"@);
    }
}

/// Every report of an archive is well formed.
pub proof fn lemma_report_well_formed(entries: Seq<EntryView>)
    ensures
        match archive_report(entries) {
            Ok(info) => info.well_formed(),
            Err(_) => true,
        },
{
    if let Some(i) = first_with_suffix(entries, "Info.plist"@) {
        if let Some(manifest) = decoded_plist(entries[i].content) {
            if let Some(items) = manifest.array_at("AvailableLibraries"@) {
                extractors::lemma_library_records_well_formed(entries, items);
            }
        }
    }
}

/// Builds the report of an archive from its decoded root manifest.
pub fn report_from_manifest(archive: &Archive, manifest: &PlistValue) -> (r: Result<
    FrameworkInfo,
    ReportError,
>)
    ensures
        match r {
            Ok(info) => manifest_report(archive@, manifest@) == Ok::<FrameworkInfoView, ErrorKind>(
                info@,
            ),
            Err(e) => manifest_report(archive@, manifest@) == Err::<FrameworkInfoView, ErrorKind>(
                e.kind,
            ),
        },
{
    let mut framework_info = FrameworkInfo {
        framework_name: extractors::extract_framework_name(manifest),
        is_mergeable: extractors::check_mergeable_metadata(manifest),
        swift_compiler_info: None,
        swift_compiler_version: None,
        swift_version: None,
        library_evolution_enabled: false,
        built_for_distribution: false,
        available_libraries: None,
    };
    swift_details::extract_swift_details(archive, &mut framework_info);
    framework_info.built_for_distribution = extractors::extract_built_for_distribution(
        archive,
        manifest,
    );
    match extractors::extract_available_libraries(archive, manifest) {
        Ok(libraries) => {
            framework_info.available_libraries = libraries;
            Ok(framework_info)
        },
        Err(e) => Err(e),
    }
}

/// Builds the report of an archive: finds and decodes the root manifest,
/// then reads everything else in its light. Nothing is returned beside a
/// failure.
pub fn build_report(archive: &Archive) -> (r: Result<FrameworkInfo, ReportError>)
    ensures
        match r {
            Ok(info) => archive_report(archive@) == Ok::<FrameworkInfoView, ErrorKind>(info@)
                && info@.well_formed(),
            Err(e) => archive_report(archive@) == Err::<FrameworkInfoView, ErrorKind>(e.kind),
        },
{
    proof {
        lemma_report_well_formed(archive@);
    }
    match archive.find_first("Info.plist") {
        None => Err(ReportError::new(ErrorKind::ManifestMissing)),
        Some(i) => match decode_plist(archive.entry(i).content.as_slice()) {
            Err(detail) => Err(ReportError::with_detail(ErrorKind::ManifestUndecodable, detail)),
            Ok(manifest) => match manifest {
                PlistValue::Dictionary(_) => report_from_manifest(archive, &manifest),
                _ => Err(ReportError::new(ErrorKind::ManifestNotDictionary)),
            },
        },
    }
}

/// Builds the report of a zip container held in memory.
pub fn collect_framework_info(container: Vec<u8>) -> (r: Result<FrameworkInfo, ReportError>)
    ensures
        match r {
            Ok(info) => container_report(container@) == Ok::<FrameworkInfoView, ErrorKind>(info@)
                && info@.well_formed(),
            Err(e) => container_report(container@) == Err::<FrameworkInfoView, ErrorKind>(e.kind),
        },
{
    match read_archive(container) {
        Ok(archive) => build_report(&archive),
        Err(e) => Err(e),
    }
}

} // verus!
