use vstd::prelude::*;
use vstd::string::StringExecFns;

verus! {

/// Why no report could be made.
#[derive(Debug, Clone, Copy, PartialEq, Eq, Structural)]
pub enum ErrorKind {
    /// The container is no readable archive, or one of its entries cannot be
    /// read.
    ArchiveUnreadable,
    /// No entry's path ends in `Info.plist`.
    ManifestMissing,
    /// The root manifest is no property list.
    ManifestUndecodable,
    /// The root manifest decodes to something other than a dictionary.
    ManifestNotDictionary,
    /// A library's privacy manifest is no property list.
    PrivacyManifestUndecodable,
    /// A library's privacy manifest decodes to something other than a
    /// dictionary.
    PrivacyManifestNotDictionary,
}

/// A failure of the whole extraction: its kind, and what the decoder that
/// failed said about it (empty where no decoder was involved).
#[derive(Debug, Clone, PartialEq, Eq)]
pub struct ReportError {
    pub kind: ErrorKind,
    pub detail: String,
}

/// The sentence that describes a failure of the given kind.
pub open spec fn headline(kind: ErrorKind) -> Seq<char> {
    match kind {
        ErrorKind::ArchiveUnreadable => "Failed to read the zip file"@,
        ErrorKind::ManifestMissing => "Info.plist not found in the archive"@,
        ErrorKind::ManifestUndecodable => "Failed to read Info.plist"@,
        ErrorKind::ManifestNotDictionary => "Info.plist is not a dictionary"@,
        ErrorKind::PrivacyManifestUndecodable => "Failed to parse PrivacyInfo.xcprivacy"@,
        ErrorKind::PrivacyManifestNotDictionary => "PrivacyInfo.xcprivacy is not a dictionary"@,
    }
}

/// The full description: the headline, followed by a colon and the detail
/// where there is one.
pub open spec fn message_text(kind: ErrorKind, detail: Seq<char>) -> Seq<char> {
    if detail.len() == 0 {
        headline(kind)
    } else {
        headline(kind) + ": "@ + detail
    }
}

impl ReportError {
    /// A failure without detail.
    pub fn new(kind: ErrorKind) -> (e: ReportError)
        ensures
            e.kind == kind,
            e.detail@.len() == 0,
    {
        ReportError { kind, detail: String::new() }
    }

    /// A failure with the decoder's own words.
    pub fn with_detail(kind: ErrorKind, detail: String) -> (e: ReportError)
        ensures
            e.kind == kind,
            e.detail@ == detail@,
    {
        ReportError { kind, detail }
    }

    /// Describes the failure in one line.
    pub fn message(&self) -> (text: String)
        ensures
            text@ == message_text(self.kind, self.detail@),
    {
        let head = match self.kind {
            ErrorKind::ArchiveUnreadable => "Failed to read the zip file",
            ErrorKind::ManifestMissing => "Info.plist not found in the archive",
            ErrorKind::ManifestUndecodable => "Failed to read Info.plist",
            ErrorKind::ManifestNotDictionary => "Info.plist is not a dictionary",
            ErrorKind::PrivacyManifestUndecodable => "Failed to parse PrivacyInfo.xcprivacy",
            ErrorKind::PrivacyManifestNotDictionary => "PrivacyInfo.xcprivacy is not a dictionary",
        };
        let mut text = String::from_str(head);
        if !self.detail.as_str().is_empty() {
            text.append(": ");
            text.append(self.detail.as_str());
        }
        text
    }
}

} // verus!
