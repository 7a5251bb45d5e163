use vstd::prelude::*;

verus! {

/// One declared category of collected data in a privacy manifest.
#[derive(Debug, Clone, PartialEq, Eq)]
pub struct CollectedDataType {
    pub data_type: String,
    pub linked_to_user: bool,
    pub tracking: bool,
    pub purposes: Vec<String>,
}

/// One declared use of a sensitive API, with the reasons given for it.
#[derive(Debug, Clone, PartialEq, Eq)]
pub struct AccessedAPIType {
    pub api: String,
    pub reasons: Vec<String>,
}

/// What a library's privacy manifest discloses. `present` is false, and every
/// other field empty, when the library ships no manifest.
#[derive(Debug, Clone, PartialEq, Eq)]
pub struct PrivacyInfo {
    pub present: bool,
    pub tracking: Option<bool>,
    pub tracking_domains: Option<Vec<String>>,
    pub collected_data_types: Option<Vec<CollectedDataType>>,
    pub accessed_api_types: Option<Vec<AccessedAPIType>>,
}

/// One platform and architecture variant of the framework.
#[derive(Debug, Clone, PartialEq, Eq)]
pub struct LibraryInfo {
    pub binary_path: String,
    pub library_identifier: String,
    pub library_path: String,
    pub marketing_version: Option<String>,
    pub mergeable_metadata: Option<bool>,
    pub supported_architectures: Vec<String>,
    pub supported_platform: String,
    pub supported_platform_variant: Option<String>,
    pub minimum_os_version: Option<String>,
    pub size: Option<String>,
    pub dependencies: Vec<String>,
    pub privacy_info: Option<PrivacyInfo>,
}

/// The report on one framework bundle.
#[derive(Debug, PartialEq, Eq)]
pub struct FrameworkInfo {
    pub framework_name: Option<String>,
    pub is_mergeable: bool,
    pub swift_compiler_info: Option<String>,
    pub swift_compiler_version: Option<String>,
    pub swift_version: Option<String>,
    pub library_evolution_enabled: bool,
    pub built_for_distribution: bool,
    pub available_libraries: Option<Vec<LibraryInfo>>,
}

/// Mathematical value of a [`CollectedDataType`].
pub struct CollectedDataTypeView {
    pub data_type: Seq<char>,
    pub linked_to_user: bool,
    pub tracking: bool,
    pub purposes: Seq<Seq<char>>,
}

/// Mathematical value of an [`AccessedAPIType`].
pub struct AccessedAPITypeView {
    pub api: Seq<char>,
    pub reasons: Seq<Seq<char>>,
}

/// Mathematical value of a [`PrivacyInfo`].
pub struct PrivacyInfoView {
    pub present: bool,
    pub tracking: Option<bool>,
    pub tracking_domains: Option<Seq<Seq<char>>>,
    pub collected_data_types: Option<Seq<CollectedDataTypeView>>,
    pub accessed_api_types: Option<Seq<AccessedAPITypeView>>,
}

/// Mathematical value of a [`LibraryInfo`].
pub struct LibraryInfoView {
    pub binary_path: Seq<char>,
    pub library_identifier: Seq<char>,
    pub library_path: Seq<char>,
    pub marketing_version: Option<Seq<char>>,
    pub mergeable_metadata: Option<bool>,
    pub supported_architectures: Seq<Seq<char>>,
    pub supported_platform: Seq<char>,
    pub supported_platform_variant: Option<Seq<char>>,
    pub minimum_os_version: Option<Seq<char>>,
    pub size: Option<Seq<char>>,
    pub dependencies: Seq<Seq<char>>,
    pub privacy_info: Option<PrivacyInfoView>,
}

/// Mathematical value of a [`FrameworkInfo`].
pub struct FrameworkInfoView {
    pub framework_name: Option<Seq<char>>,
    pub is_mergeable: bool,
    pub swift_compiler_info: Option<Seq<char>>,
    pub swift_compiler_version: Option<Seq<char>>,
    pub swift_version: Option<Seq<char>>,
    pub library_evolution_enabled: bool,
    pub built_for_distribution: bool,
    pub available_libraries: Option<Seq<LibraryInfoView>>,
}

impl DeepView for CollectedDataType {
    type V = CollectedDataTypeView;

    open spec fn deep_view(&self) -> CollectedDataTypeView {
        CollectedDataTypeView {
            data_type: self.data_type@,
            linked_to_user: self.linked_to_user,
            tracking: self.tracking,
            purposes: self.purposes.deep_view(),
        }
    }
}

impl View for CollectedDataType {
    type V = CollectedDataTypeView;

    open spec fn view(&self) -> CollectedDataTypeView {
        self.deep_view()
    }
}

impl DeepView for AccessedAPIType {
    type V = AccessedAPITypeView;

    open spec fn deep_view(&self) -> AccessedAPITypeView {
        AccessedAPITypeView { api: self.api@, reasons: self.reasons.deep_view() }
    }
}

impl View for AccessedAPIType {
    type V = AccessedAPITypeView;

    open spec fn view(&self) -> AccessedAPITypeView {
        self.deep_view()
    }
}

impl DeepView for PrivacyInfo {
    type V = PrivacyInfoView;

    open spec fn deep_view(&self) -> PrivacyInfoView {
        PrivacyInfoView {
            present: self.present,
            tracking: self.tracking,
            tracking_domains: self.tracking_domains.deep_view(),
            collected_data_types: self.collected_data_types.deep_view(),
            accessed_api_types: self.accessed_api_types.deep_view(),
        }
    }
}

impl View for PrivacyInfo {
    type V = PrivacyInfoView;

    open spec fn view(&self) -> PrivacyInfoView {
        self.deep_view()
    }
}

impl DeepView for LibraryInfo {
    type V = LibraryInfoView;

    open spec fn deep_view(&self) -> LibraryInfoView {
        LibraryInfoView {
            binary_path: self.binary_path@,
            library_identifier: self.library_identifier@,
            library_path: self.library_path@,
            marketing_version: self.marketing_version.deep_view(),
            mergeable_metadata: self.mergeable_metadata,
            supported_architectures: self.supported_architectures.deep_view(),
            supported_platform: self.supported_platform@,
            supported_platform_variant: self.supported_platform_variant.deep_view(),
            minimum_os_version: self.minimum_os_version.deep_view(),
            size: self.size.deep_view(),
            dependencies: self.dependencies.deep_view(),
            privacy_info: self.privacy_info.deep_view(),
        }
    }
}

impl View for LibraryInfo {
    type V = LibraryInfoView;

    open spec fn view(&self) -> LibraryInfoView {
        self.deep_view()
    }
}

impl DeepView for FrameworkInfo {
    type V = FrameworkInfoView;

    open spec fn deep_view(&self) -> FrameworkInfoView {
        FrameworkInfoView {
            framework_name: self.framework_name.deep_view(),
            is_mergeable: self.is_mergeable,
            swift_compiler_info: self.swift_compiler_info.deep_view(),
            swift_compiler_version: self.swift_compiler_version.deep_view(),
            swift_version: self.swift_version.deep_view(),
            library_evolution_enabled: self.library_evolution_enabled,
            built_for_distribution: self.built_for_distribution,
            available_libraries: self.available_libraries.deep_view(),
        }
    }
}

impl View for FrameworkInfo {
    type V = FrameworkInfoView;

    open spec fn view(&self) -> FrameworkInfoView {
        self.deep_view()
    }
}

impl PrivacyInfoView {
    /// The value that stands for "no privacy manifest at this scope".
    pub open spec fn absent() -> PrivacyInfoView {
        PrivacyInfoView {
            present: false,
            tracking: None,
            tracking_domains: None,
            collected_data_types: None,
            accessed_api_types: None,
        }
    }

    /// A disclosure that is not present discloses nothing.
    pub open spec fn well_formed(self) -> bool {
        self.present || self == PrivacyInfoView::absent()
    }
}

impl LibraryInfoView {
    /// A library record names at least one architecture, names no
    /// dependency twice, and carries a well-formed privacy disclosure.
    pub open spec fn well_formed(self) -> bool {
        &&& self.supported_architectures.len() > 0
        &&& self.dependencies.no_duplicates()
        &&& match self.privacy_info {
            Some(privacy) => privacy.well_formed(),
            None => true,
        }
    }
}

impl FrameworkInfoView {
    /// A report is well formed when each of its library records is.
    pub open spec fn well_formed(self) -> bool {
        match self.available_libraries {
            Some(libraries) => forall|i: int|
                0 <= i < libraries.len() ==> (#[trigger] libraries[i]).well_formed(),
            None => true,
        }
    }
}

} // verus!
