//! Versions with four numeric components, the ranges that constrain them,
//! and the policy that picks one version out of many.

pub mod bound;
pub mod comparator;
pub mod config;
pub mod diagnostic;
pub mod error;
pub mod grammar;
pub mod identifier;
pub mod key;
pub mod ordering;
pub mod package_spec;
pub mod pick;
pub mod range;
pub mod range_text;
pub mod registry;
pub mod snippet;
pub mod text;
pub mod version;
pub mod version_text;

pub use bound::{Bound, Predicate};
pub use comparator::ComparatorSet;
pub use config::{ConfigSource, TurronConfigOptions};
pub use diagnostic::{Diagnostic, DiagnosticError, DiagnosticMetadata, GetMetadata, IntoDiagnostic};
pub use error::{Component, SemverError, SemverErrorKind};
pub use identifier::Identifier;
pub use key::{IdentifierKey, VersionKey};
pub use package_spec::{PackageSpec, PackageSpecError, SpecErrorKind};
pub use pick::{pick_version, VersionPicker};
pub use range::Range;
pub use registry::{
    Authors, CatalogEntry, Dependency, DependencyGroup, DeprecationReason, IndexResource,
    NuGetEndpoints, NuSpecContentFiles, NuSpecFile, NuSpecFrameworkAssembly, NuSpecPackageType,
    NuSpecReference, NuSpecReferenceOrGroup, PackageDeprecation, RegistrationIndex,
    RegistrationLeaf, RegistrationPage, SearchQuery, SearchResponse, SearchResult, Severity, Tags,
    Vulnerability,
};
pub use snippet::{window, window_at, Window};
pub use version::Version;
