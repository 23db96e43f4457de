//! The records that a package registry hands out about packages.

use vstd::prelude::*;
use vstd::string::StringExecFns;
use vstd::utf8::encode_utf8;
use crate::identifier::{bytes_order, bytes_sign};
use crate::range::Range;
use crate::version::{version_eq, version_le, Version};

verus! {

/// What to search a registry for.
#[derive(Debug)]
pub struct SearchQuery {
    pub query: Option<String>,
    pub skip: Option<usize>,
    pub take: Option<usize>,
    pub prerelease: Option<bool>,
    pub package_type: Option<String>,
}

impl SearchQuery {
    /// The query for the given words, with nothing else asked for.
    pub fn from_query(query: &str) -> (search: SearchQuery)
        ensures
            search.query matches Some(words) && words@ == query@,
            search.skip is None,
            search.take is None,
            search.prerelease is None,
            search.package_type is None,
    {
        SearchQuery {
            query: Some(String::from_str(query)),
            skip: None,
            take: None,
            prerelease: None,
            package_type: None,
        }
    }
}

/// The answer to a search.
#[derive(Debug)]
pub struct SearchResponse {
    pub total_hits: usize,
    pub data: Vec<SearchResult>,
}

/// One package found by a search.
#[derive(Debug)]
pub struct SearchResult {
    pub id: String,
    pub version: String,
    pub description: Option<String>,
}

/// The authors of a package: one name, or several.
#[derive(Debug)]
pub enum Authors {
    One(String),
    Many(Vec<String>),
}

/// The tags of a package: one text, or several.
#[derive(Debug)]
pub enum Tags {
    One(String),
    Many(Vec<String>),
}

/// The dependencies of a package for one target framework.
#[derive(Debug)]
pub struct DependencyGroup {
    pub target_framework: Option<String>,
    pub dependencies: Option<Vec<Dependency>>,
}

/// A package that another package depends on, and the versions of it
/// that will do.
#[derive(Debug)]
pub struct Dependency {
    pub id: String,
    pub range: Option<Range>,
}

impl Dependency {
    /// Three-way comparison of two dependencies by the bytes of their
    /// ids: -1 where `self` comes first, 0 where the ids are the same, 1
    /// where `other` comes first.
    pub fn sign(&self, other: &Dependency) -> (sign: i8)
        ensures
            sign == bytes_order(encode_utf8(self.id@), encode_utf8(other.id@)),
    {
        bytes_sign(self.id.as_str().as_bytes(), other.id.as_str().as_bytes())
    }
}

/// Why and with what message a package is deprecated.
#[derive(Debug)]
pub struct PackageDeprecation {
    pub reasons: Vec<DeprecationReason>,
    pub message: Option<String>,
}

/// A known vulnerability of a package.
#[derive(Debug)]
pub struct Vulnerability {
    pub advisory_url: String,
    pub severity: Severity,
}

/// How severe a vulnerability is.
#[derive(Clone, Copy, Debug, PartialEq, Eq, Structural)]
pub enum Severity {
    Low,
    Moderate,
    High,
    Critical,
}

/// Why a package is deprecated.
#[derive(Clone, Copy, Debug, PartialEq, Eq, Structural)]
pub enum DeprecationReason {
    Legacy,
    CriticalBugs,
    Other,
    Unknown,
}

/// A file that a package specification names.
#[derive(Debug)]
pub struct NuSpecFile {
    pub src: String,
    pub target: String,
    pub exclude: String,
}

/// A framework assembly that a package refers to.
#[derive(Debug)]
pub struct NuSpecFrameworkAssembly {
    pub assembly_name: Option<String>,
    pub target_framework: Option<String>,
}

/// The kind of a package.
#[derive(Clone, Copy, Debug, PartialEq, Eq, Structural)]
pub enum NuSpecPackageType {
    Dependency,
    DotnetTool,
    Template,
    Unknown,
}

/// A reference of a package, or the references for one target framework.
#[derive(Debug)]
pub enum NuSpecReferenceOrGroup {
    Group { target_framework: String, references: Vec<NuSpecReference> },
    Reference(NuSpecReference),
}

/// A file that a package refers to.
#[derive(Debug)]
pub struct NuSpecReference {
    pub file: String,
}

/// Content files of a package and what to do with them.
#[derive(Debug)]
pub struct NuSpecContentFiles {
    pub included: String,
    pub exclude: Option<String>,
    pub build_action: Option<String>,
    pub copy_to_output: Option<bool>,
    pub flatten: Option<bool>,
}

/// One service that a registry offers: its address and its type.
#[derive(Debug)]
pub struct IndexResource {
    pub id: String,
    pub restype: String,
    pub comment: Option<String>,
}

/// The addresses of the services of a registry, as far as it offers them.
#[derive(Debug)]
pub struct NuGetEndpoints {
    pub package_content: Option<String>,
    pub publish: Option<String>,
    pub registration: Option<String>,
    pub search: Option<String>,
    pub catalog: Option<String>,
    pub signatures: Option<String>,
    pub autocomplete: Option<String>,
    pub symbol_publish: Option<String>,
}

/// The index of the first of `resources` that has the type `restype`.
pub open spec fn first_of_type(resources: Seq<IndexResource>, restype: Seq<char>) -> Option<int> {
    if exists|i: int| 0 <= i < resources.len() && (#[trigger] resources[i]).restype@ == restype {
        Some(
            choose|i: int|
                0 <= i < resources.len() && (#[trigger] resources[i]).restype@ == restype
                    && forall|j: int| 0 <= j < i ==> (#[trigger] resources[j]).restype@ != restype,
        )
    } else {
        None
    }
}

/// The address of the first of `resources` that has the type `restype`.
pub open spec fn endpoint_of(resources: Seq<IndexResource>, restype: Seq<char>) -> Option<
    Seq<char>,
> {
    match first_of_type(resources, restype) {
        Some(i) => Some(resources[i].id@),
        None => None,
    }
}

/// The text of an address that may be missing.
pub open spec fn address_view(address: Option<String>) -> Option<Seq<char>> {
    match address {
        Some(text) => Some(text@),
        None => None,
    }
}

impl NuGetEndpoints {
    /// The address of the first of `resources` that has the type
    /// `restype`, if there is one.
    pub fn find_endpoint(resources: &Vec<IndexResource>, restype: &str) -> (address: Option<
        String,
    >)
        ensures
            address_view(address) == endpoint_of(resources@, restype@),
    {
        let wanted = String::from_str(restype);
        let mut i: usize = 0;
        while i < resources.len()
            invariant
                i <= resources.len(),
                wanted@ == restype@,
                forall|j: int| 0 <= j < i ==> (#[trigger] resources@[j]).restype@ != restype@,
            decreases resources.len() - i,
        {
            if resources[i].restype == wanted {
                proof {
                    let k = first_of_type(resources@, restype@).unwrap();
                    assert(resources@[i as int].restype@ == restype@);
                    assert(k == i);
                }
                return Some(resources[i].id.clone());
            }
            i = i + 1;
        }
        None
    }

    /// The addresses of the services that `resources` offer, each looked
    /// up by the type that names the service.
    pub fn from_resources(resources: Vec<IndexResource>) -> (endpoints: NuGetEndpoints)
        ensures
            address_view(endpoints.package_content) == endpoint_of(
                resources@,
                "PackageBaseAddress/3.0.0"@,
            ),
            address_view(endpoints.publish) == endpoint_of(resources@, "PackagePublish/2.0.0"@),
            address_view(endpoints.registration) == endpoint_of(
                resources@,
                "RegistrationsBaseUrl/3.6.0"@,
            ),
            address_view(endpoints.search) == endpoint_of(
                resources@,
                "SearchQueryService/3.5.0"@,
            ),
            address_view(endpoints.catalog) == endpoint_of(resources@, "Catalog/3.0.0"@),
            address_view(endpoints.signatures) == endpoint_of(
                resources@,
                "RepositorySignatures/5.0.0"@,
            ),
            address_view(endpoints.autocomplete) == endpoint_of(
                resources@,
                "SearchAutocompleteService/3.5.0"@,
            ),
            address_view(endpoints.symbol_publish) == endpoint_of(
                resources@,
                "SymbolPackagePublish/4.9.0"@,
            ),
    {
        NuGetEndpoints {
            package_content: Self::find_endpoint(&resources, "PackageBaseAddress/3.0.0"),
            publish: Self::find_endpoint(&resources, "PackagePublish/2.0.0"),
            registration: Self::find_endpoint(&resources, "RegistrationsBaseUrl/3.6.0"),
            search: Self::find_endpoint(&resources, "SearchQueryService/3.5.0"),
            catalog: Self::find_endpoint(&resources, "Catalog/3.0.0"),
            signatures: Self::find_endpoint(&resources, "RepositorySignatures/5.0.0"),
            autocomplete: Self::find_endpoint(&resources, "SearchAutocompleteService/3.5.0"),
            symbol_publish: Self::find_endpoint(&resources, "SymbolPackagePublish/4.9.0"),
        }
    }
}

/// The pages on which a registry lists the versions of a package.
#[derive(Debug)]
pub struct RegistrationIndex {
    /// The number of pages.
    pub count: usize,
    pub items: Vec<RegistrationPage>,
}

/// One page of versions, from `lower` to `upper`. A registry may leave
/// the leaves out, to be fetched from `id`.
#[derive(Debug)]
pub struct RegistrationPage {
    pub id: String,
    pub parent: Option<String>,
    /// The number of leaves.
    pub count: usize,
    pub items: Option<Vec<RegistrationLeaf>>,
    pub lower: Version,
    pub upper: Version,
}

/// One version of a package and where to get it.
#[derive(Debug)]
pub struct RegistrationLeaf {
    pub catalog_entry: CatalogEntry,
    pub package_content: String,
}

/// What a registry says about one version of a package.
#[derive(Debug)]
pub struct CatalogEntry {
    pub id: String,
    pub version: Version,
    pub authors: Option<Authors>,
    pub dependency_groups: Option<Vec<DependencyGroup>>,
    pub deprecation: Option<PackageDeprecation>,
    pub description: Option<String>,
    pub icon_url: Option<String>,
    pub license_url: Option<String>,
    pub license_expression: Option<String>,
    pub listed: Option<bool>,
    pub project_url: Option<String>,
    pub published: Option<String>,
    pub require_license_acceptance: Option<bool>,
    pub tags: Option<Tags>,
    pub title: Option<String>,
    pub summary: Option<String>,
    pub vulnerabilities: Option<Vec<Vulnerability>>,
}

impl RegistrationPage {
    /// Whether `version` lies between the lowest and the highest version
    /// of the page, both included.
    pub fn covers(&self, version: &Version) -> (yes: bool)
        ensures
            yes == (version_le(self.lower@, version@) && version_le(version@, self.upper@)),
    {
        self.lower.sign(version) <= 0 && version.sign(&self.upper) <= 0
    }

    /// The index of the first leaf of the page whose version equals
    /// `version`. There is none where the page has no leaves with it.
    pub fn find(&self, version: &Version) -> (found: Option<usize>)
        ensures
            match found {
                Some(i) => i < leaves_of(*self).len() && version_eq(
                    version@,
                    leaves_of(*self)[i as int].catalog_entry.version@,
                ) && forall|j: int|
                    0 <= j < i ==> !version_eq(
                        version@,
                        (#[trigger] leaves_of(*self)[j]).catalog_entry.version@,
                    ),
                None => forall|j: int|
                    0 <= j < leaves_of(*self).len() ==> !version_eq(
                        version@,
                        (#[trigger] leaves_of(*self)[j]).catalog_entry.version@,
                    ),
            },
    {
        match &self.items {
            None => None,
            Some(leaves) => {
                assert(leaves_of(*self) == leaves@);
                let mut i: usize = 0;
                while i < leaves.len()
                    invariant
                        i <= leaves.len(),
                        leaves_of(*self) == leaves@,
                        forall|j: int|
                            0 <= j < i ==> !version_eq(
                                version@,
                                (#[trigger] leaves@[j]).catalog_entry.version@,
                            ),
                    decreases leaves.len() - i,
                {
                    if version.sign(&leaves[i].catalog_entry.version) == 0 {
                        return Some(i);
                    }
                    i = i + 1;
                }
                None
            },
        }
    }
}

/// The leaves that a page holds: none where it leaves them out.
pub open spec fn leaves_of(page: RegistrationPage) -> Seq<RegistrationLeaf> {
    match page.items {
        Some(leaves) => leaves@,
        None => Seq::empty(),
    }
}

impl RegistrationIndex {
    /// The index of the first page, at `from` or after it, that covers
    /// `version`.
    pub fn next_page(&self, version: &Version, from: usize) -> (found: Option<usize>)
        ensures
            match found {
                Some(i) => from <= i < self.items@.len() && page_covers(
                    self.items@[i as int],
                    *version,
                ) && forall|j: int|
                    from <= j < i ==> !page_covers(#[trigger] self.items@[j], *version),
                None => forall|j: int|
                    from <= j < self.items@.len() ==> !page_covers(
                        #[trigger] self.items@[j],
                        *version,
                    ),
            },
    {
        let mut i: usize = from;
        while i < self.items.len()
            invariant
                from <= i,
                forall|j: int|
                    from <= j < i && j < self.items@.len() ==> !page_covers(
                        #[trigger] self.items@[j],
                        *version,
                    ),
            decreases self.items.len() - i,
        {
            if self.items[i].covers(version) {
                return Some(i);
            }
            i = i + 1;
        }
        None
    }
}

/// Whether `version` lies between the lowest and the highest version of
/// `page`, both included.
pub open spec fn page_covers(page: RegistrationPage, version: Version) -> bool {
    version_le(page.lower@, version@) && version_le(version@, page.upper@)
}

} // verus!
