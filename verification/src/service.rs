//! The photos service of an account: its primary library, and those that are found beside it.
use crate::album::{copy_params, request_url};
use crate::cloudkit::QueryResponse;
use crate::error::ICloudError;
use crate::fetch::{
    find_place, item_pairs, law_what_is_put_under_a_name_stands_there, lemma_no_place, lemma_place,
    lemma_put_item, put, put_item, value,
};
use crate::json::{
    law_the_first_member_of_a_name_is_read, member, text_of, Json, JsonView,
};
use crate::library::{
    fault_text, opened, LibraryFault, LibraryView, PhotoLibrary, PRIMARY_ZONE_NAME,
};
use crate::queries::{form_encoded, param_pairs, param_text, sorted_pairs, ParamValue};
use crate::session::ApiError;
use crate::text::{occurs_at, starts_with, str_eq};
use vstd::prelude::*;

verus! {

/// What the name of a share link's zone begins with. Such a zone is a bundle of shared assets
/// with records of its own kind, not a library.
pub const SHARE_LINK_PREFIX: &'static str = "CMM-";

/// Which of the account's databases libraries are looked for in.
#[derive(Debug, Clone, Copy, PartialEq, Eq, Structural)]
pub enum LibraryKind {
    Private,
    Shared,
}

/// The kind as it stands in a URL.
pub open spec fn kind_text(kind: LibraryKind) -> Seq<char> {
    match kind {
        LibraryKind::Private => "private"@,
        LibraryKind::Shared => "shared"@,
    }
}

impl LibraryKind {
    /// The kind as it stands in a URL.
    pub fn as_str(self) -> (text: &'static str)
        ensures
            text@ == kind_text(self),
    {
        match self {
            LibraryKind::Private => "private",
            LibraryKind::Shared => "shared",
        }
    }
}

/// The endpoint of a kind of library.
pub open spec fn endpoint_text(service_root: Seq<char>, library_type: Seq<char>) -> Seq<char> {
    service_root + "/database/1/com.apple.photos.cloud/production/"@ + library_type
}

/// The endpoint of a kind of library.
pub fn build_service_endpoint(service_root: &str, library_type: &str) -> (endpoint: String)
    ensures
        endpoint@ == endpoint_text(service_root@, library_type@),
{
    let mut endpoint = service_root.to_owned();
    endpoint.append("/database/1/com.apple.photos.cloud/production/");
    endpoint.append(library_type);
    endpoint
}

/// The parameters with those that every request carries.
pub open spec fn with_service_params(params: Seq<(Seq<char>, Seq<char>)>) -> Seq<
    (Seq<char>, Seq<char>),
> {
    put(put(params, "remapEnums"@, "true"@), "getCurrentSyncToken"@, "true"@)
}

/// Set a parameter to true.
fn set_flag(params: &mut Vec<(String, ParamValue)>, name: &str)
    ensures
        param_pairs(final(params)@) == put(param_pairs(old(params)@), name@, "true"@),
{
    let ghost before = params@;
    put_item(params, name.to_owned(), ParamValue::Flag(true));
    proof {
        let text = |p: ParamValue| param_text(p);
        assert(param_text(ParamValue::Flag(true)) == "true"@);
        lemma_put_item(before, params@, name@, ParamValue::Flag(true), text);
        assert(param_pairs(before) =~= item_pairs(before, text));
        assert(param_pairs(params@) =~= item_pairs(params@, text));
    }
}

/// The parameters with those that every request carries.
pub fn service_params(params: Vec<(String, ParamValue)>) -> (all: Vec<(String, ParamValue)>)
    ensures
        param_pairs(all@) == with_service_params(param_pairs(params@)),
{
    let mut all = params;
    set_flag(&mut all, "remapEnums");
    set_flag(&mut all, "getCurrentSyncToken");
    all
}

/// The identifier of the primary zone.
pub open spec fn primary_zone() -> JsonView {
    JsonView::Object(seq![("zoneName"@, JsonView::Text(PRIMARY_ZONE_NAME@))])
}

/// The identifier of the primary zone.
pub fn primary_zone_id() -> (zone_id: Json)
    ensures
        zone_id@ == primary_zone(),
{
    let zone_id = Json::empty_object().with("zoneName", Json::text(PRIMARY_ZONE_NAME));
    assert(Seq::empty().push(("zoneName"@, JsonView::Text(PRIMARY_ZONE_NAME@))) =~= seq![
        ("zoneName"@, JsonView::Text(PRIMARY_ZONE_NAME@)),
    ]);
    zone_id
}

// Zones.

/// A zone, as the list of zones names it.
#[derive(Debug)]
pub struct Zone {
    pub zone_name: String,
    pub zone_id: Json,
    pub deleted: Option<bool>,
}

/// A [`Zone`] with its texts taken by their characters.
#[verifier::ext_equal]
pub struct ZoneView {
    pub zone_name: Seq<char>,
    pub zone_id: JsonView,
    pub deleted: Option<bool>,
}

impl View for Zone {
    type V = ZoneView;

    open spec fn view(&self) -> ZoneView {
        ZoneView {
            zone_name: self.zone_name@,
            zone_id: self.zone_id@,
            deleted: self.deleted,
        }
    }
}

/// The views of zones.
pub open spec fn zone_views(zones: Seq<Zone>) -> Seq<ZoneView> {
    zones.map_values(|z: Zone| z@)
}

/// Whether a zone is that of a library: it is not deleted, and no share link's.
pub open spec fn is_library_zone(zone: ZoneView) -> bool {
    zone.deleted != Some(true) && !SHARE_LINK_PREFIX@.is_prefix_of(zone.zone_name)
}

/// The zones that are those of libraries.
pub fn library_zones(zones: Vec<Zone>) -> (kept: Vec<Zone>)
    ensures
        zone_views(kept@) == zone_views(zones@).filter(|z: ZoneView| is_library_zone(z)),
{
    let mut kept: Vec<Zone> = Vec::new();
    let ghost views = zone_views(zones@);
    let ghost keeps = |z: ZoneView| is_library_zone(z);
    proof {
        reveal(Seq::filter);
        assert(views.take(0).filter(keeps) =~= Seq::empty());
    }
    for zone in it: zones.into_iter()
        invariant
            views == zone_views(it.seq()),
            keeps == (|z: ZoneView| is_library_zone(z)),
            zone_views(kept@) =~= views.take(it.index() as int).filter(keeps),
    {
        let ghost i = it.index() as int;
        let ghost before = zone_views(kept@);
        let ghost view = zone@;
        proof {
            reveal(Seq::filter);
            assert(views.take(i + 1).drop_last() =~= views.take(i));
            assert(views.take(i + 1).last() == view);
        }
        let gone = zone.deleted == Some(true);
        if !gone && !starts_with(&zone.zone_name, SHARE_LINK_PREFIX) {
            kept.push(zone);
            assert(zone_views(kept@) =~= before.push(view));
        }
    }
    assert(views.take(views.len() as int) =~= views);
    kept
}

// The service.

/// The photos service of an account, without the session that it is read through.
pub struct PhotosService {
    service_root: String,
    params: Vec<(String, ParamValue)>,
    primary_library: PhotoLibrary,
    private_libraries: Option<Vec<(String, PhotoLibrary)>>,
    shared_libraries: Option<Vec<(String, PhotoLibrary)>>,
}

/// A [`PhotosService`] with its libraries taken by their views.
#[verifier::ext_equal]
pub struct ServiceView {
    pub service_root: Seq<char>,
    pub params: Seq<(Seq<char>, Seq<char>)>,
    pub primary_library: LibraryView,
    pub private_libraries: Option<Seq<(Seq<char>, LibraryView)>>,
    pub shared_libraries: Option<Seq<(Seq<char>, LibraryView)>>,
}

/// The views of named libraries.
pub open spec fn library_views(libraries: Seq<(String, PhotoLibrary)>) -> Seq<
    (Seq<char>, LibraryView),
> {
    libraries.map_values(|l: (String, PhotoLibrary)| (l.0@, l.1@))
}

/// The views of named libraries that may not be known.
pub open spec fn known_views(libraries: Option<Vec<(String, PhotoLibrary)>>) -> Option<
    Seq<(Seq<char>, LibraryView)>,
> {
    match libraries {
        Some(libraries) => Some(library_views(libraries@)),
        None => None,
    }
}

impl View for PhotosService {
    type V = ServiceView;

    closed spec fn view(&self) -> ServiceView {
        ServiceView {
            service_root: self.service_root@,
            params: param_pairs(self.params@),
            primary_library: self.primary_library@,
            private_libraries: known_views(self.private_libraries),
            shared_libraries: known_views(self.shared_libraries),
        }
    }
}

/// The libraries of a kind, where they are known.
pub open spec fn libraries_of(service: ServiceView, kind: LibraryKind) -> Option<
    Seq<(Seq<char>, LibraryView)>,
> {
    match kind {
        LibraryKind::Private => service.private_libraries,
        LibraryKind::Shared => service.shared_libraries,
    }
}

/// The service that the answer to the primary library's indexing query opens.
pub open spec fn opened_service(
    service_root: Seq<char>,
    params: Seq<(Seq<char>, Seq<char>)>,
    answer: Result<QueryResponse, ApiError>,
) -> Result<ServiceView, LibraryFault> {
    let params = with_service_params(params);
    match opened(
        (LibraryView {
            service_endpoint: endpoint_text(service_root, "private"@),
            params,
            zone_id: primary_zone(),
            library_type: "private"@,
        }),
        answer,
    ) {
        Ok(library) => Ok(
            ServiceView {
                service_root,
                params,
                primary_library: library,
                private_libraries: None,
                shared_libraries: None,
            },
        ),
        Err(fault) => Err(fault),
    }
}

/// What stands for an opened service.
pub open spec fn opened_service_view(service: Result<PhotosService, ICloudError>) -> Result<
    ServiceView,
    LibraryFault,
> {
    match service {
        Ok(service) => Ok(service@),
        Err(error) => Err(crate::library::fault_of(error)),
    }
}

/// The library of a zone.
pub open spec fn zone_library(
    service: ServiceView,
    kind: LibraryKind,
    zone: ZoneView,
) -> LibraryView {
    LibraryView {
        service_endpoint: endpoint_text(service.service_root, kind_text(kind)),
        params: service.params,
        zone_id: zone.zone_id,
        library_type: kind_text(kind),
    }
}

impl PhotosService {
    /// Open the service with the answer to the primary library's indexing query.
    pub fn new(
        service_root: String,
        params: Vec<(String, ParamValue)>,
        answer: &Result<QueryResponse, ApiError>,
    ) -> (service: Result<PhotosService, ICloudError>)
        ensures
            opened_service_view(service) == opened_service(
                service_root@,
                param_pairs(params@),
                *answer,
            ),
    {
        let params = service_params(params);
        let endpoint = build_service_endpoint(&service_root, "private");
        match PhotoLibrary::new(
            endpoint,
            copy_params(&params),
            primary_zone_id(),
            "private".to_owned(),
            answer,
        ) {
            Ok(primary_library) => Ok(
                PhotosService {
                    service_root,
                    params,
                    primary_library,
                    private_libraries: None,
                    shared_libraries: None,
                },
            ),
            Err(error) => Err(error),
        }
    }

    /// The service with libraries that are known beforehand.
    pub fn with_libraries(
        service_root: String,
        params: Vec<(String, ParamValue)>,
        primary_library: PhotoLibrary,
        private_libraries: Option<Vec<(String, PhotoLibrary)>>,
        shared_libraries: Option<Vec<(String, PhotoLibrary)>>,
    ) -> (service: PhotosService)
        ensures
            service@ == (ServiceView {
                service_root: service_root@,
                params: param_pairs(params@),
                primary_library: primary_library@,
                private_libraries: known_views(private_libraries),
                shared_libraries: known_views(shared_libraries),
            }),
    {
        PhotosService { service_root, params, primary_library, private_libraries, shared_libraries }
    }

    /// The endpoint of a kind of library.
    pub fn get_service_endpoint(&self, library_type: &str) -> (endpoint: String)
        ensures
            endpoint@ == endpoint_text(self@.service_root, library_type@),
    {
        build_service_endpoint(&self.service_root, library_type)
    }

    /// The URL that lists the zones of a kind.
    pub fn zones_url(&self, kind: LibraryKind) -> (url: String)
        ensures
            url@ == endpoint_text(self@.service_root, kind_text(kind)) + "/zones/list"@,
    {
        let mut url = self.get_service_endpoint(kind.as_str());
        url.append("/zones/list");
        url
    }

    /// The URL that tells which zones have changed.
    pub fn changes_url(&self) -> (url: String)
        ensures
            url@ == endpoint_text(self@.service_root, "private"@) + "/changes/database"@ + "?"@
                + form_encoded(sorted_pairs(self@.params)),
    {
        request_url(&self.get_service_endpoint("private"), "/changes/database", &self.params)
    }

    /// The URL that libraries of a kind are asked at whether they have been indexed.
    pub fn indexing_url(&self, kind: LibraryKind) -> (url: String)
        ensures
            url@ == endpoint_text(self@.service_root, kind_text(kind)) + "/records/query"@ + "?"@
                + form_encoded(sorted_pairs(self@.params)),
    {
        request_url(&self.get_service_endpoint(kind.as_str()), "/records/query", &self.params)
    }

    /// Open the library of a zone with the answer to its indexing query.
    pub fn open_library(
        &self,
        kind: LibraryKind,
        zone: &Zone,
        answer: &Result<QueryResponse, ApiError>,
    ) -> (library: Result<PhotoLibrary, ICloudError>)
        ensures
            crate::library::opened_view(library) == opened(
                zone_library(self@, kind, zone@),
                *answer,
            ),
    {
        PhotoLibrary::new(
            self.get_service_endpoint(kind.as_str()),
            copy_params(&self.params),
            zone.zone_id.duplicate(),
            kind.as_str().to_owned(),
            answer,
        )
    }

    /// Whether the libraries of a kind are known.
    pub fn knows(&self, kind: LibraryKind) -> (yes: bool)
        ensures
            yes == (libraries_of(self@, kind) is Some),
    {
        match kind {
            LibraryKind::Private => self.private_libraries.is_some(),
            LibraryKind::Shared => self.shared_libraries.is_some(),
        }
    }

    /// Keep the libraries that were found of a kind, so that they are not looked for again.
    pub fn keep(&mut self, kind: LibraryKind, libraries: Vec<(String, PhotoLibrary)>)
        ensures
            final(self)@ == (match kind {
                LibraryKind::Private => ServiceView {
                    private_libraries: Some(library_views(libraries@)),
                    ..old(self)@
                },
                LibraryKind::Shared => ServiceView {
                    shared_libraries: Some(library_views(libraries@)),
                    ..old(self)@
                },
            }),
    {
        match kind {
            LibraryKind::Private => {
                self.private_libraries = Some(libraries);
            },
            LibraryKind::Shared => {
                self.shared_libraries = Some(libraries);
            },
        }
    }
}

// Looking for libraries.

/// The libraries of a kind as they are found, zone by zone.
pub struct LibraryDiscovery {
    kind: LibraryKind,
    zones: Vec<Zone>,
    at: usize,
    libraries: Vec<(String, PhotoLibrary)>,
}

/// A [`LibraryDiscovery`] with its zones and libraries taken by their views.
#[verifier::ext_equal]
pub struct DiscoveryView {
    pub kind: LibraryKind,
    /// The zones whose libraries have been opened.
    pub passed: Seq<ZoneView>,
    /// The zones whose libraries are still to be opened.
    pub ahead: Seq<ZoneView>,
    pub libraries: Seq<(Seq<char>, LibraryView)>,
}

/// What is said of a zone whose library cannot be opened, where the fault has words of kei's.
pub open spec fn zone_fault_text(zone_name: Seq<char>, fault: LibraryFault) -> Option<Seq<char>> {
    match fault_text(fault) {
        Some(text) => Some("Failed to load library zone "@ + zone_name + ": "@ + text),
        None => None,
    }
}

impl View for LibraryDiscovery {
    type V = DiscoveryView;

    closed spec fn view(&self) -> DiscoveryView {
        DiscoveryView {
            kind: self.kind,
            passed: zone_views(self.zones@).take(self.at as int),
            ahead: zone_views(self.zones@).skip(self.at as int),
            libraries: library_views(self.libraries@),
        }
    }
}

/// Put a library under a name, in place of what stood there.
fn put_library(libraries: &mut Vec<(String, PhotoLibrary)>, name: String, library: PhotoLibrary)
    ensures
        library_views(final(libraries)@) == put(library_views(old(libraries)@), name@, library@),
{
    let ghost before = libraries@;
    let ghost (key, item) = (name@, library);
    put_item(libraries, name, library);
    proof {
        let view = |l: PhotoLibrary| l@;
        lemma_put_item(before, libraries@, key, item, view);
        assert(library_views(before) =~= item_pairs(before, view));
        assert(library_views(libraries@) =~= item_pairs(libraries@, view));
    }
}

impl LibraryDiscovery {
    #[verifier::type_invariant]
    spec fn inv(self) -> bool {
        self.at <= self.zones@.len()
    }

    /// Begin with the zones that were listed. Deleted zones and those of share links are
    /// passed over.
    pub fn new(kind: LibraryKind, zones: Vec<Zone>) -> (discovery: Self)
        ensures
            discovery@ == (DiscoveryView {
                kind,
                passed: Seq::empty(),
                ahead: zone_views(zones@).filter(|z: ZoneView| is_library_zone(z)),
                libraries: Seq::empty(),
            }),
    {
        let zones = library_zones(zones);
        let discovery = LibraryDiscovery { kind, zones, at: 0, libraries: Vec::new() };
        proof {
            assert(zone_views(zones@).take(0) =~= Seq::empty());
            assert(zone_views(zones@).skip(0) =~= zone_views(zones@));
            assert(library_views(discovery.libraries@) =~= Seq::empty());
        }
        discovery
    }

    /// The zone whose library is to be opened next.
    pub fn next_zone(&self) -> (zone: Option<&Zone>)
        ensures
            match zone {
                Some(zone) => self@.ahead.len() > 0 && zone@ == self@.ahead[0],
                None => self@.ahead.len() == 0,
            },
    {
        proof {
            use_type_invariant(self);
        }
        if self.at < self.zones.len() {
            Some(&self.zones[self.at])
        } else {
            None
        }
    }

    /// Open the library of the next zone with the answer to its indexing query. A zone whose
    /// library cannot be opened fails the whole search: a library that is passed over in
    /// silence would look as if it were empty.
    pub fn on_answer(
        &mut self,
        service: &PhotosService,
        answer: &Result<QueryResponse, ApiError>,
    ) -> (result: Result<(), String>)
        requires
            old(self)@.ahead.len() > 0,
        ensures
            match opened(zone_library(service@, old(self)@.kind, old(self)@.ahead[0]), *answer) {
                Ok(library) => result is Ok && final(self)@ == (DiscoveryView {
                    kind: old(self)@.kind,
                    passed: old(self)@.passed.push(old(self)@.ahead[0]),
                    ahead: old(self)@.ahead.drop_first(),
                    libraries: put(
                        old(self)@.libraries,
                        old(self)@.ahead[0].zone_name,
                        library,
                    ),
                }),
                Err(fault) => result is Err && final(self)@ == old(self)@
                    && zone_fault_text(old(self)@.ahead[0].zone_name, fault) == Some(
                    result->Err_0@,
                ),
            },
    {
        proof {
            use_type_invariant(&*self);
        }
        let count: usize = self.zones.len();
        assert(self.at < count);
        let zone = &self.zones[self.at];
        match service.open_library(self.kind, zone, answer) {
            Ok(library) => {
                let mut libraries: Vec<(String, PhotoLibrary)> = Vec::new();
                let name = zone.zone_name.clone();
                std::mem::swap(&mut libraries, &mut self.libraries);
                put_library(&mut libraries, name, library);
                self.libraries = libraries;
                self.at = self.at + 1;
                proof {
                    let views = zone_views(self.zones@);
                    let at = self.at - 1;
                    assert(views.skip(at)[0] == views[at]);
                    assert(self@.passed =~= old(self)@.passed.push(old(self)@.ahead[0]));
                    assert(self@.ahead =~= old(self)@.ahead.drop_first());
                }
                Ok(())
            },
            Err(error) => {
                let mut message = "Failed to load library zone ".to_owned();
                message.append(&zone.zone_name);
                message.append(": ");
                message.append(&error.message());
                Err(message)
            },
        }
    }

    /// The libraries that were found.
    pub fn finish(self) -> (libraries: Vec<(String, PhotoLibrary)>)
        ensures
            library_views(libraries@) == self@.libraries,
    {
        self.libraries
    }
}

/// Where a library of a name is.
pub enum LibraryLookup<'a> {
    Found(&'a PhotoLibrary),
    /// The libraries of a kind have to be found first.
    Fetch(LibraryKind),
    /// No library has the name; what is said of it.
    Unknown(String),
}

/// A [`LibraryLookup`] with its library taken by its view.
pub enum LookupView {
    Found(LibraryView),
    Fetch(LibraryKind),
    Unknown(Seq<char>),
}

/// What stands for a lookup.
pub open spec fn lookup_view(lookup: LibraryLookup<'_>) -> LookupView {
    match lookup {
        LibraryLookup::Found(library) => LookupView::Found(library@),
        LibraryLookup::Fetch(kind) => LookupView::Fetch(kind),
        LibraryLookup::Unknown(message) => LookupView::Unknown(message@),
    }
}

/// Where a library of a name is: the primary one needs no search, and of the others a private
/// one comes before a shared one.
pub open spec fn library_lookup(service: ServiceView, name: Seq<char>) -> LookupView {
    if name == PRIMARY_ZONE_NAME@ {
        LookupView::Found(service.primary_library)
    } else {
        match (service.private_libraries, service.shared_libraries) {
            (None, _) => LookupView::Fetch(LibraryKind::Private),
            (_, None) => LookupView::Fetch(LibraryKind::Shared),
            (Some(private), Some(shared)) => match (value(private, name), value(shared, name)) {
                (Some(library), _) => LookupView::Found(library),
                (None, Some(library)) => LookupView::Found(library),
                (None, None) => LookupView::Unknown(
                    "Unknown library: '"@ + name
                        + "'. Run `kei list libraries` to see available libraries."@,
                ),
            },
        }
    }
}

/// The library of a name.
fn named_library<'a>(libraries: &'a Vec<(String, PhotoLibrary)>, name: &str) -> (library: Option<
    &'a PhotoLibrary,
>)
    ensures
        match library {
            Some(library) => value(library_views(libraries@), name@) == Some(library@),
            None => value(library_views(libraries@), name@) is None,
        },
{
    let ghost views = library_views(libraries@);
    match find_place(libraries, name) {
        Some(i) => {
            proof {
                assert forall|j: int| 0 <= j < i implies (#[trigger] views[j]).0 != name@ by {
                    assert(libraries@[j].0@ != name@);
                }
                lemma_place(views, name@, i as int);
            }
            Some(&libraries[i].1)
        },
        None => {
            proof {
                assert forall|j: int| 0 <= j < views.len() implies (#[trigger] views[j]).0
                    != name@ by {
                    assert(libraries@[j].0@ != name@);
                }
                lemma_no_place(views, name@);
            }
            None
        },
    }
}

/// The libraries that are not called as the primary one is.
pub open spec fn beside_primary(libraries: Seq<(Seq<char>, LibraryView)>) -> Seq<LibraryView>
    decreases libraries.len(),
{
    if libraries.len() == 0 {
        Seq::empty()
    } else if libraries.last().0 == PRIMARY_ZONE_NAME@ {
        beside_primary(libraries.drop_last())
    } else {
        beside_primary(libraries.drop_last()).push(libraries.last().1)
    }
}

/// All libraries: the primary one, the private ones beside it, and the shared ones; or the
/// kind that has to be found first.
pub open spec fn all_of(service: ServiceView) -> Result<Seq<LibraryView>, LibraryKind> {
    match (service.private_libraries, service.shared_libraries) {
        (None, _) => Err(LibraryKind::Private),
        (_, None) => Err(LibraryKind::Shared),
        (Some(private), Some(shared)) => Ok(
            seq![service.primary_library] + beside_primary(private) + shared.map_values(
                |l: (Seq<char>, LibraryView)| l.1,
            ),
        ),
    }
}

/// The views of libraries.
pub open spec fn plain_library_views(libraries: Seq<PhotoLibrary>) -> Seq<LibraryView> {
    libraries.map_values(|l: PhotoLibrary| l@)
}

impl PhotosService {
    /// Where the library of a zone is.
    pub fn get_library(&self, name: &str) -> (lookup: LibraryLookup<'_>)
        ensures
            lookup_view(lookup) == library_lookup(self@, name@),
    {
        if str_eq(name, PRIMARY_ZONE_NAME) {
            return LibraryLookup::Found(&self.primary_library);
        }
        let private = match &self.private_libraries {
            Some(libraries) => libraries,
            None => {
                return LibraryLookup::Fetch(LibraryKind::Private);
            },
        };
        let shared = match &self.shared_libraries {
            Some(libraries) => libraries,
            None => {
                return LibraryLookup::Fetch(LibraryKind::Shared);
            },
        };
        if let Some(library) = named_library(private, name) {
            return LibraryLookup::Found(library);
        }
        if let Some(library) = named_library(shared, name) {
            return LibraryLookup::Found(library);
        }
        let mut message = "Unknown library: '".to_owned();
        message.append(name);
        message.append("'. Run `kei list libraries` to see available libraries.");
        LibraryLookup::Unknown(message)
    }

    /// All libraries, or the kind that has to be found first.
    pub fn all_libraries(&self) -> (all: Result<Vec<PhotoLibrary>, LibraryKind>)
        ensures
            match all {
                Ok(libraries) => all_of(self@) == Ok::<Seq<LibraryView>, LibraryKind>(
                    plain_library_views(libraries@),
                ),
                Err(kind) => all_of(self@) == Err::<Seq<LibraryView>, LibraryKind>(kind),
            },
    {
        let private = match &self.private_libraries {
            Some(libraries) => libraries,
            None => {
                return Err(LibraryKind::Private);
            },
        };
        let shared = match &self.shared_libraries {
            Some(libraries) => libraries,
            None => {
                return Err(LibraryKind::Shared);
            },
        };
        let ghost private_views = library_views(private@);
        let ghost shared_views = library_views(shared@).map_values(
            |l: (Seq<char>, LibraryView)| l.1,
        );
        let ghost primary = seq![self@.primary_library];
        let mut libraries: Vec<PhotoLibrary> = Vec::new();
        libraries.push(self.primary_library.clone());
        let mut i: usize = 0;
        proof {
            assert(beside_primary(private_views.take(0)) =~= Seq::empty());
            assert(plain_library_views(libraries@) =~= primary);
        }
        while i < private.len()
            invariant
                i <= private@.len(),
                private_views == library_views(private@),
                plain_library_views(libraries@) =~= primary + beside_primary(
                    private_views.take(i as int),
                ),
            decreases private@.len() - i,
        {
            let ghost before = plain_library_views(libraries@);
            proof {
                assert(private_views.take(i + 1).drop_last() =~= private_views.take(i as int));
                assert(private_views.take(i + 1).last() == private_views[i as int]);
            }
            if !str_eq(&private[i].0, PRIMARY_ZONE_NAME) {
                libraries.push(private[i].1.clone());
                assert(plain_library_views(libraries@) =~= before.push(
                    private_views[i as int].1,
                ));
            }
            i = i + 1;
        }
        let ghost front = plain_library_views(libraries@);
        proof {
            assert(private_views.take(i as int) =~= private_views);
        }
        let mut j: usize = 0;
        while j < shared.len()
            invariant
                j <= shared@.len(),
                shared_views == library_views(shared@).map_values(
                    |l: (Seq<char>, LibraryView)| l.1,
                ),
                plain_library_views(libraries@) =~= front + shared_views.take(j as int),
            decreases shared@.len() - j,
        {
            let ghost before = plain_library_views(libraries@);
            libraries.push(shared[j].1.clone());
            assert(plain_library_views(libraries@) =~= before.push(shared_views[j as int]));
            j = j + 1;
        }
        proof {
            assert(shared_views.take(j as int) =~= shared_views);
        }
        Ok(libraries)
    }
}

// Laws.

/// A private library that is called as the primary one is adds nothing to all libraries:
/// those beside the primary are exactly the ones of other names.
pub proof fn law_primary_is_listed_once(libraries: Seq<(Seq<char>, LibraryView)>)
    ensures
        beside_primary(libraries) == libraries.filter(
            |l: (Seq<char>, LibraryView)| l.0 != PRIMARY_ZONE_NAME@,
        ).map_values(|l: (Seq<char>, LibraryView)| l.1),
    decreases libraries.len(),
{
    reveal(Seq::filter);
    let others = |l: (Seq<char>, LibraryView)| l.0 != PRIMARY_ZONE_NAME@;
    let library = |l: (Seq<char>, LibraryView)| l.1;
    if libraries.len() > 0 {
        law_primary_is_listed_once(libraries.drop_last());
        let front = libraries.drop_last().filter(others);
        if libraries.last().0 != PRIMARY_ZONE_NAME@ {
            assert(front.push(libraries.last()).map_values(library) =~= front.map_values(
                library,
            ).push(libraries.last().1));
        }
    }
    assert(libraries.len() == 0 ==> beside_primary(libraries) =~= libraries.filter(
        others,
    ).map_values(library));
}

/// No library is looked for in a zone that is deleted or a share link's, and in every other
/// zone one is.
pub proof fn law_every_library_zone_is_searched(zones: Seq<ZoneView>, zone: ZoneView)
    ensures
        zones.filter(|z: ZoneView| is_library_zone(z)).contains(zone) <==> zones.contains(zone)
            && zone.deleted != Some(true) && !SHARE_LINK_PREFIX@.is_prefix_of(zone.zone_name),
{
    broadcast use vstd::seq_lib::group_filter_ensures;

    let keeps = |z: ZoneView| is_library_zone(z);
    let kept = zones.filter(keeps);
    if kept.contains(zone) {
        let i = choose|i: int| 0 <= i < kept.len() && kept[i] == zone;
        assert(keeps(kept[i]));
        zones.lemma_filter_contains_rev(keeps, zone);
    }
    if zones.contains(zone) && is_library_zone(zone) {
        let i = choose|i: int| 0 <= i < zones.len() && zones[i] == zone;
        assert(keeps(zones[i]));
    }
}

/// Once the libraries of both kinds are known, nothing has to be fetched for any name.
pub proof fn law_known_libraries_are_not_fetched(service: ServiceView, name: Seq<char>)
    requires
        service.private_libraries is Some,
        service.shared_libraries is Some,
    ensures
        !(library_lookup(service, name) is Fetch),
        all_of(service) is Ok,
{
}

/// An account's own libraries and those shared with it are found below the same root, each kind
/// under its own name.
pub proof fn law_each_kind_has_its_own_endpoint(service_root: Seq<char>)
    ensures
        kind_text(LibraryKind::Private) == "private"@,
        kind_text(LibraryKind::Shared) == "shared"@,
        endpoint_text(service_root, kind_text(LibraryKind::Private)) != endpoint_text(
            service_root,
            kind_text(LibraryKind::Shared),
        ),
        forall|kind: LibraryKind|
            service_root.is_prefix_of(#[trigger] endpoint_text(service_root, kind_text(kind))),
        forall|kind: LibraryKind|
            kind_text(kind).is_suffix_of(#[trigger] endpoint_text(service_root, kind_text(kind))),
{
    reveal_strlit("private");
    reveal_strlit("shared");
    assert("private"@.len() == 7 && "shared"@.len() == 6);
    let private = endpoint_text(service_root, "private"@);
    let shared = endpoint_text(service_root, "shared"@);
    assert(private.len() == shared.len() + 1);
    assert forall|kind: LibraryKind| kind_text(kind).is_suffix_of(
        #[trigger] endpoint_text(service_root, kind_text(kind)),
    ) by {
        let text = endpoint_text(service_root, kind_text(kind));
        assert(text.subrange(text.len() - kind_text(kind).len(), text.len() as int)
            =~= kind_text(kind));
    }
    assert forall|kind: LibraryKind| service_root.is_prefix_of(
        #[trigger] endpoint_text(service_root, kind_text(kind)),
    ) by {
        let text = endpoint_text(service_root, kind_text(kind));
        assert(text.subrange(0, service_root.len() as int) =~= service_root);
    }
}

/// Every request asks for enumerations by their names and for the current token, and keeps the
/// other parameters as they were given.
pub proof fn law_every_request_carries_the_service_parameters(
    params: Seq<(Seq<char>, Seq<char>)>,
    name: Seq<char>,
)
    ensures
        value(with_service_params(params), "remapEnums"@) == Some("true"@),
        value(with_service_params(params), "getCurrentSyncToken"@) == Some("true"@),
        name != "remapEnums"@ && name != "getCurrentSyncToken"@ ==> value(
            with_service_params(params),
            name,
        ) == value(params, name),
{
    reveal_strlit("remapEnums");
    reveal_strlit("getCurrentSyncToken");
    assert("remapEnums"@.len() == 10 && "getCurrentSyncToken"@.len() == 19);
    let first = put(params, "remapEnums"@, "true"@);
    law_what_is_put_under_a_name_stands_there(params, "remapEnums"@, "true"@, "remapEnums"@);
    law_what_is_put_under_a_name_stands_there(params, "remapEnums"@, "true"@, name);
    law_what_is_put_under_a_name_stands_there(
        first,
        "getCurrentSyncToken"@,
        "true"@,
        "remapEnums"@,
    );
    law_what_is_put_under_a_name_stands_there(
        first,
        "getCurrentSyncToken"@,
        "true"@,
        "getCurrentSyncToken"@,
    );
    law_what_is_put_under_a_name_stands_there(first, "getCurrentSyncToken"@, "true"@, name);
}

/// A zone is a library's unless it was deleted or is a share link's.
pub proof fn law_deleted_zones_and_share_links_are_no_libraries(zone: ZoneView)
    ensures
        is_library_zone(zone) <==> zone.deleted != Some(true) && !"CMM-"@.is_prefix_of(
            zone.zone_name,
        ),
{
}

/// A service is opened by its primary library: the account's own, in the primary zone. It then
/// knows the parameters that every request carries, and no other library yet. Where that
/// library is not opened, neither is the service, and for the same reason.
pub proof fn law_a_service_is_opened_by_its_primary_library(
    service_root: Seq<char>,
    params: Seq<(Seq<char>, Seq<char>)>,
    answer: Result<QueryResponse, ApiError>,
)
    ensures
        ({
            let library = LibraryView {
                service_endpoint: endpoint_text(service_root, "private"@),
                params: with_service_params(params),
                zone_id: primary_zone(),
                library_type: "private"@,
            };
            match opened_service(service_root, params, answer) {
                Ok(service) => {
                    &&& opened(library, answer) is Ok
                    &&& service.service_root == service_root
                    &&& service.params == with_service_params(params)
                    &&& service.primary_library == library
                    &&& service.private_libraries is None
                    &&& service.shared_libraries is None
                },
                Err(fault) => opened(library, answer) == Err::<LibraryView, LibraryFault>(fault),
            }
        }),
        text_of(member(primary_zone(), "zoneName"@)) == Some("PrimarySync"@),
{
    law_the_first_member_of_a_name_is_read(primary_zone()->Object_0, "zoneName"@, 0);
}

/// The library of a zone is read in that zone, through the endpoint of its kind, with the
/// service's parameters.
pub proof fn law_a_zones_library_is_read_in_its_zone(
    service: ServiceView,
    kind: LibraryKind,
    zone: ZoneView,
)
    ensures
        ({
            let library = zone_library(service, kind, zone);
            &&& library.zone_id == zone.zone_id
            &&& library.params == service.params
            &&& library.library_type == kind_text(kind)
            &&& library.service_endpoint == endpoint_text(service.service_root, kind_text(kind))
        }),
{
}

/// A library that is known under a name is found: a private one before a shared one. One that
/// neither kind knows is unknown, and what is said of it names it.
pub proof fn law_a_known_library_is_found(
    service: ServiceView,
    name: Seq<char>,
    private: Seq<(Seq<char>, LibraryView)>,
    shared: Seq<(Seq<char>, LibraryView)>,
)
    requires
        name != "PrimarySync"@,
        service.private_libraries == Some(private),
        service.shared_libraries == Some(shared),
    ensures
        match (value(private, name), value(shared, name)) {
            (Some(library), _) => library_lookup(service, name) == LookupView::Found(library),
            (None, Some(library)) => library_lookup(service, name) == LookupView::Found(library),
            (None, None) => library_lookup(service, name) is Unknown && exists|i: int| #[trigger]
                occurs_at(library_lookup(service, name)->Unknown_0, name, i),
        },
{
    if value(private, name) is None && value(shared, name) is None {
        let text = library_lookup(service, name)->Unknown_0;
        let at = "Unknown library: '"@.len() as int;
        assert(text.subrange(at, at + name.len()) =~= name);
        assert(occurs_at(text, name, at));
    }
}

/// The primary library needs no search, and libraries of a kind that was not looked for are
/// looked for before a name is given up: the account's own first.
pub proof fn law_unknown_kinds_are_searched_first(service: ServiceView, name: Seq<char>)
    ensures
        library_lookup(service, "PrimarySync"@) == LookupView::Found(service.primary_library),
        name != "PrimarySync"@ && service.private_libraries is None ==> library_lookup(
            service,
            name,
        ) == LookupView::Fetch(LibraryKind::Private),
        name != "PrimarySync"@ && service.private_libraries is Some
            && service.shared_libraries is None ==> library_lookup(service, name)
            == LookupView::Fetch(LibraryKind::Shared),
        service.private_libraries is None ==> all_of(service) == Err::<
            Seq<LibraryView>,
            LibraryKind,
        >(LibraryKind::Private),
        service.private_libraries is Some && service.shared_libraries is None ==> all_of(service)
            == Err::<Seq<LibraryView>, LibraryKind>(LibraryKind::Shared),
{
}

/// All libraries are the primary one first, then the account's others, then all that are
/// shared with it.
pub proof fn law_all_libraries_are_listed_in_order(
    service: ServiceView,
    private: Seq<(Seq<char>, LibraryView)>,
    shared: Seq<(Seq<char>, LibraryView)>,
    i: int,
)
    requires
        service.private_libraries == Some(private),
        service.shared_libraries == Some(shared),
    ensures
        all_of(service) is Ok,
        ({
            let all = all_of(service)->Ok_0;
            let others = private.filter(|l: (Seq<char>, LibraryView)| l.0 != "PrimarySync"@);
            &&& all.len() == 1 + others.len() + shared.len()
            &&& all[0] == service.primary_library
            &&& 0 <= i < others.len() ==> all[1 + i] == others[i].1
            &&& 0 <= i < shared.len() ==> all[1 + others.len() + i] == shared[i].1
        }),
{
    lemma_beside_primary(private);
}

/// The libraries beside the primary one are the others, in their order.
proof fn lemma_beside_primary(libraries: Seq<(Seq<char>, LibraryView)>)
    ensures
        ({
            let others = libraries.filter(|l: (Seq<char>, LibraryView)| l.0 != "PrimarySync"@);
            &&& beside_primary(libraries).len() == others.len()
            &&& forall|i: int|
                0 <= i < others.len() ==> #[trigger] beside_primary(libraries)[i] == others[i].1
        }),
    decreases libraries.len(),
{
    reveal(Seq::filter);
    if libraries.len() > 0 {
        lemma_beside_primary(libraries.drop_last());
    }
}

/// What is said of a zone whose library cannot be opened names the zone, and ends with what is
/// said of the fault.
pub proof fn law_a_closed_zone_is_named(zone_name: Seq<char>, fault: LibraryFault)
    ensures
        zone_fault_text(zone_name, fault) is Some <==> fault_text(fault) is Some,
        fault_text(fault) is Some ==> (zone_name + ": "@ + fault_text(fault)->0).is_suffix_of(
            zone_fault_text(zone_name, fault)->0,
        ),
{
    if let Some(text) = fault_text(fault) {
        let end = zone_name + ": "@ + text;
        let told = zone_fault_text(zone_name, fault)->0;
        assert(told.subrange(told.len() - end.len(), told.len() as int) =~= end);
    }
}

/// Libraries of a kind are kept apart from those of the other.
pub proof fn law_kinds_are_kept_apart(service: ServiceView)
    ensures
        libraries_of(service, LibraryKind::Private) == service.private_libraries,
        libraries_of(service, LibraryKind::Shared) == service.shared_libraries,
{
}

} // verus!
