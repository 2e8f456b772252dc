//! A photo library: whether it is ready to be read, and the albums that it has.
use crate::album::{
    copy_params, law_a_condition_says_what_it_was_made_of, request_url, says, whole_library,
    AlbumView, PhotoAlbumConfig, DEFAULT_PAGE_SIZE, QUERY_ALL_LIST, QUERY_ALL_OBJ,
    QUERY_FOLDER_LIST,
};
use crate::cloudkit::{record_views, QueryResponse, Record, RecordView};
use crate::enc::{base64_bytes, bytes_view, decode_base64, text_from_utf8, utf8_decoded};
use crate::error::{error_text, ICloudError, NOT_ACTIVATED_HELP};
use crate::fetch::{
    item_pairs, lemma_place, lemma_place_bounds, lemma_put_item, place, put, put_item, value,
};
use crate::json::{
    bool_of, field, law_the_first_member_of_a_name_is_read, law_what_is_not_there_is_not_read,
    member, member_of, text_of, Json, JsonView,
};
use crate::queries::{form_encoded, param_pairs, sorted_pairs, ParamValue};
use crate::session::{api_error_text, ApiError};
use crate::smart_folders::{
    all_smart_folders, equals_filter, folder_views, law_smart_folder_names_are_distinct,
    smart_folder_filter, smart_folders,
    FolderDefView,
};
use crate::text::{
    contains, contains_text, decimal_text, option_view, starts_with, str_eq, text_views,
};
use vstd::prelude::*;

verus! {

/// The zone of the account's own library; also the zone that is meant where none is named.
pub const PRIMARY_ZONE_NAME: &'static str = "PrimarySync";

/// What the name of every shared library's zone begins with.
pub const SHARED_ZONE_PREFIX: &'static str = "SharedSync-";

/// The folder that holds the folders.
pub const ROOT_FOLDER: &'static str = "----Root-Folder----";

/// The folder that holds the projects.
pub const PROJECT_ROOT_FOLDER: &'static str = "----Project-Root-Folder----";

/// How many pages of folders are asked for at most, so that a server that always names a next
/// page cannot keep the listing going forever.
pub const FOLDER_PAGE_CAP: usize = 64;

/// Whether a zone is that of a shared library.
pub fn is_shared_zone(zone_name: &str) -> (yes: bool)
    ensures
        yes == SHARED_ZONE_PREFIX@.is_prefix_of(zone_name@),
{
    starts_with(zone_name, SHARED_ZONE_PREFIX)
}

// Opening a library.

/// What is wrong with a library.
pub enum LibraryFault {
    NotActivated { code: Seq<char>, reason: Seq<char> },
    Misdirected,
    Expired(u16),
    Connection(Seq<char>),
    Http(reqwest::Error),
    Io(std::io::Error),
    Json(serde_json::Error),
}

/// What an error says of a library.
pub open spec fn fault_of(error: ICloudError) -> LibraryFault {
    match error {
        ICloudError::ServiceNotActivated { code, reason } => LibraryFault::NotActivated {
            code: code@,
            reason: reason@,
        },
        ICloudError::MisdirectedRequest => LibraryFault::Misdirected,
        ICloudError::SessionExpired { status } => LibraryFault::Expired(status),
        ICloudError::Connection(message) => LibraryFault::Connection(message@),
        ICloudError::Http(error) => LibraryFault::Http(*error),
        ICloudError::Io(error) => LibraryFault::Io(*error),
        ICloudError::Json(error) => LibraryFault::Json(*error),
    }
}

/// What a fault says, where it is one of kei's own.
pub open spec fn fault_text(fault: LibraryFault) -> Option<Seq<char>> {
    match fault {
        LibraryFault::NotActivated { code, reason } => Some(
            "iCloud Photos is not available through Apple's web API ("@ + code + "): "@ + reason
                + NOT_ACTIVATED_HELP@,
        ),
        LibraryFault::Misdirected => Some(
            "Apple routed the iCloud request to the wrong CloudKit partition (HTTP 421)"@,
        ),
        LibraryFault::Expired(status) => Some(
            "Your iCloud session expired (CloudKit HTTP "@ + decimal_text(status as nat) + ")"@,
        ),
        LibraryFault::Connection(message) => Some("Could not connect to iCloud: "@ + message),
        _ => None,
    }
}

/// What a failed request says of a library. A 403 has many causes, so it asks for a new
/// session as a 401 does.
pub open spec fn request_fault(error: ApiError) -> LibraryFault {
    match error {
        ApiError::CloudKit(server) if server.service_not_activated => LibraryFault::NotActivated {
            code: server@.code,
            reason: server@.reason,
        },
        ApiError::Http(http) if http.status == 421 => LibraryFault::Misdirected,
        ApiError::Http(http) if http.status == 401 || http.status == 403 => LibraryFault::Expired(
            http.status,
        ),
        _ => LibraryFault::Connection(api_error_text(error)),
    }
}

/// The error that a failed request makes of a library.
pub fn library_error(error: &ApiError) -> (e: ICloudError)
    ensures
        fault_of(e) == request_fault(*error),
{
    match error {
        ApiError::CloudKit(server) => {
            if server.service_not_activated {
                return ICloudError::ServiceNotActivated {
                    code: (*server.code).to_owned(),
                    reason: (*server.reason).to_owned(),
                };
            }
        },
        ApiError::Http(http) => {
            if http.status == 421 {
                return ICloudError::MisdirectedRequest;
            }
            if http.status == 401 || http.status == 403 {
                return ICloudError::SessionExpired { status: http.status };
            }
        },
        _ => {},
    }
    ICloudError::Connection(error.message())
}

/// What is said where CloudKit knows no way to sign the account in.
pub const SECURITY_KEY_HINT: &'static str =
    "CloudKit 401 'no auth method found' — usually means FIDO/WebAuthn security keys are on the account (issue #221). Remove them at Settings > Apple ID & iCloud > Sign-In & Security > Security Keys.";

/// Whether a failed request is one that security keys on the account bring about.
pub open spec fn blames_security_keys(error: ApiError) -> bool {
    match error {
        ApiError::Http(http) => http.status == 401 && match http.body {
            Some(body) => contains_text(body@, "no auth method found"@),
            None => false,
        },
        _ => false,
    }
}

/// What the user is told beside the error, where security keys are the likely cause of it.
pub fn security_key_hint(error: &ApiError) -> (hint: Option<&'static str>)
    ensures
        hint == (if blames_security_keys(*error) {
            Some(SECURITY_KEY_HINT)
        } else {
            None
        }),
{
    if let ApiError::Http(http) = error {
        if http.status == 401 {
            if let Some(body) = &http.body {
                if contains(body, "no auth method found") {
                    return Some(SECURITY_KEY_HINT);
                }
            }
        }
    }
    None
}

/// The query for the state of a zone's index.
pub open spec fn indexing_query_body(zone_id: JsonView) -> JsonView {
    JsonView::Object(
        seq![
            (
                "query"@,
                JsonView::Object(seq![("recordType"@, JsonView::Text("CheckIndexingState"@))]),
            ),
            ("zoneID"@, zone_id),
        ],
    )
}

/// The query for records of a type in a zone.
fn type_query(record_type: &str, zone_id: &Json) -> (query: Json)
    ensures
        query@ == JsonView::Object(
            seq![
                ("query"@, JsonView::Object(seq![("recordType"@, JsonView::Text(record_type@))])),
                ("zoneID"@, zone_id@),
            ],
        ),
{
    let inner = Json::empty_object().with("recordType", Json::text(record_type));
    let query = Json::empty_object().with("query", inner).with("zoneID", zone_id.duplicate());
    proof {
        let inner_members = seq![("recordType"@, JsonView::Text(record_type@))];
        assert(inner@ == JsonView::Object(inner_members)) by {
            assert(Seq::empty().push(("recordType"@, JsonView::Text(record_type@)))
                =~= inner_members);
        }
        let members = seq![("query"@, inner@), ("zoneID"@, zone_id@)];
        assert(Seq::empty().push(("query"@, inner@)).push(("zoneID"@, zone_id@)) =~= members);
    }
    query
}

/// Build the query for the state of a zone's index.
pub fn indexing_query(zone_id: &Json) -> (query: Json)
    ensures
        query@ == indexing_query_body(zone_id@),
{
    type_query("CheckIndexingState", zone_id)
}

/// The state of the index, as the first record gives it.
pub open spec fn indexing_state(records: Seq<RecordView>) -> Option<Seq<char>> {
    if records.len() > 0 {
        text_of(field(records[0].fields, "state"@))
    } else {
        None
    }
}

/// What the state of the index says against reading the library. A state that is not given
/// counts against it.
pub open spec fn indexing_fault(state: Option<Seq<char>>) -> Option<LibraryFault> {
    match state {
        None => Some(
            LibraryFault::Connection(
                "Apple did not report whether the photo library is fully indexed; results may be incomplete"@,
            ),
        ),
        Some(state) => if state == "FINISHED"@ {
            None
        } else {
            Some(
                LibraryFault::Connection(
                    "Apple says the photo library is still indexing ("@ + state
                        + "); wait until indexing is finished, then retry."@,
                ),
            )
        },
    }
}

/// A photo library, without the session that it is read through.
pub struct PhotoLibrary {
    service_endpoint: String,
    params: Vec<(String, ParamValue)>,
    zone_id: Json,
    library_type: String,
}

/// A [`PhotoLibrary`] with its texts taken by their characters, and its parameters by what is
/// sent of them.
#[verifier::ext_equal]
pub struct LibraryView {
    pub service_endpoint: Seq<char>,
    pub params: Seq<(Seq<char>, Seq<char>)>,
    pub zone_id: JsonView,
    pub library_type: Seq<char>,
}

impl View for PhotoLibrary {
    type V = LibraryView;

    closed spec fn view(&self) -> LibraryView {
        LibraryView {
            service_endpoint: self.service_endpoint@,
            params: param_pairs(self.params@),
            zone_id: self.zone_id@,
            library_type: self.library_type@,
        }
    }
}

/// The library that the answer to its indexing query opens, or what is wrong with it.
pub open spec fn opened(
    library: LibraryView,
    answer: Result<QueryResponse, ApiError>,
) -> Result<LibraryView, LibraryFault> {
    match answer {
        Err(error) => Err(request_fault(error)),
        Ok(response) => match indexing_fault(indexing_state(record_views(response.records@))) {
            Some(fault) => Err(fault),
            None => Ok(library),
        },
    }
}

/// What stands for an opened library.
pub open spec fn opened_view(opened: Result<PhotoLibrary, ICloudError>) -> Result<
    LibraryView,
    LibraryFault,
> {
    match opened {
        Ok(library) => Ok(library@),
        Err(error) => Err(fault_of(error)),
    }
}

/// The zone that a library is.
pub open spec fn library_zone(zone_id: JsonView) -> Seq<char> {
    match text_of(member(zone_id, "zoneName"@)) {
        Some(name) => name,
        None => PRIMARY_ZONE_NAME@,
    }
}

/// Whether a library is a shared one.
pub open spec fn is_shared(library: LibraryView) -> bool {
    SHARED_ZONE_PREFIX@.is_prefix_of(library_zone(library.zone_id))
}

// Folders.

/// The query for a page of folders.
pub open spec fn folder_query_body(zone_id: JsonView, continuation: Option<Seq<char>>) -> JsonView {
    let query = (
        "query"@,
        JsonView::Object(seq![("recordType"@, JsonView::Text("CPLAlbumByPositionLive"@))]),
    );
    match continuation {
        Some(marker) => JsonView::Object(
            seq![query, ("zoneID"@, zone_id), ("continuationMarker"@, JsonView::Text(marker))],
        ),
        None => JsonView::Object(seq![query, ("zoneID"@, zone_id)]),
    }
}

/// How far a listing of folders is.
#[derive(Debug, Clone, Copy, PartialEq, Eq, Structural)]
pub enum FolderStep {
    /// Another page follows.
    Next,
    /// Every folder was listed.
    Complete,
    /// More pages follow than are asked for.
    Truncated,
}

/// A listing of folders, page by page.
#[derive(Debug)]
pub struct FolderListing {
    pages: usize,
    records: Vec<Record>,
    continuation: Option<String>,
}

/// A [`FolderListing`] with its texts taken by their characters.
#[verifier::ext_equal]
pub struct ListingView {
    pub pages: int,
    pub records: Seq<RecordView>,
    pub continuation: Option<Seq<char>>,
}

impl View for FolderListing {
    type V = ListingView;

    closed spec fn view(&self) -> ListingView {
        ListingView {
            pages: self.pages as int,
            records: record_views(self.records@),
            continuation: option_view(self.continuation),
        }
    }
}

/// The listing that nothing was read into.
pub open spec fn new_listing() -> ListingView {
    ListingView { pages: 0, records: Seq::empty(), continuation: None }
}

/// Whether a page names one that follows.
pub open spec fn names_next(marker: Option<Seq<char>>) -> bool {
    match marker {
        Some(marker) => marker.len() > 0,
        None => false,
    }
}

/// How far a listing is after a page.
pub open spec fn listing_step(listing: ListingView, marker: Option<Seq<char>>) -> FolderStep {
    if !names_next(marker) {
        FolderStep::Complete
    } else if listing.pages + 1 < FOLDER_PAGE_CAP {
        FolderStep::Next
    } else {
        FolderStep::Truncated
    }
}

/// The listing after a page.
pub open spec fn listed(
    listing: ListingView,
    records: Seq<RecordView>,
    marker: Option<Seq<char>>,
) -> ListingView {
    ListingView {
        pages: listing.pages + 1,
        records: listing.records + records,
        continuation: if names_next(marker) {
            marker
        } else {
            listing.continuation
        },
    }
}

impl FolderListing {
    /// The listing that nothing was read into.
    pub fn new() -> (listing: Self)
        ensures
            listing@ == new_listing(),
    {
        let listing = FolderListing { pages: 0, records: Vec::new(), continuation: None };
        assert(record_views(listing.records@) =~= Seq::empty());
        listing
    }

    /// Build the query for the next page.
    pub fn query(&self, zone_id: &Json) -> (query: Json)
        ensures
            query@ == folder_query_body(zone_id@, self@.continuation),
    {
        let query = type_query("CPLAlbumByPositionLive", zone_id);
        match &self.continuation {
            Some(marker) => {
                let query = query.with("continuationMarker", Json::text(marker));
                proof {
                    match (query@, folder_query_body(zone_id@, self@.continuation)) {
                        (JsonView::Object(a), JsonView::Object(b)) => {
                            assert(a =~= b);
                        },
                        _ => {},
                    }
                }
                query
            },
            None => query,
        }
    }

    /// Take a page in. The listing ends with the page that names none that follows, and at the
    /// latest with the last page that is asked for.
    pub fn on_page(&mut self, page: QueryResponse) -> (step: FolderStep)
        requires
            old(self)@.pages < FOLDER_PAGE_CAP,
        ensures
            final(self)@ == listed(
                old(self)@,
                record_views(page.records@),
                option_view(page.continuation_marker),
            ),
            step == listing_step(old(self)@, option_view(page.continuation_marker)),
            step == FolderStep::Next ==> final(self)@.pages < FOLDER_PAGE_CAP,
    {
        let ghost before = self.records@;
        let mut records = page.records;
        let ghost more = records@;
        self.records.append(&mut records);
        self.pages = self.pages + 1;
        proof {
            assert(record_views(self.records@) =~= record_views(before) + record_views(more));
            reveal_strlit("");
        }
        match page.continuation_marker {
            Some(marker) => {
                assert(marker@.len() == 0 ==> marker@ =~= ""@);
                if !str_eq(&marker, "") {
                    self.continuation = Some(marker);
                    if self.pages < FOLDER_PAGE_CAP {
                        return FolderStep::Next;
                    }
                    return FolderStep::Truncated;
                }
                FolderStep::Complete
            },
            None => FolderStep::Complete,
        }
    }

    /// The folders that were listed.
    pub fn finish(self) -> (records: Vec<Record>)
        ensures
            record_views(records@) == self@.records,
    {
        self.records
    }
}

/// Whether a folder is an album: neither of Apple's sentinels, nor deleted.
pub open spec fn is_album(folder: RecordView) -> bool {
    &&& folder.record_name != ROOT_FOLDER@
    &&& folder.record_name != PROJECT_ROOT_FOLDER@
    &&& bool_of(field(folder.fields, "isDeleted"@)) != Some(true)
}

/// The name that decoded bytes give an album. Bytes that could not be decoded count as none,
/// and bytes that are no text leave the album with its record's name.
pub open spec fn decoded_name(record_name: Seq<char>, decoded: Option<Seq<u8>>) -> Seq<char> {
    let bytes = match decoded {
        Some(bytes) => bytes,
        None => Seq::empty(),
    };
    match utf8_decoded(bytes) {
        Some(name) => name,
        None => record_name,
    }
}

/// The title of an album, as the service has it.
pub open spec fn album_title(folder: RecordView) -> Seq<char> {
    match text_of(field(folder.fields, "albumNameEnc"@)) {
        Some(encoded) => decoded_name(folder.record_name, base64_bytes(encoded)),
        None => folder.record_name,
    }
}

/// The titles of folders.
pub open spec fn album_titles(folders: Seq<RecordView>) -> Seq<Seq<char>> {
    folders.map_values(|folder: RecordView| album_title(folder))
}

/// The name of an album: the one that its title is given on disk, and of one without a title
/// its record's.
pub open spec fn album_name(folder: RecordView, name: Seq<char>) -> Seq<char> {
    match text_of(field(folder.fields, "albumNameEnc"@)) {
        Some(_) => name,
        None => folder.record_name,
    }
}

/// The album that a folder is, under the name that its title is given.
pub open spec fn folder_album(
    library: LibraryView,
    folder: RecordView,
    name: Seq<char>,
) -> AlbumView {
    AlbumView {
        params: library.params,
        service_endpoint: library.service_endpoint,
        name: album_name(folder, name),
        list_type: QUERY_FOLDER_LIST@,
        obj_type: "CPLContainerRelationNotDeletedByAssetDate:"@ + folder.record_name,
        query_filter: Some(equals_filter("parentId"@, folder.record_name)),
        page_size: DEFAULT_PAGE_SIZE,
        zone_id: library.zone_id,
        container_id: Some(folder.record_name),
    }
}

/// The album that a smart folder is.
pub open spec fn smart_album(
    library: LibraryView,
    name: Seq<char>,
    def: FolderDefView,
) -> AlbumView {
    AlbumView {
        params: library.params,
        service_endpoint: library.service_endpoint,
        name,
        list_type: def.list_type,
        obj_type: def.obj_type,
        query_filter: def.query_filter,
        page_size: DEFAULT_PAGE_SIZE,
        zone_id: library.zone_id,
        container_id: None,
    }
}

/// The albums that smart folders are, by name.
pub open spec fn smart_albums(
    library: LibraryView,
    folders: Seq<(Seq<char>, FolderDefView)>,
) -> Seq<(Seq<char>, AlbumView)> {
    folders.map_values(
        |f: (Seq<char>, FolderDefView)| (f.0, smart_album(library, f.0, f.1)),
    )
}

/// The albums with those that folders are put among them, by name: a later one takes the
/// place of an earlier one of the same name.
pub open spec fn with_folders(
    library: LibraryView,
    albums: Seq<(Seq<char>, AlbumView)>,
    folders: Seq<RecordView>,
    names: Seq<Seq<char>>,
) -> Seq<(Seq<char>, AlbumView)>
    decreases folders.len(),
{
    if folders.len() == 0 {
        albums
    } else {
        let before = with_folders(library, albums, folders.drop_last(), names.drop_last());
        let folder = folders.last();
        let name = names.last();
        if is_album(folder) {
            put(before, album_name(folder, name), folder_album(library, folder, name))
        } else {
            before
        }
    }
}

/// The albums of a library, by name: every smart folder, and the folders of a library that is
/// not shared.
pub open spec fn library_albums(
    library: LibraryView,
    folders: Seq<RecordView>,
    names: Seq<Seq<char>>,
) -> Seq<(Seq<char>, AlbumView)> {
    let smart = smart_albums(library, all_smart_folders());
    if is_shared(library) {
        smart
    } else {
        with_folders(library, smart, folders, names)
    }
}

/// The views of named albums.
pub open spec fn album_views(albums: Seq<(String, PhotoAlbumConfig)>) -> Seq<
    (Seq<char>, AlbumView),
> {
    albums.map_values(|a: (String, PhotoAlbumConfig)| (a.0@, a.1@))
}

/// The name that decoded bytes give an album.
pub fn folder_name(record_name: &str, decoded: Option<Vec<u8>>) -> (name: String)
    ensures
        name@ == decoded_name(record_name@, bytes_view(decoded)),
{
    let bytes = match decoded {
        Some(bytes) => bytes,
        None => {
            let none: Vec<u8> = Vec::new();
            assert(none@ =~= Seq::empty());
            none
        },
    };
    match text_from_utf8(bytes) {
        Some(name) => name,
        None => record_name.to_owned(),
    }
}

/// Put an album under its name, in place of what stood there.
fn put_album(albums: &mut Vec<(String, PhotoAlbumConfig)>, name: String, album: PhotoAlbumConfig)
    ensures
        album_views(final(albums)@) == put(album_views(old(albums)@), name@, album@),
{
    let ghost before = albums@;
    let ghost (key, item) = (name@, album);
    put_item(albums, name, album);
    proof {
        let view = |a: PhotoAlbumConfig| a@;
        lemma_put_item(before, albums@, key, item, view);
        assert(album_views(before) =~= item_pairs(before, view));
        assert(album_views(albums@) =~= item_pairs(albums@, view));
    }
}

impl PhotoLibrary {
    /// Open a library with the answer to its indexing query. A library is opened only where
    /// its index is finished: a listing of one that is not could miss assets.
    pub fn new(
        service_endpoint: String,
        params: Vec<(String, ParamValue)>,
        zone_id: Json,
        library_type: String,
        answer: &Result<QueryResponse, ApiError>,
    ) -> (library: Result<PhotoLibrary, ICloudError>)
        ensures
            opened_view(library) == opened(
                (LibraryView {
                    service_endpoint: service_endpoint@,
                    params: param_pairs(params@),
                    zone_id: zone_id@,
                    library_type: library_type@,
                }),
                *answer,
            ),
    {
        let response = match answer {
            Ok(response) => response,
            Err(error) => {
                return Err(library_error(error));
            },
        };
        let state = if response.records.len() > 0 {
            response.records[0].fields.field_str("state")
        } else {
            None
        };
        let state = match state {
            Some(state) => state,
            None => {
                return Err(
                    ICloudError::Connection(
                        "Apple did not report whether the photo library is fully indexed; results may be incomplete".to_owned(),
                    ),
                );
            },
        };
        if !str_eq(state, "FINISHED") {
            let mut message = "Apple says the photo library is still indexing (".to_owned();
            message.append(state);
            message.append("); wait until indexing is finished, then retry.");
            return Err(ICloudError::Connection(message));
        }
        Ok(PhotoLibrary { service_endpoint, params, zone_id, library_type })
    }

    /// The zone that the library is.
    pub fn zone_name(&self) -> (name: &str)
        ensures
            name@ == library_zone(self@.zone_id),
    {
        match self.zone_id.get_str("zoneName") {
            Some(name) => name,
            None => PRIMARY_ZONE_NAME,
        }
    }

    /// The identifier of the library's zone.
    pub fn zone_id(&self) -> (zone_id: &Json)
        ensures
            zone_id@ == self@.zone_id,
    {
        &self.zone_id
    }

    /// The kind of library: "private" or "shared".
    pub fn library_type(&self) -> (kind: &str)
        ensures
            kind@ == self@.library_type,
    {
        &self.library_type
    }

    /// Whether the library's folders are among its albums. Those of a shared library are not
    /// asked for.
    pub fn lists_folders(&self) -> (yes: bool)
        ensures
            yes == !is_shared(self@),
    {
        !is_shared_zone(self.zone_name())
    }

    /// The URL that the library is queried at.
    pub fn query_url(&self) -> (url: String)
        ensures
            url@ == self@.service_endpoint + "/records/query"@ + "?"@ + form_encoded(
                sorted_pairs(self@.params),
            ),
    {
        request_url(&self.service_endpoint, "/records/query", &self.params)
    }

    /// The whole library as an album.
    pub fn all(&self) -> (album: PhotoAlbumConfig)
        ensures
            album@ == whole_library(
                self@.params,
                self@.service_endpoint,
                self@.zone_id,
                DEFAULT_PAGE_SIZE,
            ),
    {
        PhotoAlbumConfig {
            params: copy_params(&self.params),
            service_endpoint: self.service_endpoint.clone(),
            name: String::new(),
            list_type: QUERY_ALL_LIST.to_owned(),
            obj_type: QUERY_ALL_OBJ.to_owned(),
            query_filter: None,
            page_size: DEFAULT_PAGE_SIZE,
            zone_id: self.zone_id.duplicate(),
            container_id: None,
        }
    }

    /// The titles of folders. What each is called on disk is for the caller to settle, and to
    /// hand to [`Self::albums`].
    pub fn folder_titles(&self, folders: &Vec<Record>) -> (titles: Vec<String>)
        ensures
            text_views(titles@) == album_titles(record_views(folders@)),
    {
        let mut titles: Vec<String> = Vec::new();
        let mut i: usize = 0;
        while i < folders.len()
            invariant
                i <= folders@.len(),
                text_views(titles@) =~= album_titles(record_views(folders@)).take(i as int),
            decreases folders@.len() - i,
        {
            let folder = &folders[i];
            let title = match folder.fields.field_str("albumNameEnc") {
                Some(encoded) => folder_name(&folder.record_name, decode_base64(encoded)),
                None => folder.record_name.clone(),
            };
            let ghost before = text_views(titles@);
            let ghost view = title@;
            titles.push(title);
            proof {
                let all = album_titles(record_views(folders@));
                assert(all[i as int] == view);
                assert(text_views(titles@) =~= before.push(view));
                assert(all.take(i + 1) =~= all.take(i as int).push(view));
            }
            i = i + 1;
        }
        titles
    }

    /// The album that a folder is, under the name that its title is given.
    fn album_of(&self, folder: &Record, name: &str) -> (album: PhotoAlbumConfig)
        ensures
            album@ == folder_album(self@, folder@, name@),
    {
        let name = match folder.fields.field_str("albumNameEnc") {
            Some(_) => name.to_owned(),
            None => folder.record_name.clone(),
        };
        let mut obj_type = "CPLContainerRelationNotDeletedByAssetDate:".to_owned();
        obj_type.append(&folder.record_name);
        PhotoAlbumConfig {
            params: copy_params(&self.params),
            service_endpoint: self.service_endpoint.clone(),
            name,
            list_type: QUERY_FOLDER_LIST.to_owned(),
            obj_type,
            query_filter: Some(smart_folder_filter("parentId", &folder.record_name)),
            page_size: DEFAULT_PAGE_SIZE,
            zone_id: self.zone_id.duplicate(),
            container_id: Some(folder.record_name.clone()),
        }
    }

    /// The albums that the smart folders are, by name.
    fn smart_folder_albums(&self) -> (albums: Vec<(String, PhotoAlbumConfig)>)
        ensures
            album_views(albums@) == smart_albums(self@, all_smart_folders()),
    {
        let mut albums: Vec<(String, PhotoAlbumConfig)> = Vec::new();
        let folders = smart_folders();
        let ghost views = folder_views(folders@);
        let ghost all = smart_albums(self@, views);
        for folder in it: folders.into_iter()
            invariant
                views == folder_views(it.seq()),
                all == smart_albums(self@, views),
                album_views(albums@) =~= all.take(it.index() as int),
        {
            let ghost i = it.index() as int;
            let ghost before = album_views(albums@);
            assert(views[i] == (folder.0@, folder.1@));
            let (name, def) = folder;
            let album = PhotoAlbumConfig {
                params: copy_params(&self.params),
                service_endpoint: self.service_endpoint.clone(),
                name: name.to_owned(),
                list_type: def.list_type.to_owned(),
                obj_type: def.obj_type.to_owned(),
                query_filter: def.query_filter,
                page_size: DEFAULT_PAGE_SIZE,
                zone_id: self.zone_id.duplicate(),
                container_id: None,
            };
            let ghost view = album@;
            albums.push((name.to_owned(), album));
            proof {
                assert(view =~= smart_album(self@, views[i].0, views[i].1));
                assert(album_views(albums@) =~= before.push(all[i]));
            }
        }
        assert(all.take(all.len() as int) =~= all);
        albums
    }

    /// The albums of the library, by name. `names` are those that the folders' titles are
    /// given on disk, one for each folder.
    pub fn albums(&self, folders: &Vec<Record>, names: &Vec<String>) -> (albums: Vec<
        (String, PhotoAlbumConfig),
    >)
        requires
            names@.len() == folders@.len(),
        ensures
            album_views(albums@) == library_albums(
                self@,
                record_views(folders@),
                text_views(names@),
            ),
    {
        let mut albums = self.smart_folder_albums();
        if self.lists_folders() {
            let ghost views = record_views(folders@);
            let ghost given = text_views(names@);
            let ghost smart = album_views(albums@);
            let mut i: usize = 0;
            while i < folders.len()
                invariant
                    i <= folders@.len(),
                    names@.len() == folders@.len(),
                    views == record_views(folders@),
                    given == text_views(names@),
                    album_views(albums@) == with_folders(
                        self@,
                        smart,
                        views.take(i as int),
                        given.take(i as int),
                    ),
                decreases folders@.len() - i,
            {
                let folder = &folders[i];
                proof {
                    assert(views.take(i + 1).drop_last() =~= views.take(i as int));
                    assert(views.take(i + 1).last() == folder@);
                    assert(given.take(i + 1).drop_last() =~= given.take(i as int));
                    assert(given.take(i + 1).last() == names@[i as int]@);
                }
                let deleted = match folder.fields.field("isDeleted") {
                    Some(value) => value.as_bool() == Some(true),
                    None => false,
                };
                if !str_eq(&folder.record_name, ROOT_FOLDER) && !str_eq(
                    &folder.record_name,
                    PROJECT_ROOT_FOLDER,
                ) && !deleted {
                    let album = self.album_of(folder, &names[i]);
                    put_album(&mut albums, album.name.clone(), album);
                }
                i = i + 1;
            }
            proof {
                assert(views.take(i as int) =~= views);
                assert(given.take(i as int) =~= given);
            }
        }
        albums
    }
}

impl Clone for PhotoLibrary {
    fn clone(&self) -> (copy: Self)
        ensures
            copy@ == self@,
    {
        PhotoLibrary {
            service_endpoint: self.service_endpoint.clone(),
            params: copy_params(&self.params),
            zone_id: self.zone_id.duplicate(),
            library_type: self.library_type.clone(),
        }
    }
}

// Laws.

/// Whether no name stands twice in a list.
pub open spec fn names_distinct<X>(s: Seq<(Seq<char>, X)>) -> bool {
    forall|i: int, j: int| 0 <= i < j < s.len() ==> (#[trigger] s[i]).0 != (#[trigger] s[j]).0
}

/// Where a name stands in a list, its place is found.
proof fn lemma_place_found<X>(s: Seq<(Seq<char>, X)>, name: Seq<char>, i: int)
    requires
        0 <= i < s.len(),
        s[i].0 == name,
    ensures
        place(s, name) is Some,
    decreases i,
{
    if i > 0 && s[0].0 != name {
        lemma_place_found(s.drop_first(), name, i - 1);
    }
}

/// Putting keeps names distinct.
proof fn lemma_put_distinct<X>(s: Seq<(Seq<char>, X)>, name: Seq<char>, x: X)
    requires
        names_distinct(s),
    ensures
        names_distinct(put(s, name, x)),
{
    lemma_place_bounds(s, name);
    if place(s, name) is None {
        assert forall|i: int| 0 <= i < s.len() implies (#[trigger] s[i]).0 != name by {
            if s[i].0 == name {
                lemma_place_found(s, name, i);
            }
        }
    }
}

/// What is put under a name is what stands there.
proof fn lemma_put_value<X>(s: Seq<(Seq<char>, X)>, name: Seq<char>, x: X)
    ensures
        value(put(s, name, x), name) == Some(x),
    decreases s.len(),
{
    if s.len() == 0 {
        lemma_place(s.push((name, x)), name, 0);
    } else if s[0].0 == name {
        lemma_place(s.update(0, (name, x)), name, 0);
    } else {
        let rest = s.drop_first();
        lemma_put_value(rest, name, x);
        lemma_place_bounds(rest, name);
        assert(put(s, name, x).drop_first() =~= put(rest, name, x));
        lemma_place_bounds(put(rest, name, x), name);
    }
}

/// What is put under a name changes nothing under the others.
proof fn lemma_put_others<X>(s: Seq<(Seq<char>, X)>, name: Seq<char>, x: X, other: Seq<char>)
    requires
        other != name,
    ensures
        value(put(s, name, x), other) == value(s, other),
    decreases s.len(),
{
    lemma_place_bounds(s, name);
    lemma_place_bounds(s, other);
    if s.len() == 0 {
        assert(s.push((name, x)).drop_first() =~= Seq::empty());
        assert(place(Seq::<(Seq<char>, X)>::empty(), other) is None);
    } else if s[0].0 == name {
        assert(s.update(0, (name, x)).drop_first() =~= s.drop_first());
        lemma_place_bounds(s.drop_first(), other);
    } else {
        let rest = s.drop_first();
        lemma_put_others(rest, name, x, other);
        lemma_place_bounds(rest, name);
        lemma_place_bounds(rest, other);
        assert(put(s, name, x).drop_first() =~= put(rest, name, x));
        lemma_place_bounds(put(rest, name, x), other);
    }
}

/// Folders keep the names distinct.
proof fn lemma_folders_distinct(
    library: LibraryView,
    albums: Seq<(Seq<char>, AlbumView)>,
    folders: Seq<RecordView>,
    names: Seq<Seq<char>>,
)
    requires
        names_distinct(albums),
    ensures
        names_distinct(with_folders(library, albums, folders, names)),
    decreases folders.len(),
{
    if folders.len() > 0 {
        lemma_folders_distinct(library, albums, folders.drop_last(), names.drop_last());
        let before = with_folders(library, albums, folders.drop_last(), names.drop_last());
        lemma_put_distinct(
            before,
            album_name(folders.last(), names.last()),
            folder_album(library, folders.last(), names.last()),
        );
    }
}

/// No two albums of a library have the same name, whatever their folders' titles are given.
pub proof fn law_album_names_are_distinct(
    library: LibraryView,
    folders: Seq<RecordView>,
    names: Seq<Seq<char>>,
)
    ensures
        names_distinct(library_albums(library, folders, names)),
{
    let smart = smart_albums(library, all_smart_folders());
    assert forall|i: int, j: int| 0 <= i < j < smart.len() implies (#[trigger] smart[i]).0 != (
    #[trigger] smart[j]).0 by {
        law_smart_folder_names_are_distinct(i, j);
    }
    lemma_folders_distinct(library, smart, folders, names);
}

/// What stands under a name after folders are put among the albums.
proof fn lemma_folders_value(
    library: LibraryView,
    albums: Seq<(Seq<char>, AlbumView)>,
    folders: Seq<RecordView>,
    names: Seq<Seq<char>>,
    name: Seq<char>,
)
    ensures
        value(with_folders(library, albums, folders, names), name) == (match last_named(
            folders,
            names,
            name,
        ) {
            Some(folder) => Some(folder_album(library, folder, name)),
            None => value(albums, name),
        }),
    decreases folders.len(),
{
    if folders.len() > 0 {
        let folder = folders.last();
        let given = names.last();
        lemma_folders_value(library, albums, folders.drop_last(), names.drop_last(), name);
        let before = with_folders(library, albums, folders.drop_last(), names.drop_last());
        if is_album(folder) {
            if album_name(folder, given) == name {
                assert(folder_album(library, folder, given) == folder_album(library, folder, name));
                lemma_put_value(before, name, folder_album(library, folder, given));
            } else {
                lemma_put_others(
                    before,
                    album_name(folder, given),
                    folder_album(library, folder, given),
                    name,
                );
            }
        }
    }
}

/// The last folder that is an album of a name.
pub open spec fn last_named(
    folders: Seq<RecordView>,
    names: Seq<Seq<char>>,
    name: Seq<char>,
) -> Option<RecordView>
    decreases folders.len(),
{
    if folders.len() == 0 {
        None
    } else if is_album(folders.last()) && album_name(folders.last(), names.last()) == name {
        Some(folders.last())
    } else {
        last_named(folders.drop_last(), names.drop_last(), name)
    }
}

/// In a library that is not shared, a name stands for the last folder of that name, and for
/// the smart folder of that name where no folder has it.
pub proof fn law_folders_come_before_smart_folders(
    library: LibraryView,
    folders: Seq<RecordView>,
    names: Seq<Seq<char>>,
    name: Seq<char>,
)
    requires
        !is_shared(library),
    ensures
        value(library_albums(library, folders, names), name) == (match last_named(
            folders,
            names,
            name,
        ) {
            Some(folder) => Some(folder_album(library, folder, name)),
            None => value(smart_albums(library, all_smart_folders()), name),
        }),
{
    lemma_folders_value(library, smart_albums(library, all_smart_folders()), folders, names, name);
}

/// Every smart folder's name is an album of every library, shared or not.
pub proof fn law_smart_folders_are_in_every_library(
    library: LibraryView,
    folders: Seq<RecordView>,
    names: Seq<Seq<char>>,
    i: int,
)
    requires
        0 <= i < all_smart_folders().len(),
    ensures
        value(library_albums(library, folders, names), all_smart_folders()[i].0) is Some,
{
    let smart = smart_albums(library, all_smart_folders());
    let name = all_smart_folders()[i].0;
    assert(smart[i].0 == name);
    lemma_place_found(smart, name, i);
    lemma_folders_value(library, smart, folders, names, name);
}

/// The listing after pages, as long as each names one that follows.
pub open spec fn listed_run(pages: Seq<(Seq<RecordView>, Option<Seq<char>>)>) -> ListingView
    decreases pages.len(),
{
    if pages.len() == 0 {
        new_listing()
    } else {
        listed(listed_run(pages.drop_last()), pages.last().0, pages.last().1)
    }
}

/// A listing holds every record of every page that was read, in order.
pub proof fn law_listing_loses_nothing(pages: Seq<(Seq<RecordView>, Option<Seq<char>>)>)
    ensures
        listed_run(pages).pages == pages.len(),
        listed_run(pages).records == pages.map_values(
            |p: (Seq<RecordView>, Option<Seq<char>>)| p.0,
        ).flatten(),
    decreases pages.len(),
{
    let parts = pages.map_values(|p: (Seq<RecordView>, Option<Seq<char>>)| p.0);
    if pages.len() > 0 {
        let front = pages.drop_last();
        law_listing_loses_nothing(front);
        let front_parts = front.map_values(|p: (Seq<RecordView>, Option<Seq<char>>)| p.0);
        assert(parts.drop_last() =~= front_parts);
        parts.lemma_flatten_and_flatten_alt_are_equivalent();
        front_parts.lemma_flatten_and_flatten_alt_are_equivalent();
        assert(parts.last() == pages.last().0);
    }
}

/// A listing asks for no more pages than the cap allows, whatever the server names.
pub proof fn law_listing_ends(
    pages: Seq<(Seq<RecordView>, Option<Seq<char>>)>,
    marker: Option<Seq<char>>,
)
    requires
        pages.len() + 1 >= FOLDER_PAGE_CAP,
    ensures
        listing_step(listed_run(pages), marker) != FolderStep::Next,
{
    law_listing_loses_nothing(pages);
}

/// A failed request says what is wrong with a library: CloudKit's word that the account does
/// not let its photos be read, with its code and its reason; a request that went to the wrong
/// place; a session that is over; and anything else as a failed connection, in the words of the
/// failure.
pub proof fn law_a_failed_request_says_what_is_wrong(error: ApiError)
    ensures
        match error {
            ApiError::CloudKit(server) => request_fault(error) == if server.service_not_activated {
                LibraryFault::NotActivated { code: server.code@, reason: server.reason@ }
            } else {
                LibraryFault::Connection(api_error_text(error))
            },
            ApiError::Http(http) => request_fault(error) == if http.status == 421 {
                LibraryFault::Misdirected
            } else if http.status == 401 || http.status == 403 {
                LibraryFault::Expired(http.status)
            } else {
                LibraryFault::Connection(api_error_text(error))
            },
            _ => request_fault(error) == LibraryFault::Connection(api_error_text(error)),
        },
{
}

/// Security keys are blamed exactly for a 401 whose body says that there is no way to sign in.
pub proof fn law_security_keys_are_blamed_for_their_own(error: ApiError)
    ensures
        blames_security_keys(error) <==> (error matches ApiError::Http(http) && http.status == 401
            && http.body is Some && contains_text(http.body->0@, "no auth method found"@)),
{
}

/// A library is opened exactly where its zone's index is said to be finished by the first
/// record of the answer. Any other state, and none, keeps it closed; so does a failed request,
/// by what it says.
pub proof fn law_only_an_indexed_library_is_opened(
    library: LibraryView,
    answer: Result<QueryResponse, ApiError>,
)
    ensures
        match answer {
            Ok(response) => {
                let records = record_views(response.records@);
                let finished = records.len() > 0 && member_of(
                    member(records[0].fields, "state"@),
                    "value"@,
                ) == Some(JsonView::Text("FINISHED"@));
                &&& opened(library, answer) is Ok <==> finished
                &&& finished ==> opened(library, answer) == Ok::<LibraryView, LibraryFault>(library)
                &&& !finished ==> opened(library, answer)->Err_0 is Connection
            },
            Err(error) => opened(library, answer) == Err::<LibraryView, LibraryFault>(
                request_fault(error),
            ),
        },
{
}

/// The index of a zone is asked for in that zone.
pub proof fn law_the_index_is_asked_for_in_its_zone(zone_id: JsonView)
    ensures
        ({
            let query = indexing_query_body(zone_id);
            &&& text_of(member_of(member(query, "query"@), "recordType"@)) == Some(
                "CheckIndexingState"@,
            )
            &&& member(query, "zoneID"@) == Some(zone_id)
        }),
{
    reveal_strlit("query");
    reveal_strlit("zoneID");
    assert("query"@.len() == 5 && "zoneID"@.len() == 6);
    let members = indexing_query_body(zone_id)->Object_0;
    law_the_first_member_of_a_name_is_read(members, "query"@, 0);
    law_the_first_member_of_a_name_is_read(members, "zoneID"@, 1);
    law_the_first_member_of_a_name_is_read(members[0].1->Object_0, "recordType"@, 0);
}

/// A page of folders is asked for in the library's zone, from the marker on that the page
/// before it named; the first without one.
pub proof fn law_folders_are_asked_for_from_their_marker_on(
    zone_id: JsonView,
    continuation: Option<Seq<char>>,
)
    ensures
        ({
            let query = folder_query_body(zone_id, continuation);
            &&& text_of(member_of(member(query, "query"@), "recordType"@)) == Some(
                "CPLAlbumByPositionLive"@,
            )
            &&& member(query, "zoneID"@) == Some(zone_id)
            &&& match continuation {
                Some(marker) => member(query, "continuationMarker"@) == Some(
                    JsonView::Text(marker),
                ),
                None => member(query, "continuationMarker"@) is None,
            }
        }),
{
    reveal_strlit("query");
    reveal_strlit("zoneID");
    reveal_strlit("continuationMarker");
    assert("query"@.len() == 5 && "zoneID"@.len() == 6 && "continuationMarker"@.len() == 18);
    let query = folder_query_body(zone_id, continuation);
    let members = query->Object_0;
    law_the_first_member_of_a_name_is_read(members, "query"@, 0);
    law_the_first_member_of_a_name_is_read(members, "zoneID"@, 1);
    law_the_first_member_of_a_name_is_read(members[0].1->Object_0, "recordType"@, 0);
    if continuation is Some {
        law_the_first_member_of_a_name_is_read(members, "continuationMarker"@, 2);
    } else {
        law_what_is_not_there_is_not_read(query, "continuationMarker"@);
    }
}

/// A listing goes on exactly where a page names one that follows, with a marker that is not
/// empty, and fewer pages than the cap were read; where the cap stops it, it is cut short, and
/// else it is complete. The next page is asked for by the marker that was named last.
pub proof fn law_a_listing_follows_its_markers(
    listing: ListingView,
    records: Seq<RecordView>,
    marker: Option<Seq<char>>,
)
    ensures
        ({
            let step = listing_step(listing, marker);
            let after = listed(listing, records, marker);
            let follows = marker is Some && marker->0.len() > 0;
            &&& step == FolderStep::Complete <==> !follows
            &&& step == FolderStep::Next <==> follows && listing.pages + 1 < 64
            &&& step == FolderStep::Truncated <==> follows && listing.pages + 1 >= 64
            &&& follows ==> after.continuation == marker
            &&& !follows ==> after.continuation == listing.continuation
            &&& after.pages == listing.pages + 1
            &&& after.records == listing.records + records
        }),
{
}

/// A folder is an album unless it is one of the two roots or is marked as deleted.
pub proof fn law_roots_and_deleted_folders_are_no_albums(folder: RecordView)
    ensures
        is_album(folder) <==> folder.record_name != "----Root-Folder----"@ && folder.record_name
            != "----Project-Root-Folder----"@ && member_of(
            member(folder.fields, "isDeleted"@),
            "value"@,
        ) != Some(JsonView::Bool(true)),
{
}

/// An album's title is the text that its encoded name stands for; one whose bytes are no text,
/// and an album without a name, go by the record's name. A name that is no base64 is empty.
pub proof fn law_an_albums_title_is_its_decoded_name(folder: RecordView)
    ensures
        match member_of(member(folder.fields, "albumNameEnc"@), "value"@) {
            Some(JsonView::Text(encoded)) => match base64_bytes(encoded) {
                Some(bytes) => album_title(folder) == if vstd::utf8::valid_utf8(bytes) {
                    vstd::utf8::decode_utf8(bytes)
                } else {
                    folder.record_name
                },
                None => album_title(folder).len() == 0,
            },
            _ => album_title(folder) == folder.record_name && forall|name: Seq<char>| #[trigger]
                album_name(folder, name) == folder.record_name,
        },
        member_of(member(folder.fields, "albumNameEnc"@), "value"@) matches Some(JsonView::Text(_))
            ==> forall|name: Seq<char>| #[trigger] album_name(folder, name) == name,
{
    let empty = Seq::<u8>::empty();
    assert(vstd::utf8::valid_utf8(empty)) by {
        reveal_with_fuel(vstd::utf8::valid_utf8, 1);
    }
    assert(vstd::utf8::decode_utf8(empty).len() == 0) by {
        reveal_with_fuel(vstd::utf8::decode_utf8, 1);
    }
}

/// A folder's album lists and counts the folder's own members, in the library's own zone and
/// through its own endpoint: the list by a filter on the parent, the count by an index that is
/// named after the folder. It goes by the name that it was given, and knows its container.
pub proof fn law_a_folders_album_reads_its_own_members(
    library: LibraryView,
    folder: RecordView,
    name: Seq<char>,
)
    ensures
        ({
            let album = folder_album(library, folder, name);
            let filter = album.query_filter->0;
            &&& album.zone_id == library.zone_id
            &&& album.service_endpoint == library.service_endpoint
            &&& album.params == library.params
            &&& album.name == album_name(folder, name)
            &&& album.container_id == Some(folder.record_name)
            &&& album.list_type == "CPLContainerRelationLiveByAssetDate"@
            &&& album.obj_type == "CPLContainerRelationNotDeletedByAssetDate:"@ + folder.record_name
            &&& album.page_size == 100
            &&& album.query_filter is Some
            &&& filter is List
            &&& filter->List_0.len() == 1
            &&& says(
                filter->List_0[0],
                "parentId"@,
                "STRING"@,
                JsonView::Text(folder.record_name),
                "EQUALS"@,
            )
        }),
{
    law_a_condition_says_what_it_was_made_of(
        "parentId"@,
        "STRING"@,
        JsonView::Text(folder.record_name),
        "EQUALS"@,
    );
}

/// A smart folder's album is asked for as the folder's definition says, in the library's own
/// zone and through its own endpoint; it has no container.
pub proof fn law_a_smart_album_is_asked_for_by_its_definition(
    library: LibraryView,
    name: Seq<char>,
    def: FolderDefView,
)
    ensures
        ({
            let album = smart_album(library, name, def);
            &&& album.zone_id == library.zone_id
            &&& album.service_endpoint == library.service_endpoint
            &&& album.params == library.params
            &&& album.name == name
            &&& album.list_type == def.list_type
            &&& album.obj_type == def.obj_type
            &&& album.query_filter == def.query_filter
            &&& album.container_id is None
            &&& album.page_size == 100
        }),
{
}

/// A shared library has its smart folders and no other albums, whatever folders are listed.
pub proof fn law_a_shared_library_has_no_folders(
    library: LibraryView,
    folders: Seq<RecordView>,
    names: Seq<Seq<char>>,
)
    requires
        text_of(member(library.zone_id, "zoneName"@)) is Some,
        "SharedSync-"@.is_prefix_of(text_of(member(library.zone_id, "zoneName"@))->0),
    ensures
        library_albums(library, folders, names).len() == all_smart_folders().len(),
        forall|i: int|
            0 <= i < all_smart_folders().len() ==> {
                let (name, album) = #[trigger] library_albums(library, folders, names)[i];
                &&& name == all_smart_folders()[i].0
                &&& album == smart_album(library, name, all_smart_folders()[i].1)
            },
{
}

/// A library without a named zone is the primary one, which is not shared.
pub proof fn law_a_library_without_a_zone_is_the_primary_one(library: LibraryView)
    requires
        text_of(member(library.zone_id, "zoneName"@)) is None,
    ensures
        library_zone(library.zone_id) == "PrimarySync"@,
        !is_shared(library),
{
    reveal_strlit("PrimarySync");
    reveal_strlit("SharedSync-");
    if is_shared(library) {
        let zone = library_zone(library.zone_id);
        assert("SharedSync-"@[0] == 'S');
        assert("PrimarySync"@[0] == 'P');
        assert(zone.subrange(0, 11)[0] == zone[0]);
    }
}

/// A fault says what the error says that it was made of.
pub proof fn law_a_fault_says_what_its_error_says(error: ICloudError)
    ensures
        fault_text(fault_of(error)) == error_text(error),
{
}

/// The titles of folders stand in the order of the folders.
pub proof fn law_titles_stand_in_the_order_of_folders(folders: Seq<RecordView>, i: int)
    requires
        0 <= i < folders.len(),
    ensures
        album_titles(folders).len() == folders.len(),
        album_titles(folders)[i] == album_title(folders[i]),
{
}

} // verus!
