//! Photo and video assets, put together from a master and an asset record.
use crate::cloudkit::{Record, RecordView};
use crate::dates::LAST_MILLIS;
use crate::enc::{decode_string, enc_text};
use crate::json::{
    field, member, member_of, number_of, option_str_view, text_of, unsigned_of, Json, JsonNumber,
    JsonView,
};
use crate::metadata::{
    extract, instant_field, instant_of, metadata_of, AssetMetadata, MetadataView,
};
use crate::paths::{extension, path_extension};
use crate::queries::{
    item_type_from_str, item_type_named, IMAGE_TYPES, PHOTO_VERSION_LOOKUP, VIDEO_VERSION_LOOKUP,
};
use crate::text::{
    ascii_lowered, ends_with, eq_ignore_ascii_case, option_view, str_eq, to_ascii_lowercase,
};
use crate::types::{
    boxed, boxed_view, AssetItemType, AssetVersion, AssetVersionSize, AssetVersionView,
};
use crate::versions::{law_the_version_of_a_size_is_found, version_of_size, VersionsMap};
use vstd::prelude::*;

verus! {

/// The host suffixes that files are downloaded from: content delivery only, so that a
/// malformed response cannot point at another of Apple's services.
pub const ALLOWED_DOWNLOAD_HOST_SUFFIXES: [&'static str; 3] = [
    ".icloud-content.com",
    ".icloud-content.com.cn",
    ".cdn-apple.com",
];

/// The extensions that mark a still image where the record does not say.
pub const IMAGE_EXTENSIONS: [&'static str; 5] = ["heic", "png", "jpg", "jpeg", "webp"];

/// The scheme of a URL and its host, where it has one.
pub struct UrlParts {
    pub scheme: String,
    pub host: Option<String>,
}

/// The view of the parts of a URL, where it could be parsed.
pub open spec fn url_parts_view(parts: Option<UrlParts>) -> Option<(Seq<char>, Option<Seq<char>>)> {
    match parts {
        Some(parts) => Some((parts.scheme@, option_view(parts.host))),
        None => None,
    }
}

/// The scheme and the host that the URL standard gives a text.
pub uninterp spec fn url_parts(raw: Seq<char>) -> Option<(Seq<char>, Option<Seq<char>>)>;

/// `Url::parse` of `url`: the scheme and the host, or none where the text is no URL.
#[verifier::external_body]
fn parse_url(raw: &str) -> (parts: Option<UrlParts>)
    ensures
        url_parts_view(parts) == url_parts(raw@),
{
    let parsed = url::Url::parse(raw).ok()?;
    Some(UrlParts { scheme: parsed.scheme().to_owned(), host: parsed.host_str().map(str::to_owned) })
}

/// Whether files are downloaded from a host.
pub open spec fn host_allowed(host: Seq<char>) -> bool {
    exists|i: int|
        0 <= i < ALLOWED_DOWNLOAD_HOST_SUFFIXES@.len()
            && (#[trigger] ALLOWED_DOWNLOAD_HOST_SUFFIXES@[i])@.is_suffix_of(ascii_lowered(host))
}

/// Why a URL with these parts is not fetched; none where it is.
pub open spec fn url_fault(raw: Seq<char>, parts: Option<(Seq<char>, Option<Seq<char>>)>) -> Option<
    Seq<char>,
> {
    if raw.len() == 0 {
        Some("empty URL"@)
    } else {
        match parts {
            None => Some("malformed URL"@),
            Some((scheme, host)) => if scheme != "https"@ {
                Some("non-https scheme"@)
            } else {
                match host {
                    None => Some("missing host"@),
                    Some(host) => if host_allowed(host) {
                        None
                    } else {
                        Some("host not in Apple CDN allowlist"@)
                    },
                }
            },
        }
    }
}

/// The reason of a refusal, where there was one.
pub open spec fn refusal(result: Result<(), &'static str>) -> Option<Seq<char>> {
    match result {
        Ok(()) => None,
        Err(reason) => Some(reason@),
    }
}

/// Whether files are downloaded from a host.
fn is_host_allowed(host: &str) -> (allowed: bool)
    ensures
        allowed == host_allowed(host@),
{
    let lower = to_ascii_lowercase(host);
    let suffixes = ALLOWED_DOWNLOAD_HOST_SUFFIXES;
    let mut i: usize = 0;
    while i < suffixes.len()
        invariant
            suffixes == ALLOWED_DOWNLOAD_HOST_SUFFIXES,
            lower@ == ascii_lowered(host@),
            i <= suffixes.len(),
            forall|j: int|
                0 <= j < i ==> !(#[trigger] ALLOWED_DOWNLOAD_HOST_SUFFIXES@[j])@.is_suffix_of(
                    ascii_lowered(host@),
                ),
        decreases suffixes.len() - i,
    {
        if ends_with(&lower, suffixes[i]) {
            assert(ALLOWED_DOWNLOAD_HOST_SUFFIXES@[i as int]@.is_suffix_of(ascii_lowered(host@)));
            return true;
        }
        i = i + 1;
    }
    false
}

/// Check a URL by its parts: it has to be an https one on a content delivery host.
pub fn check_download_url(raw: &str, parts: &Option<UrlParts>) -> (result: Result<(), &'static str>)
    ensures
        refusal(result) == url_fault(raw@, url_parts_view(*parts)),
{
    proof {
        reveal_strlit("");
        assert(raw@.len() == 0 ==> raw@ =~= ""@);
    }
    if str_eq(raw, "") {
        return Err("empty URL");
    }
    match parts {
        None => Err("malformed URL"),
        Some(parts) => if !str_eq(&parts.scheme, "https") {
            Err("non-https scheme")
        } else {
            match &parts.host {
                None => Err("missing host"),
                Some(host) => if is_host_allowed(host) {
                    Ok(())
                } else {
                    Err("host not in Apple CDN allowlist")
                },
            }
        },
    }
}

/// Check that a download URL from CloudKit is safe to fetch from. A refusal carries a short
/// reason.
pub fn validate_download_url(raw: &str) -> (result: Result<(), &'static str>)
    ensures
        refusal(result) == url_fault(raw@, url_parts(raw@)),
{
    let parts = parse_url(raw);
    check_download_url(raw, &parts)
}

/// A resource that CloudKit advertised with a value that cannot be used. That an optional
/// resource is absent is normal and not recorded.
#[derive(Debug, PartialEq, Eq)]
pub struct MalformedResource {
    pub version_size: AssetVersionSize,
    pub field: Box<str>,
    pub reason: Box<str>,
}

/// A [`MalformedResource`] with its texts taken by their characters.
#[verifier::ext_equal]
pub struct MalformedView {
    pub version_size: AssetVersionSize,
    pub field: Seq<char>,
    pub reason: Seq<char>,
}

impl View for MalformedResource {
    type V = MalformedView;

    open spec fn view(&self) -> MalformedView {
        MalformedView {
            version_size: self.version_size,
            field: self.field@,
            reason: self.reason@,
        }
    }
}

/// The views of a list of malformed resources.
pub open spec fn malformed_views(list: Seq<MalformedResource>) -> Seq<MalformedView> {
    list.map_values(|m: MalformedResource| m@)
}

/// What one resource of a pair of records comes to.
#[verifier::ext_equal]
pub enum ResourceView {
    Absent,
    Usable(AssetVersionView),
    Malformed(Seq<char>, Seq<char>),
}

/// What [`ResourceView`] is of, as it is found.
pub enum Resource {
    Absent,
    Usable(AssetVersion),
    Malformed(Box<str>, Box<str>),
}

impl View for Resource {
    type V = ResourceView;

    open spec fn view(&self) -> ResourceView {
        match self {
            Resource::Absent => ResourceView::Absent,
            Resource::Usable(version) => ResourceView::Usable(version@),
            Resource::Malformed(field, reason) => ResourceView::Malformed(field@, reason@),
        }
    }
}

/// What a resource entry comes to, with the file type that stands beside it.
pub open spec fn entry_resource(
    entry: JsonView,
    res_field: Seq<char>,
    type_field: Seq<char>,
    file_type: Option<Seq<char>>,
) -> ResourceView {
    let url = text_of(member(entry, "downloadURL"@));
    let checksum = text_of(member(entry, "fileChecksum"@));
    if entry == JsonView::Null {
        ResourceView::Malformed(res_field, "resource value is null"@)
    } else if unsigned_of(member(entry, "size"@)) is None {
        ResourceView::Malformed(res_field + ".size"@, "missing size"@)
    } else if url is None {
        ResourceView::Malformed(res_field + ".downloadURL"@, "missing downloadURL"@)
    } else if url_fault(url->0, url_parts(url->0)) is Some {
        ResourceView::Malformed(
            res_field + ".downloadURL"@,
            url_fault(url->0, url_parts(url->0))->0,
        )
    } else if checksum is None {
        ResourceView::Malformed(res_field + ".fileChecksum"@, "missing fileChecksum"@)
    } else if checksum->0.len() == 0 {
        ResourceView::Malformed(res_field + ".fileChecksum"@, "empty fileChecksum"@)
    } else if file_type is None || file_type->0.len() == 0 {
        ResourceView::Malformed(type_field, "missing or empty asset type"@)
    } else {
        ResourceView::Usable(
            AssetVersionView {
                size: unsigned_of(member(entry, "size"@))->0,
                url: url->0,
                asset_type: file_type->0,
                checksum: checksum->0,
            },
        )
    }
}

/// What a resource of a pair of records comes to. The asset record is preferred, so that an
/// edited version wins over the original.
pub open spec fn pair_resource(
    master: JsonView,
    asset: JsonView,
    res_field: Seq<char>,
    type_field: Seq<char>,
) -> ResourceView {
    let fields = if member(asset, res_field) is Some {
        asset
    } else {
        master
    };
    if member(fields, res_field) is None {
        ResourceView::Absent
    } else {
        let entry = match field(fields, res_field) {
            Some(entry) => entry,
            None => JsonView::Null,
        };
        entry_resource(entry, res_field, type_field, text_of(field(fields, type_field)))
    }
}

/// The usable versions among the first `n` of a table.
pub open spec fn usable_versions(
    table: Seq<(AssetVersionSize, &'static str, &'static str)>,
    master: JsonView,
    asset: JsonView,
    n: int,
) -> Seq<(AssetVersionSize, AssetVersionView)>
    decreases n,
{
    if n <= 0 {
        Seq::empty()
    } else {
        let row = table[n - 1];
        let before = usable_versions(table, master, asset, n - 1);
        match pair_resource(master, asset, row.1@, row.2@) {
            ResourceView::Usable(version) => before.push((row.0, version)),
            _ => before,
        }
    }
}

/// The malformed resources among the first `n` of a table.
pub open spec fn malformed_among(
    table: Seq<(AssetVersionSize, &'static str, &'static str)>,
    master: JsonView,
    asset: JsonView,
    n: int,
) -> Seq<MalformedView>
    decreases n,
{
    if n <= 0 {
        Seq::empty()
    } else {
        let row = table[n - 1];
        let before = malformed_among(table, master, asset, n - 1);
        match pair_resource(master, asset, row.1@, row.2@) {
            ResourceView::Malformed(field, reason) => before.push(
                MalformedView { version_size: row.0, field, reason },
            ),
            _ => before,
        }
    }
}

/// The table of versions for an item type.
pub open spec fn version_table(item_type: AssetItemType) -> Seq<
    (AssetVersionSize, &'static str, &'static str),
> {
    if item_type == AssetItemType::Movie {
        VIDEO_VERSION_LOOKUP@
    } else {
        PHOTO_VERSION_LOOKUP@
    }
}

/// The name of a resource's subfield.
fn subfield(res_field: &str, suffix: &str) -> (name: Box<str>)
    ensures
        name@ == res_field@ + suffix@,
{
    let mut name = res_field.to_owned();
    name.append(suffix);
    name.into_boxed_str()
}

/// What a resource entry comes to.
fn read_entry(entry: &Json, res_field: &str, type_field: &str, file_type: Option<&str>) -> (resource:
    Resource)
    ensures
        resource@ == entry_resource(entry@, res_field@, type_field@, option_str_view(file_type)),
{
    proof {
        reveal_strlit("");
    }
    if entry.is_null() {
        return Resource::Malformed(boxed(res_field), boxed("resource value is null"));
    }
    let size = match entry.get("size") {
        Some(size) => size.as_u64(),
        None => None,
    };
    let size = match size {
        Some(size) => size,
        None => {
            return Resource::Malformed(subfield(res_field, ".size"), boxed("missing size"));
        },
    };
    let url = match entry.get_str("downloadURL") {
        Some(url) => match validate_download_url(url) {
            Ok(()) => url,
            Err(reason) => {
                return Resource::Malformed(subfield(res_field, ".downloadURL"), boxed(reason));
            },
        },
        None => {
            return Resource::Malformed(
                subfield(res_field, ".downloadURL"),
                boxed("missing downloadURL"),
            );
        },
    };
    let checksum = match entry.get_str("fileChecksum") {
        Some(checksum) => {
            proof {
                assert(checksum@.len() == 0 ==> checksum@ =~= ""@);
            }
            if str_eq(checksum, "") {
                return Resource::Malformed(
                    subfield(res_field, ".fileChecksum"),
                    boxed("empty fileChecksum"),
                );
            }
            checksum
        },
        None => {
            return Resource::Malformed(
                subfield(res_field, ".fileChecksum"),
                boxed("missing fileChecksum"),
            );
        },
    };
    let asset_type = match file_type {
        Some(file_type) => {
            proof {
                assert(file_type@.len() == 0 ==> file_type@ =~= ""@);
            }
            if str_eq(file_type, "") {
                return Resource::Malformed(boxed(type_field), boxed("missing or empty asset type"));
            }
            file_type
        },
        None => {
            return Resource::Malformed(boxed(type_field), boxed("missing or empty asset type"));
        },
    };
    Resource::Usable(
        AssetVersion {
            size,
            url: boxed(url),
            asset_type: boxed(asset_type),
            checksum: boxed(checksum),
        },
    )
}

/// What a resource of a pair of records comes to.
fn read_resource(
    master_fields: &Json,
    asset_fields: &Json,
    res_field: &str,
    type_field: &str,
) -> (resource: Resource)
    ensures
        resource@ == pair_resource(master_fields@, asset_fields@, res_field@, type_field@),
{
    let fields = if asset_fields.get(res_field).is_some() {
        asset_fields
    } else {
        master_fields
    };
    if fields.get(res_field).is_none() {
        return Resource::Absent;
    }
    let file_type = fields.field_str(type_field);
    match fields.field(res_field) {
        Some(entry) => read_entry(entry, res_field, type_field, file_type),
        None => read_entry(&Json::Null, res_field, type_field, file_type),
    }
}

/// Read the versions that can be downloaded, and what stood in the way of the others.
/// Reading them here keeps the raw records out of the asset.
pub fn extract_versions(item_type: AssetItemType, master_fields: &Json, asset_fields: &Json) -> (result: (
    VersionsMap,
    Vec<MalformedResource>,
))
    ensures
        result.0@ == usable_versions(
            version_table(item_type),
            master_fields@,
            asset_fields@,
            version_table(item_type).len() as int,
        ),
        malformed_views(result.1@) == malformed_among(
            version_table(item_type),
            master_fields@,
            asset_fields@,
            version_table(item_type).len() as int,
        ),
{
    let photo = PHOTO_VERSION_LOOKUP;
    let video = VIDEO_VERSION_LOOKUP;
    let rows: usize = if item_type == AssetItemType::Movie {
        video.len()
    } else {
        photo.len()
    };
    let ghost table = version_table(item_type);
    let mut versions = VersionsMap::new();
    let mut malformed: Vec<MalformedResource> = Vec::new();
    let mut i: usize = 0;
    while i < rows
        invariant
            photo == PHOTO_VERSION_LOOKUP,
            video == VIDEO_VERSION_LOOKUP,
            table == version_table(item_type),
            rows == table.len(),
            i <= rows,
            versions@ == usable_versions(table, master_fields@, asset_fields@, i as int),
            malformed_views(malformed@) =~= malformed_among(
                table,
                master_fields@,
                asset_fields@,
                i as int,
            ),
        decreases rows - i,
    {
        let (size, res_field, type_field) = if item_type == AssetItemType::Movie {
            video[i]
        } else {
            photo[i]
        };
        match read_resource(master_fields, asset_fields, res_field, type_field) {
            Resource::Absent => {},
            Resource::Usable(version) => {
                versions.push(size, version);
            },
            Resource::Malformed(field, reason) => {
                let ghost before = malformed_views(malformed@);
                let ghost added = MalformedView {
                    version_size: size,
                    field: field@,
                    reason: reason@,
                };
                malformed.push(MalformedResource { version_size: size, field, reason });
                assert(malformed_views(malformed@) =~= before.push(added));
            },
        }
        i = i + 1;
    }
    (versions, malformed)
}

/// Every version that an asset offers can be fetched and checked: its URL is an https one on
/// a content delivery host, and its checksum and file type are there.
pub proof fn law_versions_are_fetchable(
    table: Seq<(AssetVersionSize, &'static str, &'static str)>,
    master: JsonView,
    asset: JsonView,
    n: int,
    i: int,
)
    requires
        0 <= i < usable_versions(table, master, asset, n).len(),
    ensures
        ({
            let version = usable_versions(table, master, asset, n)[i].1;
            &&& url_fault(version.url, url_parts(version.url)) is None
            &&& version.checksum.len() > 0
            &&& version.asset_type.len() > 0
        }),
    decreases n,
{
    if n > 0 {
        let before = usable_versions(table, master, asset, n - 1);
        if i < before.len() {
            law_versions_are_fetchable(table, master, asset, n - 1, i);
        }
    }
}

/// Every row of the table that the records advertise is accounted for: it gives a version or
/// a malformed resource, never both.
pub proof fn law_resources_accounted_for(
    table: Seq<(AssetVersionSize, &'static str, &'static str)>,
    master: JsonView,
    asset: JsonView,
    n: int,
)
    requires
        0 <= n <= table.len(),
    ensures
        usable_versions(table, master, asset, n).len() + malformed_among(
            table,
            master,
            asset,
            n,
        ).len() == table.take(n).filter(
            |row: (AssetVersionSize, &'static str, &'static str)|
                pair_resource(master, asset, row.1@, row.2@) != ResourceView::Absent,
        ).len(),
    decreases n,
{
    let advertised = |row: (AssetVersionSize, &'static str, &'static str)|
        pair_resource(master, asset, row.1@, row.2@) != ResourceView::Absent;
    reveal(Seq::filter);
    if n > 0 {
        law_resources_accounted_for(table, master, asset, n - 1);
        assert(table.take(n).drop_last() =~= table.take(n - 1));
    }
}

/// A photo or video asset from iCloud. The dates are in milliseconds since the Unix epoch.
#[derive(Debug)]
pub struct PhotoAsset {
    pub record_name: Box<str>,
    pub asset_record_name: Box<str>,
    pub state_record_name: Option<Box<str>>,
    pub source_zone: Option<Box<str>>,
    pub filename: Option<Box<str>>,
    pub asset_metadata: Box<AssetMetadata>,
    pub versions: VersionsMap,
    pub malformed_resources: Box<Vec<MalformedResource>>,
    pub asset_date_ms: i64,
    pub added_date_ms: i64,
    pub item_type_val: AssetItemType,
}

/// A [`PhotoAsset`] with its texts taken by their characters.
#[verifier::ext_equal]
pub struct PhotoAssetView {
    pub record_name: Seq<char>,
    pub asset_record_name: Seq<char>,
    pub state_record_name: Option<Seq<char>>,
    pub source_zone: Option<Seq<char>>,
    pub filename: Option<Seq<char>>,
    pub metadata: MetadataView,
    pub versions: Seq<(AssetVersionSize, AssetVersionView)>,
    pub malformed: Seq<MalformedView>,
    pub asset_date: int,
    pub added_date: int,
    pub item_type: AssetItemType,
}

impl View for PhotoAsset {
    type V = PhotoAssetView;

    open spec fn view(&self) -> PhotoAssetView {
        PhotoAssetView {
            record_name: self.record_name@,
            asset_record_name: self.asset_record_name@,
            state_record_name: boxed_view(self.state_record_name),
            source_zone: boxed_view(self.source_zone),
            filename: boxed_view(self.filename),
            metadata: self.asset_metadata@,
            versions: self.versions@,
            malformed: malformed_views(self.malformed_resources@),
            asset_date: self.asset_date_ms as int,
            added_date: self.added_date_ms as int,
            item_type: self.item_type_val,
        }
    }
}

/// The file name that a master's fields carry. An empty one counts as missing, so that no
/// path ends in a directory or in a bare extension.
pub open spec fn fields_filename(fields: JsonView) -> Option<Seq<char>> {
    match enc_text(fields, "filenameEnc"@) {
        Some(name) => if name.len() == 0 {
            None
        } else {
            Some(name)
        },
        None => None,
    }
}

/// Whether a file name ends as those of still images do.
pub open spec fn names_image(filename: Option<Seq<char>>) -> bool {
    match filename {
        Some(name) => match path_extension(name) {
            Some(extension) => exists|i: int|
                0 <= i < IMAGE_EXTENSIONS@.len() && ascii_lowered(extension) == ascii_lowered(
                    (#[trigger] IMAGE_EXTENSIONS@[i])@,
                ),
            None => false,
        },
        None => false,
    }
}

/// The item type that a master's fields say, else the one that the file name suggests. What
/// is still unknown is a movie: those are likelier to have an unusual type identifier.
pub open spec fn fields_item_type(fields: JsonView, filename: Option<Seq<char>>) -> AssetItemType {
    let said = match text_of(field(fields, "itemType"@)) {
        Some(s) => item_type_named(s),
        None => None,
    };
    match said {
        Some(item_type) => item_type,
        None => if names_image(filename) {
            AssetItemType::Image
        } else {
            AssetItemType::Movie
        },
    }
}

/// The instant that a field holds, or the epoch.
pub open spec fn instant_or_epoch(json: Option<JsonView>) -> int {
    match instant_of(json) {
        Some(millis) => millis,
        None => 0,
    }
}

/// The asset that the fields of a pair of records give.
pub open spec fn asset_of_fields(
    record_name: Seq<char>,
    asset_record_name: Seq<char>,
    master: JsonView,
    asset: JsonView,
    source_zone: Option<Seq<char>>,
) -> PhotoAssetView {
    let filename = fields_filename(master);
    let item_type = fields_item_type(master, filename);
    let table = version_table(item_type);
    PhotoAssetView {
        record_name,
        asset_record_name,
        state_record_name: None,
        source_zone,
        filename,
        metadata: metadata_of(master, asset),
        versions: usable_versions(table, master, asset, table.len() as int),
        malformed: malformed_among(table, master, asset, table.len() as int),
        asset_date: instant_or_epoch(field(asset, "assetDate"@)),
        added_date: instant_or_epoch(field(asset, "addedDate"@)),
        item_type,
    }
}

/// The asset that a pair of records gives.
pub open spec fn asset_of(
    master: RecordView,
    asset: RecordView,
    source_zone: Option<Seq<char>>,
) -> PhotoAssetView {
    asset_of_fields(
        master.record_name,
        asset.record_name,
        master.fields,
        asset.fields,
        source_zone,
    )
}

/// The fields of a record that is still JSON.
pub open spec fn json_fields(record: JsonView) -> JsonView {
    match member(record, "fields"@) {
        Some(fields) => fields,
        None => JsonView::Null,
    }
}

/// The asset that a pair of records gives, both still JSON.
pub open spec fn asset_of_json(master: JsonView, asset: JsonView) -> PhotoAssetView {
    let record_name = match text_of(member(master, "recordName"@)) {
        Some(name) => name,
        None => Seq::empty(),
    };
    let asset_record_name = match text_of(member(asset, "recordName"@)) {
        Some(name) => name,
        None => record_name,
    };
    asset_of_fields(record_name, asset_record_name, json_fields(master), json_fields(asset), None)
}

/// Whether an asset is a live photo: a still image with a companion video.
pub open spec fn is_live(asset: PhotoAssetView) -> bool {
    asset.item_type == AssetItemType::Image && (version_of_size(
        asset.versions,
        AssetVersionSize::LiveOriginal,
    ) is Some || version_of_size(asset.versions, AssetVersionSize::LiveMedium) is Some
        || version_of_size(asset.versions, AssetVersionSize::LiveThumb) is Some || version_of_size(
        asset.versions,
        AssetVersionSize::LiveAdjusted,
    ) is Some)
}

/// The name that an asset's state is kept under.
pub open spec fn state_name(asset: PhotoAssetView) -> Seq<char> {
    match asset.state_record_name {
        Some(name) => name,
        None => asset.record_name,
    }
}

/// The file name that a master's fields carry.
fn decode_filename(fields: &Json) -> (name: Option<String>)
    ensures
        option_view(name) == fields_filename(fields@),
{
    match decode_string(fields, "filenameEnc") {
        Some(name) => {
            proof {
                reveal_strlit("");
                assert(name@.len() == 0 ==> name@ =~= ""@);
            }
            if str_eq(&name, "") {
                None
            } else {
                Some(name)
            }
        },
        None => None,
    }
}

/// Whether a file name ends as those of still images do.
fn is_image_name(filename: &Option<String>) -> (image: bool)
    ensures
        image == names_image(option_view(*filename)),
{
    let ext = match filename {
        Some(name) => extension(name),
        None => None,
    };
    match ext {
        Some(ext) => {
            let images = IMAGE_EXTENSIONS;
            let mut i: usize = 0;
            while i < images.len()
                invariant
                    images == IMAGE_EXTENSIONS,
                    i <= images.len(),
                    filename is Some,
                    path_extension(filename->0@) == Some(ext@),
                    forall|j: int|
                        0 <= j < i ==> ascii_lowered(ext@) != ascii_lowered(
                            (#[trigger] IMAGE_EXTENSIONS@[j])@,
                        ),
                decreases images.len() - i,
            {
                if eq_ignore_ascii_case(&ext, images[i]) {
                    assert(ascii_lowered(ext@) == ascii_lowered(IMAGE_EXTENSIONS@[i as int]@));
                    return true;
                }
                i = i + 1;
            }
            false
        },
        None => false,
    }
}

/// The item type that a master's fields say, else the one that the file name suggests.
fn resolve_item_type(fields: &Json, filename: &Option<String>) -> (item_type: AssetItemType)
    ensures
        item_type == fields_item_type(fields@, option_view(*filename)),
{
    if let Some(s) = fields.field_str("itemType") {
        if let Some(item_type) = item_type_from_str(s) {
            return item_type;
        }
    }
    if is_image_name(filename) {
        AssetItemType::Image
    } else {
        AssetItemType::Movie
    }
}

/// The instant that a field holds, or the epoch.
fn date_or_epoch(fields: &Json, key: &str) -> (millis: i64)
    ensures
        millis == instant_or_epoch(field(fields@, key@)),
{
    match instant_field(fields, key) {
        Some(millis) => millis,
        None => 0,
    }
}

/// A copy of an optional text, boxed.
fn boxed_option(s: Option<&str>) -> (b: Option<Box<str>>)
    ensures
        boxed_view(b) == option_str_view(s),
{
    match s {
        Some(s) => Some(boxed(s)),
        None => None,
    }
}

impl PhotoAsset {
    /// Put an asset together from the fields of a pair of records.
    fn build(
        record_name: &str,
        asset_record_name: &str,
        master_fields: &Json,
        asset_fields: &Json,
        source_zone: Option<&str>,
    ) -> (asset: Self)
        ensures
            asset@ == asset_of_fields(
                record_name@,
                asset_record_name@,
                master_fields@,
                asset_fields@,
                option_str_view(source_zone),
            ),
    {
        let filename = decode_filename(master_fields);
        let item_type_val = resolve_item_type(master_fields, &filename);
        let (versions, malformed) = extract_versions(item_type_val, master_fields, asset_fields);
        PhotoAsset {
            record_name: boxed(record_name),
            asset_record_name: boxed(asset_record_name),
            state_record_name: None,
            source_zone: boxed_option(source_zone),
            filename: match filename {
                Some(filename) => Some(filename.into_boxed_str()),
                None => None,
            },
            asset_metadata: Box::new(extract(master_fields, asset_fields)),
            versions,
            malformed_resources: Box::new(malformed),
            asset_date_ms: date_or_epoch(asset_fields, "assetDate"),
            added_date_ms: date_or_epoch(asset_fields, "addedDate"),
            item_type_val,
        }
    }

    /// Put an asset together from two records that are still JSON.
    pub fn new(master_record: &Json, asset_record: &Json) -> (asset: Self)
        ensures
            asset@ == asset_of_json(master_record@, asset_record@),
    {
        proof {
            reveal_strlit("");
            assert(""@ =~= Seq::<char>::empty());
        }
        let record_name = match master_record.get_str("recordName") {
            Some(name) => name,
            None => "",
        };
        let asset_record_name = match asset_record.get_str("recordName") {
            Some(name) => name,
            None => record_name,
        };
        let none = Json::Null;
        let master_fields = match master_record.get("fields") {
            Some(fields) => fields,
            None => &none,
        };
        let asset_fields = match asset_record.get("fields") {
            Some(fields) => fields,
            None => &none,
        };
        Self::build(record_name, asset_record_name, master_fields, asset_fields, None)
    }

    /// Put an asset together from a master and an asset record.
    pub fn from_records(master: &Record, asset: &Record) -> (result: Self)
        ensures
            result@ == asset_of(master@, asset@, None),
    {
        Self::from_records_in_zone(master, asset, None)
    }

    /// Put an asset together from a master and an asset record, and note the zone that they
    /// came from.
    pub fn from_records_in_zone(master: &Record, asset: &Record, source_zone: Option<&str>) -> (result:
        Self)
        ensures
            result@ == asset_of(master@, asset@, option_str_view(source_zone)),
    {
        Self::build(
            &master.record_name,
            &asset.record_name,
            &master.fields,
            &asset.fields,
            source_zone,
        )
    }

    /// The metadata that was read when the asset was put together.
    pub fn metadata(&self) -> (metadata: &AssetMetadata)
        ensures
            metadata@ == self@.metadata,
    {
        &self.asset_metadata
    }

    /// The name of the master record.
    pub fn id(&self) -> (id: &str)
        ensures
            id@ == self@.record_name,
    {
        &self.record_name
    }

    /// The name that the asset's state is kept under: the master's, unless several assets
    /// share the master and this one had to get its own.
    pub fn state_id(&self) -> (id: &str)
        ensures
            id@ == state_name(self@),
    {
        match &self.state_record_name {
            Some(name) => name,
            None => &self.record_name,
        }
    }

    /// The name of the asset record, which album membership points at.
    pub fn asset_record_name(&self) -> (name: &str)
        ensures
            name@ == self@.asset_record_name,
    {
        &self.asset_record_name
    }

    /// The zone that the asset came from, where it is known.
    pub fn source_zone(&self) -> (zone: Option<&str>)
        ensures
            option_str_view(zone) == self@.source_zone,
    {
        match &self.source_zone {
            Some(zone) => Some(&**zone),
            None => None,
        }
    }

    /// The asset with the zone that it came from noted.
    pub fn with_source_zone(self, source_zone: &str) -> (asset: Self)
        ensures
            asset@ == (PhotoAssetView { source_zone: Some(source_zone@), ..self@ }),
    {
        let mut asset = self;
        asset.source_zone = Some(boxed(source_zone));
        asset
    }

    /// The asset with its state kept under a name of its own.
    pub fn with_state_record_name(self, name: &str) -> (asset: Self)
        ensures
            asset@ == (PhotoAssetView { state_record_name: Some(name@), ..self@ }),
    {
        let mut asset = self;
        asset.state_record_name = Some(boxed(name));
        asset
    }

    /// The asset with the hash of its metadata noted.
    pub fn with_metadata_hash(self, hash: &str) -> (asset: Self)
        ensures
            asset@ == (PhotoAssetView {
                metadata: MetadataView { metadata_hash: Some(hash@), ..self@.metadata },
                ..self@
            }),
    {
        let mut asset = self;
        asset.asset_metadata = Box::new((*asset.asset_metadata).with_hash(hash));
        asset
    }

    /// Whether the master record carried a usable name. An empty one can key nothing, so
    /// such an asset has to be filtered out before anything is derived from it.
    pub fn has_valid_id(&self) -> (valid: bool)
        ensures
            valid == (self@.record_name.len() > 0),
    {
        proof {
            reveal_strlit("");
            assert(self@.record_name.len() == 0 ==> self@.record_name =~= ""@);
        }
        !str_eq(&self.record_name, "")
    }

    /// The file name that iCloud has for the asset.
    pub fn filename(&self) -> (name: Option<&str>)
        ensures
            option_str_view(name) == self@.filename,
    {
        match &self.filename {
            Some(name) => Some(&**name),
            None => None,
        }
    }

    /// When the asset was taken; the epoch where that is missing or invalid.
    pub fn asset_date(&self) -> (millis: i64)
        ensures
            millis == self@.asset_date,
    {
        self.asset_date_ms
    }

    /// When the asset was taken.
    pub fn created(&self) -> (millis: i64)
        ensures
            millis == self@.asset_date,
    {
        self.asset_date()
    }

    /// When the asset was added; the epoch where that is missing or invalid.
    pub fn added_date(&self) -> (millis: i64)
        ensures
            millis == self@.added_date,
    {
        self.added_date_ms
    }

    /// What the asset is at its core.
    pub fn item_type(&self) -> (item_type: Option<AssetItemType>)
        ensures
            item_type == Some(self@.item_type),
    {
        Some(self.item_type_val)
    }

    /// The versions that can be downloaded.
    pub fn versions(&self) -> (versions: &VersionsMap)
        ensures
            versions@ == self@.versions,
    {
        &self.versions
    }

    /// The resources that could not be used.
    pub fn malformed_resources(&self) -> (malformed: &Vec<MalformedResource>)
        ensures
            malformed_views(malformed@) == self@.malformed,
    {
        &self.malformed_resources
    }

    /// The version of a size.
    pub fn get_version(&self, key: AssetVersionSize) -> (version: Option<&AssetVersion>)
        ensures
            match version {
                Some(version) => version_of_size(self@.versions, key) == Some(version@),
                None => version_of_size(self@.versions, key) is None,
            },
    {
        self.versions.get(key)
    }

    /// Whether there is a version of a size.
    pub fn contains_version(&self, key: AssetVersionSize) -> (yes: bool)
        ensures
            yes == (version_of_size(self@.versions, key) is Some),
    {
        self.versions.get(key).is_some()
    }

    /// Whether this is a live photo.
    pub fn is_live_photo(&self) -> (live: bool)
        ensures
            live == is_live(self@),
    {
        self.item_type_val == AssetItemType::Image && (self.contains_version(
            AssetVersionSize::LiveOriginal,
        ) || self.contains_version(AssetVersionSize::LiveMedium) || self.contains_version(
            AssetVersionSize::LiveThumb,
        ) || self.contains_version(AssetVersionSize::LiveAdjusted))
    }

    /// The asset in words.
    pub fn display(&self) -> (s: String)
        ensures
            s@ == "<PhotoAsset: id="@ + self@.record_name + ">"@,
    {
        let mut s = "<PhotoAsset: id=".to_owned();
        s.append(&self.record_name);
        s.append(">");
        s
    }
}

/// Every size of a version is that of a row of the table.
proof fn lemma_version_rows(
    table: Seq<(AssetVersionSize, &'static str, &'static str)>,
    master: JsonView,
    asset: JsonView,
    n: int,
    i: int,
) -> (row: int)
    requires
        0 <= i < usable_versions(table, master, asset, n).len(),
    ensures
        0 <= row < n,
        table[row].0 == usable_versions(table, master, asset, n)[i].0,
        pair_resource(master, asset, table[row].1@, table[row].2@) == ResourceView::Usable(
            usable_versions(table, master, asset, n)[i].1,
        ),
    decreases n,
{
    let before = usable_versions(table, master, asset, n - 1);
    if i < before.len() {
        lemma_version_rows(table, master, asset, n - 1, i)
    } else {
        n - 1
    }
}

/// No size occurs twice among the versions read from the first rows of a table.
proof fn lemma_versions_distinct(
    item_type: AssetItemType,
    master: JsonView,
    asset: JsonView,
    n: int,
    i: int,
    j: int,
)
    requires
        n <= version_table(item_type).len(),
        0 <= i < j < usable_versions(version_table(item_type), master, asset, n).len(),
    ensures
        usable_versions(version_table(item_type), master, asset, n)[i].0 != usable_versions(
            version_table(item_type),
            master,
            asset,
            n,
        )[j].0,
    decreases n,
{
    let table = version_table(item_type);
    let before = usable_versions(table, master, asset, n - 1);
    if j < before.len() {
        lemma_versions_distinct(item_type, master, asset, n - 1, i, j);
    } else {
        let row = lemma_version_rows(table, master, asset, n - 1, i);
        assert(table[row].0 != table[n - 1].0);
    }
}

/// An asset offers each size at most once.
pub proof fn law_version_sizes_are_distinct(
    record_name: Seq<char>,
    asset_record_name: Seq<char>,
    master: JsonView,
    asset: JsonView,
    source_zone: Option<Seq<char>>,
    i: int,
    j: int,
)
    requires
        0 <= i < j < asset_of_fields(
            record_name,
            asset_record_name,
            master,
            asset,
            source_zone,
        ).versions.len(),
    ensures
        ({
            let versions = asset_of_fields(
                record_name,
                asset_record_name,
                master,
                asset,
                source_zone,
            ).versions;
            versions[i].0 != versions[j].0
        }),
{
    let item_type = fields_item_type(master, fields_filename(master));
    lemma_versions_distinct(
        item_type,
        master,
        asset,
        version_table(item_type).len() as int,
        i,
        j,
    );
}

/// A row whose resource is usable gives a version of its size.
proof fn lemma_row_gives_a_version(
    table: Seq<(AssetVersionSize, &'static str, &'static str)>,
    master: JsonView,
    asset: JsonView,
    n: int,
    row: int,
    version: AssetVersionView,
) -> (i: int)
    requires
        0 <= row < n,
        pair_resource(master, asset, table[row].1@, table[row].2@) == ResourceView::Usable(version),
    ensures
        0 <= i < usable_versions(table, master, asset, n).len(),
        usable_versions(table, master, asset, n)[i] == (table[row].0, version),
    decreases n,
{
    let before = usable_versions(table, master, asset, n - 1);
    if row == n - 1 {
        before.len() as int
    } else {
        lemma_row_gives_a_version(table, master, asset, n - 1, row, version)
    }
}

/// A row whose resource is malformed is told of.
proof fn lemma_row_gives_a_fault(
    table: Seq<(AssetVersionSize, &'static str, &'static str)>,
    master: JsonView,
    asset: JsonView,
    n: int,
    row: int,
    field: Seq<char>,
    reason: Seq<char>,
)
    requires
        0 <= row < n,
        pair_resource(master, asset, table[row].1@, table[row].2@) == ResourceView::Malformed(
            field,
            reason,
        ),
    ensures
        malformed_among(table, master, asset, n).contains(
            MalformedView { version_size: table[row].0, field, reason },
        ),
    decreases n,
{
    let fault = MalformedView { version_size: table[row].0, field, reason };
    let before = malformed_among(table, master, asset, n - 1);
    let all = malformed_among(table, master, asset, n);
    if row == n - 1 {
        assert(all[before.len() as int] == fault);
    } else {
        lemma_row_gives_a_fault(table, master, asset, n - 1, row, field, reason);
        let k = choose|k: int| 0 <= k < before.len() && before[k] == fault;
        assert(all[k] == fault);
    }
}

/// What an asset offers in a size is what the row of that size gives.
proof fn lemma_offered_in_a_size(
    item_type: AssetItemType,
    master: JsonView,
    asset: JsonView,
    row: int,
)
    requires
        0 <= row < version_table(item_type).len(),
    ensures
        ({
            let table = version_table(item_type);
            let versions = usable_versions(table, master, asset, table.len() as int);
            version_of_size(versions, table[row].0) == match pair_resource(
                master,
                asset,
                table[row].1@,
                table[row].2@,
            ) {
                ResourceView::Usable(version) => Some(version),
                _ => None,
            }
        }),
{
    let table = version_table(item_type);
    let n = table.len() as int;
    let versions = usable_versions(table, master, asset, n);
    match pair_resource(master, asset, table[row].1@, table[row].2@) {
        ResourceView::Usable(version) => {
            let i = lemma_row_gives_a_version(table, master, asset, n, row, version);
            assert forall|j: int| 0 <= j < i implies (#[trigger] versions[j]).0 != table[row].0 by {
                lemma_versions_distinct(item_type, master, asset, n, j, i);
            }
            law_the_version_of_a_size_is_found(versions, table[row].0, i);
        },
        _ => {
            assert forall|j: int| 0 <= j < versions.len() implies (#[trigger] versions[j]).0
                != table[row].0 by {
                let other = lemma_version_rows(table, master, asset, n, j);
                assert(other != row);
                assert(table[other].0 != table[row].0);
            }
            law_the_version_of_a_size_is_found(versions, table[row].0, versions.len() as int);
        },
    }
}

/// Whether a record's fields carry a whole resource under a pair of names: an entry with a
/// size, a URL that may be fetched and a checksum, and beside it, in the same record, the type
/// of its file.
pub open spec fn carries_resource(
    fields: JsonView,
    res_field: Seq<char>,
    type_field: Seq<char>,
    version: AssetVersionView,
) -> bool {
    let entry = member_of(member(fields, res_field), "value"@);
    &&& member_of(entry, "size"@) == Some(
        JsonView::Number(JsonNumber::Unsigned(version.size)),
    )
    &&& member_of(entry, "downloadURL"@) == Some(JsonView::Text(version.url))
    &&& member_of(entry, "fileChecksum"@) == Some(JsonView::Text(version.checksum))
    &&& member_of(member(fields, type_field), "value"@) == Some(JsonView::Text(version.asset_type))
    &&& url_fault(version.url, url_parts(version.url)) is None
    &&& version.checksum.len() > 0
    &&& version.asset_type.len() > 0
}

/// Where the asset record carries a whole resource, the version of that size is offered with
/// exactly that size, URL, checksum and file type, whatever the master record carries.
pub proof fn law_the_assets_resource_is_offered(
    master: RecordView,
    asset: RecordView,
    source_zone: Option<Seq<char>>,
    row: int,
    version: AssetVersionView,
)
    requires
        ({
            let table = version_table(asset_of(master, asset, source_zone).item_type);
            &&& 0 <= row < table.len()
            &&& carries_resource(asset.fields, table[row].1@, table[row].2@, version)
        }),
    ensures
        ({
            let photo = asset_of(master, asset, source_zone);
            version_of_size(photo.versions, version_table(photo.item_type)[row].0) == Some(version)
        }),
{
    let photo = asset_of(master, asset, source_zone);
    lemma_offered_in_a_size(photo.item_type, master.fields, asset.fields, row);
}

/// Where the asset record does not have a resource, the master's is offered in its place, with
/// the file type that the master gives it.
pub proof fn law_the_masters_resource_is_offered_otherwise(
    master: RecordView,
    asset: RecordView,
    source_zone: Option<Seq<char>>,
    row: int,
    version: AssetVersionView,
)
    requires
        ({
            let table = version_table(asset_of(master, asset, source_zone).item_type);
            &&& 0 <= row < table.len()
            &&& member(asset.fields, table[row].1@) is None
            &&& carries_resource(master.fields, table[row].1@, table[row].2@, version)
        }),
    ensures
        ({
            let photo = asset_of(master, asset, source_zone);
            version_of_size(photo.versions, version_table(photo.item_type)[row].0) == Some(version)
        }),
{
    let photo = asset_of(master, asset, source_zone);
    lemma_offered_in_a_size(photo.item_type, master.fields, asset.fields, row);
}

/// A version is offered only where a record carries it whole: the asset record where that has
/// the resource, else the master.
pub proof fn law_what_is_offered_was_carried(
    master: RecordView,
    asset: RecordView,
    source_zone: Option<Seq<char>>,
    row: int,
)
    requires
        0 <= row < version_table(asset_of(master, asset, source_zone).item_type).len(),
    ensures
        ({
            let photo = asset_of(master, asset, source_zone);
            let (size, res_field, type_field) = version_table(photo.item_type)[row];
            let fields = if member(asset.fields, res_field@) is Some {
                asset.fields
            } else {
                master.fields
            };
            forall|version: AssetVersionView| #[trigger]
                carries_resource(fields, res_field@, type_field@, version) <==> version_of_size(
                    photo.versions,
                    size,
                ) == Some(version)
        }),
{
    let photo = asset_of(master, asset, source_zone);
    lemma_offered_in_a_size(photo.item_type, master.fields, asset.fields, row);
}

/// A resource that neither record has is neither offered nor told of as a fault.
pub proof fn law_an_absent_resource_is_no_fault(
    master: RecordView,
    asset: RecordView,
    source_zone: Option<Seq<char>>,
    row: int,
)
    requires
        ({
            let table = version_table(asset_of(master, asset, source_zone).item_type);
            &&& 0 <= row < table.len()
            &&& member(asset.fields, table[row].1@) is None
            &&& member(master.fields, table[row].1@) is None
        }),
    ensures
        ({
            let photo = asset_of(master, asset, source_zone);
            let size = version_table(photo.item_type)[row].0;
            &&& version_of_size(photo.versions, size) is None
            &&& forall|i: int|
                0 <= i < photo.malformed.len() ==> (#[trigger] photo.malformed[i]).version_size
                    != size
        }),
{
    let photo = asset_of(master, asset, source_zone);
    let table = version_table(photo.item_type);
    lemma_offered_in_a_size(photo.item_type, master.fields, asset.fields, row);
    assert forall|i: int| 0 <= i < photo.malformed.len() implies (
    #[trigger] photo.malformed[i]).version_size != table[row].0 by {
        let other = lemma_fault_rows(
            table,
            master.fields,
            asset.fields,
            table.len() as int,
            i,
        );
        assert(other != row);
        assert(table[other].0 != table[row].0);
    }
}

/// Every fault is that of a row of the table.
proof fn lemma_fault_rows(
    table: Seq<(AssetVersionSize, &'static str, &'static str)>,
    master: JsonView,
    asset: JsonView,
    n: int,
    i: int,
) -> (row: int)
    requires
        0 <= i < malformed_among(table, master, asset, n).len(),
    ensures
        0 <= row < n,
        table[row].0 == malformed_among(table, master, asset, n)[i].version_size,
        pair_resource(master, asset, table[row].1@, table[row].2@) is Malformed,
    decreases n,
{
    let before = malformed_among(table, master, asset, n - 1);
    if i < before.len() {
        lemma_fault_rows(table, master, asset, n - 1, i)
    } else {
        n - 1
    }
}

/// A resource that a record has and that is not whole is told of, by the part that is at fault:
/// the first of the entry itself, its size, its URL, its checksum and the type of its file.
pub proof fn law_a_faulty_resource_is_told_of(
    master: RecordView,
    asset: RecordView,
    source_zone: Option<Seq<char>>,
    row: int,
)
    requires
        ({
            let table = version_table(asset_of(master, asset, source_zone).item_type);
            &&& 0 <= row < table.len()
            &&& member(asset.fields, table[row].1@) is Some || member(
                master.fields,
                table[row].1@,
            ) is Some
        }),
    ensures
        ({
            let photo = asset_of(master, asset, source_zone);
            let (size, res_field, type_field) = version_table(photo.item_type)[row];
            let fields = if member(asset.fields, res_field@) is Some {
                asset.fields
            } else {
                master.fields
            };
            let entry = member_of(member(fields, res_field@), "value"@);
            let url = text_of(member_of(entry, "downloadURL"@));
            let checksum = text_of(member_of(entry, "fileChecksum"@));
            let file_type = text_of(member_of(member(fields, type_field@), "value"@));
            let at_fault = if entry is None || entry == Some(JsonView::Null) {
                Some((res_field@, "resource value is null"@))
            } else if unsigned_of(member_of(entry, "size"@)) is None {
                Some((res_field@ + ".size"@, "missing size"@))
            } else if url is None {
                Some((res_field@ + ".downloadURL"@, "missing downloadURL"@))
            } else if url_fault(url->0, url_parts(url->0)) is Some {
                Some((res_field@ + ".downloadURL"@, url_fault(url->0, url_parts(url->0))->0))
            } else if checksum is None {
                Some((res_field@ + ".fileChecksum"@, "missing fileChecksum"@))
            } else if checksum == Some(Seq::<char>::empty()) {
                Some((res_field@ + ".fileChecksum"@, "empty fileChecksum"@))
            } else if file_type is None || file_type == Some(Seq::<char>::empty()) {
                Some((type_field@, "missing or empty asset type"@))
            } else {
                None
            };
            &&& version_of_size(photo.versions, size) is None <==> at_fault is Some
            &&& at_fault matches Some((field, reason)) ==> photo.malformed.contains(
                (MalformedView { version_size: size, field, reason }),
            )
        }),
{
    let photo = asset_of(master, asset, source_zone);
    let table = version_table(photo.item_type);
    let n = table.len() as int;
    lemma_offered_in_a_size(photo.item_type, master.fields, asset.fields, row);
    let (size, res_field, type_field) = table[row];
    let fields = if member(asset.fields, res_field@) is Some {
        asset.fields
    } else {
        master.fields
    };
    let entry = member_of(member(fields, res_field@), "value"@);
    let checksum = text_of(member_of(entry, "fileChecksum"@));
    let file_type = text_of(member_of(member(fields, type_field@), "value"@));
    if let Some(checksum) = checksum {
        assert(checksum.len() == 0 ==> checksum =~= Seq::empty());
    }
    if let Some(file_type) = file_type {
        assert(file_type.len() == 0 ==> file_type =~= Seq::empty());
    }
    if let ResourceView::Malformed(field, reason) = pair_resource(
        master.fields,
        asset.fields,
        res_field@,
        type_field@,
    ) {
        lemma_row_gives_a_fault(table, master.fields, asset.fields, n, row, field, reason);
    }
}

/// A version's file type stands in the field that is named as its resource's, and each size of
/// a kind of item has a resource of its own.
pub proof fn law_resources_and_file_types_go_together(item_type: AssetItemType, row: int)
    requires
        0 <= row < version_table(item_type).len(),
    ensures
        ({
            let (size, res_field, type_field) = version_table(item_type)[row];
            let stem = match (item_type, size) {
                (_, AssetVersionSize::Original) => "resOriginal"@,
                (_, AssetVersionSize::Alternative) => "resOriginalAlt"@,
                (AssetItemType::Image, AssetVersionSize::Medium) => "resJPEGMed"@,
                (AssetItemType::Image, AssetVersionSize::Thumb) => "resJPEGThumb"@,
                (AssetItemType::Image, AssetVersionSize::Adjusted) => "resJPEGFull"@,
                (AssetItemType::Movie, AssetVersionSize::Medium) => "resVidMed"@,
                (AssetItemType::Movie, AssetVersionSize::Thumb) => "resVidSmall"@,
                (AssetItemType::Movie, AssetVersionSize::Adjusted) => "resVidFull"@,
                (_, AssetVersionSize::LiveOriginal) => "resOriginalVidCompl"@,
                (_, AssetVersionSize::LiveMedium) => "resVidMed"@,
                (_, AssetVersionSize::LiveThumb) => "resVidSmall"@,
                (_, AssetVersionSize::LiveAdjusted) => "resVidFull"@,
            };
            &&& res_field@ == stem + "Res"@
            &&& type_field@ == stem + "FileType"@
        }),
{
    reveal_strlit("Res");
    reveal_strlit("FileType");
    lemma_photo_stems();
    lemma_video_stems();
}

/// The names of a still image's own resources.
proof fn lemma_photo_stems()
    ensures
        "resOriginalRes"@ == "resOriginal"@ + "Res"@,
        "resOriginalFileType"@ == "resOriginal"@ + "FileType"@,
        "resOriginalAltRes"@ == "resOriginalAlt"@ + "Res"@,
        "resOriginalAltFileType"@ == "resOriginalAlt"@ + "FileType"@,
        "resJPEGMedRes"@ == "resJPEGMed"@ + "Res"@,
        "resJPEGMedFileType"@ == "resJPEGMed"@ + "FileType"@,
        "resJPEGThumbRes"@ == "resJPEGThumb"@ + "Res"@,
        "resJPEGThumbFileType"@ == "resJPEGThumb"@ + "FileType"@,
        "resJPEGFullRes"@ == "resJPEGFull"@ + "Res"@,
        "resJPEGFullFileType"@ == "resJPEGFull"@ + "FileType"@,
{
    reveal_strlit("Res");
    reveal_strlit("FileType");
    reveal_strlit("resOriginal");
    reveal_strlit("resOriginalRes");
    reveal_strlit("resOriginalFileType");
    assert("resOriginalRes"@ =~= "resOriginal"@ + "Res"@);
    assert("resOriginalFileType"@ =~= "resOriginal"@ + "FileType"@);
    reveal_strlit("resOriginalAlt");
    reveal_strlit("resOriginalAltRes");
    reveal_strlit("resOriginalAltFileType");
    assert("resOriginalAltRes"@ =~= "resOriginalAlt"@ + "Res"@);
    assert("resOriginalAltFileType"@ =~= "resOriginalAlt"@ + "FileType"@);
    reveal_strlit("resJPEGMed");
    reveal_strlit("resJPEGMedRes");
    reveal_strlit("resJPEGMedFileType");
    assert("resJPEGMedRes"@ =~= "resJPEGMed"@ + "Res"@);
    assert("resJPEGMedFileType"@ =~= "resJPEGMed"@ + "FileType"@);
    reveal_strlit("resJPEGThumb");
    reveal_strlit("resJPEGThumbRes");
    reveal_strlit("resJPEGThumbFileType");
    assert("resJPEGThumbRes"@ =~= "resJPEGThumb"@ + "Res"@);
    assert("resJPEGThumbFileType"@ =~= "resJPEGThumb"@ + "FileType"@);
    reveal_strlit("resJPEGFull");
    reveal_strlit("resJPEGFullRes");
    reveal_strlit("resJPEGFullFileType");
    assert("resJPEGFullRes"@ =~= "resJPEGFull"@ + "Res"@);
    assert("resJPEGFullFileType"@ =~= "resJPEGFull"@ + "FileType"@);
}

/// The names of videos, a movie's own or those beside a still image.
proof fn lemma_video_stems()
    ensures
        "resVidFullRes"@ == "resVidFull"@ + "Res"@,
        "resVidFullFileType"@ == "resVidFull"@ + "FileType"@,
        "resOriginalVidComplRes"@ == "resOriginalVidCompl"@ + "Res"@,
        "resOriginalVidComplFileType"@ == "resOriginalVidCompl"@ + "FileType"@,
        "resVidMedRes"@ == "resVidMed"@ + "Res"@,
        "resVidMedFileType"@ == "resVidMed"@ + "FileType"@,
        "resVidSmallRes"@ == "resVidSmall"@ + "Res"@,
        "resVidSmallFileType"@ == "resVidSmall"@ + "FileType"@,
{
    reveal_strlit("Res");
    reveal_strlit("FileType");
    reveal_strlit("resVidFull");
    reveal_strlit("resVidFullRes");
    reveal_strlit("resVidFullFileType");
    assert("resVidFullRes"@ =~= "resVidFull"@ + "Res"@);
    assert("resVidFullFileType"@ =~= "resVidFull"@ + "FileType"@);
    reveal_strlit("resOriginalVidCompl");
    reveal_strlit("resOriginalVidComplRes");
    reveal_strlit("resOriginalVidComplFileType");
    assert("resOriginalVidComplRes"@ =~= "resOriginalVidCompl"@ + "Res"@);
    assert("resOriginalVidComplFileType"@ =~= "resOriginalVidCompl"@ + "FileType"@);
    reveal_strlit("resVidMed");
    reveal_strlit("resVidMedRes");
    reveal_strlit("resVidMedFileType");
    assert("resVidMedRes"@ =~= "resVidMed"@ + "Res"@);
    assert("resVidMedFileType"@ =~= "resVidMed"@ + "FileType"@);
    reveal_strlit("resVidSmall");
    reveal_strlit("resVidSmallRes");
    reveal_strlit("resVidSmallFileType");
    assert("resVidSmallRes"@ =~= "resVidSmall"@ + "Res"@);
    assert("resVidSmallFileType"@ =~= "resVidSmall"@ + "FileType"@);
}

/// Every size that a kind of item can have has a row: a movie has four, a still image all.
pub proof fn law_every_size_has_its_row(size: AssetVersionSize)
    ensures
        exists|row: int|
            0 <= row < version_table(AssetItemType::Image).len() && (
            #[trigger] version_table(AssetItemType::Image)[row]).0 == size,
        (exists|row: int|
            0 <= row < version_table(AssetItemType::Movie).len() && (
            #[trigger] version_table(AssetItemType::Movie)[row]).0 == size) <==> (size
            == AssetVersionSize::Original || size == AssetVersionSize::Adjusted || size
            == AssetVersionSize::Medium || size == AssetVersionSize::Thumb),
{
    let photo = version_table(AssetItemType::Image);
    let movie = version_table(AssetItemType::Movie);
    assert(photo[0].0 == AssetVersionSize::Original);
    assert(photo[1].0 == AssetVersionSize::Alternative);
    assert(photo[2].0 == AssetVersionSize::Medium);
    assert(photo[3].0 == AssetVersionSize::Thumb);
    assert(photo[4].0 == AssetVersionSize::Adjusted);
    assert(photo[5].0 == AssetVersionSize::LiveAdjusted);
    assert(photo[6].0 == AssetVersionSize::LiveOriginal);
    assert(photo[7].0 == AssetVersionSize::LiveMedium);
    assert(photo[8].0 == AssetVersionSize::LiveThumb);
    assert(movie[0].0 == AssetVersionSize::Original);
    assert(movie[1].0 == AssetVersionSize::Adjusted);
    assert(movie[2].0 == AssetVersionSize::Medium);
    assert(movie[3].0 == AssetVersionSize::Thumb);
}

/// A URL is fetched exactly where it is an https one whose host, whatever the case of its
/// letters, lies below one of the content delivery domains.
pub proof fn law_only_content_delivery_is_fetched_from(
    raw: Seq<char>,
    parts: Option<(Seq<char>, Option<Seq<char>>)>,
)
    ensures
        url_fault(raw, parts) is None <==> raw.len() > 0 && (parts matches Some((scheme, Some(host)))
            && scheme == "https"@ && (".icloud-content.com"@.is_suffix_of(ascii_lowered(host))
            || ".icloud-content.com.cn"@.is_suffix_of(ascii_lowered(host))
            || ".cdn-apple.com"@.is_suffix_of(ascii_lowered(host)))),
{
    if let Some((_, Some(host))) = parts {
        let suffixes = ALLOWED_DOWNLOAD_HOST_SUFFIXES@;
        assert(suffixes[0]@ == ".icloud-content.com"@);
        assert(suffixes[1]@ == ".icloud-content.com.cn"@);
        assert(suffixes[2]@ == ".cdn-apple.com"@);
    }
}

/// A photo goes by the names of its records, keeps its state under its master's name, carries
/// the metadata that the two records' fields give, and comes from the zone that was noted.
pub proof fn law_a_photo_goes_by_its_records(
    master: RecordView,
    asset: RecordView,
    source_zone: Option<Seq<char>>,
)
    ensures
        ({
            let photo = asset_of(master, asset, source_zone);
            &&& photo.record_name == master.record_name
            &&& photo.asset_record_name == asset.record_name
            &&& photo.state_record_name is None
            &&& state_name(photo) == master.record_name
            &&& photo.source_zone == source_zone
            &&& photo.metadata == metadata_of(master.fields, asset.fields)
        }),
{
}

/// A photo's dates are the asset record's own: when it was taken and when it was added, each
/// from its field, and the epoch where that holds no instant.
pub proof fn law_a_photos_dates_are_its_own(
    master: RecordView,
    asset: RecordView,
    source_zone: Option<Seq<char>>,
    millis: u64,
)
    requires
        millis <= LAST_MILLIS,
    ensures
        ({
            let photo = asset_of(master, asset, source_zone);
            let taken = member_of(member(asset.fields, "assetDate"@), "value"@);
            let added = member_of(member(asset.fields, "addedDate"@), "value"@);
            let at = Some(JsonView::Number(JsonNumber::Unsigned(millis)));
            &&& taken == at ==> photo.asset_date == millis
            &&& added == at ==> photo.added_date == millis
            &&& number_of(taken) is None ==> photo.asset_date == 0
            &&& number_of(added) is None ==> photo.added_date == 0
        }),
{
}

/// A photo's file name is the master's, and an empty one is none.
pub proof fn law_a_photos_file_name_is_the_masters(
    master: RecordView,
    asset: RecordView,
    source_zone: Option<Seq<char>>,
)
    ensures
        ({
            let filename = asset_of(master, asset, source_zone).filename;
            let said = enc_text(master.fields, "filenameEnc"@);
            &&& filename is Some <==> said is Some && said->0.len() > 0
            &&& filename is Some ==> filename == said
        }),
{
}

/// What the master says decides what a photo is: a known type of still image, or a movie. Where
/// it says nothing that is known, the file name decides, and what has none that is known for
/// still images is a movie.
pub proof fn law_the_master_says_what_a_photo_is(
    master: RecordView,
    asset: RecordView,
    source_zone: Option<Seq<char>>,
    i: int,
)
    ensures
        ({
            let photo = asset_of(master, asset, source_zone);
            let said = member_of(member(master.fields, "itemType"@), "value"@);
            &&& 0 <= i < IMAGE_TYPES@.len() && said == Some(JsonView::Text(IMAGE_TYPES@[i]@))
                ==> photo.item_type == AssetItemType::Image
            &&& said == Some(JsonView::Text("com.apple.quicktime-movie"@)) ==> photo.item_type
                == AssetItemType::Movie
            &&& text_of(said) is None ==> (photo.item_type == AssetItemType::Image
                <==> names_image(photo.filename))
        }),
{
    lemma_movies_are_no_images();
}

/// No type of still image is that of a movie.
proof fn lemma_movies_are_no_images()
    ensures
        forall|i: int|
            0 <= i < IMAGE_TYPES@.len() ==> (#[trigger] IMAGE_TYPES@[i])@
                != "com.apple.quicktime-movie"@,
{
    reveal_strlit("com.apple.quicktime-movie");
    assert("com.apple.quicktime-movie"@.len() == 25);
    reveal_strlit("public.heic");
    assert("public.heic"@.len() == 11);
    reveal_strlit("public.heif");
    assert("public.heif"@.len() == 11);
    reveal_strlit("public.jpeg");
    assert("public.jpeg"@.len() == 11);
    reveal_strlit("public.png");
    assert("public.png"@.len() == 10);
    reveal_strlit("com.adobe.raw-image");
    assert("com.adobe.raw-image"@.len() == 19);
    reveal_strlit("com.canon.cr2-raw-image");
    assert("com.canon.cr2-raw-image"@.len() == 23);
    reveal_strlit("com.canon.crw-raw-image");
    assert("com.canon.crw-raw-image"@.len() == 23);
    reveal_strlit("com.sony.arw-raw-image");
    assert("com.sony.arw-raw-image"@.len() == 22);
    reveal_strlit("com.fuji.raw-image");
    assert("com.fuji.raw-image"@.len() == 18);
    reveal_strlit("com.panasonic.rw2-raw-image");
    assert("com.panasonic.rw2-raw-image"@.len() == 27);
    reveal_strlit("com.nikon.nrw-raw-image");
    assert("com.nikon.nrw-raw-image"@.len() == 23);
    reveal_strlit("com.pentax.raw-image");
    assert("com.pentax.raw-image"@.len() == 20);
    reveal_strlit("com.nikon.raw-image");
    assert("com.nikon.raw-image"@.len() == 19);
    reveal_strlit("com.olympus.raw-image");
    assert("com.olympus.raw-image"@.len() == 21);
    reveal_strlit("com.canon.cr3-raw-image");
    assert("com.canon.cr3-raw-image"@.len() == 23);
    reveal_strlit("com.olympus.or-raw-image");
    assert("com.olympus.or-raw-image"@.len() == 24);
    reveal_strlit("org.webmproject.webp");
    assert("org.webmproject.webp"@.len() == 20);
}

/// A file name counts as a still image's by its extension alone, in whatever case.
pub proof fn law_extensions_name_still_images(filename: Seq<char>, i: int)
    requires
        0 <= i < 5,
        path_extension(filename) is Some,
    ensures
        ({
            let known = seq!["heic"@, "png"@, "jpg"@, "jpeg"@, "webp"@];
            let extension = ascii_lowered(path_extension(filename)->0);
            &&& extension == ascii_lowered(known[i]) ==> names_image(Some(filename))
            &&& (forall|k: int| 0 <= k < 5 ==> extension != ascii_lowered(#[trigger] known[k]))
                ==> !names_image(Some(filename))
        }),
        !names_image(None),
{
    let known = seq!["heic"@, "png"@, "jpg"@, "jpeg"@, "webp"@];
    assert forall|k: int| 0 <= k < 5 implies #[trigger] known[k] == IMAGE_EXTENSIONS@[k]@ by {}
    assert(known[i] == IMAGE_EXTENSIONS@[i]@);
    assert(IMAGE_EXTENSIONS@.len() == 5);
}

/// A photo is a live one exactly where it is a still image that offers a video beside it.
pub proof fn law_a_live_photo_offers_a_video(photo: PhotoAssetView)
    ensures
        is_live(photo) <==> photo.item_type == AssetItemType::Image && exists|i: int|
            0 <= i < photo.versions.len() && {
                let size = (#[trigger] photo.versions[i]).0;
                size == AssetVersionSize::LiveOriginal || size == AssetVersionSize::LiveMedium
                    || size == AssetVersionSize::LiveThumb || size == AssetVersionSize::LiveAdjusted
            },
{
    lemma_size_is_there(photo.versions, AssetVersionSize::LiveOriginal);
    lemma_size_is_there(photo.versions, AssetVersionSize::LiveMedium);
    lemma_size_is_there(photo.versions, AssetVersionSize::LiveThumb);
    lemma_size_is_there(photo.versions, AssetVersionSize::LiveAdjusted);
}

/// There is a version of a size exactly where one has it.
proof fn lemma_size_is_there(
    versions: Seq<(AssetVersionSize, AssetVersionView)>,
    size: AssetVersionSize,
)
    ensures
        version_of_size(versions, size) is Some <==> exists|i: int|
            0 <= i < versions.len() && (#[trigger] versions[i]).0 == size,
    decreases versions.len(),
{
    if versions.len() > 0 {
        let rest = versions.drop_first();
        lemma_size_is_there(rest, size);
        if versions[0].0 != size {
            if version_of_size(rest, size) is Some {
                let i = choose|i: int| 0 <= i < rest.len() && (#[trigger] rest[i]).0 == size;
                assert(versions[i + 1].0 == size);
            }
            if exists|i: int| 0 <= i < versions.len() && (#[trigger] versions[i]).0 == size {
                let i = choose|i: int|
                    0 <= i < versions.len() && (#[trigger] versions[i]).0 == size;
                assert(rest[i - 1].0 == size);
            }
        }
    }
}

/// Two records that are still JSON make the photo that they make as records.
pub proof fn law_json_records_make_the_same_photo(
    master: JsonView,
    asset: JsonView,
    master_record: RecordView,
    asset_record: RecordView,
)
    requires
        member(master, "recordName"@) == Some(JsonView::Text(master_record.record_name)),
        member(asset, "recordName"@) == Some(JsonView::Text(asset_record.record_name)),
        member(master, "fields"@) == Some(master_record.fields),
        member(asset, "fields"@) == Some(asset_record.fields),
    ensures
        asset_of_json(master, asset) == asset_of(master_record, asset_record, None),
{
}

/// A URL that is not fetched is refused for its first fault: it is empty, it is no URL, it is
/// no https one, it has no host, or its host is no content delivery one.
pub proof fn law_urls_are_refused_for_their_first_fault(
    raw: Seq<char>,
    scheme: Seq<char>,
    host: Option<Seq<char>>,
)
    ensures
        raw.len() == 0 ==> url_fault(raw, Some((scheme, host))) == Some("empty URL"@) && url_fault(
            raw,
            None,
        ) == Some("empty URL"@),
        raw.len() > 0 ==> url_fault(raw, None) == Some("malformed URL"@),
        raw.len() > 0 && scheme != "https"@ ==> url_fault(raw, Some((scheme, host))) == Some(
            "non-https scheme"@,
        ),
        raw.len() > 0 && scheme == "https"@ && host is None ==> url_fault(
            raw,
            Some((scheme, host)),
        ) == Some("missing host"@),
        raw.len() > 0 && scheme == "https"@ && host is Some && !host_allowed(host->0) ==> url_fault(
            raw,
            Some((scheme, host)),
        ) == Some("host not in Apple CDN allowlist"@),
{
}

/// A record without a name has an empty one; an asset without one goes by its master's. A
/// record without fields is as one that has none in them.
pub proof fn law_records_without_names_or_fields(master: JsonView, asset: JsonView)
    ensures
        ({
            let photo = asset_of_json(master, asset);
            &&& text_of(member(master, "recordName"@)) is None ==> photo.record_name.len() == 0
            &&& text_of(member(asset, "recordName"@)) is None ==> photo.asset_record_name
                == photo.record_name
            &&& member(asset, "fields"@) is None ==> photo.metadata == metadata_of(
                json_fields(master),
                JsonView::Null,
            )
            &&& member(master, "fields"@) is None ==> photo.filename is None
        }),
{
}

/// Versions stand in the order of their rows.
pub proof fn law_versions_stand_in_the_order_of_their_rows(
    item_type: AssetItemType,
    master: JsonView,
    asset: JsonView,
    n: int,
    i: int,
    j: int,
    row: int,
    other: int,
)
    requires
        n <= version_table(item_type).len(),
        0 <= i < j < usable_versions(version_table(item_type), master, asset, n).len(),
        0 <= row < version_table(item_type).len(),
        0 <= other < version_table(item_type).len(),
        version_table(item_type)[row].0 == usable_versions(
            version_table(item_type),
            master,
            asset,
            n,
        )[i].0,
        version_table(item_type)[other].0 == usable_versions(
            version_table(item_type),
            master,
            asset,
            n,
        )[j].0,
    ensures
        row < other,
    decreases n,
{
    let table = version_table(item_type);
    let before = usable_versions(table, master, asset, n - 1);
    if j < before.len() {
        law_versions_stand_in_the_order_of_their_rows(
            item_type,
            master,
            asset,
            n - 1,
            i,
            j,
            row,
            other,
        );
    } else {
        let first = lemma_version_rows(table, master, asset, n - 1, i);
        lemma_rows_differ(item_type, first, row);
        lemma_rows_differ(item_type, n - 1, other);
    }
}

/// Rows of one size are one row.
proof fn lemma_rows_differ(item_type: AssetItemType, row: int, other: int)
    requires
        0 <= row < version_table(item_type).len(),
        0 <= other < version_table(item_type).len(),
        version_table(item_type)[row].0 == version_table(item_type)[other].0,
    ensures
        row == other,
{
    let table = version_table(item_type);
    if row != other {
        assert(table[row].0 != table[other].0);
    }
}

} // verus!
