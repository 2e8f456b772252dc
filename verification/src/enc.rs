//! Decoders for iCloud's `*Enc` metadata fields.
//!
//! Despite the suffix these fields are not encrypted on the client: what arrives is plain
//! text, or base64 of text or of a property list.
use crate::json::{
    field, member, number_of, option_json_view, text_of, Json, JsonNumber, JsonView,
};
use crate::redact::{bytes_occur, bytes_occur_at};
use crate::text::{option_view, str_eq, text_views, utf8};
use base64::Engine;
use vstd::prelude::*;

verus! {

/// The bytes that `text` encodes in base64 with the standard alphabet and padding.
pub uninterp spec fn base64_bytes(text: Seq<char>) -> Option<Seq<u8>>;

/// The property list that `bytes` hold, by the parts that the decoders read. A double that is
/// no number stands as [`NAN_BITS`].
pub uninterp spec fn plist_read(bytes: Seq<u8>) -> Option<PlistView>;

/// The view of optional bytes.
pub open spec fn bytes_view(bytes: Option<Vec<u8>>) -> Option<Seq<u8>> {
    match bytes {
        Some(bytes) => Some(bytes@),
        None => None,
    }
}

/// The text that `bytes` encode in UTF-8.
pub open spec fn utf8_decoded(bytes: Seq<u8>) -> Option<Seq<char>> {
    if vstd::utf8::valid_utf8(bytes) {
        Some(vstd::utf8::decode_utf8(bytes))
    } else {
        None
    }
}

/// `STANDARD.decode` of `base64`: the decoded bytes, or none where the text is no base64.
#[verifier::external_body]
pub(crate) fn decode_base64(text: &str) -> (bytes: Option<Vec<u8>>)
    ensures
        bytes_view(bytes) == base64_bytes(text@),
{
    base64::engine::general_purpose::STANDARD.decode(text).ok()
}

/// `String::from_utf8`: the text, or none where the bytes are no UTF-8.
#[verifier::external_body]
pub(crate) fn text_from_utf8(bytes: Vec<u8>) -> (text: Option<String>)
    ensures
        option_view(text) == utf8_decoded(bytes@),
{
    String::from_utf8(bytes).ok()
}

/// What the decoders read of a property list.
pub enum Plist {
    /// An array: each item's text, where it is one.
    List(Vec<Option<String>>),
    /// A dictionary.
    Entries(Vec<PlistEntry>),
    /// Any other value.
    Other,
}

/// The bits that every double stands as that is no number. Which bits such a double has
/// depends on how it was made, so none of them are told apart.
pub const NAN_BITS: u64 = 0x7ff8_0000_0000_0000;

/// Whether bits are those of a double that is no number: the exponent is full, and the
/// fraction is not zero.
pub open spec fn is_nan(bits: u64) -> bool {
    (bits / 0x10_0000_0000_0000) % 0x800 == 0x7ff && bits % 0x10_0000_0000_0000 != 0
}

/// The bits of a double, with one pattern for all that are no numbers.
pub open spec fn plain_double(bits: u64) -> u64 {
    if is_nan(bits) {
        NAN_BITS
    } else {
        bits
    }
}

/// The bits of a double, with one pattern for all that are no numbers.
pub fn plain_bits(bits: u64) -> (plain: u64)
    ensures
        plain == plain_double(bits),
{
    if (bits / 0x10_0000_0000_0000) % 0x800 == 0x7ff && bits % 0x10_0000_0000_0000 != 0 {
        NAN_BITS
    } else {
        bits
    }
}

/// A dictionary entry: its value as the bits of a double, as [`plain_bits`] gives them, or as
/// an integer, where it is one.
pub struct PlistEntry {
    pub key: String,
    pub double: Option<u64>,
    pub integer: Option<i64>,
}

/// A [`Plist`] with its texts taken by their characters.
#[verifier::ext_equal]
pub enum PlistView {
    List(Seq<Option<Seq<char>>>),
    Entries(Seq<PlistEntryView>),
    Other,
}

/// A [`PlistEntry`] with its key taken by its characters.
#[verifier::ext_equal]
pub struct PlistEntryView {
    pub key: Seq<char>,
    pub double: Option<u64>,
    pub integer: Option<i64>,
}

impl View for PlistEntry {
    type V = PlistEntryView;

    open spec fn view(&self) -> PlistEntryView {
        PlistEntryView { key: self.key@, double: self.double, integer: self.integer }
    }
}

impl View for Plist {
    type V = PlistView;

    open spec fn view(&self) -> PlistView {
        match self {
            Plist::List(items) => PlistView::List(
                items@.map_values(|s: Option<String>| option_view(s)),
            ),
            Plist::Entries(entries) => PlistView::Entries(
                entries@.map_values(|e: PlistEntry| e@),
            ),
            Plist::Other => PlistView::Other,
        }
    }
}

/// The view of an optional property list.
pub open spec fn option_plist_view(plist: Option<Plist>) -> Option<PlistView> {
    match plist {
        Some(plist) => Some(plist@),
        None => None,
    }
}

/// Whether bytes may be read as a property list: they are a binary one, or they name no date
/// element. The reader of a list in XML panics on a date whose offset takes it past the last
/// year that it knows, however the date is written within its element.
pub open spec fn is_readable(bytes: Seq<u8>) -> bool {
    bytes_occur_at(bytes, utf8("bplist00"@), 0) || (!bytes_occur(bytes, utf8("<date"@))
        && !bytes_occur(bytes, utf8(":date"@)))
}

/// Whether bytes may be read as a property list.
pub fn may_be_read(bytes: &Vec<u8>) -> (yes: bool)
    ensures
        yes == is_readable(bytes@),
{
    if memchr::memmem::find(bytes, "bplist00".as_bytes()) == Some(0) {
        return true;
    }
    memchr::memmem::find(bytes, "<date".as_bytes()).is_none() && memchr::memmem::find(
        bytes,
        ":date".as_bytes(),
    ).is_none()
}

/// `plist::Value::from_reader`, its value handed on by the parts that the decoders read:
/// an array by its items' texts, a dictionary by its keys and their numbers. The list is built
/// as far as memory and stack hold it; nothing is said of one that they do not.
#[verifier::external_body]
fn read_plist(bytes: &Vec<u8>) -> (plist: Option<Plist>)
    requires
        is_readable(bytes@),
    ensures
        option_plist_view(plist) == plist_read(bytes@),
{
    match plist::Value::from_reader(std::io::Cursor::new(bytes)).ok()? {
        plist::Value::Array(items) => {
            Some(Plist::List(items.into_iter().map(|item| item.into_string()).collect()))
        },
        plist::Value::Dictionary(entries) => Some(Plist::Entries(entries.into_iter().map(
            |(key, value)| PlistEntry {
                key,
                double: value.as_real().map(|number| plain_bits(number.to_bits())),
                integer: value.as_signed_integer(),
            }
        ).collect())),
        _ => Some(Plist::Other),
    }
}

/// The entry of an `*Enc` field; a null counts as absent.
pub open spec fn enc_entry(fields: JsonView, key: Seq<char>) -> Option<JsonView> {
    match member(fields, key) {
        Some(JsonView::Null) => None,
        entry => entry,
    }
}

/// How an entry's value is written; base64 where it does not say.
pub open spec fn enc_kind(entry: JsonView) -> Seq<char> {
    match text_of(member(entry, "type"@)) {
        Some(kind) => kind,
        None => "ENCRYPTED_BYTES"@,
    }
}

/// The bytes that an entry holds.
pub open spec fn entry_bytes(entry: JsonView) -> Option<Seq<u8>> {
    match text_of(member(entry, "value"@)) {
        Some(value) => if enc_kind(entry) == "STRING"@ {
            Some(utf8(value))
        } else if enc_kind(entry) == "ENCRYPTED_BYTES"@ {
            base64_bytes(value)
        } else {
            None
        },
        None => None,
    }
}

/// The text that an entry holds.
pub open spec fn entry_text(entry: JsonView) -> Option<Seq<char>> {
    match text_of(member(entry, "value"@)) {
        Some(value) => if enc_kind(entry) == "STRING"@ {
            Some(value)
        } else if enc_kind(entry) == "ENCRYPTED_BYTES"@ {
            match base64_bytes(value) {
                Some(bytes) => utf8_decoded(bytes),
                None => None,
            }
        } else {
            None
        },
        None => None,
    }
}

/// The text of an `*Enc` field.
pub open spec fn enc_text(fields: JsonView, key: Seq<char>) -> Option<Seq<char>> {
    match enc_entry(fields, key) {
        Some(entry) => entry_text(entry),
        None => None,
    }
}

/// The property list of an `*Enc` field. Bytes that may not be read as one hold none.
pub open spec fn enc_plist(fields: JsonView, key: Seq<char>) -> Option<PlistView> {
    match enc_entry(fields, key) {
        Some(entry) => match entry_bytes(entry) {
            Some(bytes) => if is_readable(bytes) {
                plist_read(bytes)
            } else {
                None
            },
            None => None,
        },
        None => None,
    }
}

/// An entry of an `*Enc` field, a null counting as absent.
fn find_entry<'a>(fields: &'a Json, key: &str) -> (entry: Option<&'a Json>)
    ensures
        option_json_view(entry) == enc_entry(fields@, key@),
{
    match fields.get(key) {
        Some(entry) => if entry.is_null() {
            None
        } else {
            Some(entry)
        },
        None => None,
    }
}

/// How an entry's value is written.
fn entry_kind(entry: &Json) -> (kind: &str)
    ensures
        kind@ == enc_kind(entry@),
{
    match entry.get_str("type") {
        Some(kind) => kind,
        None => "ENCRYPTED_BYTES",
    }
}

/// The text of bytes that base64 decoding gave, if it gave any and they are UTF-8.
pub fn decoded_text(decoded: Option<Vec<u8>>) -> (text: Option<String>)
    ensures
        option_view(text) == match decoded {
            Some(bytes) => utf8_decoded(bytes@),
            None => None,
        },
{
    match decoded {
        Some(bytes) => text_from_utf8(bytes),
        None => None,
    }
}

/// The bytes of an `*Enc` entry: plain text by its UTF-8 bytes, anything else by its base64.
fn decoded_bytes(entry: &Json) -> (bytes: Option<Vec<u8>>)
    ensures
        bytes_view(bytes) == entry_bytes(entry@),
{
    match entry.get_str("value") {
        Some(value) => {
            let kind = entry_kind(entry);
            if str_eq(kind, "STRING") {
                Some(vstd::slice::slice_to_vec(value.as_bytes()))
            } else if str_eq(kind, "ENCRYPTED_BYTES") {
                decode_base64(value)
            } else {
                None
            }
        },
        None => None,
    }
}

/// Decode a text `*Enc` field such as `captionEnc`.
pub fn decode_string(fields: &Json, key: &str) -> (text: Option<String>)
    ensures
        option_view(text) == enc_text(fields@, key@),
{
    match find_entry(fields, key) {
        Some(entry) => match entry.get_str("value") {
            Some(value) => {
                let kind = entry_kind(entry);
                if str_eq(kind, "STRING") {
                    Some(value.to_owned())
                } else if str_eq(kind, "ENCRYPTED_BYTES") {
                    decoded_text(decode_base64(value))
                } else {
                    None
                }
            },
            None => None,
        },
        None => None,
    }
}

/// The property list of an `*Enc` field.
fn decode_plist(fields: &Json, key: &str) -> (plist: Option<Plist>)
    ensures
        option_plist_view(plist) == enc_plist(fields@, key@),
{
    match find_entry(fields, key) {
        Some(entry) => match decoded_bytes(entry) {
            Some(bytes) => if may_be_read(&bytes) {
                read_plist(&bytes)
            } else {
                None
            },
            None => None,
        },
        None => None,
    }
}

/// The texts among a list's items, in order.
pub open spec fn texts_among(items: Seq<Option<Seq<char>>>) -> Seq<Seq<char>>
    decreases items.len(),
{
    if items.len() == 0 {
        Seq::empty()
    } else {
        match items.last() {
            Some(text) => texts_among(items.drop_last()).push(text),
            None => texts_among(items.drop_last()),
        }
    }
}

/// The keywords that a property list holds: the texts of an array, nothing of anything else.
pub open spec fn plist_keywords(plist: Option<PlistView>) -> Option<Seq<Seq<char>>> {
    match plist {
        Some(PlistView::List(items)) => Some(texts_among(items)),
        _ => None,
    }
}

/// The view of an optional list of texts.
pub open spec fn option_texts_view(texts: Option<Vec<String>>) -> Option<Seq<Seq<char>>> {
    match texts {
        Some(texts) => Some(text_views(texts@)),
        None => None,
    }
}

/// The keywords that a property list holds.
pub fn keywords_of(plist: Option<Plist>) -> (keywords: Option<Vec<String>>)
    ensures
        option_texts_view(keywords) == plist_keywords(option_plist_view(plist)),
{
    match plist {
        Some(Plist::List(items)) => {
            let ghost views = items@.map_values(|s: Option<String>| option_view(s));
            let mut texts: Vec<String> = Vec::new();
            let mut i: usize = 0;
            while i < items.len()
                invariant
                    i <= items.len(),
                    views == items@.map_values(|s: Option<String>| option_view(s)),
                    text_views(texts@) == texts_among(views.take(i as int)),
                decreases items.len() - i,
            {
                proof {
                    assert(views.take(i + 1).drop_last() =~= views.take(i as int));
                }
                match &items[i] {
                    Some(text) => {
                        texts.push(text.clone());
                        assert(text_views(texts@) =~= texts_among(views.take(i as int)).push(text@));
                    },
                    None => {},
                }
                i = i + 1;
            }
            proof {
                assert(views.take(i as int) =~= views);
            }
            Some(texts)
        },
        _ => None,
    }
}

/// Decode `keywordsEnc`, a property list with an array of texts.
pub fn decode_keywords(fields: &Json) -> (keywords: Option<Vec<String>>)
    ensures
        option_texts_view(keywords) == plist_keywords(enc_plist(fields@, "keywordsEnc"@)),
{
    keywords_of(decode_plist(fields, "keywordsEnc"))
}

/// A position decoded from `locationEnc` or `locationV2Enc`.
#[derive(Debug, Clone, Copy, PartialEq, Eq, Structural)]
pub struct Location {
    pub latitude: JsonNumber,
    pub longitude: JsonNumber,
    pub altitude: Option<JsonNumber>,
}

/// The number that an integer is.
pub open spec fn integer_number(n: i64) -> JsonNumber {
    if n >= 0 {
        JsonNumber::Unsigned(n as u64)
    } else {
        JsonNumber::Negative(n)
    }
}

/// The first entry with a key.
pub open spec fn plist_entry(entries: Seq<PlistEntryView>, key: Seq<char>) -> Option<PlistEntryView>
    decreases entries.len(),
{
    if entries.len() == 0 {
        None
    } else if entries[0].key == key {
        Some(entries[0])
    } else {
        plist_entry(entries.drop_first(), key)
    }
}

/// The number under a key of a dictionary.
pub open spec fn plist_number(entries: Seq<PlistEntryView>, key: Seq<char>) -> Option<JsonNumber> {
    match plist_entry(entries, key) {
        Some(entry) => match (entry.double, entry.integer) {
            (Some(bits), _) => Some(JsonNumber::Float(bits)),
            (None, Some(n)) => Some(integer_number(n)),
            (None, None) => None,
        },
        None => None,
    }
}

/// The first of two optional numbers that is there.
pub open spec fn number_or(a: Option<JsonNumber>, b: Option<JsonNumber>) -> Option<JsonNumber> {
    match a {
        Some(_) => a,
        None => b,
    }
}

/// The position that a dictionary holds: `lat` and `lon` (or `lng`) are needed, `alt` is not.
pub open spec fn plist_location(plist: Option<PlistView>) -> Option<Location> {
    match plist {
        Some(PlistView::Entries(entries)) => {
            let latitude = plist_number(entries, "lat"@);
            let longitude = number_or(plist_number(entries, "lon"@), plist_number(entries, "lng"@));
            match (latitude, longitude) {
                (Some(latitude), Some(longitude)) => Some(
                    Location { latitude, longitude, altitude: plist_number(entries, "alt"@) },
                ),
                _ => None,
            }
        },
        _ => None,
    }
}

/// The position that a record's fields hold: `locationV2Enc`, else `locationEnc`, else the
/// plain pair of coordinates.
pub open spec fn fields_location(fields: JsonView) -> Option<Location> {
    match (
        plist_location(enc_plist(fields, "locationV2Enc"@)),
        plist_location(enc_plist(fields, "locationEnc"@)),
        number_of(field(fields, "locationLatitude"@)),
        number_of(field(fields, "locationLongitude"@)),
    ) {
        (Some(location), _, _, _) => Some(location),
        (None, Some(location), _, _) => Some(location),
        (None, None, Some(latitude), Some(longitude)) => Some(
            Location { latitude, longitude, altitude: None },
        ),
        _ => None,
    }
}

/// The number under a key of a dictionary.
fn find_number(entries: &Vec<PlistEntry>, key: &str) -> (number: Option<JsonNumber>)
    ensures
        number == plist_number(entries@.map_values(|e: PlistEntry| e@), key@),
{
    let ghost views = entries@.map_values(|e: PlistEntry| e@);
    let mut i: usize = 0;
    proof {
        assert(views.skip(0) =~= views);
    }
    while i < entries.len()
        invariant
            i <= entries.len(),
            views == entries@.map_values(|e: PlistEntry| e@),
            plist_entry(views, key@) == plist_entry(views.skip(i as int), key@),
        decreases entries.len() - i,
    {
        proof {
            assert(views.skip(i as int).drop_first() =~= views.skip(i + 1));
        }
        let entry = &entries[i];
        if str_eq(&entry.key, key) {
            return match (entry.double, entry.integer) {
                (Some(bits), _) => Some(JsonNumber::Float(bits)),
                (None, Some(n)) => if n >= 0 {
                    Some(JsonNumber::Unsigned(n as u64))
                } else {
                    Some(JsonNumber::Negative(n))
                },
                (None, None) => None,
            };
        }
        i = i + 1;
    }
    None
}

/// The position that a property list holds.
pub fn location_of(plist: Option<Plist>) -> (location: Option<Location>)
    ensures
        location == plist_location(option_plist_view(plist)),
{
    match plist {
        Some(Plist::Entries(entries)) => {
            let latitude = find_number(&entries, "lat");
            let longitude = match find_number(&entries, "lon") {
                Some(n) => Some(n),
                None => find_number(&entries, "lng"),
            };
            match (latitude, longitude) {
                (Some(latitude), Some(longitude)) => {
                    Some(Location { latitude, longitude, altitude: find_number(&entries, "alt") })
                },
                _ => None,
            }
        },
        _ => None,
    }
}

/// Decode `locationEnc` or `locationV2Enc`, a property list with a dictionary of numbers.
pub fn decode_location(fields: &Json, key: &str) -> (location: Option<Location>)
    ensures
        location == plist_location(enc_plist(fields@, key@)),
{
    location_of(decode_plist(fields, key))
}

/// Decode a position: prefer `locationV2Enc`, then `locationEnc`, then the plain pair of
/// coordinates. Only the encoded variants carry an altitude.
pub fn decode_location_with_fallback(fields: &Json) -> (location: Option<Location>)
    ensures
        location == fields_location(fields@),
{
    if let Some(location) = decode_location(fields, "locationV2Enc") {
        return Some(location);
    }
    if let Some(location) = decode_location(fields, "locationEnc") {
        return Some(location);
    }
    match (fields.field("locationLatitude"), fields.field("locationLongitude")) {
        (Some(latitude), Some(longitude)) => match (latitude.as_number(), longitude.as_number()) {
            (Some(latitude), Some(longitude)) => Some(
                Location { latitude, longitude, altitude: None },
            ),
            _ => None,
        },
        _ => None,
    }
}

/// A text that is sent plainly is read as it is.
pub proof fn law_a_plain_text_is_read_as_it_is(
    fields: JsonView,
    key: Seq<char>,
    entry: JsonView,
    text: Seq<char>,
)
    requires
        member(fields, key) == Some(entry),
        member(entry, "type"@) == Some(JsonView::Text("STRING"@)),
        member(entry, "value"@) == Some(JsonView::Text(text)),
    ensures
        enc_text(fields, key) == Some(text),
{
}

/// A text that is sent in base64, which is how it is sent where nothing else is said, is read
/// by its bytes: they are the text's UTF-8, or there is none.
pub proof fn law_an_encoded_text_is_read_by_its_bytes(
    fields: JsonView,
    key: Seq<char>,
    entry: JsonView,
    value: Seq<char>,
)
    requires
        member(fields, key) == Some(entry),
        text_of(member(entry, "type"@)) is None || member(entry, "type"@) == Some(
            JsonView::Text("ENCRYPTED_BYTES"@),
        ),
        member(entry, "value"@) == Some(JsonView::Text(value)),
    ensures
        match base64_bytes(value) {
            Some(bytes) => enc_text(fields, key) is Some <==> vstd::utf8::valid_utf8(bytes),
            None => enc_text(fields, key) is None,
        },
        base64_bytes(value) matches Some(bytes) ==> (vstd::utf8::valid_utf8(bytes) ==> enc_text(
            fields,
            key,
        ) == Some(vstd::utf8::decode_utf8(bytes))),
{
    reveal_strlit("STRING");
    reveal_strlit("ENCRYPTED_BYTES");
    assert("STRING"@.len() == 6 && "ENCRYPTED_BYTES"@.len() == 15);
}

/// A field that is absent or null, that has no text for its value, or that is sent in a way
/// that is not known, holds neither a text nor a property list.
pub proof fn law_what_cannot_be_read_is_not_there(fields: JsonView, key: Seq<char>)
    requires
        match member(fields, key) {
            None => true,
            Some(entry) => entry == JsonView::Null || text_of(member(entry, "value"@)) is None || (
            text_of(member(entry, "type"@)) matches Some(kind) && kind != "STRING"@ && kind
                != "ENCRYPTED_BYTES"@),
        },
    ensures
        enc_text(fields, key) is None,
        enc_plist(fields, key) is None,
{
}

/// The keywords of a list are its texts, in their order; items that are no texts are left out.
pub proof fn law_keywords_are_the_texts_in_order(
    items: Seq<Option<Seq<char>>>,
    more: Seq<Option<Seq<char>>>,
    text: Seq<char>,
)
    ensures
        texts_among(items + more) == texts_among(items) + texts_among(more),
        texts_among(seq![Some(text)]) == seq![text],
        texts_among(seq![None::<Seq<char>>]) == Seq::<Seq<char>>::empty(),
        plist_keywords(Some(PlistView::List(items))) == Some(texts_among(items)),
        plist_keywords(None) is None,
    decreases more.len(),
{
    reveal_with_fuel(texts_among, 2);
    assert(seq![Some(text)].drop_last() =~= Seq::empty());
    assert(seq![None::<Seq<char>>].drop_last() =~= Seq::empty());
    assert(texts_among(seq![Some(text)]) =~= seq![text]);
    if more.len() == 0 {
        assert(items + more =~= items);
        assert(texts_among(items) + Seq::<Seq<char>>::empty() =~= texts_among(items));
    } else {
        law_keywords_are_the_texts_in_order(items, more.drop_last(), text);
        assert((items + more).drop_last() =~= items + more.drop_last());
        assert((items + more).last() == more.last());
    }
}

/// The number under a key is that of the first entry with the key: a double by its bits, else
/// an integer by its value.
pub proof fn law_the_first_entry_of_a_key_counts(
    entries: Seq<PlistEntryView>,
    key: Seq<char>,
    i: int,
)
    requires
        0 <= i <= entries.len(),
        forall|j: int| 0 <= j < i ==> (#[trigger] entries[j]).key != key,
    ensures
        i == entries.len() ==> plist_number(entries, key) is None,
        i < entries.len() && entries[i].key == key ==> match (entries[i].double, entries[i].integer) {
            (Some(bits), _) => plist_number(entries, key) == Some(JsonNumber::Float(bits)),
            (None, Some(n)) => match plist_number(entries, key) {
                Some(JsonNumber::Unsigned(m)) => n >= 0 && m == n,
                Some(JsonNumber::Negative(m)) => n < 0 && m == n,
                _ => false,
            },
            (None, None) => plist_number(entries, key) is None,
        },
    decreases i,
{
    if i > 0 {
        assert(entries[0].key != key);
        let rest = entries.drop_first();
        assert forall|j: int| 0 <= j < i - 1 implies (#[trigger] rest[j]).key != key by {
            assert(rest[j] == entries[j + 1]);
        }
        law_the_first_entry_of_a_key_counts(rest, key, i - 1);
    }
}

/// A position is there exactly where a dictionary gives a latitude and a longitude, which goes
/// by either of two names. Its altitude is the dictionary's own and may be missing.
pub proof fn law_a_position_needs_both_coordinates(entries: Seq<PlistEntryView>)
    ensures
        ({
            let place = plist_location(Some(PlistView::Entries(entries)));
            let latitude = plist_number(entries, "lat"@);
            let longitude = if plist_number(entries, "lon"@) is Some {
                plist_number(entries, "lon"@)
            } else {
                plist_number(entries, "lng"@)
            };
            &&& place is Some <==> latitude is Some && longitude is Some
            &&& place matches Some(place) ==> {
                &&& Some(place.latitude) == latitude
                &&& Some(place.longitude) == longitude
                &&& place.altitude == plist_number(entries, "alt"@)
            }
        }),
        plist_location(None) is None,
{
}

/// A field's property list is read from its bytes: the text's own where it is sent plainly,
/// else those that its base64 stands for.
pub proof fn law_a_property_list_is_read_from_its_bytes(
    fields: JsonView,
    key: Seq<char>,
    entry: JsonView,
    value: Seq<char>,
)
    requires
        member(fields, key) == Some(entry),
        member(entry, "value"@) == Some(JsonView::Text(value)),
    ensures
        member(entry, "type"@) == Some(JsonView::Text("STRING"@)) && is_readable(utf8(value))
            ==> enc_plist(fields, key) == plist_read(utf8(value)),
        text_of(member(entry, "type"@)) is None || member(entry, "type"@) == Some(
            JsonView::Text("ENCRYPTED_BYTES"@),
        ) ==> match base64_bytes(value) {
            Some(bytes) => is_readable(bytes) ==> enc_plist(fields, key) == plist_read(bytes),
            None => enc_plist(fields, key) is None,
        },
{
    reveal_strlit("STRING");
    reveal_strlit("ENCRYPTED_BYTES");
    assert("STRING"@.len() == 6 && "ENCRYPTED_BYTES"@.len() == 15);
}

/// All doubles that are no numbers stand as one, which is no number itself; every other double
/// stands as it is.
pub proof fn law_doubles_that_are_no_numbers_are_one(bits: u64, other: u64)
    ensures
        is_nan(plain_double(bits)) <==> is_nan(bits),
        is_nan(bits) && is_nan(other) ==> plain_double(bits) == plain_double(other),
        !is_nan(bits) ==> plain_double(bits) == bits,
        is_nan(bits) <==> bits % 0x8000_0000_0000_0000 > 0x7ff0_0000_0000_0000,
{
    let low = bits % 0x8000_0000_0000_0000;
    assert(bits as int % 0x10_0000_0000_0000 == low as int % 0x10_0000_0000_0000);
    assert((bits as int / 0x10_0000_0000_0000) % 0x800 == low as int / 0x10_0000_0000_0000);
}

/// A binary property list may always be read; any other bytes may be where they name no date.
pub proof fn law_binary_lists_may_be_read(bytes: Seq<u8>)
    ensures
        bytes_occur_at(bytes, utf8("bplist00"@), 0) ==> is_readable(bytes),
        !bytes_occur_at(bytes, utf8("bplist00"@), 0) && (bytes_occur(bytes, utf8("<date"@))
            || bytes_occur(bytes, utf8(":date"@))) ==> !is_readable(bytes),
        !bytes_occur(bytes, utf8("<date"@)) && !bytes_occur(bytes, utf8(":date"@)) ==> is_readable(
            bytes,
        ),
{
}

} // verus!
