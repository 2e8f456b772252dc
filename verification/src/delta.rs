//! The change feed: why a record changed, and the pairing of master and asset records that
//! arrive apart.
use crate::asset::{asset_of, PhotoAsset, PhotoAssetView};
use crate::cloudkit::{record_views, Record, RecordView};
use crate::enc::{decode_string, enc_text};
use crate::fetch::{lemma_waiting_listed, total};
use crate::json::{field, member, member_of, signed_of, text_of, Json, JsonView};
use crate::tables::{empty_table, keyed, lists_entries, table_drain, table_insert, table_remove};
use crate::text::{
    law_a_text_is_parted_at_the_last_place, occurs_at, option_pair_view, option_view, parted_last,
    rsplit_once, str_eq,
};
use crate::types::{boxed, boxed_view, ChangeReason};
use rustc_hash::FxHashMap;
use vstd::prelude::*;

verus! {

/// Why no event could be made of an album relation.
pub const UNPARSABLE_RELATION: &'static str = "unparsable_relation_delta";

/// Album metadata carried by a changed album record.
#[derive(Debug, PartialEq, Eq)]
pub struct AlbumContainerDelta {
    pub container_id: Box<str>,
    /// The album's title as the service has it, until [`ChangeEvent::with_album_name`] puts the
    /// name in its place that the title is given on disk.
    pub album_name: Box<str>,
    pub is_deleted: bool,
}

/// Album membership carried by a changed relation record.
#[derive(Debug, PartialEq, Eq)]
pub struct AlbumRelationDelta {
    pub container_id: Box<str>,
    pub asset_record_name: Box<str>,
    pub is_deleted: bool,
}

/// A change event of the change feed.
#[derive(Debug)]
pub struct ChangeEvent {
    /// The name of the record.
    pub record_name: Box<str>,
    /// The type of the record, where it is known: a purged one does not say.
    pub record_type: Option<Box<str>>,
    /// The master that an unpaired asset record refers to, under which its state is kept.
    pub master_record_name: Option<Box<str>>,
    /// Why the record changed.
    pub reason: ChangeReason,
    /// The asset, where a master and an asset record were paired.
    pub asset: Option<PhotoAsset>,
    pub album: Option<AlbumContainerDelta>,
    pub relation: Option<AlbumRelationDelta>,
    /// Why the token of this cycle must not be kept: a record was understood well enough to
    /// see that it matters, but not to apply it.
    pub token_unsafe_reason: Option<&'static str>,
}

/// An [`AlbumContainerDelta`] with its texts taken by their characters.
#[verifier::ext_equal]
pub struct AlbumContainerView {
    pub container_id: Seq<char>,
    pub album_name: Seq<char>,
    pub is_deleted: bool,
}

/// An [`AlbumRelationDelta`] with its texts taken by their characters.
#[verifier::ext_equal]
pub struct AlbumRelationView {
    pub container_id: Seq<char>,
    pub asset_record_name: Seq<char>,
    pub is_deleted: bool,
}

/// A [`ChangeEvent`] with its texts taken by their characters.
#[verifier::ext_equal]
pub struct EventView {
    pub record_name: Seq<char>,
    pub record_type: Option<Seq<char>>,
    pub master_record_name: Option<Seq<char>>,
    pub reason: ChangeReason,
    pub asset: Option<PhotoAssetView>,
    pub album: Option<AlbumContainerView>,
    pub relation: Option<AlbumRelationView>,
    pub token_unsafe_reason: Option<Seq<char>>,
}

impl View for AlbumContainerDelta {
    type V = AlbumContainerView;

    open spec fn view(&self) -> AlbumContainerView {
        AlbumContainerView {
            container_id: self.container_id@,
            album_name: self.album_name@,
            is_deleted: self.is_deleted,
        }
    }
}

impl View for AlbumRelationDelta {
    type V = AlbumRelationView;

    open spec fn view(&self) -> AlbumRelationView {
        AlbumRelationView {
            container_id: self.container_id@,
            asset_record_name: self.asset_record_name@,
            is_deleted: self.is_deleted,
        }
    }
}

impl View for ChangeEvent {
    type V = EventView;

    open spec fn view(&self) -> EventView {
        EventView {
            record_name: self.record_name@,
            record_type: boxed_view(self.record_type),
            master_record_name: boxed_view(self.master_record_name),
            reason: self.reason,
            asset: match self.asset {
                Some(asset) => Some(asset@),
                None => None,
            },
            album: match self.album {
                Some(album) => Some(album@),
                None => None,
            },
            relation: match self.relation {
                Some(relation) => Some(relation@),
                None => None,
            },
            token_unsafe_reason: match self.token_unsafe_reason {
                Some(reason) => Some(reason@),
                None => None,
            },
        }
    }
}

/// The views of a list of events.
pub open spec fn event_views(events: Seq<ChangeEvent>) -> Seq<EventView> {
    events.map_values(|e: ChangeEvent| e@)
}

/// An event that carries nothing but the record's name, its type and the reason.
pub open spec fn plain_event(
    record_name: Seq<char>,
    record_type: Option<Seq<char>>,
    reason: ChangeReason,
) -> EventView {
    EventView {
        record_name,
        record_type,
        master_record_name: None,
        reason,
        asset: None,
        album: None,
        relation: None,
        token_unsafe_reason: None,
    }
}

/// Why a record is in the change feed. Whether it is new, restored or unhidden cannot be told
/// from the record alone: all of these are `Created`.
pub open spec fn reason_of(record: RecordView) -> ChangeReason {
    if record.deleted == Some(true) {
        ChangeReason::HardDeleted
    } else if signed_of(field(record.fields, "isDeleted"@)) == Some(1i64) {
        ChangeReason::SoftDeleted
    } else if signed_of(field(record.fields, "isHidden"@)) == Some(1i64) {
        ChangeReason::Hidden
    } else {
        ChangeReason::Created
    }
}

/// Whether a reason means that the record is gone.
pub open spec fn is_deletion(reason: ChangeReason) -> bool {
    reason == ChangeReason::HardDeleted || reason == ChangeReason::SoftDeleted
}

/// How severe a reason is.
pub open spec fn severity(reason: ChangeReason) -> int {
    match reason {
        ChangeReason::HardDeleted => 3,
        ChangeReason::SoftDeleted => 2,
        ChangeReason::Hidden => 1,
        ChangeReason::Created => 0,
    }
}

/// The more severe of two reasons.
pub open spec fn more_severe(a: ChangeReason, b: ChangeReason) -> ChangeReason {
    if severity(a) >= severity(b) {
        a
    } else {
        b
    }
}

/// The master that an asset record refers to.
pub open spec fn master_ref(fields: JsonView) -> Option<Seq<char>> {
    text_of(member_of(field(fields, "masterRef"@), "recordName"@))
}

/// The asset and the container that a relation's record name is made of.
pub open spec fn relation_parts(record_name: Seq<char>) -> Option<(Seq<char>, Seq<char>)> {
    match parted_last(record_name, "-IN-"@) {
        Some((asset, container)) => if asset.len() > 0 && container.len() > 0 {
            Some((asset, container))
        } else {
            None
        },
        None => None,
    }
}

/// The event that an album record gives. The name is the title as the service has it: the
/// decoded one, else the plain one, else the record's.
pub open spec fn album_event(record: RecordView, reason: ChangeReason) -> EventView {
    let album_name = match enc_text(record.fields, "albumNameEnc"@) {
        Some(name) => name,
        None => match text_of(field(record.fields, "albumName"@)) {
            Some(name) => name,
            None => record.record_name,
        },
    };
    EventView {
        album: Some(
            AlbumContainerView {
                container_id: record.record_name,
                album_name,
                is_deleted: is_deletion(reason),
            },
        ),
        ..plain_event(record.record_name, Some(record.record_type), reason)
    }
}

/// An event with another name for its album.
pub open spec fn renamed_album(event: EventView, name: Seq<char>) -> EventView {
    match event.album {
        Some(album) => EventView {
            album: Some(AlbumContainerView { album_name: name, ..album }),
            ..event
        },
        None => event,
    }
}

/// The container and the asset of a relation: of one that is gone by the record's name, of
/// another by its fields.
pub open spec fn relation_ends(record: RecordView, reason: ChangeReason) -> Option<
    (Seq<char>, Seq<char>),
> {
    if is_deletion(reason) {
        match relation_parts(record.record_name) {
            Some((asset, container)) => Some((container, asset)),
            None => None,
        }
    } else {
        match (
            text_of(field(record.fields, "containerId"@)),
            text_of(field(record.fields, "itemId"@)),
        ) {
            (Some(container), Some(item)) => Some((container, item)),
            _ => None,
        }
    }
}

/// The event that a relation record gives.
pub open spec fn relation_event(record: RecordView, reason: ChangeReason) -> EventView {
    let plain = plain_event(record.record_name, Some("CPLContainerRelation"@), reason);
    match relation_ends(record, reason) {
        Some((container_id, asset_record_name)) => EventView {
            relation: Some(
                AlbumRelationView {
                    container_id,
                    asset_record_name,
                    is_deleted: is_deletion(reason),
                },
            ),
            ..plain
        },
        None => EventView { token_unsafe_reason: Some(UNPARSABLE_RELATION@), ..plain },
    }
}

/// The event that a master and an asset record give together.
pub open spec fn paired_event(master: RecordView, asset: RecordView) -> EventView {
    EventView {
        asset: Some(asset_of(master, asset, None)),
        ..plain_event(
            master.record_name,
            Some("CPLMaster"@),
            more_severe(reason_of(master), reason_of(asset)),
        )
    }
}

/// What is still waiting for its other half: masters by their names, assets by the names of
/// their masters, in the order in which they came.
#[verifier::ext_equal]
pub struct PendingView {
    pub masters: Map<Seq<char>, RecordView>,
    pub assets: Map<Seq<char>, Seq<RecordView>>,
}

/// The assets that wait for a master.
pub open spec fn waiting_for(pending: PendingView, master: Seq<char>) -> Seq<RecordView> {
    if pending.assets.contains_key(master) {
        pending.assets[master]
    } else {
        Seq::empty()
    }
}

/// The events that a master gives together with each of its assets.
pub open spec fn paired_events(master: RecordView, assets: Seq<RecordView>) -> Seq<EventView> {
    assets.map_values(|asset: RecordView| paired_event(master, asset))
}

/// The event that a purged record gives. Its fields are gone, so unless its type or its name
/// says what it was, only its name is handed on.
pub open spec fn purged_event(record: RecordView) -> EventView {
    if record.record_type == "CPLContainerRelation"@ {
        relation_event(record, ChangeReason::HardDeleted)
    } else if record.record_type == "CPLAlbum"@ {
        album_event(record, ChangeReason::HardDeleted)
    } else if relation_parts(record.record_name) is Some {
        relation_event(record, ChangeReason::HardDeleted)
    } else {
        plain_event(record.record_name, None, ChangeReason::HardDeleted)
    }
}

/// What a record does: what is waiting after it, and the events that it gives. A master gives
/// one with each asset that has waited for it.
#[verifier::opaque]
pub open spec fn delta_step(pending: PendingView, record: RecordView) -> (
    PendingView,
    Seq<EventView>,
) {
    let reason = reason_of(record);
    if reason == ChangeReason::HardDeleted {
        (pending, seq![purged_event(record)])
    } else if record.record_type == "CPLMaster"@ {
        let name = record.record_name;
        let waiting = waiting_for(pending, name);
        let assets = pending.assets.remove(name);
        if waiting.len() > 0 {
            (PendingView { assets, ..pending }, paired_events(record, waiting))
        } else {
            (PendingView { masters: pending.masters.insert(name, record), assets }, Seq::empty())
        }
    } else if record.record_type == "CPLAsset"@ {
        match master_ref(record.fields) {
            Some(name) => if pending.masters.contains_key(name) {
                (
                    PendingView { masters: pending.masters.remove(name), ..pending },
                    seq![paired_event(pending.masters[name], record)],
                )
            } else {
                (
                    PendingView {
                        assets: pending.assets.insert(
                            name,
                            waiting_for(pending, name).push(record),
                        ),
                        ..pending
                    },
                    Seq::empty(),
                )
            },
            None => (
                pending,
                seq![plain_event(record.record_name, Some("CPLAsset"@), reason)],
            ),
        }
    } else if record.record_type == "CPLAlbum"@ {
        (pending, seq![album_event(record, reason)])
    } else if record.record_type == "CPLContainerRelation"@ {
        (pending, seq![relation_event(record, reason)])
    } else {
        (pending, Seq::empty())
    }
}

/// What a list of records does, one after the other.
pub open spec fn delta_run(pending: PendingView, records: Seq<RecordView>) -> (
    PendingView,
    Seq<EventView>,
)
    decreases records.len(),
{
    if records.len() == 0 {
        (pending, Seq::empty())
    } else {
        let (before, events) = delta_run(pending, records.drop_last());
        let (after, given) = delta_step(before, records.last());
        (after, events + given)
    }
}

/// Pages do not matter: records give the same events and leave the same records waiting,
/// wherever the feed is cut into pages.
pub proof fn law_page_boundaries_do_not_matter(
    pending: PendingView,
    first: Seq<RecordView>,
    second: Seq<RecordView>,
)
    ensures
        ({
            let (middle, first_events) = delta_run(pending, first);
            let (last, second_events) = delta_run(middle, second);
            delta_run(pending, first + second) == (last, first_events + second_events)
        }),
    decreases second.len(),
{
    let (middle, first_events) = delta_run(pending, first);
    if second.len() == 0 {
        assert(first + second =~= first);
        assert(first_events + Seq::empty() =~= first_events);
    } else {
        law_page_boundaries_do_not_matter(pending, first, second.drop_last());
        let (before, events) = delta_run(middle, second.drop_last());
        let (last, given) = delta_step(before, second.last());
        assert((first + second).drop_last() =~= first + second.drop_last());
        assert((first + second).last() == second.last());
        assert(first_events + (events + given) =~= (first_events + events) + given);
    }
}

/// Which half comes first does not matter: a master and its asset give the same event and
/// leave the same records waiting in either order.
pub proof fn law_halves_pair_in_either_order(
    pending: PendingView,
    master: RecordView,
    asset: RecordView,
)
    requires
        reason_of(master) != ChangeReason::HardDeleted,
        reason_of(asset) != ChangeReason::HardDeleted,
        master.record_type == "CPLMaster"@,
        asset.record_type == "CPLAsset"@,
        master_ref(asset.fields) == Some(master.record_name),
        !pending.masters.contains_key(master.record_name),
        !pending.assets.contains_key(master.record_name),
    ensures
        delta_run(pending, seq![master, asset]) == (pending, seq![paired_event(master, asset)]),
        delta_run(pending, seq![asset, master]) == (pending, seq![paired_event(master, asset)]),
{
    reveal_with_fuel(delta_run, 3);
    reveal(delta_step);
    reveal_strlit("CPLMaster");
    reveal_strlit("CPLAsset");
    assert("CPLMaster"@.len() != "CPLAsset"@.len());
    let name = master.record_name;
    assert(seq![master, asset].drop_last() =~= seq![master]);
    assert(seq![asset, master].drop_last() =~= seq![asset]);
    assert(seq![master].drop_last() =~= Seq::empty());
    assert(seq![asset].drop_last() =~= Seq::empty());
    assert(pending.masters.insert(name, master).remove(name) =~= pending.masters);
    assert(pending.assets.remove(name) =~= pending.assets);
    assert(waiting_for(pending, name).push(asset) =~= seq![asset]);
    let waiting = PendingView { assets: pending.assets.insert(name, seq![asset]), ..pending };
    assert(waiting_for(waiting, name) == seq![asset]);
    assert(waiting.assets.remove(name) =~= pending.assets);
    let one = seq![paired_event(master, asset)];
    assert(paired_events(master, seq![asset]) =~= one);
    assert(Seq::<EventView>::empty() + one =~= one);
}

/// How many assets wait.
pub open spec fn assets_waiting(groups: Map<Seq<char>, Seq<RecordView>>) -> nat
    decreases groups.dom().len(),
    when groups.dom().finite()
{
    if groups.dom().len() == 0 {
        0
    } else {
        let name = groups.dom().choose();
        groups[name].len() + assets_waiting(groups.remove(name))
    }
}

/// Any group can be counted first.
pub proof fn lemma_waiting_without(groups: Map<Seq<char>, Seq<RecordView>>, name: Seq<char>)
    requires
        groups.dom().finite(),
        groups.contains_key(name),
    ensures
        assets_waiting(groups) == groups[name].len() + assets_waiting(groups.remove(name)),
    decreases groups.dom().len(),
{
    let first = groups.dom().choose();
    assert(groups.dom().contains(name));
    assert(groups.dom().len() > 0);
    if first != name {
        let rest = groups.remove(first);
        lemma_waiting_without(rest, name);
        lemma_waiting_without(groups.remove(name), first);
        assert(rest.remove(name) =~= groups.remove(name).remove(first));
    }
}

/// Records give at most one event each, counted with the assets that waited before.
pub proof fn law_one_event_per_record(pending: PendingView, records: Seq<RecordView>)
    requires
        pending.assets.dom().finite(),
    ensures
        delta_run(pending, records).0.assets.dom().finite(),
        delta_run(pending, records).1.len() + assets_waiting(delta_run(pending, records).0.assets)
            <= assets_waiting(pending.assets) + records.len(),
    decreases records.len(),
{
    if records.len() > 0 {
        law_one_event_per_record(pending, records.drop_last());
        let before = delta_run(pending, records.drop_last()).0;
        let record = records.last();
        reveal(delta_step);
        let after = delta_step(before, record).0;
        if before.assets.contains_key(record.record_name) {
            lemma_waiting_without(before.assets, record.record_name);
        } else {
            assert(before.assets.remove(record.record_name) =~= before.assets);
        }
        if let Some(name) = master_ref(record.fields) {
            let grown = before.assets.insert(name, waiting_for(before, name).push(record));
            lemma_waiting_without(grown, name);
            if before.assets.contains_key(name) {
                lemma_waiting_without(before.assets, name);
                assert(grown.remove(name) =~= before.assets.remove(name));
            } else {
                assert(grown.remove(name) =~= before.assets);
            }
        }
    }
}

/// Whether masters wait under their own names.
pub open spec fn wait_by_name(pending: PendingView) -> bool {
    forall|k: Seq<char>| #[trigger]
        pending.masters.contains_key(k) ==> pending.masters[k].record_name == k
}

/// The master that a record is an asset of, where it is one that has not been purged.
pub open spec fn asset_master(record: RecordView) -> Option<Seq<char>> {
    if reason_of(record) != ChangeReason::HardDeleted && record.record_type == "CPLAsset"@ {
        master_ref(record.fields)
    } else {
        None
    }
}

/// Whether an event tells of a record. An asset is told of by the event of its pair, which
/// carries it and its master's name.
pub open spec fn tells_of(event: EventView, record: RecordView) -> bool {
    match asset_master(record) {
        Some(master) => event.record_name == master && event.asset is Some
            && event.asset->0.asset_record_name == record.record_name,
        None => event.record_name == record.record_name,
    }
}

/// Whether one of the events tells of a record.
pub open spec fn told(events: Seq<EventView>, record: RecordView) -> bool {
    exists|i: int| 0 <= i < events.len() && tells_of(#[trigger] events[i], record)
}

/// Whether a record of a feed still waits for its other half. Where the same master came again
/// it is the later one that waits.
pub open spec fn still_waits(pending: PendingView, records: Seq<RecordView>, i: int) -> bool {
    let record = records[i];
    match asset_master(record) {
        Some(master) => waiting_for(pending, master).contains(record),
        None => record.record_type == "CPLMaster"@ && pending.masters.contains_key(
            record.record_name,
        ) && exists|j: int|
            i <= j < records.len() && #[trigger] records[j] == pending.masters[record.record_name],
    }
}

/// Whether a record is one of a photo, an album or a membership, or was one.
pub open spec fn is_of_interest(record: RecordView) -> bool {
    reason_of(record) == ChangeReason::HardDeleted || record.record_type == "CPLMaster"@
        || record.record_type == "CPLAsset"@ || record.record_type == "CPLAlbum"@
        || record.record_type == "CPLContainerRelation"@
}

/// The types of records differ.
proof fn lemma_types_differ()
    ensures
        "CPLMaster"@ != "CPLAsset"@,
        "CPLAlbum"@ != "CPLMaster"@,
        "CPLAlbum"@ != "CPLAsset"@,
        "CPLContainerRelation"@ != "CPLMaster"@,
        "CPLContainerRelation"@ != "CPLAsset"@,
        "CPLContainerRelation"@ != "CPLAlbum"@,
{
    reveal_strlit("CPLMaster");
    reveal_strlit("CPLAsset");
    reveal_strlit("CPLAlbum");
    reveal_strlit("CPLContainerRelation");
    assert("CPLMaster"@.len() == 9);
    assert("CPLAsset"@.len() == 8);
    assert("CPLAlbum"@.len() == 8);
    assert("CPLContainerRelation"@.len() == 20);
    assert("CPLAsset"@[4] == 's');
    assert("CPLAlbum"@[4] == 'l');
}

/// What a record does to itself: it is told of, or it waits.
proof fn lemma_step_own(pending: PendingView, record: RecordView)
    requires
        wait_by_name(pending),
        is_of_interest(record),
    ensures
        ({
            let (after, given) = delta_step(pending, record);
            ||| told(given, record)
            ||| asset_master(record) is Some && waiting_for(
                after,
                asset_master(record)->0,
            ).contains(record)
            ||| asset_master(record) is None && record.record_type == "CPLMaster"@
                && after.masters.contains_key(record.record_name)
                && after.masters[record.record_name] == record
        }),
{
    reveal(delta_step);
    lemma_types_differ();
    let (after, given) = delta_step(pending, record);
    if given.len() > 0 {
        assert(tells_of(given[0], record));
    } else if let Some(master) = asset_master(record) {
        let group = waiting_for(pending, master).push(record);
        assert(waiting_for(after, master) == group);
        assert(group[group.len() - 1] == record);
    }
}

/// What a record does to the masters that wait: one that stops waiting is told of, or came
/// again.
proof fn lemma_step_masters(pending: PendingView, record: RecordView, master: RecordView)
    requires
        wait_by_name(pending),
        pending.masters.contains_key(master.record_name),
        asset_master(master) is None,
    ensures
        ({
            let (after, given) = delta_step(pending, record);
            ||| told(given, master)
            ||| after.masters.contains_key(master.record_name) && (
            after.masters[master.record_name] == pending.masters[master.record_name]
                || after.masters[master.record_name] == record)
        }),
{
    reveal(delta_step);
    lemma_types_differ();
    let (after, given) = delta_step(pending, record);
    if let Some(name) = asset_master(record) {
        if name == master.record_name {
            assert(tells_of(given[0], master));
        }
    }
}

/// What a record does to the assets that wait: one that stops waiting is told of.
proof fn lemma_step_assets(pending: PendingView, record: RecordView, asset: RecordView)
    requires
        asset_master(asset) is Some,
        waiting_for(pending, asset_master(asset)->0).contains(asset),
    ensures
        ({
            let (after, given) = delta_step(pending, record);
            told(given, asset) || waiting_for(after, asset_master(asset)->0).contains(asset)
        }),
{
    reveal(delta_step);
    lemma_types_differ();
    let master = asset_master(asset)->0;
    let group = waiting_for(pending, master);
    let (after, given) = delta_step(pending, record);
    let k = group.index_of(asset);
    if waiting_for(after, master) != group {
        if record.record_type == "CPLMaster"@ {
            assert(record.record_name == master);
            assert(given[k] == paired_event(record, asset));
            assert(tells_of(given[k], asset));
        } else {
            assert(waiting_for(after, master) == group.push(record));
            assert(group.push(record)[k] == asset);
        }
    }
}

/// Masters wait under their own names, whatever comes.
proof fn lemma_step_names(pending: PendingView, record: RecordView)
    requires
        wait_by_name(pending),
    ensures
        wait_by_name(delta_step(pending, record).0),
{
    reveal(delta_step);
}

/// What was told of stays so, and what the last record's events tell of is told of too.
proof fn lemma_told_grows(events: Seq<EventView>, given: Seq<EventView>, record: RecordView)
    requires
        told(events, record) || told(given, record),
    ensures
        told(events + given, record),
{
    let all = events + given;
    if told(events, record) {
        let k = choose|k: int| 0 <= k < events.len() && tells_of(#[trigger] events[k], record);
        assert(all[k] == events[k]);
    } else {
        let k = choose|k: int| 0 <= k < given.len() && tells_of(#[trigger] given[k], record);
        assert(all[events.len() + k] == given[k]);
    }
}

/// No change is lost: every record of a photo, an album or a membership is told of, or it is
/// among those that wait for their other halves.
pub proof fn law_no_change_is_lost(pending: PendingView, records: Seq<RecordView>, i: int)
    requires
        wait_by_name(pending),
        0 <= i < records.len(),
        is_of_interest(records[i]),
    ensures
        told(delta_run(pending, records).1, records[i]) || still_waits(
            delta_run(pending, records).0,
            records,
            i,
        ),
    decreases records.len(),
{
    let fewer = records.drop_last();
    let (before, events) = delta_run(pending, fewer);
    let last = records.last();
    let (after, given) = delta_step(before, last);
    let record = records[i];
    lemma_run_names(pending, fewer);
    if i == fewer.len() {
        lemma_step_own(before, last);
        if told(given, record) {
            lemma_told_grows(events, given, record);
        } else {
            assert(records[i] == record);
        }
    } else {
        law_no_change_is_lost(pending, fewer, i);
        assert(fewer[i] == record);
        if told(events, record) {
            lemma_told_grows(events, given, record);
        } else {
            match asset_master(record) {
                Some(_) => {
                    lemma_step_assets(before, last, record);
                },
                None => {
                    lemma_step_masters(before, last, record);
                    let j = choose|j: int|
                        i <= j < fewer.len() && #[trigger] fewer[j]
                            == before.masters[record.record_name];
                    assert(records[j] == fewer[j]);
                    assert(records[records.len() - 1] == last);
                },
            }
            if told(given, record) {
                lemma_told_grows(events, given, record);
            }
        }
    }
}

/// Masters wait under their own names after any records.
proof fn lemma_run_names(pending: PendingView, records: Seq<RecordView>)
    requires
        wait_by_name(pending),
    ensures
        wait_by_name(delta_run(pending, records).0),
    decreases records.len(),
{
    if records.len() > 0 {
        lemma_run_names(pending, records.drop_last());
        lemma_step_names(delta_run(pending, records.drop_last()).0, records.last());
    }
}

impl ChangeEvent {
    /// An event that carries nothing but the record's name, its type and the reason.
    fn new(record_name: &str, record_type: Option<Box<str>>, reason: ChangeReason) -> (event: Self)
        ensures
            event@ == plain_event(record_name@, boxed_view(record_type), reason),
    {
        ChangeEvent {
            record_name: boxed(record_name),
            record_type,
            master_record_name: None,
            reason,
            asset: None,
            album: None,
            relation: None,
            token_unsafe_reason: None,
        }
    }

    /// The event with another name for its album: the one that the album's title is given on
    /// disk. An event of no album stays as it is.
    pub fn with_album_name(self, name: &str) -> (event: Self)
        ensures
            event@ == renamed_album(self@, name@),
    {
        let mut event = self;
        event.album = match event.album {
            Some(album) => Some(
                AlbumContainerDelta {
                    container_id: album.container_id,
                    album_name: boxed(name),
                    is_deleted: album.is_deleted,
                },
            ),
            None => None,
        };
        event
    }
}

/// Whether a field holds the integer one.
fn is_one(fields: &Json, key: &str) -> (one: bool)
    ensures
        one == (signed_of(field(fields@, key@)) == Some(1i64)),
{
    match fields.field(key) {
        Some(value) => match value.as_i64() {
            Some(n) => n == 1,
            None => false,
        },
        None => false,
    }
}

/// Why a record is in the change feed.
pub fn classify_change_reason(record: &Record) -> (reason: ChangeReason)
    ensures
        reason == reason_of(record@),
{
    match record.deleted {
        Some(true) => {
            return ChangeReason::HardDeleted;
        },
        _ => {},
    }
    if is_one(&record.fields, "isDeleted") {
        ChangeReason::SoftDeleted
    } else if is_one(&record.fields, "isHidden") {
        ChangeReason::Hidden
    } else {
        ChangeReason::Created
    }
}

/// The master that an asset record refers to.
pub fn extract_master_ref(fields: &Json) -> (name: Option<String>)
    ensures
        option_view(name) == master_ref(fields@),
{
    match fields.field("masterRef") {
        Some(reference) => match reference.get_str("recordName") {
            Some(name) => Some(name.to_owned()),
            None => None,
        },
        None => None,
    }
}

/// Whether a reason means that the record is gone.
fn is_deleted_reason(reason: ChangeReason) -> (deleted: bool)
    ensures
        deleted == is_deletion(reason),
{
    match reason {
        ChangeReason::HardDeleted => true,
        ChangeReason::SoftDeleted => true,
        _ => false,
    }
}

/// The event that an album record gives.
fn parse_album_delta(record: &Record, reason: ChangeReason) -> (event: ChangeEvent)
    ensures
        event@ == album_event(record@, reason),
{
    let album_name = match decode_string(&record.fields, "albumNameEnc") {
        Some(name) => name,
        None => match record.fields.field_str("albumName") {
            Some(name) => name.to_owned(),
            None => record.record_name.clone(),
        },
    };
    let mut event = ChangeEvent::new(
        &record.record_name,
        Some(boxed(&record.record_type)),
        reason,
    );
    event.album = Some(
        AlbumContainerDelta {
            container_id: boxed(&record.record_name),
            album_name: album_name.into_boxed_str(),
            is_deleted: is_deleted_reason(reason),
        },
    );
    event
}

/// The asset and the container that a relation's record name is made of.
pub fn parse_relation_record_name(record_name: &str) -> (parts: Option<(String, String)>)
    ensures
        option_pair_view(parts) == relation_parts(record_name@),
{
    proof {
        reveal_strlit("");
    }
    match rsplit_once(record_name, "-IN-") {
        Some((asset, container)) => {
            proof {
                assert(asset@.len() == 0 ==> asset@ =~= ""@);
                assert(container@.len() == 0 ==> container@ =~= ""@);
            }
            if str_eq(&asset, "") || str_eq(&container, "") {
                None
            } else {
                Some((asset, container))
            }
        },
        None => None,
    }
}

/// The event that a relation record gives.
fn parse_relation_delta(record: &Record, reason: ChangeReason) -> (event: ChangeEvent)
    ensures
        event@ == relation_event(record@, reason),
{
    let is_deleted = is_deleted_reason(reason);
    let ends = if is_deleted {
        match parse_relation_record_name(&record.record_name) {
            Some((asset, container)) => Some((container, asset)),
            None => None,
        }
    } else {
        match (record.fields.field_str("containerId"), record.fields.field_str("itemId")) {
            (Some(container), Some(item)) => Some((container.to_owned(), item.to_owned())),
            _ => None,
        }
    };
    let mut event = ChangeEvent::new(
        &record.record_name,
        Some(boxed("CPLContainerRelation")),
        reason,
    );
    match ends {
        Some((container_id, asset_record_name)) => {
            event.relation = Some(
                AlbumRelationDelta {
                    container_id: container_id.into_boxed_str(),
                    asset_record_name: asset_record_name.into_boxed_str(),
                    is_deleted,
                },
            );
        },
        None => {
            event.token_unsafe_reason = Some(UNPARSABLE_RELATION);
        },
    }
    event
}

/// The event that a purged record gives.
fn purged(record: &Record) -> (event: ChangeEvent)
    ensures
        event@ == purged_event(record@),
{
    let reason = ChangeReason::HardDeleted;
    if str_eq(&record.record_type, "CPLContainerRelation") {
        parse_relation_delta(record, reason)
    } else if str_eq(&record.record_type, "CPLAlbum") {
        parse_album_delta(record, reason)
    } else if parse_relation_record_name(&record.record_name).is_some() {
        parse_relation_delta(record, reason)
    } else {
        ChangeEvent::new(&record.record_name, None, reason)
    }
}

/// Pairs master and asset records of the change feed, which come in the order of the changes
/// and not side by side, and holds back each half until the other one is there.
#[derive(Debug)]
pub struct DeltaRecordBuffer {
    pub pending_masters: FxHashMap<String, Record>,
    pub pending_assets: FxHashMap<String, Vec<Record>>,
}

/// The records in a table, by their views.
pub open spec fn held(table: FxHashMap<String, Record>) -> Map<Seq<char>, RecordView> {
    keyed(table).map_values(|r: Record| r@)
}

/// The groups of records in a table, by their views.
pub open spec fn held_groups(table: FxHashMap<String, Vec<Record>>) -> Map<
    Seq<char>,
    Seq<RecordView>,
> {
    keyed(table).map_values(|g: Vec<Record>| record_views(g@))
}

impl View for DeltaRecordBuffer {
    type V = PendingView;

    open spec fn view(&self) -> PendingView {
        PendingView {
            masters: held(self.pending_masters),
            assets: held_groups(self.pending_assets),
        }
    }
}

/// Nothing is waiting.
pub open spec fn nothing_pending() -> PendingView {
    PendingView { masters: Map::empty(), assets: Map::empty() }
}

/// The event that a master gives that never met its asset.
pub open spec fn lone_master_event(name: Seq<char>, record: RecordView) -> EventView {
    plain_event(name, Some("CPLMaster"@), reason_of(record))
}

/// The event that an asset gives that never met its master.
pub open spec fn lone_asset_event(name: Seq<char>, record: RecordView) -> EventView {
    EventView {
        master_record_name: Some(name),
        ..plain_event(record.record_name, Some("CPLAsset"@), reason_of(record))
    }
}

/// `pairs` lists every entry of `m` exactly once, in some order.
pub open spec fn lists<V>(pairs: Seq<(Seq<char>, V)>, m: Map<Seq<char>, V>) -> bool {
    &&& forall|i: int, j: int|
        #![trigger pairs[i], pairs[j]]
        0 <= i < j < pairs.len() ==> pairs[i].0 != pairs[j].0
    &&& forall|i: int|
        #![trigger pairs[i]]
        0 <= i < pairs.len() ==> m.contains_key(pairs[i].0) && m[pairs[i].0] == pairs[i].1
    &&& forall|k: Seq<char>| #[trigger]
        m.contains_key(k) ==> exists|i: int| 0 <= i < pairs.len() && #[trigger] pairs[i].0 == k
}

/// The events of assets that wait for a master.
pub open spec fn lone_asset_events(name: Seq<char>, records: Seq<RecordView>) -> Seq<EventView> {
    records.map_values(|record: RecordView| lone_asset_event(name, record))
}

/// The events of groups of waiting assets, in this order.
pub open spec fn group_events(groups: Seq<(Seq<char>, Seq<RecordView>)>) -> Seq<EventView>
    decreases groups.len(),
{
    if groups.len() == 0 {
        Seq::empty()
    } else {
        group_events(groups.drop_last()) + lone_asset_events(groups.last().0, groups.last().1)
    }
}

/// The events that a flush gives for these masters and groups of assets, in this order: one
/// for each record.
pub open spec fn flush_events(
    masters: Seq<(Seq<char>, RecordView)>,
    groups: Seq<(Seq<char>, Seq<RecordView>)>,
) -> Seq<EventView> {
    masters.map_values(|p: (Seq<char>, RecordView)| lone_master_event(p.0, p.1))
        + group_events(groups)
}

/// `events` are those that a flush gives: each waiting master, then each waiting asset,
/// exactly once. Assets of one master stand together in the order in which they came; any
/// other order is open.
pub open spec fn is_flush(pending: PendingView, events: Seq<EventView>) -> bool {
    exists|masters: Seq<(Seq<char>, RecordView)>, groups: Seq<(Seq<char>, Seq<RecordView>)>|
        lists(masters, pending.masters) && lists(groups, pending.assets) && events
            == #[trigger] flush_events(masters, groups)
}

/// The views of named records.
pub open spec fn named_views(pairs: Seq<(String, Record)>) -> Seq<(Seq<char>, RecordView)> {
    pairs.map_values(|p: (String, Record)| (p.0@, p.1@))
}

/// The views of named groups of records.
pub open spec fn group_views(groups: Seq<(String, Vec<Record>)>) -> Seq<
    (Seq<char>, Seq<RecordView>),
> {
    groups.map_values(|g: (String, Vec<Record>)| (g.0@, record_views(g.1@)))
}

/// A list of the entries of a table, taken by views, lists what the table holds.
proof fn lemma_lists_views<A, B>(
    pairs: Seq<(String, A)>,
    table: Map<Seq<char>, A>,
    view: spec_fn(A) -> B,
)
    requires
        lists_entries(pairs, table),
    ensures
        lists(pairs.map_values(|p: (String, A)| (p.0@, view(p.1))), table.map_values(view)),
{
    let views = pairs.map_values(|p: (String, A)| (p.0@, view(p.1)));
    let m = table.map_values(view);
    assert forall|i: int, j: int|
        #![trigger views[i], views[j]]
        0 <= i < j < views.len() implies views[i].0 != views[j].0 by {
        assert(pairs[i].0@ != pairs[j].0@);
    }
    assert forall|i: int| #![trigger views[i]] 0 <= i < views.len() implies m.contains_key(
        views[i].0,
    ) && m[views[i].0] == views[i].1 by {
        assert(table.contains_key(pairs[i].0@));
    }
    assert forall|k: Seq<char>| #[trigger] m.contains_key(k) implies exists|i: int|
        0 <= i < views.len() && #[trigger] views[i].0 == k by {
        assert(table.contains_key(k));
        let i = choose|i: int| 0 <= i < pairs.len() && #[trigger] pairs[i].0@ == k;
        assert(views[i].0 == k);
    }
}

/// A list of a table's records, by their views, lists what the table holds.
proof fn lemma_listed(pairs: Seq<(String, Record)>, table: Map<Seq<char>, Record>)
    requires
        lists_entries(pairs, table),
    ensures
        lists(named_views(pairs), table.map_values(|r: Record| r@)),
{
    let view = |r: Record| r@;
    lemma_lists_views(pairs, table, view);
    assert(pairs.map_values(|p: (String, Record)| (p.0@, view(p.1))) =~= named_views(pairs));
    assert(table.map_values(view) =~= table.map_values(|r: Record| r@));
}

/// A list of a table's groups, by their views, lists what the table holds.
pub proof fn lemma_listed_groups(
    groups: Seq<(String, Vec<Record>)>,
    table: Map<Seq<char>, Vec<Record>>,
)
    requires
        lists_entries(groups, table),
    ensures
        lists(group_views(groups), table.map_values(|g: Vec<Record>| record_views(g@))),
{
    let view = |g: Vec<Record>| record_views(g@);
    lemma_lists_views(groups, table, view);
    assert(groups.map_values(|p: (String, Vec<Record>)| (p.0@, view(p.1))) =~= group_views(groups));
    assert(table.map_values(view) =~= table.map_values(|g: Vec<Record>| record_views(g@)));
}

/// The event of a record of a group is among the groups' events.
proof fn lemma_group_events(groups: Seq<(Seq<char>, Seq<RecordView>)>, g: int, i: int)
    requires
        0 <= g < groups.len(),
        0 <= i < groups[g].1.len(),
    ensures
        group_events(groups).contains(lone_asset_event(groups[g].0, groups[g].1[i])),
    decreases groups.len(),
{
    let event = lone_asset_event(groups[g].0, groups[g].1[i]);
    let before = group_events(groups.drop_last());
    let own = lone_asset_events(groups.last().0, groups.last().1);
    if g == groups.len() - 1 {
        assert(own[i] == event);
        assert((before + own)[before.len() + i] == event);
    } else {
        assert(groups.drop_last()[g] == groups[g]);
        lemma_group_events(groups.drop_last(), g, i);
        let k = before.index_of(event);
        assert((before + own)[k] == event);
    }
}

/// Nothing is lost in a flush: every waiting master and every waiting asset gives an event.
pub proof fn law_flush_loses_nothing(pending: PendingView, events: Seq<EventView>)
    requires
        is_flush(pending, events),
    ensures
        forall|k: Seq<char>| #[trigger]
            pending.masters.contains_key(k) ==> events.contains(
                lone_master_event(k, pending.masters[k]),
            ),
        forall|k: Seq<char>, i: int|
            pending.assets.contains_key(k) && 0 <= i < pending.assets[k].len() ==> events.contains(
                lone_asset_event(k, #[trigger] pending.assets[k][i]),
            ),
{
    let (masters, groups) = choose|
        masters: Seq<(Seq<char>, RecordView)>,
        groups: Seq<(Seq<char>, Seq<RecordView>)>,
    |
        lists(masters, pending.masters) && lists(groups, pending.assets) && events
            == #[trigger] flush_events(masters, groups);
    assert forall|k: Seq<char>| #[trigger] pending.masters.contains_key(k) implies events.contains(
        lone_master_event(k, pending.masters[k]),
    ) by {
        let i = choose|i: int| 0 <= i < masters.len() && #[trigger] masters[i].0 == k;
        assert(events[i] == lone_master_event(k, pending.masters[k]));
    }
    assert forall|k: Seq<char>, i: int|
        pending.assets.contains_key(k) && 0 <= i < pending.assets[k].len() implies events.contains(
        lone_asset_event(k, #[trigger] pending.assets[k][i]),
    ) by {
        let event = lone_asset_event(k, pending.assets[k][i]);
        let g = choose|g: int| 0 <= g < groups.len() && #[trigger] groups[g].0 == k;
        lemma_group_events(groups, g, i);
        let at = group_events(groups).index_of(event);
        assert(events[masters.len() + at] == event);
    }
}

/// A feed that is flushed at its end tells of every record of a photo, an album or a
/// membership: on its pages, or in the flush under the record's own name.
pub proof fn law_flushed_feed_tells_all(
    records: Seq<RecordView>,
    i: int,
    flushed: Seq<EventView>,
)
    requires
        0 <= i < records.len(),
        is_of_interest(records[i]),
        is_flush(delta_run(nothing_pending(), records).0, flushed),
    ensures
        told(delta_run(nothing_pending(), records).1, records[i]) || exists|j: int|
            0 <= j < flushed.len() && (#[trigger] flushed[j]).record_name == records[i].record_name,
{
    let (pending, events) = delta_run(nothing_pending(), records);
    let record = records[i];
    law_no_change_is_lost(nothing_pending(), records, i);
    law_flush_loses_nothing(pending, flushed);
    if !told(events, record) {
        let event = match asset_master(record) {
            Some(master) => {
                let at = waiting_for(pending, master).index_of(record);
                assert(pending.assets[master][at] == record);
                lone_asset_event(master, record)
            },
            None => {
                let name = record.record_name;
                assert(pending.masters.contains_key(name));
                lone_master_event(name, pending.masters[name])
            },
        };
        assert(flushed.contains(event));
        let j = flushed.index_of(event);
        assert(flushed[j].record_name == record.record_name);
    }
}

/// A flush gives nothing where nothing is waiting.
pub proof fn law_nothing_pending_flushes_nothing(events: Seq<EventView>)
    requires
        is_flush(nothing_pending(), events),
    ensures
        events.len() == 0,
{
    let (masters, groups) = choose|
        masters: Seq<(Seq<char>, RecordView)>,
        groups: Seq<(Seq<char>, Seq<RecordView>)>,
    |
        lists(masters, nothing_pending().masters) && lists(groups, nothing_pending().assets)
            && events == #[trigger] flush_events(masters, groups);
    if masters.len() > 0 {
        assert(nothing_pending().masters.contains_key(masters[0].0));
    }
    if groups.len() > 0 {
        assert(nothing_pending().assets.contains_key(groups[0].0));
    }
}

impl DeltaRecordBuffer {
    /// Nothing is waiting.
    pub fn new() -> (buffer: Self)
        ensures
            buffer@ == nothing_pending(),
    {
        let buffer = DeltaRecordBuffer {
            pending_masters: empty_table(),
            pending_assets: empty_table(),
        };
        proof {
            assert(held(buffer.pending_masters) =~= Map::empty());
            assert(held_groups(buffer.pending_assets) =~= Map::empty());
        }
        buffer
    }

    /// The more severe of two reasons.
    fn reconcile_reasons(a: ChangeReason, b: ChangeReason) -> (reason: ChangeReason)
        ensures
            reason == more_severe(a, b),
            severity(reason) >= severity(a),
            severity(reason) >= severity(b),
    {
        if Self::severity_of(a) >= Self::severity_of(b) {
            a
        } else {
            b
        }
    }

    /// How severe a reason is.
    fn severity_of(reason: ChangeReason) -> (n: u8)
        ensures
            n == severity(reason),
    {
        match reason {
            ChangeReason::HardDeleted => 3,
            ChangeReason::SoftDeleted => 2,
            ChangeReason::Hidden => 1,
            ChangeReason::Created => 0,
        }
    }

    /// The event that a master and an asset record give together.
    fn paired(master: &Record, asset: &Record) -> (event: ChangeEvent)
        ensures
            event@ == paired_event(master@, asset@),
    {
        let reason = Self::reconcile_reasons(
            classify_change_reason(master),
            classify_change_reason(asset),
        );
        let mut event = ChangeEvent::new(&master.record_name, Some(boxed("CPLMaster")), reason);
        event.asset = Some(PhotoAsset::from_records(master, asset));
        event
    }

    /// The events that a master gives together with each of its assets.
    fn emit_paired(master: &Record, assets: &Vec<Record>) -> (events: Vec<ChangeEvent>)
        ensures
            event_views(events@) == paired_events(master@, record_views(assets@)),
    {
        let mut events: Vec<ChangeEvent> = Vec::new();
        let mut i: usize = 0;
        while i < assets.len()
            invariant
                i <= assets.len(),
                event_views(events@) =~= paired_events(master@, record_views(assets@)).take(
                    i as int,
                ),
            decreases assets.len() - i,
        {
            let event = Self::paired(master, &assets[i]);
            let ghost given = event_views(events@);
            let ghost view = event@;
            events.push(event);
            proof {
                let all = paired_events(master@, record_views(assets@));
                assert(all[i as int] == view);
                assert(event_views(events@) =~= given.push(view));
                assert(all.take(i + 1) =~= all.take(i as int).push(view));
            }
            i = i + 1;
        }
        events
    }

    /// A single event.
    fn one(event: ChangeEvent) -> (events: Vec<ChangeEvent>)
        ensures
            event_views(events@) == seq![event@],
    {
        let ghost view = event@;
        let events = vec![event];
        assert(event_views(events@) =~= seq![view]);
        events
    }

    /// No event.
    fn no_event() -> (events: Vec<ChangeEvent>)
        ensures
            event_views(events@) == Seq::<EventView>::empty(),
    {
        let events: Vec<ChangeEvent> = Vec::new();
        assert(event_views(events@) =~= Seq::empty());
        events
    }

    /// Let an asset wait for its master, behind those that wait already.
    fn hold_asset(&mut self, master: String, asset: Record)
        ensures
            final(self)@ == (PendingView {
                assets: old(self)@.assets.insert(
                    master@,
                    waiting_for(old(self)@, master@).push(asset@),
                ),
                ..old(self)@
            }),
    {
        let ghost before = self@;
        let ghost key = master@;
        let ghost view = asset@;
        let mut group = match table_remove(&mut self.pending_assets, &master) {
            Some(group) => group,
            None => Vec::new(),
        };
        let ghost waiting = record_views(group@);
        assert(waiting =~= waiting_for(before, key));
        group.push(asset);
        assert(record_views(group@) =~= waiting.push(view));
        let _ = table_insert(&mut self.pending_assets, master, group);
        proof {
            assert(self@.masters =~= before.masters);
            assert(self@.assets =~= before.assets.insert(key, waiting.push(view)));
        }
    }

    /// Take in one record.
    fn process_record(&mut self, record: Record) -> (events: Vec<ChangeEvent>)
        ensures
            (final(self)@, event_views(events@)) == delta_step(old(self)@, record@),
    {
        proof {
            reveal(delta_step);
        }
        let reason = classify_change_reason(&record);
        if let ChangeReason::HardDeleted = reason {
            return Self::one(purged(&record));
        }
        if str_eq(&record.record_type, "CPLMaster") {
            let ghost before = self@;
            let waiting = match table_remove(&mut self.pending_assets, &record.record_name) {
                Some(waiting) => waiting,
                None => Vec::new(),
            };
            proof {
                assert(record_views(waiting@) =~= waiting_for(before, record@.record_name));
                assert(self@.assets =~= before.assets.remove(record@.record_name));
            }
            if waiting.len() > 0 {
                Self::emit_paired(&record, &waiting)
            } else {
                let name = record.record_name.clone();
                let ghost view = record@;
                let _ = table_insert(&mut self.pending_masters, name, record);
                proof {
                    assert(self@.masters =~= before.masters.insert(view.record_name, view));
                }
                Self::no_event()
            }
        } else if str_eq(&record.record_type, "CPLAsset") {
            let ghost before = self@;
            match extract_master_ref(&record.fields) {
                Some(name) => match table_remove(&mut self.pending_masters, &name) {
                    Some(master) => {
                        proof {
                            assert(self@.masters =~= before.masters.remove(name@));
                        }
                        Self::one(Self::paired(&master, &record))
                    },
                    None => {
                        proof {
                            assert(self@.masters =~= before.masters);
                        }
                        self.hold_asset(name, record);
                        Self::no_event()
                    },
                },
                None => Self::one(
                    ChangeEvent::new(&record.record_name, Some(boxed("CPLAsset")), reason),
                ),
            }
        } else if str_eq(&record.record_type, "CPLAlbum") {
            Self::one(parse_album_delta(&record, reason))
        } else if str_eq(&record.record_type, "CPLContainerRelation") {
            Self::one(parse_relation_delta(&record, reason))
        } else {
            Self::no_event()
        }
    }

    /// Take in the records of a page, and hand out the events that are complete.
    pub fn process_records(&mut self, records: Vec<Record>) -> (events: Vec<ChangeEvent>)
        ensures
            (final(self)@, event_views(events@)) == delta_run(old(self)@, record_views(records@)),
    {
        let mut events: Vec<ChangeEvent> = Vec::new();
        let ghost start = self@;
        let ghost views = record_views(records@);
        for record in it: records.into_iter()
            invariant
                record_views(it.seq()) == views,
                it.index() <= views.len(),
                self@ == delta_run(start, views.take(it.index() as int)).0,
                event_views(events@) =~= delta_run(start, views.take(it.index() as int)).1,
        {
            let ghost i = it.index() as int;
            let ghost given = event_views(events@);
            proof {
                assert(views[i] == record@);
                assert(views.take(i + 1).drop_last() =~= views.take(i));
            }
            let mut more = self.process_record(record);
            let ghost added = event_views(more@);
            events.append(&mut more);
            assert(event_views(events@) =~= given + added);
        }
        proof {
            assert(views.take(views.len() as int) =~= views);
        }
        events
    }

    /// The events of the assets that never met their master.
    fn lone_assets(name: &str, records: &Vec<Record>) -> (events: Vec<ChangeEvent>)
        ensures
            event_views(events@) == lone_asset_events(name@, record_views(records@)),
    {
        let mut events: Vec<ChangeEvent> = Vec::new();
        let mut i: usize = 0;
        while i < records.len()
            invariant
                i <= records.len(),
                event_views(events@) =~= lone_asset_events(name@, record_views(records@)).take(
                    i as int,
                ),
            decreases records.len() - i,
        {
            let record = &records[i];
            let mut event = ChangeEvent::new(
                &record.record_name,
                Some(boxed("CPLAsset")),
                classify_change_reason(record),
            );
            event.master_record_name = Some(boxed(name));
            let ghost given = event_views(events@);
            let ghost view = event@;
            events.push(event);
            proof {
                let all = lone_asset_events(name@, record_views(records@));
                assert(all[i as int] == view);
                assert(event_views(events@) =~= given.push(view));
                assert(all.take(i + 1) =~= all.take(i as int).push(view));
            }
            i = i + 1;
        }
        events
    }

    /// Hand out what is still waiting, each record as an event of its own. To be called when
    /// the last page is in.
    pub fn flush(&mut self) -> (events: Vec<ChangeEvent>)
        ensures
            final(self)@ == nothing_pending(),
            is_flush(old(self)@, event_views(events@)),
    {
        let mut events: Vec<ChangeEvent> = Vec::new();
        let ghost before = *self;
        let masters = table_drain(&mut self.pending_masters);
        let groups = table_drain(&mut self.pending_assets);
        let ghost master_views = named_views(masters@);
        let ghost group_views = group_views(groups@);
        proof {
            lemma_listed(masters@, keyed(before.pending_masters));
            lemma_listed_groups(groups@, keyed(before.pending_assets));
            assert(held(self.pending_masters) =~= Map::empty());
            assert(held_groups(self.pending_assets) =~= Map::empty());
        }
        let mut i: usize = 0;
        while i < masters.len()
            invariant
                i <= masters.len(),
                master_views == named_views(masters@),
                event_views(events@) =~= flush_events(master_views.take(i as int), Seq::empty()),
            decreases masters.len() - i,
        {
            let ghost given = event_views(events@);
            let (name, record) = &masters[i];
            let event = ChangeEvent::new(
                name,
                Some(boxed("CPLMaster")),
                classify_change_reason(record),
            );
            let ghost view = event@;
            events.push(event);
            proof {
                assert(event_views(events@) =~= given.push(view));
                assert(view == lone_master_event(master_views[i as int].0, master_views[i as int].1));
            }
            i = i + 1;
        }
        proof {
            assert(master_views.take(i as int) =~= master_views);
        }
        let mut j: usize = 0;
        while j < groups.len()
            invariant
                j <= groups.len(),
                group_views == self::group_views(groups@),
                event_views(events@) =~= flush_events(master_views, group_views.take(j as int)),
            decreases groups.len() - j,
        {
            let ghost given = event_views(events@);
            let (name, records) = &groups[j];
            let mut more = Self::lone_assets(name, records);
            let ghost added = event_views(more@);
            events.append(&mut more);
            proof {
                assert(event_views(events@) =~= given + added);
                assert(group_views[j as int] == (name@, record_views(records@)));
                assert(group_views.take(j + 1).drop_last() =~= group_views.take(j as int));
            }
            j = j + 1;
        }
        proof {
            assert(group_views.take(j as int) =~= group_views);
        }
        events
    }
}

impl Default for DeltaRecordBuffer {
    /// Nothing is waiting.
    fn default() -> (buffer: Self)
        ensures
            buffer@ == nothing_pending(),
    {
        DeltaRecordBuffer::new()
    }
}

/// Whether a field of a record holds the integer one.
pub open spec fn marked(record: RecordView, key: Seq<char>) -> bool {
    signed_of(member_of(member(record.fields, key), "value"@)) == Some(1i64)
}

/// A record says by itself why it is in the feed: it was purged, it is in the trash, it is
/// hidden, in this order, or else it was created.
pub proof fn law_a_record_says_why_it_changed(record: RecordView)
    ensures
        ({
            let purged = record.deleted == Some(true);
            let trashed = marked(record, "isDeleted"@);
            let hidden = marked(record, "isHidden"@);
            &&& reason_of(record) == ChangeReason::HardDeleted <==> purged
            &&& reason_of(record) == ChangeReason::SoftDeleted <==> !purged && trashed
            &&& reason_of(record) == ChangeReason::Hidden <==> !purged && !trashed && hidden
            &&& reason_of(record) == ChangeReason::Created <==> !purged && !trashed && !hidden
        }),
{
}

/// A pair is as its worse half: it is purged or in the trash where either half is; it is hidden
/// where neither half is gone and either is hidden; and it was created only where both were.
pub proof fn law_a_pair_is_as_its_worse_half(master: RecordView, asset: RecordView)
    ensures
        ({
            let reason = paired_event(master, asset).reason;
            let purged = master.deleted == Some(true) || asset.deleted == Some(true);
            let trashed = marked(master, "isDeleted"@) || marked(asset, "isDeleted"@);
            let hidden = marked(master, "isHidden"@) || marked(asset, "isHidden"@);
            &&& reason == ChangeReason::HardDeleted <==> purged
            &&& reason == ChangeReason::SoftDeleted <==> !purged && trashed
            &&& reason == ChangeReason::Hidden <==> !purged && !trashed && hidden
            &&& reason == ChangeReason::Created <==> !purged && !trashed && !hidden
        }),
{
}

/// The event of a pair goes by the master's name and type and carries the asset that the two
/// records make, and nothing of albums or memberships.
pub proof fn law_a_pairs_event_carries_the_asset(master: RecordView, asset: RecordView)
    ensures
        ({
            let event = paired_event(master, asset);
            &&& event.record_name == master.record_name
            &&& event.record_type == Some("CPLMaster"@)
            &&& event.master_record_name is None
            &&& event.asset == Some(asset_of(master, asset, None))
            &&& event.album is None
            &&& event.relation is None
            &&& event.token_unsafe_reason is None
        }),
{
}

/// A master and its asset give one event in either order. It goes by the master's name, carries
/// the asset that the two records make, and says of the photo what the worse half says.
pub proof fn law_a_pair_gives_one_event(
    pending: PendingView,
    master: RecordView,
    asset: RecordView,
)
    requires
        master.deleted != Some(true),
        asset.deleted != Some(true),
        master.record_type == "CPLMaster"@,
        asset.record_type == "CPLAsset"@,
        text_of(
            member_of(member_of(member(asset.fields, "masterRef"@), "value"@), "recordName"@),
        ) == Some(master.record_name),
        !pending.masters.contains_key(master.record_name),
        !pending.assets.contains_key(master.record_name),
    ensures
        ({
            let (after, events) = delta_run(pending, seq![master, asset]);
            let trashed = marked(master, "isDeleted"@) || marked(asset, "isDeleted"@);
            let hidden = marked(master, "isHidden"@) || marked(asset, "isHidden"@);
            &&& delta_run(pending, seq![asset, master]) == (after, events)
            &&& after == pending
            &&& events.len() == 1
            &&& events[0].record_name == master.record_name
            &&& events[0].record_type == Some("CPLMaster"@)
            &&& events[0].master_record_name is None
            &&& events[0].asset == Some(asset_of(master, asset, None))
            &&& events[0].album is None
            &&& events[0].relation is None
            &&& events[0].token_unsafe_reason is None
            &&& events[0].reason == if trashed {
                ChangeReason::SoftDeleted
            } else if hidden {
                ChangeReason::Hidden
            } else {
                ChangeReason::Created
            }
        }),
{
    law_halves_pair_in_either_order(pending, master, asset);
}

/// An asset whose master waits meets it: one event tells of the two, and the master waits no
/// longer. Nothing else that waits is touched.
pub proof fn law_an_asset_meets_the_master_that_waits(pending: PendingView, record: RecordView)
    requires
        record.deleted != Some(true),
        record.record_type == "CPLAsset"@,
        master_ref(record.fields) is Some,
        pending.masters.contains_key(master_ref(record.fields)->0),
    ensures
        ({
            let (after, events) = delta_step(pending, record);
            let name = master_ref(record.fields)->0;
            let master = pending.masters[name];
            &&& events.len() == 1
            &&& events[0] == paired_event(master, record)
            &&& events[0].record_name == master.record_name
            &&& events[0].asset == Some(asset_of(master, record, None))
            &&& after.masters == pending.masters.remove(name)
            &&& after.assets == pending.assets
        }),
{
    reveal(delta_step);
    lemma_types_differ();
}

/// An asset whose master is not there yet gives no event. It waits, behind the assets that came
/// before it.
pub proof fn law_an_asset_waits_for_its_master(pending: PendingView, record: RecordView)
    requires
        record.deleted != Some(true),
        record.record_type == "CPLAsset"@,
        master_ref(record.fields) is Some,
        !pending.masters.contains_key(master_ref(record.fields)->0),
    ensures
        ({
            let (after, events) = delta_step(pending, record);
            let name = master_ref(record.fields)->0;
            &&& events.len() == 0
            &&& after.masters == pending.masters
            &&& waiting_for(after, name) == waiting_for(pending, name).push(record)
            &&& forall|other: Seq<char>|
                other != name ==> #[trigger] waiting_for(after, other) == waiting_for(
                    pending,
                    other,
                )
        }),
{
    reveal(delta_step);
    lemma_types_differ();
}

/// An asset that names no master is told of alone, and waits for nothing.
pub proof fn law_an_asset_without_a_master_is_told_alone(pending: PendingView, record: RecordView)
    requires
        record.deleted != Some(true),
        record.record_type == "CPLAsset"@,
        text_of(
            member_of(member_of(member(record.fields, "masterRef"@), "value"@), "recordName"@),
        ) is None,
    ensures
        ({
            let (after, events) = delta_step(pending, record);
            &&& after == pending
            &&& events.len() == 1
            &&& events[0].record_name == record.record_name
            &&& events[0].record_type == Some("CPLAsset"@)
            &&& events[0].reason == reason_of(record)
            &&& events[0].asset is None
            &&& events[0].master_record_name is None
            &&& events[0].token_unsafe_reason is None
        }),
{
    reveal(delta_step);
    lemma_types_differ();
}

/// A master meets every asset that waits for it, each in an event of its own and in the order
/// in which they came; they wait no longer. A master that none waits for waits itself.
pub proof fn law_a_master_meets_the_assets_that_wait(pending: PendingView, record: RecordView)
    requires
        record.deleted != Some(true),
        record.record_type == "CPLMaster"@,
    ensures
        ({
            let (after, events) = delta_step(pending, record);
            let name = record.record_name;
            let waiting = waiting_for(pending, name);
            &&& events.len() == waiting.len()
            &&& forall|i: int|
                0 <= i < waiting.len() ==> (#[trigger] events[i]).record_name == name
                    && events[i].asset == Some(asset_of(record, waiting[i], None)) && events[i]
                    == paired_event(record, waiting[i])
            &&& waiting_for(after, name).len() == 0
            &&& forall|other: Seq<char>|
                other != name ==> #[trigger] waiting_for(after, other) == waiting_for(
                    pending,
                    other,
                )
            &&& after.masters == if waiting.len() == 0 {
                pending.masters.insert(name, record)
            } else {
                pending.masters
            }
        }),
{
    reveal(delta_step);
    lemma_types_differ();
}

/// An album record tells of the album at once: it goes by the record's name, has the title that
/// the record gives it, and is gone where the record is in the trash.
pub proof fn law_an_album_record_tells_of_its_album(pending: PendingView, record: RecordView)
    requires
        record.deleted != Some(true),
        record.record_type == "CPLAlbum"@,
    ensures
        ({
            let (after, events) = delta_step(pending, record);
            let album = events[0].album->0;
            let plain = member_of(member(record.fields, "albumName"@), "value"@);
            &&& after == pending
            &&& events.len() == 1
            &&& events[0].record_name == record.record_name
            &&& events[0].record_type == Some("CPLAlbum"@)
            &&& events[0].reason == reason_of(record)
            &&& events[0].asset is None
            &&& events[0].relation is None
            &&& events[0].token_unsafe_reason is None
            &&& events[0].album is Some
            &&& album.container_id == record.record_name
            &&& album.is_deleted == marked(record, "isDeleted"@)
            &&& match (enc_text(record.fields, "albumNameEnc"@), plain) {
                (Some(title), _) => album.album_name == title,
                (None, Some(JsonView::Text(title))) => album.album_name == title,
                _ => album.album_name == record.record_name,
            }
        }),
{
    reveal(delta_step);
    lemma_types_differ();
}

/// A living membership record tells which asset is in which container, by its own fields. Where
/// it does not say both, the event tells so, for the feed's token must not be kept then.
pub proof fn law_a_membership_record_tells_of_its_ends(pending: PendingView, record: RecordView)
    requires
        record.deleted != Some(true),
        record.record_type == "CPLContainerRelation"@,
        !marked(record, "isDeleted"@),
    ensures
        ({
            let (after, events) = delta_step(pending, record);
            let container = member_of(member(record.fields, "containerId"@), "value"@);
            let item = member_of(member(record.fields, "itemId"@), "value"@);
            &&& after == pending
            &&& events.len() == 1
            &&& events[0].record_name == record.record_name
            &&& events[0].record_type == Some("CPLContainerRelation"@)
            &&& events[0].reason == reason_of(record)
            &&& events[0].asset is None
            &&& events[0].album is None
            &&& match (container, item) {
                (Some(JsonView::Text(container)), Some(JsonView::Text(item))) => {
                    &&& events[0].relation is Some
                    &&& events[0].relation->0.container_id == container
                    &&& events[0].relation->0.asset_record_name == item
                    &&& !events[0].relation->0.is_deleted
                    &&& events[0].token_unsafe_reason is None
                },
                _ => events[0].relation is None && events[0].token_unsafe_reason is Some,
            }
        }),
{
    reveal(delta_step);
    lemma_types_differ();
}

/// A membership's record is named after its asset and its container, and the two are found
/// again in the name: at the last place where the mark between them stands.
pub proof fn law_a_membership_is_named_after_its_ends(asset: Seq<char>, container: Seq<char>)
    requires
        asset.len() > 0,
        container.len() > 0,
        forall|i: int|
            asset.len() < i ==> !#[trigger] occurs_at(
                asset + "-IN-"@ + container,
                "-IN-"@,
                i,
            ),
    ensures
        relation_parts(asset + "-IN-"@ + container) == Some((asset, container)),
{
    reveal_strlit("-IN-");
    let name = asset + "-IN-"@ + container;
    let at = asset.len() as int;
    assert(name.subrange(at, at + 4) =~= "-IN-"@);
    assert(occurs_at(name, "-IN-"@, at));
    law_a_text_is_parted_at_the_last_place(name, "-IN-"@, at);
    assert(name.take(at) =~= asset);
    assert(name.skip(at + 4) =~= container);
}

/// A membership that is gone tells of its ends by its name, for its fields are gone too: the
/// asset left the container. A name that does not say both ends makes the token unsafe.
pub proof fn law_a_membership_that_is_gone_tells_by_its_name(
    pending: PendingView,
    record: RecordView,
)
    requires
        record.record_type == "CPLContainerRelation"@,
        record.deleted == Some(true) || marked(record, "isDeleted"@),
    ensures
        ({
            let (after, events) = delta_step(pending, record);
            &&& after == pending
            &&& events.len() == 1
            &&& events[0].record_name == record.record_name
            &&& events[0].record_type == Some("CPLContainerRelation"@)
            &&& events[0].reason == if record.deleted == Some(true) {
                ChangeReason::HardDeleted
            } else {
                ChangeReason::SoftDeleted
            }
            &&& events[0].asset is None
            &&& events[0].album is None
            &&& match relation_parts(record.record_name) {
                Some((asset, container)) => {
                    &&& events[0].relation is Some
                    &&& events[0].relation->0.container_id == container
                    &&& events[0].relation->0.asset_record_name == asset
                    &&& events[0].relation->0.is_deleted
                    &&& events[0].token_unsafe_reason is None
                },
                None => events[0].relation is None && events[0].token_unsafe_reason is Some,
            }
        }),
{
    reveal(delta_step);
    lemma_types_differ();
}

/// A purged record of another type is told of at once, whatever waits: an album as gone, a
/// membership by its name where the name is one, and anything else by its name alone, with no
/// type.
pub proof fn law_a_purged_record_is_told_by_its_name(pending: PendingView, record: RecordView)
    requires
        record.deleted == Some(true),
        record.record_type != "CPLContainerRelation"@,
    ensures
        ({
            let (after, events) = delta_step(pending, record);
            &&& after == pending
            &&& events.len() == 1
            &&& events[0].record_name == record.record_name
            &&& events[0].reason == ChangeReason::HardDeleted
            &&& events[0].asset is None
            &&& events[0].master_record_name is None
            &&& events[0].token_unsafe_reason is None
            &&& if record.record_type == "CPLAlbum"@ {
                &&& events[0].record_type == Some("CPLAlbum"@)
                &&& events[0].relation is None
                &&& events[0].album is Some
                &&& events[0].album->0.container_id == record.record_name
                &&& events[0].album->0.is_deleted
            } else {
                &&& events[0].album is None
                &&& match relation_parts(record.record_name) {
                    Some((asset, container)) => {
                        &&& events[0].record_type == Some("CPLContainerRelation"@)
                        &&& events[0].relation is Some
                        &&& events[0].relation->0.container_id == container
                        &&& events[0].relation->0.asset_record_name == asset
                        &&& events[0].relation->0.is_deleted
                    },
                    None => events[0].record_type is None && events[0].relation is None,
                }
            }
        }),
{
    reveal(delta_step);
    lemma_types_differ();
}

/// A living record of a type that photos and albums are not made of is passed over.
pub proof fn law_other_records_are_passed_over(pending: PendingView, record: RecordView)
    requires
        record.deleted != Some(true),
        record.record_type != "CPLMaster"@,
        record.record_type != "CPLAsset"@,
        record.record_type != "CPLAlbum"@,
        record.record_type != "CPLContainerRelation"@,
    ensures
        delta_step(pending, record).0 == pending,
        delta_step(pending, record).1.len() == 0,
{
    reveal(delta_step);
}

/// What never met its other half is told of without an asset, with its own reason: a master
/// under the name that it waited by, an asset under its own name with that of its master.
pub proof fn law_a_flush_tells_halves_as_they_are(
    pending: PendingView,
    events: Seq<EventView>,
    name: Seq<char>,
    i: int,
)
    requires
        is_flush(pending, events),
    ensures
        pending.masters.contains_key(name) ==> exists|j: int|
            {
                &&& 0 <= j < events.len()
                &&& (#[trigger] events[j]).record_name == name
                &&& events[j].record_type == Some("CPLMaster"@)
                &&& events[j].master_record_name is None
                &&& events[j].asset is None
                &&& events[j].reason == reason_of(pending.masters[name])
            },
        pending.assets.contains_key(name) && 0 <= i < pending.assets[name].len() ==> exists|j: int|
            {
                &&& 0 <= j < events.len()
                &&& (#[trigger] events[j]).record_name == pending.assets[name][i].record_name
                &&& events[j].record_type == Some("CPLAsset"@)
                &&& events[j].master_record_name == Some(name)
                &&& events[j].asset is None
                &&& events[j].reason == reason_of(pending.assets[name][i])
            },
{
    law_flush_loses_nothing(pending, events);
    if pending.masters.contains_key(name) {
        let event = lone_master_event(name, pending.masters[name]);
        assert(events.contains(event));
        let j = events.index_of(event);
        assert(events[j] == event);
    }
    if pending.assets.contains_key(name) && 0 <= i < pending.assets[name].len() {
        let event = lone_asset_event(name, pending.assets[name][i]);
        assert(events.contains(event));
        let j = events.index_of(event);
        assert(events[j] == event);
    }
}

/// A name on disk takes the place of an album's title and of nothing else.
pub proof fn law_renaming_changes_the_title_alone(event: EventView, name: Seq<char>)
    ensures
        ({
            let renamed = renamed_album(event, name);
            &&& renamed.album is Some <==> event.album is Some
            &&& event.album is Some ==> {
                &&& renamed.album->0.album_name == name
                &&& renamed.album->0.container_id == event.album->0.container_id
                &&& renamed.album->0.is_deleted == event.album->0.is_deleted
            }
            &&& renamed.record_name == event.record_name
            &&& renamed.record_type == event.record_type
            &&& renamed.master_record_name == event.master_record_name
            &&& renamed.reason == event.reason
            &&& renamed.asset == event.asset
            &&& renamed.relation == event.relation
            &&& renamed.token_unsafe_reason == event.token_unsafe_reason
        }),
{
}

/// A list of a table's entries is as long as the table is large.
proof fn lemma_listed_count<V>(pairs: Seq<(Seq<char>, V)>, m: Map<Seq<char>, V>)
    requires
        lists(pairs, m),
    ensures
        m.dom().finite(),
        m.dom().len() == pairs.len(),
    decreases pairs.len(),
{
    if pairs.len() == 0 {
        assert forall|k: Seq<char>| !m.dom().contains(k) by {
            if m.contains_key(k) {
                assert(false);
            }
        }
        assert(m.dom() =~= Set::empty());
    } else {
        let fewer = pairs.drop_last();
        let name = pairs.last().0;
        let rest = m.remove(name);
        assert(pairs[pairs.len() - 1].0 == name);
        assert(m.contains_key(name));
        assert forall|i: int| #![trigger fewer[i]] 0 <= i < fewer.len() implies rest.contains_key(
            fewer[i].0,
        ) && rest[fewer[i].0] == fewer[i].1 by {
            assert(fewer[i] == pairs[i]);
            assert(pairs[i].0 != pairs[pairs.len() - 1].0);
        }
        assert forall|i: int, j: int|
            #![trigger fewer[i], fewer[j]]
            0 <= i < j < fewer.len() implies fewer[i].0 != fewer[j].0 by {
            assert(pairs[i].0 != pairs[j].0);
        }
        assert forall|k: Seq<char>| #[trigger] rest.contains_key(k) implies exists|i: int|
            0 <= i < fewer.len() && #[trigger] fewer[i].0 == k by {
            assert(m.contains_key(k));
            let i = choose|i: int| 0 <= i < pairs.len() && #[trigger] pairs[i].0 == k;
            assert(fewer[i].0 == k);
        }
        lemma_listed_count(fewer, rest);
        assert(m.dom() =~= rest.dom().insert(name));
    }
}

/// The events of groups are as many as their records.
proof fn lemma_group_events_count(groups: Seq<(Seq<char>, Seq<RecordView>)>)
    ensures
        group_events(groups).len() == total(groups),
    decreases groups.len(),
{
    if groups.len() > 0 {
        lemma_group_events_count(groups.drop_last());
    }
}

/// A flush tells of each waiting record once: it gives as many events as masters and assets
/// wait.
pub proof fn law_a_flush_tells_of_each_once(pending: PendingView, events: Seq<EventView>)
    requires
        is_flush(pending, events),
    ensures
        events.len() == pending.masters.dom().len() + assets_waiting(pending.assets),
{
    let (masters, groups) = choose|
        masters: Seq<(Seq<char>, RecordView)>,
        groups: Seq<(Seq<char>, Seq<RecordView>)>,
    |
        lists(masters, pending.masters) && lists(groups, pending.assets) && events
            == #[trigger] flush_events(masters, groups);
    lemma_listed_count(masters, pending.masters);
    lemma_waiting_listed(groups, pending.assets);
    lemma_group_events_count(groups);
}

} // verus!
