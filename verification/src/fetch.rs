//! A fetcher: it pages through a range of ranks, pairs the master and asset records that come
//! in, and says which assets to hand on, when it is done and how it ended.
use crate::asset::{asset_of, PhotoAsset, PhotoAssetView};
use crate::cloudkit::{record_views, Record, RecordView};
use crate::delta::{
    assets_waiting, extract_master_ref, group_views, held, held_groups, lemma_listed_groups,
    lemma_waiting_without, lists, master_ref,
};
use crate::json::{field, member_of, text_of};
use crate::plan::{
    build_enumeration_plan, least, most, plan_ranges, profile_page_size, EnumerationPlan,
    FetcherRange, FetcherRangeRole, PhotoStreamProfile,
};
use crate::tables::{
    empty_table, found, keyed, nothing, table_entries, table_get, table_insert,
    table_is_empty, table_len, table_remove, table_some_key,
};
use crate::text::{
    contains_text, decimal_text, decimal_wide, occurs_at, option_view, str_eq, trim, trimmed,
};
use crate::tokens::{
    law_kept_token_is_vouched_for, resolved_token, CaptureView, EnumerationCompletion,
    EnumerationFailure, FetcherSyncTokenCapture,
};
use rustc_hash::FxHashMap;
use vstd::prelude::*;

verus! {

/// How many empty pages in a row mean that the inventory has ended. A single one can be a gap,
/// where a run of deleted records fills a page.
pub const MAX_EMPTY_PAGE_PROBES: u32 = 5;

/// What an asset or a failure of a fetcher is handed on as.
pub enum FetchItem {
    Asset(PhotoAsset),
    Failure(String),
}

/// A [`FetchItem`] by its view.
#[verifier::ext_equal]
pub enum ItemView {
    Asset(PhotoAssetView),
    Failure(Seq<char>),
}

impl View for FetchItem {
    type V = ItemView;

    open spec fn view(&self) -> ItemView {
        match self {
            FetchItem::Asset(asset) => ItemView::Asset(asset@),
            FetchItem::Failure(text) => ItemView::Failure(text@),
        }
    }
}

/// The views of a list of items.
pub open spec fn item_views(items: Seq<FetchItem>) -> Seq<ItemView> {
    items.map_values(|i: FetchItem| i@)
}

// Lists of named things. A name stands once; what came first stays first.

/// The place of a name.
pub open spec fn place<X>(s: Seq<(Seq<char>, X)>, name: Seq<char>) -> Option<int>
    decreases s.len(),
{
    if s.len() == 0 {
        None
    } else if s[0].0 == name {
        Some(0)
    } else {
        match place(s.drop_first(), name) {
            Some(i) => Some(i + 1),
            None => None,
        }
    }
}

/// What stands under a name.
pub open spec fn value<X>(s: Seq<(Seq<char>, X)>, name: Seq<char>) -> Option<X> {
    match place(s, name) {
        Some(i) => Some(s[i].1),
        None => None,
    }
}

/// The list without a name.
pub open spec fn without<X>(s: Seq<(Seq<char>, X)>, name: Seq<char>) -> Seq<(Seq<char>, X)> {
    match place(s, name) {
        Some(i) => s.remove(i),
        None => s,
    }
}

/// The list with something put under a name, in place of what stood there.
pub open spec fn put<X>(s: Seq<(Seq<char>, X)>, name: Seq<char>, x: X) -> Seq<(Seq<char>, X)> {
    match place(s, name) {
        Some(i) => s.update(i, (name, x)),
        None => s.push((name, x)),
    }
}

/// The list with more records put under a name, behind those that stand there.
pub open spec fn append_to(
    s: Seq<(Seq<char>, Seq<RecordView>)>,
    name: Seq<char>,
    records: Seq<RecordView>,
) -> Seq<(Seq<char>, Seq<RecordView>)> {
    match place(s, name) {
        Some(i) => s.update(i, (name, s[i].1 + records)),
        None => s.push((name, records)),
    }
}

/// How many records stand in a list of groups.
pub open spec fn total(s: Seq<(Seq<char>, Seq<RecordView>)>) -> int
    decreases s.len(),
{
    if s.len() == 0 {
        0
    } else {
        total(s.drop_last()) + s.last().1.len()
    }
}

/// The place of a name is where it stands first.
pub proof fn lemma_place<X>(s: Seq<(Seq<char>, X)>, name: Seq<char>, i: int)
    requires
        0 <= i < s.len(),
        s[i].0 == name,
        forall|j: int| 0 <= j < i ==> (#[trigger] s[j]).0 != name,
    ensures
        place(s, name) == Some(i),
    decreases i,
{
    if i > 0 {
        assert(s[0].0 != name);
        let rest = s.drop_first();
        assert forall|j: int| 0 <= j < i - 1 implies (#[trigger] rest[j]).0 != name by {
            assert(rest[j] == s[j + 1]);
        }
        lemma_place(rest, name, i - 1);
    }
}

/// A name that stands nowhere has no place.
pub proof fn lemma_no_place<X>(s: Seq<(Seq<char>, X)>, name: Seq<char>)
    requires
        forall|j: int| 0 <= j < s.len() ==> (#[trigger] s[j]).0 != name,
    ensures
        place(s, name) is None,
    decreases s.len(),
{
    if s.len() > 0 {
        assert(s[0].0 != name);
        let rest = s.drop_first();
        assert forall|j: int| 0 <= j < rest.len() implies (#[trigger] rest[j]).0 != name by {
            assert(rest[j] == s[j + 1]);
        }
        lemma_no_place(rest, name);
    }
}

/// A place is within the list, and the name stands there.
pub proof fn lemma_place_bounds<X>(s: Seq<(Seq<char>, X)>, name: Seq<char>)
    ensures
        match place(s, name) {
            Some(i) => 0 <= i < s.len() && s[i].0 == name,
            None => true,
        },
    decreases s.len(),
{
    if s.len() > 0 && s[0].0 != name {
        lemma_place_bounds(s.drop_first(), name);
    }
}

/// Totals are not negative.
proof fn lemma_total_nonnegative(s: Seq<(Seq<char>, Seq<RecordView>)>)
    ensures
        total(s) >= 0,
    decreases s.len(),
{
    if s.len() > 0 {
        lemma_total_nonnegative(s.drop_last());
    }
}

/// What changing one group does to the total.
proof fn lemma_total_update(
    s: Seq<(Seq<char>, Seq<RecordView>)>,
    i: int,
    group: (Seq<char>, Seq<RecordView>),
)
    requires
        0 <= i < s.len(),
    ensures
        total(s.update(i, group)) == total(s) - s[i].1.len() + group.1.len(),
    decreases s.len(),
{
    if i == s.len() - 1 {
        assert(s.update(i, group).drop_last() =~= s.drop_last());
    } else {
        lemma_total_update(s.drop_last(), i, group);
        assert(s.update(i, group).drop_last() =~= s.drop_last().update(i, group));
    }
}

/// What taking one group out does to the total.
proof fn lemma_total_remove(s: Seq<(Seq<char>, Seq<RecordView>)>, i: int)
    requires
        0 <= i < s.len(),
    ensures
        total(s.remove(i)) == total(s) - s[i].1.len(),
    decreases s.len(),
{
    if i == s.len() - 1 {
        assert(s.remove(i) =~= s.drop_last());
    } else {
        lemma_total_remove(s.drop_last(), i);
        assert(s.remove(i).drop_last() =~= s.drop_last().remove(i));
        assert(s.remove(i).last() == s.last());
    }
}

/// The records of an optional group.
pub open spec fn group_or_empty(group: Option<Seq<RecordView>>) -> Seq<RecordView> {
    match group {
        Some(records) => records,
        None => Seq::empty(),
    }
}

/// A group that is taken out takes its records out of the total.
proof fn lemma_total_without(s: Seq<(Seq<char>, Seq<RecordView>)>, name: Seq<char>)
    ensures
        total(without(s, name)) + group_or_empty(value(s, name)).len() == total(s),
{
    lemma_place_bounds(s, name);
    match place(s, name) {
        Some(i) => {
            lemma_total_remove(s, i);
        },
        None => {},
    }
}

/// Records that are added to a group are added to the total.
proof fn lemma_total_append(
    s: Seq<(Seq<char>, Seq<RecordView>)>,
    name: Seq<char>,
    records: Seq<RecordView>,
)
    ensures
        total(append_to(s, name, records)) == total(s) + records.len(),
{
    lemma_place_bounds(s, name);
    match place(s, name) {
        Some(i) => {
            lemma_total_update(s, i, (name, s[i].1 + records));
        },
        None => {
            assert(s.push((name, records)).drop_last() =~= s);
        },
    }
}

/// The place of a name.
pub(crate) fn find_place<V>(items: &Vec<(String, V)>, name: &str) -> (at: Option<usize>)
    ensures
        match at {
            Some(i) => i < items@.len() && items@[i as int].0@ == name@ && forall|j: int|
                0 <= j < i ==> (#[trigger] items@[j]).0@ != name@,
            None => forall|j: int| 0 <= j < items@.len() ==> (#[trigger] items@[j]).0@ != name@,
        },
{
    let mut i: usize = 0;
    while i < items.len()
        invariant
            i <= items.len(),
            forall|j: int| 0 <= j < i ==> (#[trigger] items@[j]).0@ != name@,
        decreases items.len() - i,
    {
        if str_eq(&items[i].0, name) {
            return Some(i);
        }
        i = i + 1;
    }
    None
}

/// What stands in a list of named items, by their names' characters and what `view` makes of
/// them.
pub open spec fn item_pairs<X, Y>(items: Seq<(String, X)>, view: spec_fn(X) -> Y) -> Seq<
    (Seq<char>, Y),
> {
    items.map_values(|p: (String, X)| (p.0@, view(p.1)))
}

/// Put an item under a name, in place of what stood there first.
pub(crate) fn put_item<X>(items: &mut Vec<(String, X)>, name: String, item: X)
    ensures
        item_pairs(final(items)@, |x: X| x) == put(
            item_pairs(old(items)@, |x: X| x),
            name@,
            item,
        ),
{
    let ghost before = item_pairs(items@, |x: X| x);
    let ghost key = name@;
    match find_place(items, &name) {
        Some(i) => {
            proof {
                assert forall|j: int| 0 <= j < i implies (#[trigger] before[j]).0 != key by {
                    assert(items@[j].0@ != key);
                }
                lemma_place(before, key, i as int);
            }
            items.set(i, (name, item));
            assert(item_pairs(items@, |x: X| x) =~= before.update(i as int, (key, item)));
        },
        None => {
            proof {
                assert forall|j: int| 0 <= j < before.len() implies (#[trigger] before[j]).0
                    != key by {
                    assert(items@[j].0@ != key);
                }
                lemma_no_place(before, key);
            }
            items.push((name, item));
            assert(item_pairs(items@, |x: X| x) =~= before.push((key, item)));
        },
    }
}

/// What was put is put by any view of the items.
pub proof fn lemma_put_item<X, Y>(
    before: Seq<(String, X)>,
    after: Seq<(String, X)>,
    name: Seq<char>,
    item: X,
    view: spec_fn(X) -> Y,
)
    requires
        item_pairs(after, |x: X| x) == put(item_pairs(before, |x: X| x), name, item),
    ensures
        item_pairs(after, view) == put(item_pairs(before, view), name, view(item)),
{
    let plain = item_pairs(before, |x: X| x);
    let done = item_pairs(after, |x: X| x);
    let viewed = item_pairs(before, view);
    assert forall|i: int| 0 <= i < done.len() implies (#[trigger] item_pairs(after, view)[i]) == (
        done[i].0,
        view(done[i].1),
    ) by {}
    assert forall|i: int| 0 <= i < plain.len() implies (#[trigger] viewed[i]) == (
        plain[i].0,
        view(plain[i].1),
    ) by {}
    lemma_place_is_first(plain, name);
    match place(plain, name) {
        Some(i) => {
            assert forall|j: int| 0 <= j < i implies (#[trigger] viewed[j]).0 != name by {
                assert(plain[j].0 != name);
            }
            lemma_place(viewed, name, i);
            assert(item_pairs(after, view) =~= viewed.update(i, (name, view(item))));
        },
        None => {
            assert forall|j: int| 0 <= j < viewed.len() implies (#[trigger] viewed[j]).0
                != name by {
                assert(plain[j].0 != name);
            }
            lemma_no_place(viewed, name);
            assert(item_pairs(after, view) =~= viewed.push((name, view(item))));
        },
    }
}

/// The place of a name in a list of groups.
fn group_place(items: &Vec<(String, Vec<Record>)>, name: &str) -> (at: Option<usize>)
    ensures
        match at {
            Some(i) => i < items@.len() && place(group_views(items@), name@) == Some(i as int),
            None => place(group_views(items@), name@) is None,
        },
{
    let at = find_place(items, name);
    proof {
        let views = group_views(items@);
        match at {
            Some(i) => {
                assert forall|j: int| 0 <= j < i implies (#[trigger] views[j]).0 != name@ by {
                    assert(items@[j].0@ != name@);
                }
                lemma_place(views, name@, i as int);
            },
            None => {
                assert forall|j: int| 0 <= j < views.len() implies (#[trigger] views[j]).0
                    != name@ by {
                    assert(items@[j].0@ != name@);
                }
                lemma_no_place(views, name@);
            },
        }
    }
    at
}

/// The view of an optional record.
pub open spec fn option_record_view(record: Option<Record>) -> Option<RecordView> {
    match record {
        Some(record) => Some(record@),
        None => None,
    }
}

/// The view of an optional group.
pub open spec fn option_group_view(group: Option<Vec<Record>>) -> Option<Seq<RecordView>> {
    match group {
        Some(records) => Some(record_views(records@)),
        None => None,
    }
}

/// Take the group under a name out.
fn take_group(items: &mut Vec<(String, Vec<Record>)>, name: &str) -> (group: Option<Vec<Record>>)
    ensures
        group_views(final(items)@) == without(group_views(old(items)@), name@),
        option_group_view(group) == value(group_views(old(items)@), name@),
{
    let ghost before = group_views(items@);
    match group_place(items, name) {
        Some(i) => {
            let (_, group) = items.remove(i);
            assert(group_views(items@) =~= before.remove(i as int));
            Some(group)
        },
        None => None,
    }
}

/// Put records under a name, behind those that stand there.
fn append_group(items: &mut Vec<(String, Vec<Record>)>, name: String, records: Vec<Record>)
    ensures
        group_views(final(items)@) == append_to(
            group_views(old(items)@),
            name@,
            record_views(records@),
        ),
{
    let ghost before = group_views(items@);
    let ghost key = name@;
    let ghost added = record_views(records@);
    match group_place(items, &name) {
        Some(i) => {
            let (_, mut group) = items.remove(i);
            let ghost group_before = record_views(group@);
            let mut records = records;
            group.append(&mut records);
            assert(record_views(group@) =~= group_before + added);
            items.insert(i, (name, group));
            assert(group_views(items@) =~= before.update(i as int, (key, group_before + added)));
        },
        None => {
            items.push((name, records));
            assert(group_views(items@) =~= before.push((key, added)));
        },
    }
}

// Handing assets on.

/// What has been handed on.
pub struct Sender {
    /// The asset records that this fetcher has handed on, where it may meet them again.
    pub emitted: FxHashMap<String, ()>,
    pub total_sent: u64,
}

/// What is to be handed on of a page.
pub struct PageOutput {
    /// Whether the page gave any asset.
    pub sent_any: bool,
    /// Whether the page met the caller's limit.
    pub limit_reached: bool,
    pub items: Vec<FetchItem>,
}

/// A [`Sender`] and a [`PageOutput`] by their view, with the table of the ranges that own the
/// records.
#[verifier::ext_equal]
pub struct SendView {
    pub emitted: Map<Seq<char>, ()>,
    pub owners: Map<Seq<char>, u64>,
    pub total_sent: int,
    pub sent_any: bool,
    pub limit_reached: bool,
    pub items: Seq<ItemView>,
}

/// The view of a sender, a page's output and the owners.
pub open spec fn send_view(
    sender: Sender,
    out: PageOutput,
    owners: FxHashMap<String, u64>,
) -> SendView {
    SendView {
        emitted: keyed(sender.emitted),
        owners: keyed(owners),
        total_sent: sender.total_sent as int,
        sent_any: out.sent_any,
        limit_reached: out.limit_reached,
        items: item_views(out.items@),
    }
}

/// Whether a record is handed on by a range that begins at `start`: not a second time by a
/// range that may meet records again, and not by a range that does not own it.
pub open spec fn emits(
    emitted: Map<Seq<char>, ()>,
    owners: Map<Seq<char>, u64>,
    start: u64,
    role: FetcherRangeRole,
    name: Seq<char>,
) -> bool {
    if role != FetcherRangeRole::Data && emitted.contains_key(name) {
        false
    } else {
        owners.contains_key(name) ==> owners[name] == start
    }
}

/// What a range has noted after a look at a record: one that may meet records again notes it.
pub open spec fn emitted_after(
    emitted: Map<Seq<char>, ()>,
    role: FetcherRangeRole,
    name: Seq<char>,
) -> Map<Seq<char>, ()> {
    if role != FetcherRangeRole::Data && !emitted.contains_key(name) {
        emitted.insert(name, ())
    } else {
        emitted
    }
}

/// Who owns which record after a look at one: a record that no range owns yet belongs to the
/// range that looks, unless that range has noted it before.
pub open spec fn owners_after(
    emitted: Map<Seq<char>, ()>,
    owners: Map<Seq<char>, u64>,
    start: u64,
    role: FetcherRangeRole,
    name: Seq<char>,
) -> Map<Seq<char>, u64> {
    if role != FetcherRangeRole::Data && emitted.contains_key(name) || owners.contains_key(name) {
        owners
    } else {
        owners.insert(name, start)
    }
}

/// What is known after a record was looked at.
pub open spec fn noted(s: SendView, range: FetcherRange, name: Seq<char>) -> SendView {
    SendView {
        emitted: emitted_after(s.emitted, range.role, name),
        owners: owners_after(s.emitted, s.owners, range.start, range.role, name),
        ..s
    }
}

/// Whether a record is to be handed on.
pub open spec fn is_due(s: SendView, range: FetcherRange, name: Seq<char>) -> bool {
    emits(s.emitted, s.owners, range.start, range.role, name)
}

/// The range that looks at a record first owns it: it hands the record on, and no range that
/// begins elsewhere does afterwards, whatever it has noted. Looked at once more by the same
/// range, the record is handed on again only by a data range, which meets none twice. However
/// often it is looked at, it stays with its owner.
pub proof fn law_first_look_owns_a_record(
    emitted: Map<Seq<char>, ()>,
    owners: Map<Seq<char>, u64>,
    start: u64,
    role: FetcherRangeRole,
    name: Seq<char>,
    later_owners: Map<Seq<char>, u64>,
    other_emitted: Map<Seq<char>, ()>,
    other_start: u64,
    other_role: FetcherRangeRole,
)
    requires
        !owners.contains_key(name),
        !emitted.contains_key(name),
        later_owners.contains_key(name),
        later_owners[name] == owners_after(emitted, owners, start, role, name)[name],
    ensures
        emits(emitted, owners, start, role, name),
        owners_after(emitted, owners, start, role, name).contains_key(name),
        owners_after(emitted, owners, start, role, name)[name] == start,
        other_start != start ==> !emits(other_emitted, later_owners, other_start, other_role, name),
        emits(emitted_after(emitted, role, name), later_owners, start, role, name) <==> role
            == FetcherRangeRole::Data,
        owners_after(other_emitted, later_owners, other_start, other_role, name).contains_key(name),
        owners_after(other_emitted, later_owners, other_start, other_role, name)[name] == start,
{
}

/// Whether the caller's limit is met.
pub open spec fn limit_met(s: SendView, range: FetcherRange) -> bool {
    match range.limit {
        Some(limit) => s.total_sent >= limit,
        None => false,
    }
}

/// The asset that a pair of records is handed on as. The first asset of a master keeps the
/// master's name for its state; any other gets its own.
pub open spec fn sibling_asset(master: RecordView, asset: RecordView, own_state: bool) -> PhotoAssetView {
    let photo = asset_of(master, asset, None);
    if own_state {
        PhotoAssetView { state_record_name: Some(asset.record_name), ..photo }
    } else {
        photo
    }
}

/// Hand on the assets of a master from place `i` on. At the limit the rest is dropped.
pub open spec fn send_from(
    s: SendView,
    range: FetcherRange,
    master: RecordView,
    records: Seq<RecordView>,
    late: bool,
    i: int,
) -> SendView
    decreases records.len() - i,
{
    if i < 0 || i >= records.len() {
        s
    } else {
        let name = records[i].record_name;
        let seen = noted(s, range, name);
        if !is_due(s, range, name) {
            send_from(seen, range, master, records, late, i + 1)
        } else if limit_met(seen, range) {
            SendView { limit_reached: true, ..seen }
        } else {
            send_from(
                SendView {
                    total_sent: seen.total_sent + 1,
                    sent_any: true,
                    items: seen.items.push(
                        ItemView::Asset(sibling_asset(master, records[i], late || i > 0)),
                    ),
                    ..seen
                },
                range,
                master,
                records,
                late,
                i + 1,
            )
        }
    }
}

/// Whether a record is to be handed on by a range, noting that it was looked at.
pub fn should_emit_asset_record(
    record_name: &str,
    range_start: u64,
    range_role: FetcherRangeRole,
    emitted_in_range: &mut FxHashMap<String, ()>,
    range_record_owners: &mut FxHashMap<String, u64>,
) -> (due: bool)
    ensures
        due == emits(
            keyed(*old(emitted_in_range)),
            keyed(*old(range_record_owners)),
            range_start,
            range_role,
            record_name@,
        ),
        keyed(*final(emitted_in_range)) == emitted_after(
            keyed(*old(emitted_in_range)),
            range_role,
            record_name@,
        ),
        keyed(*final(range_record_owners)) == owners_after(
            keyed(*old(emitted_in_range)),
            keyed(*old(range_record_owners)),
            range_start,
            range_role,
            record_name@,
        ),
{
    let again = match range_role {
        FetcherRangeRole::Data => false,
        _ => table_get(emitted_in_range, record_name).is_some(),
    };
    if again {
        return false;
    }
    match range_role {
        FetcherRangeRole::Data => {},
        _ => {
            let _ = table_insert(emitted_in_range, record_name.to_owned(), ());
        },
    }
    match table_get(range_record_owners, record_name) {
        Some(owner) => *owner == range_start,
        None => {
            let _ = table_insert(range_record_owners, record_name.to_owned(), range_start);
            true
        },
    }
}

/// Hand on the assets of a master.
fn send_list(
    sender: &mut Sender,
    out: &mut PageOutput,
    owners: &mut FxHashMap<String, u64>,
    range: FetcherRange,
    master: &Record,
    records: &Vec<Record>,
    late: bool,
)
    requires
        old(sender).total_sent + records@.len() <= u64::MAX,
    ensures
        send_view(*final(sender), *final(out), *final(owners)) == send_from(
            send_view(*old(sender), *old(out), *old(owners)),
            range,
            master@,
            record_views(records@),
            late,
            0,
        ),
        final(sender).total_sent <= old(sender).total_sent + records@.len(),
{
    let ghost start = send_view(*sender, *out, *owners);
    let ghost views = record_views(records@);
    let ghost sent_before = sender.total_sent;
    let mut i: usize = 0;
    while i < records.len()
        invariant
            i <= records.len(),
            start == send_view(*old(sender), *old(out), *old(owners)),
            sent_before == old(sender).total_sent,
            views == record_views(records@),
            sent_before + records@.len() <= u64::MAX,
            sender.total_sent <= sent_before + i,
            send_from(start, range, master@, views, late, 0) == send_from(
                send_view(*sender, *out, *owners),
                range,
                master@,
                views,
                late,
                i as int,
            ),
        decreases records.len() - i,
    {
        let record = &records[i];
        let ghost before = send_view(*sender, *out, *owners);
        assert(views[i as int] == record@);
        let due = should_emit_asset_record(
            &record.record_name,
            range.start,
            range.role,
            &mut sender.emitted,
            owners,
        );
        assert(send_view(*sender, *out, *owners) == noted(before, range, record@.record_name));
        if due {
            let full = match range.limit {
                Some(limit) => sender.total_sent >= limit as u64,
                None => false,
            };
            if full {
                out.limit_reached = true;
                return;
            }
            let photo = PhotoAsset::from_records(master, record);
            let photo = if late || i > 0 {
                photo.with_state_record_name(&record.record_name)
            } else {
                photo
            };
            let ghost items = item_views(out.items@);
            let ghost view = photo@;
            out.items.push(FetchItem::Asset(photo));
            assert(item_views(out.items@) =~= items.push(ItemView::Asset(view)));
            sender.total_sent = sender.total_sent + 1;
            out.sent_any = true;
        }
        i = i + 1;
    }
}

// The fetcher.

/// How a fetcher goes about its range.
#[derive(Debug, Clone, Copy, PartialEq, Eq, Structural)]
pub struct FetcherBehavior {
    pub page_size: usize,
    /// Report an empty token where only blank ones were seen.
    pub preserve_blank_sync_tokens_for_diagnostics: bool,
    /// Other ranges may hold the other halves of records that stay unpaired.
    pub allow_unpaired_at_range_boundary: bool,
    pub treat_empty_tail_as_error: bool,
}

/// The state of a fetcher between two pages.
pub struct Fetcher {
    pub range: FetcherRange,
    pub behavior: FetcherBehavior,
    /// Whether somebody waits for the token.
    pub reports_token: bool,
    pub offset: u64,
    pub last_sync_token: Option<String>,
    pub saw_blank_sync_token: bool,
    /// Masters whose assets have not come yet.
    pub pending_masters: FxHashMap<String, Record>,
    /// Assets whose masters have not come yet, by the names of the masters.
    pub pending_assets: FxHashMap<String, Vec<Record>>,
    /// Masters that found an asset: more assets of them may come.
    pub paired_masters: FxHashMap<String, Record>,
    pub consecutive_empty_pages: u32,
    pub enumeration_incomplete: bool,
    pub stopped_for_limit: bool,
    pub sender: Sender,
}

/// A [`Fetcher`] by its view.
#[verifier::ext_equal]
pub struct FetchView {
    pub range: FetcherRange,
    pub behavior: FetcherBehavior,
    pub reports_token: bool,
    pub offset: int,
    pub token: Option<Seq<char>>,
    pub blank: bool,
    pub masters: Map<Seq<char>, RecordView>,
    pub assets: Map<Seq<char>, Seq<RecordView>>,
    pub paired: Map<Seq<char>, RecordView>,
    pub empty_pages: int,
    pub incomplete: bool,
    pub stopped: bool,
    pub emitted: Map<Seq<char>, ()>,
    pub total_sent: int,
}

impl View for Fetcher {
    type V = FetchView;

    open spec fn view(&self) -> FetchView {
        FetchView {
            range: self.range,
            behavior: self.behavior,
            reports_token: self.reports_token,
            offset: self.offset as int,
            token: option_view(self.last_sync_token),
            blank: self.saw_blank_sync_token,
            masters: held(self.pending_masters),
            assets: held_groups(self.pending_assets),
            paired: held(self.paired_masters),
            empty_pages: self.consecutive_empty_pages as int,
            incomplete: self.enumeration_incomplete,
            stopped: self.stopped_for_limit,
            emitted: keyed(self.sender.emitted),
            total_sent: self.sender.total_sent as int,
        }
    }
}

/// The state of a fetcher within a page: with the page's assets that are still to be looked
/// at, and what is to be handed on.
#[verifier::ext_equal]
pub struct WorkView {
    pub fetch: FetchView,
    pub groups: Seq<(Seq<char>, Seq<RecordView>)>,
    pub owners: Map<Seq<char>, u64>,
    pub sent_any: bool,
    pub limit_reached: bool,
    pub items: Seq<ItemView>,
}

/// The view of a fetcher within a page.
pub open spec fn work_view(
    fetcher: Fetcher,
    out: PageOutput,
    owners: FxHashMap<String, u64>,
    groups: Seq<(String, Vec<Record>)>,
) -> WorkView {
    WorkView {
        fetch: fetcher@,
        groups: group_views(groups),
        owners: keyed(owners),
        sent_any: out.sent_any,
        limit_reached: out.limit_reached,
        items: item_views(out.items@),
    }
}

/// How many unpaired records a fetcher puts up with: four pages of them.
pub open spec fn max_pending(page_size: usize) -> int {
    if page_size == 0 {
        1
    } else if page_size * 4 <= usize::MAX {
        page_size * 4
    } else {
        usize::MAX as int
    }
}

/// The part of the state that handing on works with.
pub open spec fn sending(w: WorkView) -> SendView {
    SendView {
        emitted: w.fetch.emitted,
        owners: w.owners,
        total_sent: w.fetch.total_sent,
        sent_any: w.sent_any,
        limit_reached: w.limit_reached,
        items: w.items,
    }
}

/// The state after assets of a master were handed on.
pub open spec fn sent(
    w: WorkView,
    master: RecordView,
    records: Seq<RecordView>,
    late: bool,
) -> WorkView {
    let s = send_from(sending(w), w.fetch.range, master, records, late, 0);
    WorkView {
        fetch: FetchView { emitted: s.emitted, total_sent: s.total_sent, ..w.fetch },
        owners: s.owners,
        sent_any: s.sent_any,
        limit_reached: s.limit_reached,
        items: s.items,
        ..w
    }
}

/// The paired masters, which are not let grow: of too many one goes. Which one is open; `gone`
/// names it, and where it names none of them, it is any.
pub open spec fn pruned(
    paired: Map<Seq<char>, RecordView>,
    max_records: int,
    gone: Seq<char>,
) -> Map<Seq<char>, RecordView> {
    if paired.dom().len() <= max_records {
        paired
    } else if paired.contains_key(gone) {
        paired.remove(gone)
    } else {
        paired.remove(paired.dom().choose())
    }
}

/// The state with a master remembered that found an asset.
pub open spec fn remembered(w: WorkView, master: RecordView, gone: Seq<char>) -> WorkView {
    WorkView {
        fetch: FetchView {
            paired: pruned(
                w.fetch.paired.insert(master.record_name, master),
                max_pending(w.fetch.behavior.page_size),
                gone,
            ),
            ..w.fetch
        },
        ..w
    }
}

/// The assets that wait, with more of them behind those of a master.
pub open spec fn appended(
    assets: Map<Seq<char>, Seq<RecordView>>,
    name: Seq<char>,
    records: Seq<RecordView>,
) -> Map<Seq<char>, Seq<RecordView>> {
    assets.insert(name, group_or_empty(found(assets, name)) + records)
}

/// What a master of the page does: with the assets that came before it and those of its page
/// it gives assets, without any it waits.
#[verifier::opaque]
pub open spec fn master_step(w: WorkView, master: RecordView, gone: Seq<char>) -> WorkView {
    let name = master.record_name;
    let early = found(w.fetch.assets, name);
    let here = value(w.groups, name);
    let taken = WorkView {
        fetch: FetchView {
            assets: w.fetch.assets.remove(name),
            offset: w.fetch.offset + 1,
            ..w.fetch
        },
        groups: without(w.groups, name),
        ..w
    };
    if early is None && here is None {
        WorkView {
            fetch: FetchView {
                masters: taken.fetch.masters.insert(name, master),
                ..taken.fetch
            },
            ..taken
        }
    } else {
        remembered(
            sent(taken, master, group_or_empty(early) + group_or_empty(here), false),
            master,
            gone,
        )
    }
}

/// What the masters of the page do, one after the other.
pub open spec fn masters_run(
    w: WorkView,
    masters: Seq<RecordView>,
    gone: Seq<Seq<char>>,
) -> WorkView
    decreases masters.len(),
{
    if masters.len() == 0 {
        w
    } else {
        master_step(
            masters_run(w, masters.drop_last(), gone.drop_last()),
            masters.last(),
            gone.last(),
        )
    }
}

/// What the assets do whose master is not on the page: it waits for them, or it has found an
/// asset before, or they wait for it.
#[verifier::opaque]
pub open spec fn group_step(
    w: WorkView,
    group: (Seq<char>, Seq<RecordView>),
    gone: Seq<char>,
) -> WorkView {
    let (name, records) = group;
    match (found(w.fetch.masters, name), found(w.fetch.paired, name)) {
        (Some(master), _) => remembered(
            sent(
                WorkView {
                    fetch: FetchView { masters: w.fetch.masters.remove(name), ..w.fetch },
                    ..w
                },
                master,
                records,
                false,
            ),
            master,
            gone,
        ),
        (None, Some(master)) => sent(w, master, records, true),
        (None, None) => WorkView {
            fetch: FetchView { assets: appended(w.fetch.assets, name, records), ..w.fetch },
            ..w
        },
    }
}

/// What the remaining groups do, one after the other.
pub open spec fn groups_run(
    w: WorkView,
    groups: Seq<(Seq<char>, Seq<RecordView>)>,
    gone: Seq<Seq<char>>,
) -> WorkView
    decreases groups.len(),
{
    if groups.len() == 0 {
        w
    } else {
        group_step(
            groups_run(w, groups.drop_last(), gone.drop_last()),
            groups.last(),
            gone.last(),
        )
    }
}

/// The master records of a page.
pub open spec fn page_masters(records: Seq<RecordView>) -> Seq<RecordView>
    decreases records.len(),
{
    if records.len() == 0 {
        Seq::empty()
    } else {
        let before = page_masters(records.drop_last());
        if records.last().record_type == "CPLMaster"@ {
            before.push(records.last())
        } else {
            before
        }
    }
}

/// The asset records of a page, by the masters that they refer to. One that refers to none is
/// left out.
pub open spec fn page_assets(records: Seq<RecordView>) -> Seq<(Seq<char>, Seq<RecordView>)>
    decreases records.len(),
{
    if records.len() == 0 {
        Seq::empty()
    } else {
        let before = page_assets(records.drop_last());
        let record = records.last();
        match master_ref(record.fields) {
            Some(name) => if record.record_type == "CPLAsset"@ {
                append_to(before, name, seq![record])
            } else {
                before
            },
            None => before,
        }
    }
}

/// The state with the token of a page noted. A blank one is as good as none.
pub open spec fn token_noted(f: FetchView, token: Option<Seq<char>>) -> FetchView {
    match token {
        Some(token) => if trimmed(token).len() == 0 {
            FetchView { blank: true, ..f }
        } else {
            FetchView { token: Some(trimmed(token)), ..f }
        },
        None => f,
    }
}

/// What a page leaves: the state, the owners, what is to be handed on, and whether the
/// fetcher is done.
#[verifier::ext_equal]
pub struct PageView {
    pub fetch: FetchView,
    pub owners: Map<Seq<char>, u64>,
    pub items: Seq<ItemView>,
    pub finished: bool,
}

/// Whether an empty tail is a failure and not the end.
pub open spec fn empty_tail_fails(f: FetchView) -> bool {
    f.behavior.treat_empty_tail_as_error && f.range.role == FetcherRangeRole::Data
        && f.range.limit is None && f.range.end == u64::MAX && f.reports_token
}

/// What is said of an empty tail that is a failure.
pub const EMPTY_TAIL_FAILURE: &'static str =
    "Photo enumeration is incomplete: Apple returned 5 consecutive empty pages without confirming the end of the stream.";

/// What an empty page does: the fetcher looks one page further, until it has seen enough of
/// them.
pub open spec fn empty_page(f: FetchView, owners: Map<Seq<char>, u64>) -> PageView {
    let f1 = FetchView { empty_pages: f.empty_pages + 1, ..f };
    if f1.empty_pages >= MAX_EMPTY_PAGE_PROBES {
        PageView {
            fetch: FetchView { incomplete: f.incomplete || empty_tail_fails(f), ..f1 },
            owners,
            items: if empty_tail_fails(f) {
                seq![ItemView::Failure(EMPTY_TAIL_FAILURE@)]
            } else {
                Seq::empty()
            },
            finished: true,
        }
    } else {
        PageView {
            fetch: FetchView { offset: f.offset + f.behavior.page_size, ..f1 },
            owners,
            items: Seq::empty(),
            finished: false,
        }
    }
}

/// The state at the beginning of a page with records. A page without masters still has to
/// move the offset on.
pub open spec fn opened(
    f: FetchView,
    owners: Map<Seq<char>, u64>,
    records: Seq<RecordView>,
) -> WorkView {
    let groups = page_assets(records);
    WorkView {
        fetch: FetchView {
            offset: if page_masters(records).len() > 0 {
                f.offset
            } else if total(groups) > 1 {
                f.offset + total(groups)
            } else {
                f.offset + 1
            },
            ..f
        },
        groups,
        owners,
        sent_any: false,
        limit_reached: false,
        items: Seq::empty(),
    }
}

/// What is said where too many records stay unpaired.
pub open spec fn overflow_text(pending: int) -> Seq<char> {
    "Photo enumeration is incomplete: "@ + decimal_text(pending as nat)
        + " unpaired CPLMaster/CPLAsset records exceeded the pending-pair buffer."@
}

/// How many records wait for their other halves.
pub open spec fn pending_records(f: FetchView) -> int {
    (f.masters.dom().len() + assets_waiting(f.assets)) as int
}

/// What the end of a page does.
pub open spec fn closed(w: WorkView) -> PageView {
    let f = w.fetch;
    if w.limit_reached {
        PageView {
            fetch: FetchView { stopped: f.range.role == FetcherRangeRole::LimitProbe, ..f },
            owners: w.owners,
            items: w.items,
            finished: true,
        }
    } else if pending_records(f) > max_pending(f.behavior.page_size) {
        PageView {
            fetch: FetchView { incomplete: true, ..f },
            owners: w.owners,
            items: w.items.push(ItemView::Failure(overflow_text(pending_records(f)))),
            finished: true,
        }
    } else {
        let empty_pages = if w.sent_any {
            0
        } else {
            f.empty_pages + 1
        };
        PageView {
            fetch: FetchView { empty_pages, ..f },
            owners: w.owners,
            items: w.items,
            finished: empty_pages >= MAX_EMPTY_PAGE_PROBES,
        }
    }
}

/// Which paired masters go on a page, where there are too many of them: at each of the page's
/// masters, and at each group of assets whose master is not on the page.
pub struct Evictions {
    pub at_masters: Seq<Seq<char>>,
    pub at_groups: Seq<Seq<char>>,
}

/// What a page does. Assets whose master is on the page come first, those of other masters
/// after them; at the caller's limit the rest is not looked at.
pub open spec fn page_taken(
    f: FetchView,
    owners: Map<Seq<char>, u64>,
    records: Seq<RecordView>,
    token: Option<Seq<char>>,
    gone: Evictions,
) -> PageView {
    let f1 = token_noted(f, token);
    if records.len() == 0 {
        empty_page(f1, owners)
    } else {
        let w = masters_run(opened(f1, owners, records), page_masters(records), gone.at_masters);
        if w.limit_reached {
            closed(w)
        } else {
            closed(
                groups_run(WorkView { groups: Seq::empty(), ..w }, w.groups, gone.at_groups),
            )
        }
    }
}

/// Whether the counters of a fetcher have room for a page of so many records.
pub open spec fn has_room(f: FetchView, records: int) -> bool {
    &&& f.offset + f.behavior.page_size <= u64::MAX
    &&& f.offset + records <= u64::MAX
    &&& f.assets.dom().finite()
    &&& f.total_sent + assets_waiting(f.assets) + records <= u64::MAX
}

/// What taking a master's assets out does to the count of those that wait.
proof fn lemma_waiting_taken(assets: Map<Seq<char>, Seq<RecordView>>, name: Seq<char>)
    requires
        assets.dom().finite(),
    ensures
        assets.remove(name).dom().finite(),
        assets_waiting(assets.remove(name)) + group_or_empty(found(assets, name)).len()
            == assets_waiting(assets),
{
    if assets.contains_key(name) {
        lemma_waiting_without(assets, name);
    } else {
        assert(assets.remove(name) =~= assets);
    }
}

/// What more assets of a master do to the count of those that wait.
proof fn lemma_waiting_appended(
    assets: Map<Seq<char>, Seq<RecordView>>,
    name: Seq<char>,
    records: Seq<RecordView>,
)
    requires
        assets.dom().finite(),
    ensures
        appended(assets, name, records).dom().finite(),
        assets_waiting(appended(assets, name, records)) == assets_waiting(assets) + records.len(),
{
    let after = appended(assets, name, records);
    lemma_waiting_taken(assets, name);
    lemma_waiting_without(after, name);
    assert(after.remove(name) =~= assets.remove(name));
}

/// A list of the groups that wait counts what waits.
pub proof fn lemma_waiting_listed(
    groups: Seq<(Seq<char>, Seq<RecordView>)>,
    assets: Map<Seq<char>, Seq<RecordView>>,
)
    requires
        lists(groups, assets),
    ensures
        assets.dom().finite(),
        assets_waiting(assets) == total(groups),
    decreases groups.len(),
{
    if groups.len() == 0 {
        assert forall|k: Seq<char>| !assets.dom().contains(k) by {
            if assets.contains_key(k) {
                assert(false);
            }
        }
        assert(assets.dom() =~= Set::empty());
    } else {
        let fewer = groups.drop_last();
        let name = groups.last().0;
        let rest = assets.remove(name);
        assert(groups[groups.len() - 1].0 == name);
        assert(assets.contains_key(name));
        assert forall|i: int| #![trigger fewer[i]] 0 <= i < fewer.len() implies rest.contains_key(
            fewer[i].0,
        ) && rest[fewer[i].0] == fewer[i].1 by {
            assert(fewer[i] == groups[i]);
            assert(groups[i].0 != groups[groups.len() - 1].0);
        }
        assert forall|i: int, j: int|
            #![trigger fewer[i], fewer[j]]
            0 <= i < j < fewer.len() implies fewer[i].0 != fewer[j].0 by {
            assert(groups[i].0 != groups[j].0);
        }
        assert forall|k: Seq<char>| #[trigger] rest.contains_key(k) implies exists|i: int|
            0 <= i < fewer.len() && #[trigger] fewer[i].0 == k by {
            assert(assets.contains_key(k));
            let i = choose|i: int| 0 <= i < groups.len() && #[trigger] groups[i].0 == k;
            assert(fewer[i].0 == k);
        }
        lemma_waiting_listed(fewer, rest);
        assert(assets =~= rest.insert(name, assets[name]));
        lemma_waiting_without(assets, name);
    }
}

/// Let more assets of a master wait, behind those that do.
fn append_waiting(
    table: &mut FxHashMap<String, Vec<Record>>,
    name: String,
    records: Vec<Record>,
)
    ensures
        held_groups(*final(table)) == appended(
            held_groups(*old(table)),
            name@,
            record_views(records@),
        ),
{
    let ghost before = held_groups(*table);
    let ghost key = name@;
    let ghost added = record_views(records@);
    let mut group = match table_remove(table, &name) {
        Some(group) => group,
        None => Vec::new(),
    };
    let ghost waiting = record_views(group@);
    assert(waiting =~= group_or_empty(found(before, key)));
    let mut records = records;
    group.append(&mut records);
    assert(record_views(group@) =~= waiting + added);
    let _ = table_insert(table, name, group);
    assert(held_groups(*table) =~= before.insert(key, waiting + added));
}

/// How many assets wait.
fn count_waiting(table: &FxHashMap<String, Vec<Record>>) -> (n: u128)
    ensures
        held_groups(*table).dom().finite(),
        n == assets_waiting(held_groups(*table)),
        n <= u64::MAX * u64::MAX,
{
    let entries = table_entries(table);
    let ghost listed = entries@.map_values(|e: (&String, &Vec<Record>)| (*e.0, *e.1));
    let ghost views = group_views(listed);
    proof {
        lemma_listed_groups(listed, keyed(*table));
        lemma_waiting_listed(views, held_groups(*table));
    }
    let mut n: u128 = 0;
    let mut i: usize = 0;
    while i < entries.len()
        invariant
            i <= entries.len(),
            listed == entries@.map_values(|e: (&String, &Vec<Record>)| (*e.0, *e.1)),
            views == group_views(listed),
            n == total(views.take(i as int)),
            n <= i * u64::MAX,
        decreases entries.len() - i,
    {
        proof {
            assert(views.take(i + 1).drop_last() =~= views.take(i as int));
            assert(views[i as int].1.len() == entries@[i as int].1@.len());
            assert((i + 1) * u64::MAX <= u64::MAX * u64::MAX) by (nonlinear_arith)
                requires
                    i < u64::MAX,
            ;
            assert((i + 1) * u64::MAX == i * u64::MAX + u64::MAX) by (nonlinear_arith);
        }
        n = n + entries[i].1.len() as u128;
        i = i + 1;
    }
    proof {
        assert(views.take(i as int) =~= views);
        assert(i * u64::MAX <= u64::MAX * u64::MAX) by (nonlinear_arith)
            requires
                i <= u64::MAX,
        ;
    }
    n
}

impl Fetcher {
    /// Remember a master that found an asset. Gives which one had to go for it, where one had.
    fn remember(&mut self, master: Record) -> (gone: Ghost<Seq<char>>)
        ensures
            final(self)@ == (FetchView {
                paired: pruned(
                    old(self)@.paired.insert(master@.record_name, master@),
                    max_pending(old(self).behavior.page_size),
                    gone@,
                ),
                ..old(self)@
            }),
            final(self).sender == old(self).sender,
    {
        let ghost before = self@.paired;
        let ghost view = master@;
        let _ = table_insert(&mut self.paired_masters, master.record_name.clone(), master);
        let ghost full = held(self.paired_masters);
        proof {
            assert(full =~= before.insert(view.record_name, view));
            assert(full.dom() =~= keyed(self.paired_masters).dom());
        }
        let max_records = max_pending_records(self.behavior.page_size);
        if table_len(&self.paired_masters) > max_records {
            if let Some(key) = table_some_key(&self.paired_masters) {
                let _ = table_remove(&mut self.paired_masters, &key);
                assert(held(self.paired_masters) =~= full.remove(key@));
                return Ghost(key@);
            }
        }
        Ghost(Seq::empty())
    }

    /// Take a master of the page.
    fn take_master(
        &mut self,
        out: &mut PageOutput,
        owners: &mut FxHashMap<String, u64>,
        groups: &mut Vec<(String, Vec<Record>)>,
        master: Record,
    ) -> (gone: Ghost<Seq<char>>)
        requires
            old(self).offset < u64::MAX,
            old(self)@.assets.dom().finite(),
            old(self)@.total_sent + assets_waiting(old(self)@.assets) + total(
                group_views(old(groups)@),
            ) <= u64::MAX,
        ensures
            work_view(*final(self), *final(out), *final(owners), final(groups)@) == master_step(
                work_view(*old(self), *old(out), *old(owners), old(groups)@),
                master@,
                gone@,
            ),
            final(self)@.assets.dom().finite(),
            final(self)@.total_sent + assets_waiting(final(self)@.assets) + total(
                group_views(final(groups)@),
            ) <= old(self)@.total_sent + assets_waiting(old(self)@.assets) + total(
                group_views(old(groups)@),
            ),
            final(self).offset == old(self).offset + 1,
            final(self).consecutive_empty_pages == old(self).consecutive_empty_pages,
    {
        proof {
            reveal(master_step);
        }
        let ghost before = work_view(*self, *out, *owners, groups@);
        let ghost view = master@;
        let ghost name = master@.record_name;
        proof {
            lemma_waiting_taken(before.fetch.assets, name);
            lemma_total_without(before.groups, name);
            lemma_total_nonnegative(without(before.groups, name));
        }
        self.offset = self.offset + 1;
        let early = table_remove(&mut self.pending_assets, &master.record_name);
        let here = take_group(groups, &master.record_name);
        let ghost early_view = option_group_view(early);
        let ghost here_view = option_group_view(here);
        proof {
            assert(early_view == found(before.fetch.assets, name));
            assert(self@.assets =~= before.fetch.assets.remove(name));
        }
        let records = match (early, here) {
            (Some(early), Some(here)) => {
                let mut records = early;
                let mut here = here;
                let ghost left = record_views(records@);
                let ghost right = record_views(here@);
                records.append(&mut here);
                assert(record_views(records@) =~= left + right);
                Some(records)
            },
            (Some(early), None) => {
                assert(record_views(early@) =~= record_views(early@) + Seq::empty());
                Some(early)
            },
            (None, Some(here)) => {
                assert(record_views(here@) =~= Seq::empty() + record_views(here@));
                Some(here)
            },
            (None, None) => None,
        };
        match records {
            Some(records) => {
                assert(record_views(records@) == group_or_empty(early_view) + group_or_empty(
                    here_view,
                ));
                assert(records@.len() == record_views(records@).len());
                send_list(&mut self.sender, out, owners, self.range, &master, &records, false);
                let gone = self.remember(master);
                proof {
                    let taken = WorkView {
                        fetch: FetchView {
                            assets: before.fetch.assets.remove(name),
                            offset: before.fetch.offset + 1,
                            ..before.fetch
                        },
                        groups: without(before.groups, name),
                        ..before
                    };
                    assert(work_view(*self, *out, *owners, groups@) =~= remembered(
                        sent(
                            taken,
                            view,
                            group_or_empty(early_view) + group_or_empty(here_view),
                            false,
                        ),
                        view,
                        gone@,
                    ));
                }
                gone
            },
            None => {
                let _ = table_insert(&mut self.pending_masters, master.record_name.clone(), master);
                assert(self@.masters =~= before.fetch.masters.insert(name, view));
                Ghost(Seq::empty())
            },
        }
    }

    /// Take a group of assets whose master is not on the page.
    fn take_assets(
        &mut self,
        out: &mut PageOutput,
        owners: &mut FxHashMap<String, u64>,
        name: String,
        records: Vec<Record>,
    ) -> (gone: Ghost<Seq<char>>)
        requires
            old(self)@.assets.dom().finite(),
            old(self)@.total_sent + assets_waiting(old(self)@.assets) + records@.len() <= u64::MAX,
        ensures
            work_view(*final(self), *final(out), *final(owners), Seq::empty()) == group_step(
                work_view(*old(self), *old(out), *old(owners), Seq::empty()),
                (name@, record_views(records@)),
                gone@,
            ),
            final(self)@.assets.dom().finite(),
            final(self)@.total_sent + assets_waiting(final(self)@.assets) <= old(self)@.total_sent
                + assets_waiting(old(self)@.assets) + records@.len(),
            final(self).consecutive_empty_pages == old(self).consecutive_empty_pages,
    {
        proof {
            reveal(group_step);
        }
        let ghost before = work_view(*self, *out, *owners, Seq::empty());
        let ghost views = record_views(records@);
        let ghost key = name@;
        match table_remove(&mut self.pending_masters, &name) {
            Some(master) => {
                let ghost view = master@;
                proof {
                    assert(found(before.fetch.masters, key) == Some(view));
                    assert(self@.masters =~= before.fetch.masters.remove(key));
                }
                send_list(&mut self.sender, out, owners, self.range, &master, &records, false);
                let gone = self.remember(master);
                proof {
                    let taken = WorkView {
                        fetch: FetchView {
                            masters: before.fetch.masters.remove(key),
                            ..before.fetch
                        },
                        ..before
                    };
                    assert(work_view(*self, *out, *owners, Seq::empty()) =~= remembered(
                        sent(taken, view, views, false),
                        view,
                        gone@,
                    ));
                }
                gone
            },
            None => {
                proof {
                    assert(found(before.fetch.masters, key) is None);
                    assert(self@.masters =~= before.fetch.masters);
                }
                match table_get(&self.paired_masters, &name) {
                    Some(master) => {
                        let ghost view = master@;
                        send_list(
                            &mut self.sender,
                            out,
                            owners,
                            self.range,
                            master,
                            &records,
                            true,
                        );
                        proof {
                            assert(found(before.fetch.paired, key) == Some(view));
                            assert(work_view(*self, *out, *owners, Seq::empty()) =~= sent(
                                before,
                                view,
                                views,
                                true,
                            ));
                        }
                    },
                    None => {
                        proof {
                            assert(found(before.fetch.paired, key) is None);
                            lemma_waiting_appended(before.fetch.assets, key, views);
                        }
                        append_waiting(&mut self.pending_assets, name, records);
                    },
                }
                Ghost(Seq::empty())
            },
        }
    }
}

/// How many unpaired records a fetcher puts up with.
fn max_pending_records(page_size: usize) -> (n: usize)
    ensures
        n == max_pending(page_size),
{
    if page_size == 0 {
        1
    } else if page_size <= usize::MAX / 4 {
        page_size * 4
    } else {
        usize::MAX
    }
}

/// How many records stand in a list of groups.
fn count_records(groups: &Vec<(String, Vec<Record>)>) -> (n: u128)
    ensures
        n == total(group_views(groups@)),
        n <= u64::MAX * u64::MAX,
{
    let ghost views = group_views(groups@);
    let mut n: u128 = 0;
    let mut i: usize = 0;
    while i < groups.len()
        invariant
            i <= groups.len(),
            views == group_views(groups@),
            n == total(views.take(i as int)),
            n <= i * u64::MAX,
        decreases groups.len() - i,
    {
        proof {
            assert(views.take(i + 1).drop_last() =~= views.take(i as int));
            assert(views[i as int].1.len() == groups@[i as int].1@.len());
            assert((i + 1) * u64::MAX <= u64::MAX * u64::MAX) by (nonlinear_arith)
                requires
                    i < u64::MAX,
            ;
            assert((i + 1) * u64::MAX == i * u64::MAX + u64::MAX) by (nonlinear_arith);
        }
        n = n + groups[i].1.len() as u128;
        i = i + 1;
    }
    proof {
        assert(views.take(i as int) =~= views);
        assert(i * u64::MAX <= u64::MAX * u64::MAX) by (nonlinear_arith)
            requires
                i <= u64::MAX,
        ;
    }
    n
}

/// The masters and the assets of a page never outnumber its records.
proof fn lemma_page_parts(records: Seq<RecordView>)
    ensures
        page_masters(records).len() <= records.len(),
        total(page_assets(records)) <= records.len(),
    decreases records.len(),
{
    if records.len() > 0 {
        lemma_page_parts(records.drop_last());
        let record = records.last();
        match master_ref(record.fields) {
            Some(name) => {
                lemma_total_append(page_assets(records.drop_last()), name, seq![record]);
            },
            None => {},
        }
    }
}

/// Part a page into its masters and its assets.
fn part_page(records: Vec<Record>) -> (parts: (Vec<Record>, Vec<(String, Vec<Record>)>))
    ensures
        record_views(parts.0@) == page_masters(record_views(records@)),
        group_views(parts.1@) == page_assets(record_views(records@)),
{
    let mut masters: Vec<Record> = Vec::new();
    let mut groups: Vec<(String, Vec<Record>)> = Vec::new();
    let ghost views = record_views(records@);
    proof {
        reveal_strlit("CPLAsset");
        reveal_strlit("CPLMaster");
        assert("CPLAsset"@.len() != "CPLMaster"@.len());
    }
    for record in it: records.into_iter()
        invariant
            record_views(it.seq()) == views,
            it.index() <= views.len(),
            "CPLAsset"@ != "CPLMaster"@,
            record_views(masters@) =~= page_masters(views.take(it.index() as int)),
            group_views(groups@) =~= page_assets(views.take(it.index() as int)),
    {
        let ghost i = it.index() as int;
        let ghost view = record@;
        proof {
            assert(views[i] == record@);
            assert(views.take(i + 1).drop_last() =~= views.take(i));
        }
        if str_eq(&record.record_type, "CPLAsset") {
            if let Some(name) = extract_master_ref(&record.fields) {
                let group = vec![record];
                assert(record_views(group@) =~= seq![view]);
                append_group(&mut groups, name, group);
            }
        } else if str_eq(&record.record_type, "CPLMaster") {
            let ghost before = record_views(masters@);
            masters.push(record);
            assert(record_views(masters@) =~= before.push(view));
        }
    }
    proof {
        assert(views.take(views.len() as int) =~= views);
    }
    (masters, groups)
}

/// What a page leaves: what is to be handed on, and whether the fetcher is done.
pub struct PageOutcome {
    pub items: Vec<FetchItem>,
    pub finished: bool,
}

/// The view of a fetcher and what a page left.
pub open spec fn page_view(
    fetcher: Fetcher,
    owners: FxHashMap<String, u64>,
    outcome: PageOutcome,
) -> PageView {
    PageView {
        fetch: fetcher@,
        owners: keyed(owners),
        items: item_views(outcome.items@),
        finished: outcome.finished,
    }
}

impl Fetcher {
    /// A fetcher at the start of its range.
    pub fn new(
        range: FetcherRange,
        behavior: FetcherBehavior,
        reports_token: bool,
    ) -> (fetcher: Self)
        ensures
            fetcher@ == fresh(range, behavior, reports_token),
    {
        let fetcher = Fetcher {
            range,
            behavior,
            reports_token,
            offset: range.start,
            last_sync_token: None,
            saw_blank_sync_token: false,
            pending_masters: empty_table(),
            pending_assets: empty_table(),
            paired_masters: empty_table(),
            consecutive_empty_pages: 0,
            enumeration_incomplete: false,
            stopped_for_limit: false,
            sender: Sender { emitted: empty_table(), total_sent: 0 },
        };
        proof {
            assert(fetcher@ =~= fresh(range, behavior, reports_token));
        }
        fetcher
    }

    /// Whether the range has ranks left to ask for.
    pub fn wants_page(&self) -> (wants: bool)
        ensures
            wants == (self@.offset < self@.range.end),
    {
        self.offset < self.range.end
    }

    /// Whether the counters have room for a page of so many records.
    pub fn has_room_for(&self, records: usize) -> (room: bool)
        ensures
            room == has_room(self@, records as int),
    {
        let held = count_waiting(&self.pending_assets);
        let max: u128 = u64::MAX as u128;
        self.offset as u128 + self.behavior.page_size as u128 <= max && self.offset as u128
            + records as u128 <= max && self.sender.total_sent as u128 + held + records as u128
            <= max
    }

    /// Note the token of a page.
    fn note_token(&mut self, token: Option<String>)
        ensures
            final(self)@ == token_noted(old(self)@, option_view(token)),
            final(self).sender == old(self).sender,
    {
        if let Some(token) = token {
            let trimmed_token = trim(&token);
            proof {
                reveal_strlit("");
                assert(trimmed_token@.len() == 0 ==> trimmed_token@ =~= ""@);
            }
            if str_eq(&trimmed_token, "") {
                self.saw_blank_sync_token = true;
            } else {
                self.last_sync_token = Some(trimmed_token);
            }
        }
    }

    /// Take an empty page.
    fn take_empty_page(&mut self) -> (outcome: PageOutcome)
        requires
            old(self).offset + old(self).behavior.page_size <= u64::MAX,
            old(self).consecutive_empty_pages < MAX_EMPTY_PAGE_PROBES,
        ensures
            ({
                let page = empty_page(old(self)@, Map::empty());
                &&& final(self)@ == page.fetch
                &&& item_views(outcome.items@) == page.items
                &&& outcome.finished == page.finished
            }),
    {
        let fails = match self.range.role {
            FetcherRangeRole::Data => self.behavior.treat_empty_tail_as_error
                && self.range.limit.is_none() && self.range.end == u64::MAX && self.reports_token,
            _ => false,
        };
        assert(fails == empty_tail_fails(self@));
        self.consecutive_empty_pages = self.consecutive_empty_pages + 1;
        let mut items: Vec<FetchItem> = Vec::new();
        if self.consecutive_empty_pages >= MAX_EMPTY_PAGE_PROBES {
            if fails {
                self.enumeration_incomplete = true;
                items.push(FetchItem::Failure(EMPTY_TAIL_FAILURE.to_owned()));
            }
            proof {
                assert(item_views(items@) =~= empty_page(old(self)@, Map::empty()).items);
            }
            PageOutcome { items, finished: true }
        } else {
            self.offset = self.offset + self.behavior.page_size as u64;
            assert(item_views(items@) =~= Seq::empty());
            PageOutcome { items, finished: false }
        }
    }

    /// End a page.
    fn close_page(&mut self, out: PageOutput) -> (outcome: PageOutcome)
        requires
            old(self).consecutive_empty_pages < MAX_EMPTY_PAGE_PROBES,
        ensures
            forall|owners: FxHashMap<String, u64>, groups: Seq<(String, Vec<Record>)>|
                page_view(*final(self), owners, outcome) == #[trigger] closed(
                    work_view(*old(self), out, owners, groups),
                ),
    {
        let mut items = out.items;
        if out.limit_reached {
            self.stopped_for_limit = match self.range.role {
                FetcherRangeRole::LimitProbe => true,
                _ => false,
            };
            return PageOutcome { items, finished: true };
        }
        let pending: u128 = table_len(&self.pending_masters) as u128 + count_waiting(
            &self.pending_assets,
        );
        assert(self@.masters.dom() =~= keyed(self.pending_masters).dom());
        if pending > max_pending_records(self.behavior.page_size) as u128 {
            self.enumeration_incomplete = true;
            let mut text = "Photo enumeration is incomplete: ".to_owned();
            text.append(&decimal_wide(pending));
            text.append(" unpaired CPLMaster/CPLAsset records exceeded the pending-pair buffer.");
            let ghost before = item_views(items@);
            let ghost view = text@;
            items.push(FetchItem::Failure(text));
            assert(item_views(items@) =~= before.push(ItemView::Failure(view)));
            return PageOutcome { items, finished: true };
        }
        if out.sent_any {
            self.consecutive_empty_pages = 0;
        } else {
            self.consecutive_empty_pages = self.consecutive_empty_pages + 1;
        }
        PageOutcome { items, finished: self.consecutive_empty_pages >= MAX_EMPTY_PAGE_PROBES }
    }
}

/// A fetcher at the start of its range.
pub open spec fn fresh(
    range: FetcherRange,
    behavior: FetcherBehavior,
    reports_token: bool,
) -> FetchView {
    FetchView {
        range,
        behavior,
        reports_token,
        offset: range.start as int,
        token: None,
        blank: false,
        masters: Map::empty(),
        assets: Map::empty(),
        paired: Map::empty(),
        empty_pages: 0,
        incomplete: false,
        stopped: false,
        emitted: Map::empty(),
        total_sent: 0,
    }
}

impl Fetcher {
    /// Take the masters of a page.
    fn take_masters(
        &mut self,
        out: &mut PageOutput,
        owners: &mut FxHashMap<String, u64>,
        groups: &mut Vec<(String, Vec<Record>)>,
        masters: Vec<Record>,
    ) -> (gone: Ghost<Seq<Seq<char>>>)
        requires
            old(self).offset + masters@.len() <= u64::MAX,
            old(self)@.assets.dom().finite(),
            old(self)@.total_sent + assets_waiting(old(self)@.assets) + total(
                group_views(old(groups)@),
            ) <= u64::MAX,
        ensures
            work_view(*final(self), *final(out), *final(owners), final(groups)@) == masters_run(
                work_view(*old(self), *old(out), *old(owners), old(groups)@),
                record_views(masters@),
                gone@,
            ),
            final(self)@.assets.dom().finite(),
            final(self)@.total_sent + assets_waiting(final(self)@.assets) + total(
                group_views(final(groups)@),
            ) <= u64::MAX,
            final(self).consecutive_empty_pages == old(self).consecutive_empty_pages,
    {
        let ghost views = record_views(masters@);
        let ghost mut gone: Seq<Seq<char>> = Seq::empty();
        let ghost start = work_view(*self, *out, *owners, groups@);
        let ghost offset = self.offset;
        let ghost empty_pages = self.consecutive_empty_pages;
        for master in it: masters.into_iter()
            invariant
                record_views(it.seq()) == views,
                it.index() <= views.len(),
                offset + views.len() <= u64::MAX,
                self.offset == offset + it.index(),
                self.consecutive_empty_pages == empty_pages,
                self@.assets.dom().finite(),
                self@.total_sent + assets_waiting(self@.assets) + total(group_views(groups@))
                    <= u64::MAX,
                gone.len() == it.index(),
                work_view(*self, *out, *owners, groups@) == masters_run(
                    start,
                    views.take(it.index() as int),
                    gone,
                ),
        {
            let ghost i = it.index() as int;
            proof {
                assert(views[i] == master@);
                assert(views.take(i + 1).drop_last() =~= views.take(i));
            }
            let went = self.take_master(out, owners, groups, master);
            proof {
                assert(gone.push(went@).drop_last() =~= gone);
                gone = gone.push(went@);
            }
        }
        proof {
            assert(views.take(views.len() as int) =~= views);
        }
        Ghost(gone)
    }

    /// Take the groups of a page whose masters are not on it.
    fn take_groups(
        &mut self,
        out: &mut PageOutput,
        owners: &mut FxHashMap<String, u64>,
        groups: Vec<(String, Vec<Record>)>,
    ) -> (gone: Ghost<Seq<Seq<char>>>)
        requires
            old(self)@.assets.dom().finite(),
            old(self)@.total_sent + assets_waiting(old(self)@.assets) + total(group_views(groups@))
                <= u64::MAX,
        ensures
            work_view(*final(self), *final(out), *final(owners), Seq::empty()) == groups_run(
                work_view(*old(self), *old(out), *old(owners), Seq::empty()),
                group_views(groups@),
                gone@,
            ),
            final(self).consecutive_empty_pages == old(self).consecutive_empty_pages,
    {
        let ghost views = group_views(groups@);
        let ghost mut gone: Seq<Seq<char>> = Seq::empty();
        let ghost start = work_view(*self, *out, *owners, Seq::empty());
        let ghost empty_pages = self.consecutive_empty_pages;
        proof {
            assert(views.skip(0) =~= views);
        }
        for group in it: groups.into_iter()
            invariant
                group_views(it.seq()) == views,
                it.index() <= views.len(),
                self.consecutive_empty_pages == empty_pages,
                self@.assets.dom().finite(),
                self@.total_sent + assets_waiting(self@.assets) + total(
                    views.skip(it.index() as int),
                ) <= u64::MAX,
                gone.len() == it.index(),
                work_view(*self, *out, *owners, Seq::empty()) == groups_run(
                    start,
                    views.take(it.index() as int),
                    gone,
                ),
        {
            let ghost i = it.index() as int;
            let (name, list) = group;
            proof {
                assert(views[i] == (name@, record_views(list@)));
                assert(views.take(i + 1).drop_last() =~= views.take(i));
                lemma_total_remove(views.skip(i), 0);
                assert(views.skip(i).remove(0) =~= views.skip(i + 1));
                lemma_total_nonnegative(views.skip(i + 1));
                assert(list@.len() == views[i].1.len());
            }
            let went = self.take_assets(out, owners, name, list);
            proof {
                assert(gone.push(went@).drop_last() =~= gone);
                gone = gone.push(went@);
            }
        }
        proof {
            assert(views.take(views.len() as int) =~= views);
        }
        Ghost(gone)
    }

    /// Begin a page with records: nothing of it has been handed on, and without masters the
    /// offset has to be moved on.
    fn open_page(
        &mut self,
        owners: &FxHashMap<String, u64>,
        records: Vec<Record>,
    ) -> (parts: (Vec<Record>, Vec<(String, Vec<Record>)>, PageOutput))
        requires
            records@.len() > 0,
            has_room(old(self)@, records@.len() as int),
        ensures
            record_views(parts.0@) == page_masters(record_views(records@)),
            work_view(*final(self), parts.2, *owners, parts.1@) == opened(
                old(self)@,
                keyed(*owners),
                record_views(records@),
            ),
            final(self).offset + parts.0@.len() <= u64::MAX,
            final(self)@.assets.dom().finite(),
            final(self)@.total_sent + assets_waiting(final(self)@.assets) + total(
                group_views(parts.1@),
            ) <= u64::MAX,
            final(self).consecutive_empty_pages == old(self).consecutive_empty_pages,
    {
        let ghost views = record_views(records@);
        proof {
            lemma_page_parts(views);
        }
        let (masters, groups) = part_page(records);
        proof {
            lemma_total_nonnegative(group_views(groups@));
            assert(masters@.len() == record_views(masters@).len());
        }
        if masters.len() == 0 {
            let covered = count_records(&groups);
            let advance: u64 = if covered > 1 {
                covered as u64
            } else {
                1
            };
            self.offset = self.offset + advance;
        }
        let out = PageOutput { sent_any: false, limit_reached: false, items: Vec::new() };
        proof {
            assert(item_views(out.items@) =~= Seq::empty());
            assert(work_view(*self, out, *owners, groups@) =~= opened(
                old(self)@,
                keyed(*owners),
                views,
            ));
        }
        (masters, groups, out)
    }

    /// Take a page: pair its records, and say which assets to hand on and whether the fetcher
    /// is done.
    pub fn on_page(
        &mut self,
        owners: &mut FxHashMap<String, u64>,
        records: Vec<Record>,
        sync_token: Option<String>,
    ) -> (outcome: PageOutcome)
        requires
            has_room(old(self)@, records@.len() as int),
            old(self)@.empty_pages < MAX_EMPTY_PAGE_PROBES,
        ensures
            exists|gone: Evictions|
                page_view(*final(self), *final(owners), outcome) == #[trigger] page_taken(
                    old(self)@,
                    keyed(*old(owners)),
                    record_views(records@),
                    option_view(sync_token),
                    gone,
                ),
            !outcome.finished ==> final(self)@.empty_pages < MAX_EMPTY_PAGE_PROBES,
    {
        let ghost views = record_views(records@);
        let ghost token = option_view(sync_token);
        let ghost start = self@;
        let ghost owned = keyed(*owners);
        self.note_token(sync_token);
        let ghost noted_state = self@;
        if records.len() == 0 {
            let outcome = self.take_empty_page();
            proof {
                assert(views.len() == 0);
                assert(page_view(*self, *owners, outcome) =~= empty_page(
                    noted_state,
                    keyed(*owners),
                ));
                let gone = Evictions { at_masters: Seq::empty(), at_groups: Seq::empty() };
                assert(page_view(*self, *owners, outcome) == page_taken(
                    start,
                    owned,
                    views,
                    token,
                    gone,
                ));
            }
            return outcome;
        }
        assert(views.len() > 0);
        let (masters, mut groups, mut out) = self.open_page(owners, records);
        let at_masters = self.take_masters(&mut out, owners, &mut groups, masters);
        let ghost after_masters = work_view(*self, out, *owners, groups@);
        if out.limit_reached {
            let outcome = self.close_page(out);
            proof {
                let gone = Evictions { at_masters: at_masters@, at_groups: Seq::empty() };
                assert(page_view(*self, *owners, outcome) == page_taken(
                    start,
                    owned,
                    views,
                    token,
                    gone,
                ));
            }
            return outcome;
        }
        proof {
            assert(group_views(Seq::empty()) =~= Seq::empty());
            assert(work_view(*self, out, *owners, Seq::empty()) =~= (WorkView {
                groups: Seq::empty(),
                ..after_masters
            }));
        }
        let at_groups = self.take_groups(&mut out, owners, groups);
        let outcome = self.close_page(out);
        proof {
            let gone = Evictions { at_masters: at_masters@, at_groups: at_groups@ };
            assert(page_view(*self, *owners, outcome) == page_taken(
                start,
                owned,
                views,
                token,
                gone,
            ));
        }
        outcome
    }
}

// The end of a range.

/// What is said where records stay unpaired at the end.
pub open spec fn unpaired_text(masters: int, assets: int) -> Seq<char> {
    "Photo enumeration is incomplete: "@ + decimal_text(masters as nat)
        + " unpaired CPLMaster records and "@ + decimal_text(assets as nat)
        + " unpaired CPLAsset records remained at the end of the stream."@
}

/// Whether records that stay unpaired make the enumeration incomplete.
pub open spec fn ends_unpaired(f: FetchView) -> bool {
    !f.stopped && !f.behavior.allow_unpaired_at_range_boundary && (f.masters != nothing::<
        RecordView,
    >() || f.assets != nothing::<Seq<RecordView>>())
}

/// The token that a fetcher reports.
pub open spec fn reported_token(f: FetchView) -> Option<Seq<char>> {
    match f.token {
        Some(token) => Some(token),
        None => if f.blank && f.behavior.preserve_blank_sync_tokens_for_diagnostics {
            Some(Seq::empty())
        } else {
            None
        },
    }
}

/// How a fetcher ended.
pub open spec fn completion_of(f: FetchView) -> EnumerationCompletion {
    if f.incomplete || ends_unpaired(f) {
        EnumerationCompletion::Incomplete(EnumerationFailure::UnpairedRecords)
    } else if f.stopped {
        EnumerationCompletion::UserBoundReached
    } else {
        EnumerationCompletion::ProvenEof
    }
}

/// The report of a fetcher that is done.
pub struct FetchReport {
    /// What is still to be handed on.
    pub failure: Option<String>,
    /// Whether no token may be kept, because the caller's limit was met.
    pub suppress: bool,
    pub token: Option<String>,
    pub completion: EnumerationCompletion,
}

impl Fetcher {
    /// How the fetcher ended.
    pub fn finish(&self) -> (report: FetchReport)
        ensures
            option_view(report.failure) == (if ends_unpaired(self@) {
                Some(
                    unpaired_text(
                        self@.masters.dom().len() as int,
                        assets_waiting(self@.assets) as int,
                    ),
                )
            } else {
                None
            }),
            report.suppress == self@.stopped,
            option_view(report.token) == reported_token(self@),
            report.completion == completion_of(self@),
    {
        let unpaired = !self.stopped_for_limit && !self.behavior.allow_unpaired_at_range_boundary
            && (!table_is_empty(&self.pending_masters) || !table_is_empty(&self.pending_assets));
        proof {
            assert(self@.masters.dom() =~= keyed(self.pending_masters).dom());
            assert(self@.assets.dom() =~= keyed(self.pending_assets).dom());
            if keyed(self.pending_masters) == nothing::<Record>() {
                assert(self@.masters =~= nothing::<RecordView>());
            }
            if self@.masters == nothing::<RecordView>() {
                assert(keyed(self.pending_masters) =~= nothing::<Record>());
            }
            if keyed(self.pending_assets) == nothing::<Vec<Record>>() {
                assert(self@.assets =~= nothing::<Seq<RecordView>>());
            }
            if self@.assets == nothing::<Seq<RecordView>>() {
                assert(keyed(self.pending_assets) =~= nothing::<Vec<Record>>());
            }
        }
        let failure = if unpaired {
            let mut text = "Photo enumeration is incomplete: ".to_owned();
            text.append(&decimal_wide(table_len(&self.pending_masters) as u128));
            text.append(" unpaired CPLMaster records and ");
            text.append(&decimal_wide(count_waiting(&self.pending_assets)));
            text.append(" unpaired CPLAsset records remained at the end of the stream.");
            Some(text)
        } else {
            None
        };
        let token = match &self.last_sync_token {
            Some(token) => Some(token.clone()),
            None => if self.saw_blank_sync_token
                && self.behavior.preserve_blank_sync_tokens_for_diagnostics {
                let blank = String::new();
                assert(blank@ =~= Seq::empty());
                Some(blank)
            } else {
                None
            },
        };
        let completion = if self.enumeration_incomplete || unpaired {
            EnumerationCompletion::Incomplete(EnumerationFailure::UnpairedRecords)
        } else if self.stopped_for_limit {
            EnumerationCompletion::UserBoundReached
        } else {
            EnumerationCompletion::ProvenEof
        };
        FetchReport { failure, suppress: self.stopped_for_limit, token, completion }
    }
}

// What holds of every page.

/// The asset record that an item was made of.
pub open spec fn item_name(item: ItemView) -> Option<Seq<char>> {
    match item {
        ItemView::Asset(asset) => Some(asset.asset_record_name),
        ItemView::Failure(_) => None,
    }
}

/// What a fetcher may do when it hands assets on: each new item is an asset whose record this
/// range owns; a range that may meet records again hands none on twice; owners stay, and new
/// ones are this range; and the count goes up by one for each, never past the limit.
pub open spec fn hands_on(range: FetcherRange, before: SendView, after: SendView) -> bool {
    &&& before.items.len() <= after.items.len()
    &&& before.items == after.items.take(before.items.len() as int)
    &&& forall|k: Seq<char>| #[trigger]
        before.owners.contains_key(k) ==> after.owners.contains_key(k) && after.owners[k]
            == before.owners[k]
    &&& forall|k: Seq<char>| #[trigger]
        after.owners.contains_key(k) && !before.owners.contains_key(k) ==> after.owners[k]
            == range.start
    &&& forall|k: Seq<char>| #[trigger]
        before.emitted.contains_key(k) ==> after.emitted.contains_key(k)
    &&& forall|i: int|
        before.items.len() <= i < after.items.len() ==> {
            let name = item_name(#[trigger] after.items[i]);
            &&& name is Some
            &&& after.owners.contains_key(name->0)
            &&& after.owners[name->0] == range.start
            &&& range.role != FetcherRangeRole::Data ==> !before.emitted.contains_key(name->0)
                && after.emitted.contains_key(name->0)
        }
    &&& range.role != FetcherRangeRole::Data ==> forall|i: int, j: int|
        #![trigger after.items[i], after.items[j]]
        before.items.len() <= i < j < after.items.len() ==> item_name(after.items[i])
            != item_name(after.items[j])
    &&& after.total_sent - before.total_sent == after.items.len() - before.items.len()
    &&& match range.limit {
        Some(limit) => after.total_sent <= before.total_sent || after.total_sent <= limit,
        None => true,
    }
}

/// Two stretches of handing on are one.
proof fn lemma_hands_on_twice(range: FetcherRange, a: SendView, b: SendView, c: SendView)
    requires
        hands_on(range, a, b),
        hands_on(range, b, c),
    ensures
        hands_on(range, a, c),
{
    assert(a.items =~= c.items.take(a.items.len() as int)) by {
        assert(b.items == c.items.take(b.items.len() as int));
    }
    assert forall|i: int| a.items.len() <= i < c.items.len() implies {
        let name = item_name(#[trigger] c.items[i]);
        &&& name is Some
        &&& c.owners.contains_key(name->0)
        &&& c.owners[name->0] == range.start
        &&& range.role != FetcherRangeRole::Data ==> !a.emitted.contains_key(name->0)
            && c.emitted.contains_key(name->0)
    } by {
        if i < b.items.len() {
            assert(c.items[i] == b.items[i]);
        }
    }
    assert(range.role != FetcherRangeRole::Data ==> forall|i: int, j: int|
        #![trigger c.items[i], c.items[j]]
        a.items.len() <= i < j < c.items.len() ==> item_name(c.items[i]) != item_name(
            c.items[j],
        )) by {
        if range.role != FetcherRangeRole::Data {
            assert forall|i: int, j: int|
                #![trigger c.items[i], c.items[j]]
                a.items.len() <= i < j < c.items.len() implies item_name(c.items[i])
                != item_name(c.items[j]) by {
                if i < b.items.len() {
                    assert(c.items[i] == b.items[i]);
                }
                if j < b.items.len() {
                    assert(c.items[j] == b.items[j]);
                }
            }
        }
    }
}

/// Handing on a list of assets is handing on.
proof fn lemma_send_hands_on(
    s: SendView,
    range: FetcherRange,
    master: RecordView,
    records: Seq<RecordView>,
    late: bool,
    i: int,
)
    ensures
        hands_on(range, s, send_from(s, range, master, records, late, i)),
    decreases records.len() - i,
{
    assert(s.items =~= s.items.take(s.items.len() as int));
    if 0 <= i < records.len() {
        let name = records[i].record_name;
        let seen = noted(s, range, name);
        assert(seen.items =~= seen.items.take(s.items.len() as int));
        assert(hands_on(range, s, seen));
        if !is_due(s, range, name) {
            lemma_send_hands_on(seen, range, master, records, late, i + 1);
            lemma_hands_on_twice(
                range,
                s,
                seen,
                send_from(seen, range, master, records, late, i + 1),
            );
        } else if !limit_met(seen, range) {
            let item = ItemView::Asset(sibling_asset(master, records[i], late || i > 0));
            let next = SendView {
                total_sent: seen.total_sent + 1,
                sent_any: true,
                items: seen.items.push(item),
                ..seen
            };
            assert(item_name(item) == Some(name));
            assert(s.items =~= next.items.take(s.items.len() as int));
            assert(hands_on(range, s, next));
            lemma_send_hands_on(next, range, master, records, late, i + 1);
            lemma_hands_on_twice(
                range,
                s,
                next,
                send_from(next, range, master, records, late, i + 1),
            );
        }
    }
}

/// Nothing handed on is handing on.
proof fn lemma_hands_on_nothing(range: FetcherRange, s: SendView)
    ensures
        hands_on(range, s, s),
{
    assert(s.items =~= s.items.take(s.items.len() as int));
}

/// The masters of a page hand on.
proof fn lemma_masters_hand_on(w: WorkView, masters: Seq<RecordView>, gone: Seq<Seq<char>>)
    ensures
        hands_on(w.fetch.range, sending(w), sending(masters_run(w, masters, gone))),
        masters_run(w, masters, gone).fetch.range == w.fetch.range,
        masters_run(w, masters, gone).fetch.behavior == w.fetch.behavior,
        masters_run(w, masters, gone).fetch.empty_pages == w.fetch.empty_pages,
        masters_run(w, masters, gone).fetch.offset == w.fetch.offset + masters.len(),
    decreases masters.len(),
{
    if masters.len() == 0 {
        lemma_hands_on_nothing(w.fetch.range, sending(w));
    } else {
        let before = masters_run(w, masters.drop_last(), gone.drop_last());
        lemma_masters_hand_on(w, masters.drop_last(), gone.drop_last());
        let master = masters.last();
        reveal(master_step);
        let name = master.record_name;
        let early = found(before.fetch.assets, name);
        let here = value(before.groups, name);
        lemma_send_hands_on(
            sending(before),
            w.fetch.range,
            master,
            group_or_empty(early) + group_or_empty(here),
            false,
            0,
        );
        lemma_hands_on_nothing(w.fetch.range, sending(before));
        lemma_hands_on_twice(
            w.fetch.range,
            sending(w),
            sending(before),
            sending(master_step(before, master, gone.last())),
        );
    }
}

/// The remaining groups of a page hand on.
proof fn lemma_groups_hand_on(
    w: WorkView,
    groups: Seq<(Seq<char>, Seq<RecordView>)>,
    gone: Seq<Seq<char>>,
)
    ensures
        hands_on(w.fetch.range, sending(w), sending(groups_run(w, groups, gone))),
        groups_run(w, groups, gone).fetch.range == w.fetch.range,
        groups_run(w, groups, gone).fetch.behavior == w.fetch.behavior,
        groups_run(w, groups, gone).fetch.empty_pages == w.fetch.empty_pages,
        groups_run(w, groups, gone).fetch.offset == w.fetch.offset,
    decreases groups.len(),
{
    if groups.len() == 0 {
        lemma_hands_on_nothing(w.fetch.range, sending(w));
    } else {
        let before = groups_run(w, groups.drop_last(), gone.drop_last());
        lemma_groups_hand_on(w, groups.drop_last(), gone.drop_last());
        let (name, records) = groups.last();
        reveal(group_step);
        lemma_hands_on_nothing(w.fetch.range, sending(before));
        match (found(before.fetch.masters, name), found(before.fetch.paired, name)) {
            (Some(master), _) => {
                lemma_send_hands_on(sending(before), w.fetch.range, master, records, false, 0);
            },
            (None, Some(master)) => {
                lemma_send_hands_on(sending(before), w.fetch.range, master, records, true, 0);
            },
            (None, None) => {},
        }
        lemma_hands_on_twice(
            w.fetch.range,
            sending(w),
            sending(before),
            sending(group_step(before, groups.last(), gone.last())),
        );
    }
}

/// The state that a page with records leaves before it is closed.
pub open spec fn worked(
    f: FetchView,
    owners: Map<Seq<char>, u64>,
    records: Seq<RecordView>,
    gone: Evictions,
) -> WorkView {
    let w = masters_run(opened(f, owners, records), page_masters(records), gone.at_masters);
    if w.limit_reached {
        w
    } else {
        groups_run(WorkView { groups: Seq::empty(), ..w }, w.groups, gone.at_groups)
    }
}

/// A page with records hands on.
proof fn lemma_page_hands_on(
    f: FetchView,
    owners: Map<Seq<char>, u64>,
    records: Seq<RecordView>,
    gone: Evictions,
)
    ensures
        hands_on(
            f.range,
            sending(opened(f, owners, records)),
            sending(worked(f, owners, records, gone)),
        ),
        worked(f, owners, records, gone).fetch.range == f.range,
        worked(f, owners, records, gone).fetch.behavior == f.behavior,
        worked(f, owners, records, gone).fetch.empty_pages == f.empty_pages,
        worked(f, owners, records, gone).fetch.offset > f.offset,
{
    let start = opened(f, owners, records);
    let masters = page_masters(records);
    let w = masters_run(start, masters, gone.at_masters);
    lemma_masters_hand_on(start, masters, gone.at_masters);
    let bare = WorkView { groups: Seq::empty(), ..w };
    lemma_groups_hand_on(bare, w.groups, gone.at_groups);
    if !w.limit_reached {
        lemma_hands_on_twice(
            f.range,
            sending(start),
            sending(w),
            sending(groups_run(bare, w.groups, gone.at_groups)),
        );
    }
}

/// No record is handed on twice: every asset of a page is of a record that the range owns,
/// and where a range may meet records again, of one that it has not handed on before, neither
/// on an earlier page nor on this one.
pub proof fn law_no_record_is_handed_on_twice(
    f: FetchView,
    owners: Map<Seq<char>, u64>,
    records: Seq<RecordView>,
    token: Option<Seq<char>>,
    gone: Evictions,
)
    ensures
        ({
            let page = page_taken(f, owners, records, token, gone);
            &&& forall|i: int|
                0 <= i < page.items.len() && item_name(#[trigger] page.items[i]) is Some ==> {
                    let name = item_name(page.items[i])->0;
                    &&& page.owners.contains_key(name)
                    &&& page.owners[name] == f.range.start
                    &&& f.range.role != FetcherRangeRole::Data ==> !f.emitted.contains_key(name)
                        && page.fetch.emitted.contains_key(name)
                }
            &&& f.range.role != FetcherRangeRole::Data ==> forall|i: int, j: int|
                #![trigger page.items[i], page.items[j]]
                0 <= i < j < page.items.len() && item_name(page.items[i]) is Some ==> item_name(
                    page.items[i],
                ) != item_name(page.items[j])
        }),
{
    let page = page_taken(f, owners, records, token, gone);
    let f1 = token_noted(f, token);
    if records.len() > 0 {
        lemma_page_hands_on(f1, owners, records, gone);
        let w = worked(f1, owners, records, gone);
        let start = opened(f1, owners, records);
        assert(page == closed(w));
        assert forall|i: int|
            0 <= i < page.items.len() && item_name(#[trigger] page.items[i]) is Some implies {
            let name = item_name(page.items[i])->0;
            &&& page.owners.contains_key(name)
            &&& page.owners[name] == f.range.start
            &&& f.range.role != FetcherRangeRole::Data ==> !f.emitted.contains_key(name)
                && page.fetch.emitted.contains_key(name)
        } by {
            assert(i < w.items.len());
            assert(page.items[i] == w.items[i]);
        }
        if f.range.role != FetcherRangeRole::Data {
            assert forall|i: int, j: int|
                #![trigger page.items[i], page.items[j]]
                0 <= i < j < page.items.len() && item_name(page.items[i]) is Some implies item_name(
                page.items[i],
            ) != item_name(page.items[j]) by {
                assert(page.items[i] == w.items[i]);
                if j < w.items.len() {
                    assert(page.items[j] == w.items[j]);
                }
            }
        }
    }
}

/// Once a range owns a record, no page of any range changes that; so a record that one range
/// hands on is handed on by no range that starts elsewhere.
pub proof fn law_owners_stay(
    f: FetchView,
    owners: Map<Seq<char>, u64>,
    records: Seq<RecordView>,
    token: Option<Seq<char>>,
    name: Seq<char>,
    gone: Evictions,
)
    requires
        owners.contains_key(name),
    ensures
        ({
            let page = page_taken(f, owners, records, token, gone);
            &&& page.owners.contains_key(name)
            &&& page.owners[name] == owners[name]
            &&& owners[name] != f.range.start ==> forall|i: int|
                0 <= i < page.items.len() ==> item_name(#[trigger] page.items[i]) != Some(name)
        }),
{
    let f1 = token_noted(f, token);
    if records.len() > 0 {
        lemma_page_hands_on(f1, owners, records, gone);
        assert(sending(opened(f1, owners, records)).owners.contains_key(name));
        assert(page_taken(f, owners, records, token, gone) == closed(
            worked(f1, owners, records, gone),
        ));
    }
    law_no_record_is_handed_on_twice(f, owners, records, token, gone);
    let page = page_taken(f, owners, records, token, gone);
    assert(page.owners[name] == owners[name]);
    if owners[name] != f.range.start {
        assert forall|i: int| 0 <= i < page.items.len() implies item_name(#[trigger] page.items[i])
            != Some(name) by {
            if item_name(page.items[i]) == Some(name) {
                assert(page.owners[name] == f.range.start);
            }
        }
    }
}

/// A limit is kept: a range that has handed on no more than its limit never does.
pub proof fn law_limit_is_kept(
    f: FetchView,
    owners: Map<Seq<char>, u64>,
    records: Seq<RecordView>,
    token: Option<Seq<char>>,
    gone: Evictions,
)
    requires
        f.range.limit is Some,
        f.total_sent <= f.range.limit->0,
    ensures
        page_taken(f, owners, records, token, gone).fetch.total_sent <= f.range.limit->0,
        page_taken(f, owners, records, token, gone).fetch.range == f.range,
{
    let f1 = token_noted(f, token);
    if records.len() > 0 {
        lemma_page_hands_on(f1, owners, records, gone);
        assert(page_taken(f, owners, records, token, gone) == closed(
            worked(f1, owners, records, gone),
        ));
    }
}

/// A fetcher moves on: a page after which it is not done leaves it at a later rank.
pub proof fn law_pages_move_on(
    f: FetchView,
    owners: Map<Seq<char>, u64>,
    records: Seq<RecordView>,
    token: Option<Seq<char>>,
    gone: Evictions,
)
    requires
        f.behavior.page_size > 0,
        !page_taken(f, owners, records, token, gone).finished,
    ensures
        page_taken(f, owners, records, token, gone).fetch.offset > f.offset,
{
    let f1 = token_noted(f, token);
    if records.len() > 0 {
        lemma_page_hands_on(f1, owners, records, gone);
        assert(page_taken(f, owners, records, token, gone) == closed(
            worked(f1, owners, records, gone),
        ));
    }
}

/// Gaps are looked past: a fetcher is not done because of empty pages before it has seen
/// enough of them in a row, and it is done when it has.
pub proof fn law_empty_pages_end_the_range(
    f: FetchView,
    owners: Map<Seq<char>, u64>,
    token: Option<Seq<char>>,
    gone: Evictions,
)
    ensures
        page_taken(f, owners, Seq::empty(), token, gone).finished == (f.empty_pages + 1
            >= MAX_EMPTY_PAGE_PROBES),
{
}

/// A fetcher that left records unpaired, or that failed, never reports that its range ended.
pub proof fn law_unpaired_records_are_not_an_end(f: FetchView)
    requires
        f.incomplete || ends_unpaired(f),
    ensures
        completion_of(f) != EnumerationCompletion::ProvenEof,
{
}

/// A token is kept only for a whole enumeration: where the fetchers' reports let one be kept,
/// none of them failed, left records unpaired at its end, or stopped at the caller's limit.
pub proof fn law_kept_token_means_a_whole_enumeration(
    capture: CaptureView,
    fetchers: Seq<FetchView>,
    i: int,
)
    requires
        capture.reports == fetchers.map_values(
            |f: FetchView| (reported_token(f), completion_of(f)),
        ),
        resolved_token(capture) is Some,
        0 <= i < fetchers.len(),
    ensures
        capture.expected == fetchers.len(),
        !fetchers[i].incomplete,
        !ends_unpaired(fetchers[i]),
        !fetchers[i].stopped,
        reported_token(fetchers[i]) is Some ==> reported_token(fetchers[i]) == resolved_token(
            capture,
        ),
{
    law_kept_token_is_vouched_for(capture, i);
    assert(capture.reports[i] == (reported_token(fetchers[i]), completion_of(fetchers[i])));
}

// Nothing is lost.

/// Whether a record stands in a list of groups under the name of its master.
pub open spec fn waits(
    groups: Seq<(Seq<char>, Seq<RecordView>)>,
    master: Seq<char>,
    record: RecordView,
) -> bool {
    value(groups, master) is Some && value(groups, master)->0.contains(record)
}

/// Whether a record waits for its master.
pub open spec fn waits_for(
    assets: Map<Seq<char>, Seq<RecordView>>,
    master: Seq<char>,
    record: RecordView,
) -> bool {
    found(assets, master) is Some && assets[master].contains(record)
}

/// Whether an asset of a name was handed on.
pub open spec fn handed_on(items: Seq<ItemView>, name: Seq<char>) -> bool {
    exists|i: int| 0 <= i < items.len() && item_name(#[trigger] items[i]) == Some(name)
}

/// Whether nothing more is owed for a record: it was handed on, or another range owns it, or
/// this range had met it before the page.
pub open spec fn settled(
    range: FetcherRange,
    known: Map<Seq<char>, ()>,
    s: SendView,
    name: Seq<char>,
) -> bool {
    ||| range.role != FetcherRangeRole::Data && known.contains_key(name)
    ||| s.owners.contains_key(name) && (s.owners[name] != range.start || handed_on(s.items, name))
}

/// Whether nothing more is owed for any record that a range has noted.
spec fn noted_are_settled(range: FetcherRange, known: Map<Seq<char>, ()>, s: SendView) -> bool {
    range.role != FetcherRangeRole::Data ==> forall|name: Seq<char>| #[trigger]
        s.emitted.contains_key(name) ==> settled(range, known, s, name)
}

/// What is settled stays so.
proof fn lemma_settled_stays(
    range: FetcherRange,
    known: Map<Seq<char>, ()>,
    before: SendView,
    after: SendView,
    name: Seq<char>,
)
    requires
        hands_on(range, before, after),
        settled(range, known, before, name),
    ensures
        settled(range, known, after, name),
{
    if handed_on(before.items, name) {
        let i = choose|i: int|
            0 <= i < before.items.len() && item_name(#[trigger] before.items[i]) == Some(name);
        assert(after.items[i] == before.items[i]);
    }
}

/// Handing on a list of assets settles each of them, short of the limit.
proof fn lemma_send_settles(
    s: SendView,
    range: FetcherRange,
    known: Map<Seq<char>, ()>,
    master: RecordView,
    records: Seq<RecordView>,
    late: bool,
    i: int,
)
    requires
        0 <= i <= records.len(),
        noted_are_settled(range, known, s),
        !send_from(s, range, master, records, late, i).limit_reached,
    ensures
        !s.limit_reached,
        noted_are_settled(range, known, send_from(s, range, master, records, late, i)),
        forall|j: int|
            i <= j < records.len() ==> settled(
                range,
                known,
                send_from(s, range, master, records, late, i),
                (#[trigger] records[j]).record_name,
            ),
    decreases records.len() - i,
{
    if i < records.len() {
        let name = records[i].record_name;
        let seen = noted(s, range, name);
        let done = send_from(s, range, master, records, late, i);
        lemma_hands_on_nothing(range, s);
        assert(seen.items == s.items);
        assert(hands_on(range, s, seen));
        let next = if !is_due(s, range, name) {
            seen
        } else {
            let item = ItemView::Asset(sibling_asset(master, records[i], late || i > 0));
            assert(item_name(item) == Some(name));
            SendView {
                total_sent: seen.total_sent + 1,
                sent_any: true,
                items: seen.items.push(item),
                ..seen
            }
        };
        assert(done == send_from(next, range, master, records, late, i + 1));
        assert(s.items =~= next.items.take(s.items.len() as int));
        assert(hands_on(range, s, next));
        assert(settled(range, known, next, name)) by {
            if is_due(s, range, name) {
                assert(item_name(next.items[next.items.len() - 1]) == Some(name));
            }
        }
        assert(noted_are_settled(range, known, next)) by {
            if range.role != FetcherRangeRole::Data {
                assert forall|k: Seq<char>| #[trigger] next.emitted.contains_key(k) implies settled(
                    range,
                    known,
                    next,
                    k,
                ) by {
                    if k != name {
                        assert(s.emitted.contains_key(k));
                        lemma_settled_stays(range, known, s, next, k);
                    }
                }
            }
        }
        lemma_send_settles(next, range, known, master, records, late, i + 1);
        lemma_send_hands_on(next, range, master, records, late, i + 1);
        lemma_settled_stays(range, known, next, done, name);
    }
}

/// Once the limit is met it stays so.
proof fn lemma_send_limit(
    s: SendView,
    range: FetcherRange,
    master: RecordView,
    records: Seq<RecordView>,
    late: bool,
    i: int,
)
    requires
        s.limit_reached,
    ensures
        send_from(s, range, master, records, late, i).limit_reached,
    decreases records.len() - i,
{
    if 0 <= i < records.len() {
        let name = records[i].record_name;
        let seen = noted(s, range, name);
        if !is_due(s, range, name) {
            lemma_send_limit(seen, range, master, records, late, i + 1);
        } else if !limit_met(seen, range) {
            lemma_send_limit(
                SendView {
                    total_sent: seen.total_sent + 1,
                    sent_any: true,
                    items: seen.items.push(
                        ItemView::Asset(sibling_asset(master, records[i], late || i > 0)),
                    ),
                    ..seen
                },
                range,
                master,
                records,
                late,
                i + 1,
            );
        }
    }
}

/// A place is the first one where the name stands.
proof fn lemma_place_is_first<X>(s: Seq<(Seq<char>, X)>, name: Seq<char>)
    ensures
        match place(s, name) {
            Some(i) => 0 <= i < s.len() && s[i].0 == name && forall|j: int|
                0 <= j < i ==> (#[trigger] s[j]).0 != name,
            None => forall|j: int| 0 <= j < s.len() ==> (#[trigger] s[j]).0 != name,
        },
    decreases s.len(),
{
    if s.len() > 0 && s[0].0 != name {
        let rest = s.drop_first();
        lemma_place_is_first(rest, name);
        let end = match place(rest, name) {
            Some(i) => i + 1,
            None => s.len() as int,
        };
        assert forall|j: int| 0 <= j < end implies (#[trigger] s[j]).0 != name by {
            if j > 0 {
                assert(rest[j - 1] == s[j]);
            }
        }
    }
}

/// Taking a name out leaves what stands under the others.
proof fn lemma_value_without<X>(s: Seq<(Seq<char>, X)>, name: Seq<char>, other: Seq<char>)
    requires
        name != other,
    ensures
        value(without(s, name), other) == value(s, other),
{
    lemma_place_is_first(s, name);
    lemma_place_is_first(s, other);
    match place(s, name) {
        Some(i) => {
            let rest = s.remove(i);
            match place(s, other) {
                Some(k) => {
                    let at = if k < i {
                        k
                    } else {
                        k - 1
                    };
                    assert forall|j: int| 0 <= j < at implies (#[trigger] rest[j]).0 != other by {
                        if j < i {
                            assert(rest[j] == s[j]);
                        } else {
                            assert(rest[j] == s[j + 1]);
                        }
                    }
                    lemma_place(rest, other, at);
                },
                None => {
                    assert forall|j: int| 0 <= j < rest.len() implies (#[trigger] rest[j]).0
                        != other by {
                        if j < i {
                            assert(rest[j] == s[j]);
                        } else {
                            assert(rest[j] == s[j + 1]);
                        }
                    }
                    lemma_no_place(rest, other);
                },
            }
        },
        None => {},
    }
}

/// Records that are put under a name wait there, and those that waited still do.
proof fn lemma_append_waits(
    s: Seq<(Seq<char>, Seq<RecordView>)>,
    name: Seq<char>,
    records: Seq<RecordView>,
    master: Seq<char>,
    record: RecordView,
)
    requires
        waits(s, master, record) || (master == name && records.contains(record)),
    ensures
        waits(append_to(s, name, records), master, record),
{
    let after = append_to(s, name, records);
    lemma_place_is_first(s, name);
    lemma_place_is_first(s, master);
    match place(s, master) {
        Some(k) => {
            assert forall|j: int| 0 <= j < k implies (#[trigger] after[j]).0 != master by {
                assert(s[j].0 != master);
            }
            lemma_place(after, master, k);
            if master == name {
                let group = s[k].1;
                if group.contains(record) {
                    let at = group.index_of(record);
                    assert((group + records)[at] == record);
                } else {
                    let at = records.index_of(record);
                    assert((group + records)[group.len() + at] == record);
                }
            }
        },
        None => {
            assert(master == name);
            assert forall|j: int| 0 <= j < s.len() implies (#[trigger] after[j]).0 != master by {
                assert(s[j].0 != master);
            }
            lemma_place(after, master, s.len() as int);
        },
    }
}

/// Records that are let wait do, and those that waited still do.
proof fn lemma_appended_waits(
    assets: Map<Seq<char>, Seq<RecordView>>,
    name: Seq<char>,
    records: Seq<RecordView>,
    master: Seq<char>,
    record: RecordView,
)
    requires
        waits_for(assets, master, record) || (master == name && records.contains(record)),
    ensures
        waits_for(appended(assets, name, records), master, record),
{
    let group = group_or_empty(found(assets, name));
    if master == name {
        if group.contains(record) {
            let at = group.index_of(record);
            assert((group + records)[at] == record);
        } else {
            let at = records.index_of(record);
            assert((group + records)[group.len() + at] == record);
        }
    }
}

/// An asset record of a page stands under its master.
proof fn lemma_page_assets_hold(records: Seq<RecordView>, master: Seq<char>, record: RecordView)
    requires
        records.contains(record),
        record.record_type == "CPLAsset"@,
        master_ref(record.fields) == Some(master),
    ensures
        waits(page_assets(records), master, record),
    decreases records.len(),
{
    let last = records.last();
    let before = page_assets(records.drop_last());
    if last == record {
        assert(seq![record].contains(record)) by {
            assert(seq![record][0] == record);
        }
        lemma_append_waits(before, master, seq![record], master, record);
    } else {
        let i = records.index_of(record);
        assert(records.drop_last()[i] == record);
        lemma_page_assets_hold(records.drop_last(), master, record);
        match master_ref(last.fields) {
            Some(name) => {
                lemma_append_waits(before, name, seq![last], master, record);
            },
            None => {},
        }
    }
}

/// Whether a record is owed nothing more, or waits in one of the two places.
spec fn looked_after(
    known: Map<Seq<char>, ()>,
    w: WorkView,
    master: Seq<char>,
    record: RecordView,
) -> bool {
    ||| settled(w.fetch.range, known, sending(w), record.record_name)
    ||| waits_for(w.fetch.assets, master, record)
    ||| waits(w.groups, master, record)
}

/// A limit that was met stays so at a master.
proof fn lemma_master_keeps_limit(w: WorkView, last: RecordView, gone: Seq<char>)
    requires
        w.limit_reached,
    ensures
        master_step(w, last, gone).limit_reached,
{
    reveal(master_step);
    let early = found(w.fetch.assets, last.record_name);
    let here = value(w.groups, last.record_name);
    lemma_send_limit(
        sending(w),
        w.fetch.range,
        last,
        group_or_empty(early) + group_or_empty(here),
        false,
        0,
    );
}

/// A master settles every record that it takes, short of the limit, and leaves alone what it
/// does not take.
#[verifier::spinoff_prover]
proof fn lemma_master_looks_after(
    known: Map<Seq<char>, ()>,
    w: WorkView,
    last: RecordView,
    master: Seq<char>,
    record: RecordView,
    gone: Seq<char>,
)
    requires
        noted_are_settled(w.fetch.range, known, sending(w)),
        !master_step(w, last, gone).limit_reached,
    ensures
        noted_are_settled(w.fetch.range, known, sending(master_step(w, last, gone))),
        looked_after(known, w, master, record) ==> looked_after(
            known,
            master_step(w, last, gone),
            master,
            record,
        ),
{
    let range = w.fetch.range;
    let after = master_step(w, last, gone);
    let name = last.record_name;
    let early = found(w.fetch.assets, name);
    let here = value(w.groups, name);
    let records = group_or_empty(early) + group_or_empty(here);
    reveal(master_step);
    if early is Some || here is Some {
        assert(sending(after) == send_from(sending(w), range, last, records, false, 0));
        lemma_send_settles(sending(w), range, known, last, records, false, 0);
        lemma_send_hands_on(sending(w), range, last, records, false, 0);
        if settled(range, known, sending(w), record.record_name) {
            lemma_settled_stays(range, known, sending(w), sending(after), record.record_name);
        } else if name == master && looked_after(known, w, master, record) {
            let at = if early is Some && early->0.contains(record) {
                early->0.index_of(record)
            } else {
                group_or_empty(early).len() + here->0.index_of(record)
            };
            assert(records[at] == record);
        }
    }
    if name != master {
        lemma_value_without(w.groups, name, master);
    }
}

/// The masters of a page leave every record looked after, short of the limit.
proof fn lemma_masters_look_after(
    known: Map<Seq<char>, ()>,
    w: WorkView,
    masters: Seq<RecordView>,
    master: Seq<char>,
    record: RecordView,
    gone: Seq<Seq<char>>,
)
    requires
        noted_are_settled(w.fetch.range, known, sending(w)),
        !masters_run(w, masters, gone).limit_reached,
    ensures
        !w.limit_reached,
        noted_are_settled(w.fetch.range, known, sending(masters_run(w, masters, gone))),
        looked_after(known, w, master, record) ==> looked_after(
            known,
            masters_run(w, masters, gone),
            master,
            record,
        ),
    decreases masters.len(),
{
    if masters.len() > 0 {
        let before = masters_run(w, masters.drop_last(), gone.drop_last());
        if before.limit_reached {
            lemma_master_keeps_limit(before, masters.last(), gone.last());
        }
        lemma_masters_hand_on(w, masters.drop_last(), gone.drop_last());
        lemma_masters_look_after(
            known,
            w,
            masters.drop_last(),
            master,
            record,
            gone.drop_last(),
        );
        lemma_master_looks_after(known, before, masters.last(), master, record, gone.last());
    }
}

/// A limit that was met stays so at a group.
proof fn lemma_group_keeps_limit(
    w: WorkView,
    group: (Seq<char>, Seq<RecordView>),
    gone: Seq<char>,
)
    requires
        w.limit_reached,
    ensures
        group_step(w, group, gone).limit_reached,
{
    reveal(group_step);
    let (name, records) = group;
    match (found(w.fetch.masters, name), found(w.fetch.paired, name)) {
        (Some(master), _) => {
            lemma_send_limit(sending(w), w.fetch.range, master, records, false, 0);
        },
        (None, Some(master)) => {
            lemma_send_limit(sending(w), w.fetch.range, master, records, true, 0);
        },
        (None, None) => {},
    }
}

/// Whether a record is owed nothing more, or waits for its master.
spec fn kept(
    known: Map<Seq<char>, ()>,
    w: WorkView,
    master: Seq<char>,
    record: RecordView,
) -> bool {
    settled(w.fetch.range, known, sending(w), record.record_name) || waits_for(
        w.fetch.assets,
        master,
        record,
    )
}

/// A group keeps each of its records and those that were kept, short of the limit.
#[verifier::spinoff_prover]
proof fn lemma_group_keeps(
    known: Map<Seq<char>, ()>,
    w: WorkView,
    group: (Seq<char>, Seq<RecordView>),
    master: Seq<char>,
    record: RecordView,
    gone: Seq<char>,
)
    requires
        noted_are_settled(w.fetch.range, known, sending(w)),
        !group_step(w, group, gone).limit_reached,
    ensures
        noted_are_settled(w.fetch.range, known, sending(group_step(w, group, gone))),
        kept(known, w, master, record) || (group.0 == master && group.1.contains(record))
            ==> kept(known, group_step(w, group, gone), master, record),
{
    let range = w.fetch.range;
    let after = group_step(w, group, gone);
    let (name, records) = group;
    reveal(group_step);
    let (owner, late) = match (found(w.fetch.masters, name), found(w.fetch.paired, name)) {
        (Some(owner), _) => (Some(owner), false),
        (None, Some(owner)) => (Some(owner), true),
        (None, None) => (None, false),
    };
    if let Some(owner) = owner {
        assert(sending(after) == send_from(sending(w), range, owner, records, late, 0));
        lemma_send_settles(sending(w), range, known, owner, records, late, 0);
        lemma_send_hands_on(sending(w), range, owner, records, late, 0);
        if settled(range, known, sending(w), record.record_name) {
            lemma_settled_stays(range, known, sending(w), sending(after), record.record_name);
        }
        if records.contains(record) {
            assert(records[records.index_of(record)] == record);
        }
    } else if waits_for(w.fetch.assets, master, record) || (name == master && records.contains(
        record,
    )) {
        lemma_appended_waits(w.fetch.assets, name, records, master, record);
    }
}

/// The remaining groups keep every record, short of the limit: those of the groups too.
proof fn lemma_groups_look_after(
    known: Map<Seq<char>, ()>,
    w: WorkView,
    groups: Seq<(Seq<char>, Seq<RecordView>)>,
    master: Seq<char>,
    record: RecordView,
    gone: Seq<Seq<char>>,
)
    requires
        noted_are_settled(w.fetch.range, known, sending(w)),
        !groups_run(w, groups, gone).limit_reached,
    ensures
        noted_are_settled(w.fetch.range, known, sending(groups_run(w, groups, gone))),
        kept(known, w, master, record) || (exists|k: int|
            0 <= k < groups.len() && (#[trigger] groups[k]).0 == master && groups[k].1.contains(
                record,
            )) ==> kept(known, groups_run(w, groups, gone), master, record),
    decreases groups.len(),
{
    if groups.len() > 0 {
        let fewer = groups.drop_last();
        let before = groups_run(w, fewer, gone.drop_last());
        if before.limit_reached {
            lemma_group_keeps_limit(before, groups.last(), gone.last());
        }
        lemma_groups_hand_on(w, fewer, gone.drop_last());
        lemma_groups_look_after(known, w, fewer, master, record, gone.drop_last());
        assert forall|k: int|
            0 <= k < groups.len() && (#[trigger] groups[k]).0 == master && groups[k].1.contains(
                record,
            ) implies k == groups.len() - 1 || fewer[k] == groups[k] by {}
        lemma_group_keeps(known, before, groups.last(), master, record, gone.last());
    }
}

/// No asset is lost: an asset record that came with a page, or that waited for its master
/// before, waits for it after the page, or was handed on, or belongs to another range, or is
/// one that this range had met before. Only where the caller's limit cuts a page off is the
/// rest of it dropped.
pub proof fn law_no_asset_is_lost(
    f: FetchView,
    owners: Map<Seq<char>, u64>,
    records: Seq<RecordView>,
    token: Option<Seq<char>>,
    master: Seq<char>,
    record: RecordView,
    gone: Evictions,
)
    requires
        waits_for(f.assets, master, record) || (records.contains(record) && record.record_type
            == "CPLAsset"@ && master_ref(record.fields) == Some(master)),
        !worked(token_noted(f, token), owners, records, gone).limit_reached,
    ensures
        ({
            let page = page_taken(f, owners, records, token, gone);
            let name = record.record_name;
            ||| waits_for(page.fetch.assets, master, record)
            ||| handed_on(page.items, name)
            ||| page.owners.contains_key(name) && page.owners[name] != f.range.start
            ||| f.range.role != FetcherRangeRole::Data && f.emitted.contains_key(name)
        }),
{
    let f1 = token_noted(f, token);
    let page = page_taken(f, owners, records, token, gone);
    if records.len() > 0 {
        let start = opened(f1, owners, records);
        let masters = page_masters(records);
        let w = masters_run(start, masters, gone.at_masters);
        let done = worked(f1, owners, records, gone);
        assert(!w.limit_reached);
        if records.contains(record) && record.record_type == "CPLAsset"@ && master_ref(
            record.fields,
        ) == Some(master) {
            lemma_page_assets_hold(records, master, record);
        }
        lemma_masters_look_after(f.emitted, start, masters, master, record, gone.at_masters);
        lemma_masters_hand_on(start, masters, gone.at_masters);
        let bare = WorkView { groups: Seq::empty(), ..w };
        if waits(w.groups, master, record) {
            lemma_place_bounds(w.groups, master);
            let k = place(w.groups, master)->0;
            assert(w.groups[k].0 == master && w.groups[k].1.contains(record));
        }
        assert(sending(bare) == sending(w));
        lemma_groups_hand_on(bare, w.groups, gone.at_groups);
        lemma_groups_look_after(f.emitted, bare, w.groups, master, record, gone.at_groups);
        assert(page == closed(done));
        if handed_on(done.items, record.record_name) {
            let i = choose|i: int|
                0 <= i < done.items.len() && item_name(#[trigger] done.items[i]) == Some(
                    record.record_name,
                );
            assert(page.items[i] == done.items[i]);
        }
    }
}

/// A master record of a page is one of the page's masters.
proof fn lemma_page_masters_hold(records: Seq<RecordView>, master: RecordView)
    requires
        records.contains(master),
        master.record_type == "CPLMaster"@,
    ensures
        page_masters(records).contains(master),
    decreases records.len(),
{
    let before = page_masters(records.drop_last());
    if records.last() == master {
        assert(page_masters(records)[before.len() as int] == master);
    } else {
        let i = records.index_of(master);
        assert(records.drop_last()[i] == master);
        lemma_page_masters_hold(records.drop_last(), master);
        let k = before.index_of(master);
        assert(page_masters(records)[k] == master);
    }
}

/// A master that nothing refers to waits, whatever masters come with it.
proof fn lemma_masters_wait(
    w: WorkView,
    masters: Seq<RecordView>,
    name: Seq<char>,
    gone: Seq<Seq<char>>,
)
    requires
        found(w.fetch.assets, name) is None,
        value(w.groups, name) is None,
    ensures
        found(masters_run(w, masters, gone).fetch.assets, name) is None,
        value(masters_run(w, masters, gone).groups, name) is None,
        found(w.fetch.masters, name) is Some || (exists|i: int|
            0 <= i < masters.len() && (#[trigger] masters[i]).record_name == name) ==> found(
            masters_run(w, masters, gone).fetch.masters,
            name,
        ) is Some,
    decreases masters.len(),
{
    if masters.len() > 0 {
        let fewer = masters.drop_last();
        let before = masters_run(w, fewer, gone.drop_last());
        let last = masters.last();
        reveal(master_step);
        lemma_masters_wait(w, fewer, name, gone.drop_last());
        assert forall|i: int|
            0 <= i < masters.len() && (#[trigger] masters[i]).record_name == name implies i
            == masters.len() - 1 || fewer[i] == masters[i] by {}
        if last.record_name != name {
            lemma_value_without(before.groups, last.record_name, name);
        }
    }
}

/// Groups of other masters leave a master that waits.
proof fn lemma_groups_leave_masters(
    w: WorkView,
    groups: Seq<(Seq<char>, Seq<RecordView>)>,
    name: Seq<char>,
    gone: Seq<Seq<char>>,
)
    requires
        forall|k: int| 0 <= k < groups.len() ==> (#[trigger] groups[k]).0 != name,
        found(w.fetch.masters, name) is Some,
    ensures
        found(groups_run(w, groups, gone).fetch.masters, name) is Some,
    decreases groups.len(),
{
    if groups.len() > 0 {
        let fewer = groups.drop_last();
        assert forall|k: int| 0 <= k < fewer.len() implies (#[trigger] fewer[k]).0 != name by {
            assert(fewer[k] == groups[k]);
        }
        lemma_groups_leave_masters(w, fewer, name, gone.drop_last());
        reveal(group_step);
        assert(groups[groups.len() - 1].0 != name);
    }
}

/// A master without an asset waits: a master record of a page that no asset refers to, neither
/// one of the page nor one that waited for it, stands among the masters that wait after the
/// page.
pub proof fn law_masters_without_assets_wait(
    f: FetchView,
    owners: Map<Seq<char>, u64>,
    records: Seq<RecordView>,
    token: Option<Seq<char>>,
    master: RecordView,
    gone: Evictions,
)
    requires
        records.contains(master),
        master.record_type == "CPLMaster"@,
        found(f.assets, master.record_name) is None,
        value(page_assets(records), master.record_name) is None,
    ensures
        found(
            page_taken(f, owners, records, token, gone).fetch.masters,
            master.record_name,
        ) is Some,
{
    let f1 = token_noted(f, token);
    let name = master.record_name;
    let start = opened(f1, owners, records);
    let w = masters_run(start, page_masters(records), gone.at_masters);
    lemma_page_masters_hold(records, master);
    lemma_masters_wait(start, page_masters(records), name, gone.at_masters);
    if !w.limit_reached {
        lemma_place_is_first(w.groups, name);
        lemma_groups_leave_masters(
            WorkView { groups: Seq::empty(), ..w },
            w.groups,
            name,
            gone.at_groups,
        );
    }
}

// A whole range.

/// What pages do, one after the other: the state that they leave, and all that was handed on.
pub open spec fn pages_taken(
    f: FetchView,
    owners: Map<Seq<char>, u64>,
    pages: Seq<(Seq<RecordView>, Option<Seq<char>>)>,
    gone: Seq<Evictions>,
) -> PageView
    decreases pages.len(),
{
    if pages.len() == 0 {
        PageView { fetch: f, owners, items: Seq::empty(), finished: false }
    } else {
        let before = pages_taken(f, owners, pages.drop_last(), gone.drop_last());
        let page = page_taken(
            before.fetch,
            before.owners,
            pages.last().0,
            pages.last().1,
            gone.last(),
        );
        PageView { items: before.items + page.items, ..page }
    }
}

/// Without a limit none is met.
proof fn lemma_send_meets_no_limit(
    s: SendView,
    range: FetcherRange,
    master: RecordView,
    records: Seq<RecordView>,
    late: bool,
    i: int,
)
    requires
        range.limit is None,
    ensures
        send_from(s, range, master, records, late, i).limit_reached == s.limit_reached,
    decreases records.len() - i,
{
    if 0 <= i < records.len() {
        let name = records[i].record_name;
        let seen = noted(s, range, name);
        if !is_due(s, range, name) {
            lemma_send_meets_no_limit(seen, range, master, records, late, i + 1);
        } else {
            lemma_send_meets_no_limit(
                SendView {
                    total_sent: seen.total_sent + 1,
                    sent_any: true,
                    items: seen.items.push(
                        ItemView::Asset(sibling_asset(master, records[i], late || i > 0)),
                    ),
                    ..seen
                },
                range,
                master,
                records,
                late,
                i + 1,
            );
        }
    }
}

/// Without a limit the masters of a page meet none.
proof fn lemma_masters_meet_no_limit(w: WorkView, masters: Seq<RecordView>, gone: Seq<Seq<char>>)
    requires
        w.fetch.range.limit is None,
        !w.limit_reached,
    ensures
        !masters_run(w, masters, gone).limit_reached,
    decreases masters.len(),
{
    if masters.len() > 0 {
        let before = masters_run(w, masters.drop_last(), gone.drop_last());
        let last = masters.last();
        let early = found(before.fetch.assets, last.record_name);
        let here = value(before.groups, last.record_name);
        lemma_masters_meet_no_limit(w, masters.drop_last(), gone.drop_last());
        lemma_masters_hand_on(w, masters.drop_last(), gone.drop_last());
        reveal(master_step);
        lemma_send_meets_no_limit(
            sending(before),
            w.fetch.range,
            last,
            group_or_empty(early) + group_or_empty(here),
            false,
            0,
        );
    }
}

/// Without a limit the remaining groups meet none.
proof fn lemma_groups_meet_no_limit(
    w: WorkView,
    groups: Seq<(Seq<char>, Seq<RecordView>)>,
    gone: Seq<Seq<char>>,
)
    requires
        w.fetch.range.limit is None,
        !w.limit_reached,
    ensures
        !groups_run(w, groups, gone).limit_reached,
    decreases groups.len(),
{
    if groups.len() > 0 {
        let before = groups_run(w, groups.drop_last(), gone.drop_last());
        let (name, records) = groups.last();
        lemma_groups_meet_no_limit(w, groups.drop_last(), gone.drop_last());
        lemma_groups_hand_on(w, groups.drop_last(), gone.drop_last());
        reveal(group_step);
        match (found(before.fetch.masters, name), found(before.fetch.paired, name)) {
            (Some(master), _) => {
                lemma_send_meets_no_limit(
                    sending(before),
                    w.fetch.range,
                    master,
                    records,
                    false,
                    0,
                );
            },
            (None, Some(master)) => {
                lemma_send_meets_no_limit(sending(before), w.fetch.range, master, records, true, 0);
            },
            (None, None) => {},
        }
    }
}

/// Without a limit no page meets one.
proof fn lemma_page_meets_no_limit(
    f: FetchView,
    owners: Map<Seq<char>, u64>,
    records: Seq<RecordView>,
    gone: Evictions,
)
    requires
        f.range.limit is None,
    ensures
        !worked(f, owners, records, gone).limit_reached,
{
    let start = opened(f, owners, records);
    let masters = page_masters(records);
    let w = masters_run(start, masters, gone.at_masters);
    lemma_masters_meet_no_limit(start, masters, gone.at_masters);
    lemma_masters_hand_on(start, masters, gone.at_masters);
    lemma_groups_meet_no_limit(WorkView { groups: Seq::empty(), ..w }, w.groups, gone.at_groups);
}

/// What a page notes it settles: a record that the range notes on it was handed on, or belongs
/// to another range.
proof fn lemma_page_settles(
    f: FetchView,
    owners: Map<Seq<char>, u64>,
    records: Seq<RecordView>,
    token: Option<Seq<char>>,
    name: Seq<char>,
    gone: Evictions,
)
    requires
        f.range.role != FetcherRangeRole::Data,
        !worked(token_noted(f, token), owners, records, gone).limit_reached,
        page_taken(f, owners, records, token, gone).fetch.emitted.contains_key(name),
        !f.emitted.contains_key(name),
    ensures
        ({
            let page = page_taken(f, owners, records, token, gone);
            page.owners.contains_key(name) && (page.owners[name] != f.range.start || handed_on(
                page.items,
                name,
            ))
        }),
{
    let f1 = token_noted(f, token);
    let page = page_taken(f, owners, records, token, gone);
    if records.len() > 0 {
        let start = opened(f1, owners, records);
        let masters = page_masters(records);
        let w = masters_run(start, masters, gone.at_masters);
        let done = worked(f1, owners, records, gone);
        let any = records[0];
        lemma_masters_look_after(f.emitted, start, masters, any.record_name, any, gone.at_masters);
        lemma_masters_hand_on(start, masters, gone.at_masters);
        let bare = WorkView { groups: Seq::empty(), ..w };
        assert(sending(bare) == sending(w));
        lemma_groups_look_after(f.emitted, bare, w.groups, any.record_name, any, gone.at_groups);
        assert(page == closed(done));
        assert(sending(done).emitted.contains_key(name));
        assert(settled(f.range, f.emitted, sending(done), name));
        if handed_on(done.items, name) {
            let i = choose|i: int|
                0 <= i < done.items.len() && item_name(#[trigger] done.items[i]) == Some(name);
            assert(page.items[i] == done.items[i]);
        }
    }
}

/// What holds of a range without a limit that alone has owned records from its start on:
/// every record is its own, what it has noted it has handed on, and where it may meet records
/// again it has handed on none twice.
spec fn keeps_account(range: FetcherRange, run: PageView) -> bool {
    &&& run.fetch.range == range
    &&& forall|k: Seq<char>| #[trigger]
        run.owners.contains_key(k) ==> run.owners[k] == range.start
    &&& range.role != FetcherRangeRole::Data ==> forall|k: Seq<char>| #[trigger]
        run.fetch.emitted.contains_key(k) ==> handed_on(run.items, k)
    &&& range.role != FetcherRangeRole::Data ==> forall|i: int|
        0 <= i < run.items.len() && item_name(#[trigger] run.items[i]) is Some
            ==> run.fetch.emitted.contains_key(item_name(run.items[i])->0)
    &&& range.role != FetcherRangeRole::Data ==> forall|i: int, j: int|
        #![trigger run.items[i], run.items[j]]
        0 <= i < j < run.items.len() && item_name(run.items[i]) is Some ==> item_name(run.items[i])
            != item_name(run.items[j])
}

/// What was handed on stays so.
proof fn lemma_handed_on_grows(before: Seq<ItemView>, more: Seq<ItemView>, name: Seq<char>)
    requires
        handed_on(before, name) || handed_on(more, name),
    ensures
        handed_on(before + more, name),
{
    let all = before + more;
    if handed_on(before, name) {
        let i = choose|i: int|
            0 <= i < before.len() && item_name(#[trigger] before[i]) == Some(name);
        assert(all[i] == before[i]);
    } else {
        let i = choose|i: int| 0 <= i < more.len() && item_name(#[trigger] more[i]) == Some(name);
        assert(all[before.len() + i] == more[i]);
    }
}

/// A page keeps the account.
proof fn lemma_page_keeps_account(
    range: FetcherRange,
    before: PageView,
    records: Seq<RecordView>,
    token: Option<Seq<char>>,
    gone: Evictions,
)
    requires
        range.limit is None,
        keeps_account(range, before),
    ensures
        ({
            let page = page_taken(before.fetch, before.owners, records, token, gone);
            &&& keeps_account(range, PageView { items: before.items + page.items, ..page })
            &&& page.fetch.behavior == before.fetch.behavior
        }),
{
    let f = before.fetch;
    let f1 = token_noted(f, token);
    let page = page_taken(f, before.owners, records, token, gone);
    let after = PageView { items: before.items + page.items, ..page };
    let start = opened(f1, before.owners, records);
    lemma_page_meets_no_limit(f1, before.owners, records, gone);
    lemma_page_hands_on(f1, before.owners, records, gone);
    let done = worked(f1, before.owners, records, gone);
    if records.len() > 0 {
        assert(page == closed(done));
    }
    assert forall|k: Seq<char>| #[trigger] after.owners.contains_key(k) implies after.owners[k]
        == range.start by {
        if before.owners.contains_key(k) {
            assert(sending(start).owners.contains_key(k));
        } else {
            assert(sending(done).owners.contains_key(k));
        }
    }
    if range.role != FetcherRangeRole::Data {
        law_no_record_is_handed_on_twice(f, before.owners, records, token, gone);
        assert forall|k: Seq<char>| #[trigger]
            f.emitted.contains_key(k) implies page.fetch.emitted.contains_key(k) by {
            assert(sending(start).emitted.contains_key(k));
        }
        assert forall|k: Seq<char>| #[trigger]
            after.fetch.emitted.contains_key(k) implies handed_on(after.items, k) by {
            if !f.emitted.contains_key(k) {
                lemma_page_settles(f, before.owners, records, token, k, gone);
                assert(after.owners.contains_key(k));
            }
            lemma_handed_on_grows(before.items, page.items, k);
        }
        let n = before.items.len();
        assert forall|i: int|
            0 <= i < after.items.len() && item_name(
                #[trigger] after.items[i],
            ) is Some implies after.fetch.emitted.contains_key(item_name(after.items[i])->0) by {
            if i < n {
                assert(after.items[i] == before.items[i]);
            } else {
                assert(after.items[i] == page.items[i - n]);
            }
        }
        assert forall|i: int, j: int|
            #![trigger after.items[i], after.items[j]]
            0 <= i < j < after.items.len() && item_name(after.items[i]) is Some implies item_name(
            after.items[i],
        ) != item_name(after.items[j]) by {
            if i < n {
                assert(after.items[i] == before.items[i]);
            } else {
                assert(after.items[i] == page.items[i - n]);
            }
            if j < n {
                assert(after.items[j] == before.items[j]);
            } else {
                assert(after.items[j] == page.items[j - n]);
            }
        }
    }
}

/// Pages keep the account from a fresh start on.
proof fn lemma_pages_keep_account(
    range: FetcherRange,
    behavior: FetcherBehavior,
    reports_token: bool,
    pages: Seq<(Seq<RecordView>, Option<Seq<char>>)>,
    gone: Seq<Evictions>,
)
    requires
        range.limit is None,
    ensures
        ({
            let run = pages_taken(fresh(range, behavior, reports_token), Map::empty(), pages, gone);
            keeps_account(range, run) && run.fetch.behavior == behavior
        }),
    decreases pages.len(),
{
    if pages.len() > 0 {
        lemma_pages_keep_account(
            range,
            behavior,
            reports_token,
            pages.drop_last(),
            gone.drop_last(),
        );
        lemma_page_keeps_account(
            range,
            pages_taken(
                fresh(range, behavior, reports_token),
                Map::empty(),
                pages.drop_last(),
                gone.drop_last(),
            ),
            pages.last().0,
            pages.last().1,
            gone.last(),
        );
    }
}

/// Whether an asset record came with one of the pages.
pub open spec fn came(
    pages: Seq<(Seq<RecordView>, Option<Seq<char>>)>,
    record: RecordView,
) -> bool {
    &&& record.record_type == "CPLAsset"@
    &&& master_ref(record.fields) is Some
    &&& exists|p: int| 0 <= p < pages.len() && (#[trigger] pages[p]).0.contains(record)
}

/// An asset record that came was handed on, or waits for its master.
proof fn lemma_pages_lose_nothing(
    range: FetcherRange,
    behavior: FetcherBehavior,
    reports_token: bool,
    pages: Seq<(Seq<RecordView>, Option<Seq<char>>)>,
    gone: Seq<Evictions>,
    record: RecordView,
)
    requires
        range.limit is None,
        came(pages, record),
    ensures
        ({
            let run = pages_taken(fresh(range, behavior, reports_token), Map::empty(), pages, gone);
            handed_on(run.items, record.record_name) || waits_for(
                run.fetch.assets,
                master_ref(record.fields)->0,
                record,
            )
        }),
    decreases pages.len(),
{
    let start = fresh(range, behavior, reports_token);
    let fewer = pages.drop_last();
    let before = pages_taken(start, Map::empty(), fewer, gone.drop_last());
    let (records, token) = pages.last();
    let page = page_taken(before.fetch, before.owners, records, token, gone.last());
    let master = master_ref(record.fields)->0;
    let name = record.record_name;
    let p = choose|p: int| 0 <= p < pages.len() && (#[trigger] pages[p]).0.contains(record);
    lemma_pages_keep_account(range, behavior, reports_token, fewer, gone.drop_last());
    lemma_pages_keep_account(range, behavior, reports_token, pages, gone);
    if p < fewer.len() {
        assert(fewer[p].0.contains(record));
        lemma_pages_lose_nothing(range, behavior, reports_token, fewer, gone.drop_last(), record);
    }
    if !handed_on(before.items, name) {
        lemma_page_meets_no_limit(
            token_noted(before.fetch, token),
            before.owners,
            records,
            gone.last(),
        );
        law_no_asset_is_lost(
            before.fetch,
            before.owners,
            records,
            token,
            master,
            record,
            gone.last(),
        );
        let run = pages_taken(start, Map::empty(), pages, gone);
        if page.owners.contains_key(name) {
            assert(run.owners.contains_key(name));
        }
    }
    if handed_on(before.items, name) || handed_on(page.items, name) {
        lemma_handed_on_grows(before.items, page.items, name);
    }
}

/// A proven end is a whole enumeration: where a range without a limit, which alone owns
/// records and puts up with none unpaired, ends in a proven end, every asset record that came
/// with one of its pages and refers to a master was handed on; by a range that may meet
/// records again exactly once.
pub proof fn law_proven_end_means_every_asset_was_handed_on(
    range: FetcherRange,
    behavior: FetcherBehavior,
    reports_token: bool,
    pages: Seq<(Seq<RecordView>, Option<Seq<char>>)>,
    gone: Seq<Evictions>,
    record: RecordView,
)
    requires
        range.limit is None,
        !behavior.allow_unpaired_at_range_boundary,
        completion_of(
            pages_taken(fresh(range, behavior, reports_token), Map::empty(), pages, gone).fetch,
        ) == EnumerationCompletion::ProvenEof,
        came(pages, record),
    ensures
        ({
            let items = pages_taken(
                fresh(range, behavior, reports_token),
                Map::empty(),
                pages,
                gone,
            ).items;
            &&& handed_on(items, record.record_name)
            &&& range.role != FetcherRangeRole::Data ==> forall|i: int, j: int|
                #![trigger items[i], items[j]]
                0 <= i < j < items.len() && item_name(items[i]) == Some(record.record_name)
                    ==> item_name(items[j]) != Some(record.record_name)
        }),
{
    lemma_pages_keep_account(range, behavior, reports_token, pages, gone);
    lemma_pages_lose_nothing(range, behavior, reports_token, pages, gone, record);
    let run = pages_taken(fresh(range, behavior, reports_token), Map::empty(), pages, gone);
    assert(run.fetch.assets == nothing::<Seq<RecordView>>());
}

// Opening a stream.

/// How many assets wait at most between the fetchers and whoever takes them.
pub const MAX_CHANNEL_CAPACITY: usize = 500;

/// What an enumeration starts with.
pub struct StreamSetup {
    pub plan: EnumerationPlan,
    pub behavior: FetcherBehavior,
    /// Where the fetchers report to.
    pub capture: FetcherSyncTokenCapture,
    pub channel_capacity: usize,
}

/// Whether the count says already that the caller's limit cuts the inventory short.
pub open spec fn cut_short(limit: Option<u32>, total_count: Option<u64>) -> bool {
    match (limit, total_count) {
        (Some(limit), Some(total)) => total > limit,
        _ => false,
    }
}

/// Set an enumeration up: its ranges, how its fetchers behave, and the tokens that are waited
/// for. Records may stay unpaired at the end of a range where another range may hold their
/// other halves.
pub fn open_stream(
    limit: Option<u32>,
    total_count: Option<u64>,
    default_page_size: usize,
    profile: PhotoStreamProfile,
    preserve_blank_sync_tokens_for_diagnostics: bool,
    treat_empty_tail_as_error: bool,
) -> (setup: StreamSetup)
    ensures
        setup.plan.page_size == profile_page_size(profile, default_page_size as int),
        setup.plan.ranges@ == plan_ranges(limit, total_count, default_page_size as int, profile),
        setup.behavior == (FetcherBehavior {
            page_size: setup.plan.page_size,
            preserve_blank_sync_tokens_for_diagnostics,
            allow_unpaired_at_range_boundary: setup.plan.ranges@.len() > 1,
            treat_empty_tail_as_error,
        }),
        setup.capture@ == (CaptureView {
            reports: Seq::empty(),
            expected: setup.plan.ranges@.len() as int,
            suppressed: cut_short(limit, total_count),
        }),
        setup.channel_capacity == least(
            setup.plan.page_size * most(setup.plan.ranges@.len() as int, 1),
            MAX_CHANNEL_CAPACITY as int,
        ),
{
    let plan = build_enumeration_plan(limit, total_count, default_page_size, profile);
    let mut capture = FetcherSyncTokenCapture::new();
    capture.expect(plan.ranges.len());
    if let (Some(limit), Some(total)) = (limit, total_count) {
        if total > limit as u64 {
            capture.suppress();
        }
    }
    let fetchers: usize = plan.channel_fetchers();
    let page_size: usize = plan.page_size;
    proof {
        assert(page_size * fetchers <= u64::MAX * u64::MAX) by (nonlinear_arith)
            requires
                page_size <= u64::MAX,
                fetchers <= u64::MAX,
        ;
    }
    let capacity: u128 = page_size as u128 * fetchers as u128;
    let channel_capacity: usize = if capacity <= MAX_CHANNEL_CAPACITY as u128 {
        capacity as usize
    } else {
        MAX_CHANNEL_CAPACITY
    };
    let behavior = FetcherBehavior {
        page_size,
        preserve_blank_sync_tokens_for_diagnostics,
        allow_unpaired_at_range_boundary: plan.ranges.len() > 1,
        treat_empty_tail_as_error,
    };
    StreamSetup { plan, behavior, capture, channel_capacity }
}

/// A limit that the count says to be met keeps no token, whatever the fetchers report.
pub proof fn law_cut_short_keeps_no_token(capture: CaptureView)
    requires
        capture.suppressed,
    ensures
        resolved_token(capture) is None,
{
}

// What a page does, by its records.

/// Whether a range owns every record of a list from place `from` on, or would by a look at it,
/// and has handed none of them on, where it may meet records again.
#[verifier::opaque]
pub open spec fn all_due(
    emitted: Map<Seq<char>, ()>,
    owners: Map<Seq<char>, u64>,
    range: FetcherRange,
    records: Seq<RecordView>,
    from: int,
) -> bool {
    &&& forall|i: int|
        from <= i < records.len() && owners.contains_key((#[trigger] records[i]).record_name)
            ==> owners[records[i].record_name] == range.start
    &&& range.role != FetcherRangeRole::Data ==> {
        &&& forall|i: int|
            from <= i < records.len() ==> !emitted.contains_key(
                (#[trigger] records[i]).record_name,
            )
        &&& forall|i: int, j: int|
            from <= i < j < records.len() ==> (#[trigger] records[i]).record_name != (
            #[trigger] records[j]).record_name
    }
}

/// How many assets a range may still hand on, out of so many that are due.
pub open spec fn room_left(total_sent: int, limit: Option<u32>, due: int) -> int {
    match limit {
        Some(limit) => if total_sent >= limit {
            0
        } else if limit - total_sent < due {
            limit - total_sent
        } else {
            due
        },
        None => due,
    }
}

/// A look at the first record of a list that is due leaves the others due.
proof fn lemma_others_stay_due(s: SendView, range: FetcherRange, records: Seq<RecordView>, i: int)
    requires
        0 <= i < records.len(),
        all_due(s.emitted, s.owners, range, records, i),
    ensures
        is_due(s, range, records[i].record_name),
        ({
            let seen = noted(s, range, records[i].record_name);
            all_due(seen.emitted, seen.owners, range, records, i + 1)
        }),
{
    reveal(all_due);
    let name = records[i].record_name;
    let seen = noted(s, range, name);
    assert forall|j: int|
        i + 1 <= j < records.len() && seen.owners.contains_key(
            (#[trigger] records[j]).record_name,
        ) implies seen.owners[records[j].record_name] == range.start by {
        if records[j].record_name != name {
            assert(s.owners.contains_key(records[j].record_name));
        }
    }
    if range.role != FetcherRangeRole::Data {
        assert forall|j: int| i + 1 <= j < records.len() implies !seen.emitted.contains_key(
            (#[trigger] records[j]).record_name,
        ) by {
            assert(records[i].record_name != records[j].record_name);
            assert(!s.emitted.contains_key(records[j].record_name));
        }
    }
}

/// A range hands on the assets of a master that are due one by one, in their order, until its limit
/// leaves no room. Each is made of the master and of its own record. The first keeps its state
/// under the master's name, unless the master found an asset before; every other one keeps it
/// under its own. The limit counts as reached where one more was due than it had room for.
pub proof fn law_siblings_are_handed_on_in_order(
    s: SendView,
    range: FetcherRange,
    master: RecordView,
    records: Seq<RecordView>,
    late: bool,
    i: int,
)
    requires
        0 <= i <= records.len(),
        all_due(s.emitted, s.owners, range, records, i),
    ensures
        ({
            let after = send_from(s, range, master, records, late, i);
            let room = room_left(s.total_sent, range.limit, records.len() - i);
            &&& after.items.len() == s.items.len() + room
            &&& after.items.take(s.items.len() as int) == s.items
            &&& after.total_sent == s.total_sent + room
            &&& after.limit_reached == (s.limit_reached || room < records.len() - i)
            &&& after.sent_any == (s.sent_any || room > 0)
            &&& forall|k: int|
                0 <= k < room ==> {
                    let item = #[trigger] after.items[s.items.len() + k];
                    let photo = asset_of(master, records[i + k], None);
                    &&& item is Asset
                    &&& item->Asset_0.record_name == master.record_name
                    &&& item->Asset_0.asset_record_name == records[i + k].record_name
                    &&& item->Asset_0 == PhotoAssetView {
                        state_record_name: if !late && i + k == 0 {
                            None
                        } else {
                            Some(records[i + k].record_name)
                        },
                        ..photo
                    }
                }
        }),
    decreases records.len() - i,
{
    assert(s.items.take(s.items.len() as int) =~= s.items);
    if i < records.len() {
        let name = records[i].record_name;
        let seen = noted(s, range, name);
        lemma_others_stay_due(s, range, records, i);
        if !limit_met(seen, range) {
            let item = ItemView::Asset(sibling_asset(master, records[i], late || i > 0));
            let next = SendView {
                total_sent: seen.total_sent + 1,
                sent_any: true,
                items: seen.items.push(item),
                ..seen
            };
            law_siblings_are_handed_on_in_order(next, range, master, records, late, i + 1);
            let after = send_from(s, range, master, records, late, i);
            assert(after == send_from(next, range, master, records, late, i + 1));
            let room = room_left(s.total_sent, range.limit, records.len() - i);
            assert(room == 1 + room_left(next.total_sent, range.limit, records.len() - i - 1));
            assert(after.items.take(s.items.len() as int) =~= s.items) by {
                assert(after.items.take(next.items.len() as int) == next.items);
                assert forall|k: int| 0 <= k < s.items.len() implies after.items[k]
                    == s.items[k] by {
                    assert(after.items.take(next.items.len() as int)[k] == next.items[k]);
                }
            }
            assert forall|k: int| 0 <= k < room implies {
                let item = #[trigger] after.items[s.items.len() + k];
                let photo = asset_of(master, records[i + k], None);
                &&& item is Asset
                &&& item->Asset_0.record_name == master.record_name
                &&& item->Asset_0.asset_record_name == records[i + k].record_name
                &&& item->Asset_0 == PhotoAssetView {
                    state_record_name: if !late && i + k == 0 {
                        None
                    } else {
                        Some(records[i + k].record_name)
                    },
                    ..photo
                }
            } by {
                if k == 0 {
                    assert(after.items.take(next.items.len() as int)[s.items.len() as int]
                        == next.items[s.items.len() as int]);
                } else {
                    assert(after.items[next.items.len() + (k - 1)] == after.items[s.items.len()
                        + k]);
                }
            }
        }
    }
}

/// A master meets the assets of its page and those that waited for it, the ones that waited
/// first, and none of them waits any longer; a master without any waits itself. Either way the
/// range moves on by one rank.
pub proof fn law_a_master_takes_what_waited_first(
    w: WorkView,
    master: RecordView,
    gone: Seq<char>,
)
    requires
        ({
            let waited = group_or_empty(found(w.fetch.assets, master.record_name));
            let here = group_or_empty(value(w.groups, master.record_name));
            all_due(w.fetch.emitted, w.owners, w.fetch.range, waited + here, 0)
        }),
        w.fetch.range.limit is None,
    ensures
        ({
            let after = master_step(w, master, gone);
            let name = master.record_name;
            let waited = group_or_empty(found(w.fetch.assets, name));
            let here = group_or_empty(value(w.groups, name));
            let both = waited + here;
            &&& after.fetch.offset == w.fetch.offset + 1
            &&& !after.fetch.assets.contains_key(name)
            &&& after.items.len() == w.items.len() + both.len()
            &&& forall|k: int|
                0 <= k < both.len() ==> item_name(#[trigger] after.items[w.items.len() + k])
                    == Some(both[k].record_name)
            &&& found(w.fetch.assets, name) is None && value(w.groups, name) is None
                ==> after.fetch.masters == w.fetch.masters.insert(name, master)
            &&& found(w.fetch.assets, name) is Some || value(w.groups, name) is Some
                ==> after.fetch.masters == w.fetch.masters && (w.fetch.paired.insert(
                name,
                master,
            ).dom().len() <= max_pending(w.fetch.behavior.page_size) ==> after.fetch.paired
                == w.fetch.paired.insert(name, master))
            &&& after.groups.len() == w.groups.len() - if value(w.groups, name) is Some {
                1int
            } else {
                0
            }
            &&& forall|other: Seq<char>|
                other != name ==> #[trigger] value(after.groups, other) == value(w.groups, other)
        }),
{
    reveal(master_step);
    assert forall|other: Seq<char>| other != master.record_name implies #[trigger] value(
        without(w.groups, master.record_name),
        other,
    ) == value(w.groups, other) by {
        lemma_value_without(w.groups, master.record_name, other);
    }
    lemma_place_bounds(w.groups, master.record_name);
    let name = master.record_name;
    let waited = group_or_empty(found(w.fetch.assets, name));
    let here = group_or_empty(value(w.groups, name));
    let both = waited + here;
    let taken = WorkView {
        fetch: FetchView {
            assets: w.fetch.assets.remove(name),
            offset: w.fetch.offset + 1,
            ..w.fetch
        },
        groups: without(w.groups, name),
        ..w
    };
    assert(sending(taken) == sending(w));
    law_siblings_are_handed_on_in_order(sending(w), w.fetch.range, master, both, false, 0);
    let s = send_from(sending(w), w.fetch.range, master, both, false, 0);
    assert forall|k: int| 0 <= k < both.len() implies item_name(#[trigger] s.items[w.items.len()
        + k]) == Some(both[k].record_name) by {
        assert(s.items[sending(w).items.len() + k] is Asset);
    }
    if found(w.fetch.assets, name) is None && value(w.groups, name) is None {
        assert(both.len() == 0);
    }
}

/// Assets whose master is on another page: one that waits for them is met and waits no longer;
/// one that found an asset before is met again, and each asset keeps its own state; else they
/// wait behind those that wait already.
pub proof fn law_assets_meet_masters_of_other_pages(
    w: WorkView,
    name: Seq<char>,
    records: Seq<RecordView>,
    gone: Seq<char>,
)
    requires
        all_due(w.fetch.emitted, w.owners, w.fetch.range, records, 0),
        w.fetch.range.limit is None,
    ensures
        ({
            let after = group_step(w, (name, records), gone);
            let waiting = found(w.fetch.masters, name);
            let paired = found(w.fetch.paired, name);
            &&& after.fetch.offset == w.fetch.offset
            &&& waiting is Some ==> {
                &&& w.fetch.paired.insert(waiting->0.record_name, waiting->0).dom().len()
                    <= max_pending(w.fetch.behavior.page_size) ==> after.fetch.paired
                    == w.fetch.paired.insert(waiting->0.record_name, waiting->0)
                &&& after.fetch.masters == w.fetch.masters.remove(name)
                &&& after.fetch.assets == w.fetch.assets
                &&& after.items.len() == w.items.len() + records.len()
                &&& forall|k: int|
                    0 <= k < records.len() ==> {
                        let item = #[trigger] after.items[w.items.len() + k];
                        &&& item is Asset
                        &&& item->Asset_0.asset_record_name == records[k].record_name
                        &&& item->Asset_0.record_name == waiting->0.record_name
                        &&& item->Asset_0.state_record_name is None <==> k == 0
                    }
            }
            &&& waiting is None && paired is Some ==> {
                &&& after.fetch.masters == w.fetch.masters
                &&& after.fetch.assets == w.fetch.assets
                &&& after.items.len() == w.items.len() + records.len()
                &&& forall|k: int|
                    0 <= k < records.len() ==> {
                        let item = #[trigger] after.items[w.items.len() + k];
                        &&& item is Asset
                        &&& item->Asset_0.asset_record_name == records[k].record_name
                        &&& item->Asset_0.record_name == paired->0.record_name
                        &&& item->Asset_0.state_record_name == Some(records[k].record_name)
                    }
            }
            &&& waiting is None && paired is None ==> {
                &&& after.items == w.items
                &&& after.fetch.masters == w.fetch.masters
                &&& after.fetch.assets.contains_key(name)
                &&& after.fetch.assets[name] == group_or_empty(found(w.fetch.assets, name))
                    + records
            }
        }),
{
    reveal(group_step);
    match (found(w.fetch.masters, name), found(w.fetch.paired, name)) {
        (Some(master), _) => {
            law_siblings_are_handed_on_in_order(
                sending(w),
                w.fetch.range,
                master,
                records,
                false,
                0,
            );
            assert forall|k: int| 0 <= k < records.len() implies {
                let item = #[trigger] group_step(w, (name, records), gone).items[w.items.len() + k];
                &&& item is Asset
                &&& item->Asset_0.asset_record_name == records[k].record_name
                &&& item->Asset_0.record_name == master.record_name
                &&& item->Asset_0.state_record_name is None <==> k == 0
            } by {
                let s = send_from(sending(w), w.fetch.range, master, records, false, 0);
                assert(s.items[sending(w).items.len() + k] is Asset);
            }
        },
        (None, Some(master)) => {
            law_siblings_are_handed_on_in_order(
                sending(w),
                w.fetch.range,
                master,
                records,
                true,
                0,
            );
            assert forall|k: int| 0 <= k < records.len() implies {
                let item = #[trigger] group_step(w, (name, records), gone).items[w.items.len() + k];
                &&& item is Asset
                &&& item->Asset_0.asset_record_name == records[k].record_name
                &&& item->Asset_0.record_name == master.record_name
                &&& item->Asset_0.state_record_name == Some(records[k].record_name)
            } by {
                let s = send_from(sending(w), w.fetch.range, master, records, true, 0);
                assert(s.items[sending(w).items.len() + k] is Asset);
            }
        },
        (None, None) => {},
    }
}

/// The masters of a page are its records of that type, in their order.
pub proof fn law_a_pages_masters_are_its_master_records(records: Seq<RecordView>)
    ensures
        page_masters(records) == records.filter(
            |record: RecordView| record.record_type == "CPLMaster"@,
        ),
    decreases records.len(),
{
    reveal(Seq::filter);
    if records.len() > 0 {
        law_a_pages_masters_are_its_master_records(records.drop_last());
    }
}

/// The assets of a page are its records of that type that name a master, and no other.
pub proof fn law_a_pages_assets_are_counted_once(records: Seq<RecordView>)
    ensures
        total(page_assets(records)) == records.filter(
            |record: RecordView|
                record.record_type == "CPLAsset"@ && text_of(
                    member_of(field(record.fields, "masterRef"@), "recordName"@),
                ) is Some,
        ).len(),
    decreases records.len(),
{
    reveal(Seq::filter);
    if records.len() > 0 {
        law_a_pages_assets_are_counted_once(records.drop_last());
        let record = records.last();
        if let Some(name) = master_ref(record.fields) {
            lemma_total_append(page_assets(records.drop_last()), name, seq![record]);
        }
    }
}

/// What the masters of a page leave alone, and how far they move the range on.
proof fn lemma_masters_leave(w: WorkView, masters: Seq<RecordView>, gone: Seq<Seq<char>>)
    ensures
        ({
            let after = masters_run(w, masters, gone).fetch;
            &&& after.offset == w.fetch.offset + masters.len()
            &&& after.token == w.fetch.token
            &&& after.blank == w.fetch.blank
            &&& after.incomplete == w.fetch.incomplete
            &&& after.stopped == w.fetch.stopped
            &&& after.behavior == w.fetch.behavior
            &&& after.reports_token == w.fetch.reports_token
        }),
    decreases masters.len(),
{
    if masters.len() > 0 {
        lemma_masters_leave(w, masters.drop_last(), gone.drop_last());
        reveal(master_step);
    }
}

/// What the other assets of a page leave alone.
proof fn lemma_groups_leave(
    w: WorkView,
    groups: Seq<(Seq<char>, Seq<RecordView>)>,
    gone: Seq<Seq<char>>,
)
    ensures
        ({
            let after = groups_run(w, groups, gone).fetch;
            &&& after.offset == w.fetch.offset
            &&& after.token == w.fetch.token
            &&& after.blank == w.fetch.blank
            &&& after.incomplete == w.fetch.incomplete
            &&& after.stopped == w.fetch.stopped
            &&& after.behavior == w.fetch.behavior
            &&& after.reports_token == w.fetch.reports_token
        }),
    decreases groups.len(),
{
    if groups.len() > 0 {
        lemma_groups_leave(w, groups.drop_last(), gone.drop_last());
        reveal(group_step);
    }
}

/// A page moves the range on by its masters, one rank each; one without masters by its assets;
/// and one with neither by one.
pub proof fn law_a_page_moves_on_by_its_masters(
    f: FetchView,
    owners: Map<Seq<char>, u64>,
    records: Seq<RecordView>,
    token: Option<Seq<char>>,
    gone: Evictions,
)
    requires
        records.len() > 0,
    ensures
        ({
            let masters = records.filter(
                |record: RecordView| record.record_type == "CPLMaster"@,
            ).len();
            let assets = total(page_assets(records));
            page_taken(f, owners, records, token, gone).fetch.offset == f.offset + if masters > 0 {
                masters as int
            } else if assets > 0 {
                assets
            } else {
                1
            }
        }),
{
    law_a_pages_masters_are_its_master_records(records);
    lemma_total_nonnegative(page_assets(records));
    let f1 = token_noted(f, token);
    let start = opened(f1, owners, records);
    lemma_masters_leave(start, page_masters(records), gone.at_masters);
    let w = masters_run(start, page_masters(records), gone.at_masters);
    lemma_groups_leave(WorkView { groups: Seq::empty(), ..w }, w.groups, gone.at_groups);
}

/// The token of a page replaces the one before it, trimmed of the white space around it. A
/// blank one is noted as seen and replaces nothing, and neither does a page without one.
pub proof fn law_the_latest_token_that_is_not_blank_is_kept(
    f: FetchView,
    owners: Map<Seq<char>, u64>,
    records: Seq<RecordView>,
    token: Option<Seq<char>>,
    gone: Evictions,
)
    ensures
        ({
            let after = page_taken(f, owners, records, token, gone).fetch;
            match token {
                None => after.token == f.token && after.blank == f.blank,
                Some(text) => if trimmed(text).len() > 0 {
                    after.token == Some(trimmed(text)) && after.blank == f.blank
                } else {
                    after.token == f.token && after.blank
                },
            }
        }),
{
    let f1 = token_noted(f, token);
    let start = opened(f1, owners, records);
    lemma_masters_leave(start, page_masters(records), gone.at_masters);
    let w = masters_run(start, page_masters(records), gone.at_masters);
    lemma_groups_leave(WorkView { groups: Seq::empty(), ..w }, w.groups, gone.at_groups);
}

/// An empty page is looked past by a page's ranks, four times in a row; the fifth ends the
/// range. It touches nothing that waits. The end is a failure exactly where a data range that
/// nothing bounds reports its token and empty tails count as failures.
pub proof fn law_empty_pages_are_looked_past(
    f: FetchView,
    owners: Map<Seq<char>, u64>,
    token: Option<Seq<char>>,
    gone: Evictions,
)
    ensures
        ({
            let page = page_taken(f, owners, Seq::empty(), token, gone);
            let last = f.empty_pages + 1 >= 5;
            let fails = f.behavior.treat_empty_tail_as_error && f.range.role
                == FetcherRangeRole::Data && f.range.limit is None && f.range.end == u64::MAX
                && f.reports_token;
            &&& page.finished == last
            &&& page.fetch.empty_pages == f.empty_pages + 1
            &&& page.fetch.offset == if last {
                f.offset
            } else {
                f.offset + f.behavior.page_size
            }
            &&& page.fetch.masters == f.masters
            &&& page.fetch.assets == f.assets
            &&& page.fetch.paired == f.paired
            &&& page.fetch.total_sent == f.total_sent
            &&& page.owners == owners
            &&& page.fetch.incomplete == (f.incomplete || last && fails)
            &&& page.items.len() == if last && fails {
                1int
            } else {
                0
            }
            &&& forall|i: int|
                0 <= i < page.items.len() ==> #[trigger] page.items[i] is Failure
        }),
{
}

/// A page with records ends the range where the caller's limit was met, where more records wait
/// for their other halves than four pages hold, or where it was the fifth page in a row that
/// gave nothing. Only the second is a failure, and it is told of; only a probe for the limit
/// notes that it stopped for it. A page that gave something starts the count of empty ones anew.
pub proof fn law_a_page_ends_as_it_went(w: WorkView)
    requires
        w.fetch.behavior.page_size > 0,
        w.fetch.behavior.page_size * 4 <= usize::MAX,
    ensures
        ({
            let page = closed(w);
            let waiting = w.fetch.masters.dom().len() + assets_waiting(w.fetch.assets);
            let overflows = !w.limit_reached && waiting > w.fetch.behavior.page_size * 4;
            let goes_on = !w.limit_reached && !overflows;
            &&& page.owners == w.owners
            &&& page.fetch.incomplete == (w.fetch.incomplete || overflows)
            &&& w.limit_reached ==> page.finished && page.fetch.stopped == (w.fetch.range.role
                == FetcherRangeRole::LimitProbe)
            &&& !w.limit_reached ==> page.fetch.stopped == w.fetch.stopped
            &&& overflows ==> page.finished && page.items.len() == w.items.len() + 1
                && page.items.last() is Failure && page.items.drop_last() == w.items
            &&& !overflows ==> page.items == w.items
            &&& goes_on && w.sent_any ==> page.fetch.empty_pages == 0 && !page.finished
            &&& goes_on && !w.sent_any ==> page.fetch.empty_pages == w.fetch.empty_pages + 1
                && page.finished == (w.fetch.empty_pages + 1 >= 5)
        }),
{
    let overflows = pending_records(w.fetch) > max_pending(w.fetch.behavior.page_size);
    if !w.limit_reached && overflows {
        assert(closed(w).items.drop_last() =~= w.items);
    }
}

/// A fetcher starts at the first rank of its range and has seen nothing.
pub proof fn law_a_fetcher_starts_at_its_range(
    range: FetcherRange,
    behavior: FetcherBehavior,
    reports_token: bool,
)
    ensures
        ({
            let f = fresh(range, behavior, reports_token);
            &&& f.offset == range.start
            &&& f.range == range
            &&& f.behavior == behavior
            &&& f.reports_token == reports_token
            &&& f.token is None
            &&& !f.blank
            &&& f.masters.dom().len() == 0
            &&& f.assets.dom().len() == 0
            &&& f.paired.dom().len() == 0
            &&& f.emitted.dom().len() == 0
            &&& f.total_sent == 0
            &&& f.empty_pages == 0
            &&& !f.incomplete
            &&& !f.stopped
        }),
{
}

/// A fetcher reports how it ended: incomplete where it failed, or where records stayed unpaired
/// whose other halves no other range can hold and no limit cut it short; else at the caller's
/// limit where it stopped for that; else at the end of the inventory.
pub proof fn law_a_fetcher_reports_how_it_ended(f: FetchView)
    ensures
        ({
            let unpaired = f.masters.dom() != Set::<Seq<char>>::empty() || f.assets.dom()
                != Set::<Seq<char>>::empty();
            let incomplete = f.incomplete || unpaired && !f.stopped
                && !f.behavior.allow_unpaired_at_range_boundary;
            &&& completion_of(f) is Incomplete <==> incomplete
            &&& completion_of(f) == EnumerationCompletion::UserBoundReached <==> !incomplete
                && f.stopped
            &&& completion_of(f) == EnumerationCompletion::ProvenEof <==> !incomplete && !f.stopped
        }),
{
    if f.masters.dom() == Set::<Seq<char>>::empty() {
        assert(f.masters =~= nothing::<RecordView>());
    }
    if f.assets.dom() == Set::<Seq<char>>::empty() {
        assert(f.assets =~= nothing::<Seq<RecordView>>());
    }
    assert(nothing::<RecordView>().dom() =~= Set::<Seq<char>>::empty());
    assert(nothing::<Seq<RecordView>>().dom() =~= Set::<Seq<char>>::empty());
}

/// A fetcher reports the token that it kept; where it saw only blank ones, an empty one if it
/// was told to, and none otherwise.
pub proof fn law_a_fetcher_reports_the_token_it_kept(f: FetchView)
    ensures
        f.token is Some ==> reported_token(f) == f.token,
        f.token is None && f.blank && f.behavior.preserve_blank_sync_tokens_for_diagnostics
            ==> reported_token(f) is Some && reported_token(f)->0.len() == 0,
        f.token is None && !(f.blank && f.behavior.preserve_blank_sync_tokens_for_diagnostics)
            ==> reported_token(f) is None,
{
}

/// The count says that a limit cuts the inventory short exactly where it is known and larger.
pub proof fn law_a_limit_below_the_count_cuts_short(limit: u32, total: u64)
    ensures
        cut_short(Some(limit), Some(total)) <==> total > limit,
        !cut_short(None, Some(total)),
        !cut_short(Some(limit), None),
        !cut_short(None, None),
{
}

/// What is put under a name stands there afterwards, and under every other name stands what
/// stood there before.
pub proof fn law_what_is_put_under_a_name_stands_there<X>(
    s: Seq<(Seq<char>, X)>,
    name: Seq<char>,
    x: X,
    other: Seq<char>,
)
    ensures
        value(put(s, name, x), other) == if other == name {
            Some(x)
        } else {
            value(s, other)
        },
{
    let after = put(s, name, x);
    lemma_place_bounds(s, name);
    lemma_place_is_first(s, name);
    lemma_place_bounds(s, other);
    lemma_place_is_first(s, other);
    if other == name {
        match place(s, name) {
            Some(i) => {
                assert forall|j: int| 0 <= j < i implies (#[trigger] after[j]).0 != name by {
                    assert(after[j] == s[j]);
                }
                lemma_place(after, name, i);
            },
            None => {
                assert forall|j: int| 0 <= j < s.len() implies (#[trigger] after[j]).0 != name by {
                    assert(after[j] == s[j]);
                }
                lemma_place(after, name, s.len() as int);
            },
        }
    } else {
        match place(s, other) {
            Some(i) => {
                assert forall|j: int| 0 <= j < i implies (#[trigger] after[j]).0 != other by {
                    assert(s[j].0 != other);
                    assert(after[j].0 == s[j].0);
                }
                assert(after[i] == s[i]);
                lemma_place(after, other, i);
            },
            None => {
                assert forall|j: int| 0 <= j < after.len() implies (#[trigger] after[j]).0
                    != other by {
                    if j < s.len() {
                        assert(s[j].0 != other);
                        assert(after[j].0 == s[j].0);
                    }
                }
                lemma_no_place(after, other);
            },
        }
    }
}

/// The masters that are remembered are not let grow past their bound: of too many one goes, and
/// no other; up to the bound none does.
pub proof fn law_remembered_masters_are_bounded(
    paired: Map<Seq<char>, RecordView>,
    max_records: int,
    gone: Seq<char>,
)
    requires
        paired.dom().finite(),
        max_records >= 0,
    ensures
        ({
            let kept = pruned(paired, max_records, gone);
            &&& paired.dom().len() <= max_records ==> kept == paired
            &&& paired.dom().len() > max_records ==> kept.dom().len() == paired.dom().len() - 1
            &&& forall|name: Seq<char>| #[trigger]
                kept.contains_key(name) ==> paired.contains_key(name) && kept[name] == paired[name]
        }),
{
    if paired.dom().len() > max_records {
        assert(paired.dom().len() > 0);
        let some = paired.dom().choose();
        assert(paired.dom().contains(some));
        assert(paired.contains_key(some));
    }
}

/// As many records may wait for their other halves as four pages hold, and at least one.
pub proof fn law_four_pages_may_wait(page_size: usize)
    ensures
        page_size > 0 && page_size * 4 <= usize::MAX ==> max_pending(page_size) == page_size
            + page_size + page_size + page_size,
        max_pending(page_size) >= 1,
        page_size <= max_pending(page_size) || page_size == 0,
{
}

/// What is said of an enumeration that stayed incomplete counts the records that it left
/// unpaired: all of them, or the masters and the assets, in this order.
pub proof fn law_what_is_left_unpaired_is_counted(masters: nat, assets: nat)
    ensures
        contains_text(
            overflow_text(masters as int),
            "incomplete: "@ + decimal_text(masters) + " unpaired"@,
        ),
        contains_text(
            unpaired_text(masters as int, assets as int),
            decimal_text(masters) + " unpaired CPLMaster records and "@ + decimal_text(assets)
                + " unpaired CPLAsset records"@,
        ),
{
    reveal_strlit("Photo enumeration is incomplete: ");
    reveal_strlit("incomplete: ");
    reveal_strlit(" unpaired");
    reveal_strlit(" unpaired CPLMaster/CPLAsset records exceeded the pending-pair buffer.");
    reveal_strlit(" unpaired CPLAsset records");
    reveal_strlit(" unpaired CPLAsset records remained at the end of the stream.");
    let over = overflow_text(masters as int);
    let counted = "incomplete: "@ + decimal_text(masters) + " unpaired"@;
    assert(over.subrange(21, 21 + counted.len() as int) =~= counted);
    assert(occurs_at(over, counted, 21));
    let left = unpaired_text(masters as int, assets as int);
    let both = decimal_text(masters) + " unpaired CPLMaster records and "@ + decimal_text(assets)
        + " unpaired CPLAsset records"@;
    assert(left.subrange(33, 33 + both.len() as int) =~= both);
    assert(occurs_at(left, both, 33));
}

/// The assets of a page are grouped by the masters that they name, those of one master in the
/// order in which they came.
pub proof fn law_a_masters_assets_stand_in_their_order(records: Seq<RecordView>, name: Seq<char>)
    ensures
        group_or_empty(value(page_assets(records), name)) == records.filter(
            |record: RecordView|
                record.record_type == "CPLAsset"@ && text_of(
                    member_of(field(record.fields, "masterRef"@), "recordName"@),
                ) == Some(name),
        ),
    decreases records.len(),
{
    reveal(Seq::filter);
    if records.len() > 0 {
        law_a_masters_assets_stand_in_their_order(records.drop_last(), name);
        let before = page_assets(records.drop_last());
        let record = records.last();
        if let Some(master) = master_ref(record.fields) {
            if record.record_type == "CPLAsset"@ {
                let group = group_or_empty(value(before, master));
                assert(append_to(before, master, seq![record]) == put(
                    before,
                    master,
                    group + seq![record],
                )) by {
                    lemma_place_bounds(before, master);
                    assert(Seq::<RecordView>::empty() + seq![record] =~= seq![record]);
                }
                law_what_is_put_under_a_name_stands_there(
                    before,
                    master,
                    group + seq![record],
                    name,
                );
                assert(group + seq![record] =~= group.push(record));
            }
        }
    }
}

} // verus!
