//! Apple's built-in smart albums. Every account has them; the server fills them by a query
//! rather than by a list of members.
use crate::album::{
    build_condition, condition, law_a_condition_says_what_it_was_made_of, says,
};
use crate::json::{lemma_list_views, list_views, Json, JsonView};
use vstd::prelude::*;

verus! {

/// The list query of the albums that are told apart by a filter on `smartAlbum`.
pub const SMART_ALBUM_LIST: &'static str = "CPLAssetAndMasterInSmartAlbumByAssetDate";

/// How a smart folder is asked for.
#[derive(Debug)]
pub struct FolderDef {
    pub obj_type: &'static str,
    pub list_type: &'static str,
    pub query_filter: Option<Json>,
    /// Whether the Photos app keeps the folder behind a separate screen. Asking for all smart
    /// folders leaves such a folder out unless the sensitive ones are asked for too.
    pub is_sensitive: bool,
}

/// A [`FolderDef`] with its texts taken by their characters.
pub struct FolderDefView {
    pub obj_type: Seq<char>,
    pub list_type: Seq<char>,
    pub query_filter: Option<JsonView>,
    pub is_sensitive: bool,
}

impl View for FolderDef {
    type V = FolderDefView;

    open spec fn view(&self) -> FolderDefView {
        FolderDefView {
            obj_type: self.obj_type@,
            list_type: self.list_type@,
            query_filter: match self.query_filter {
                Some(filter) => Some(filter@),
                None => None,
            },
            is_sensitive: self.is_sensitive,
        }
    }
}

/// The views of a list of named folders.
pub open spec fn folder_views(folders: Seq<(&'static str, FolderDef)>) -> Seq<
    (Seq<char>, FolderDefView),
> {
    folders.map_values(|f: (&'static str, FolderDef)| (f.0@, f.1@))
}

/// The filter that a field equals a text.
pub open spec fn equals_filter(field_name: Seq<char>, value: Seq<char>) -> JsonView {
    JsonView::List(
        seq![condition(field_name, "STRING"@, JsonView::Text(value), "EQUALS"@)],
    )
}

/// A folder that is told apart by a filter on `smartAlbum`.
pub open spec fn filtered_folder(obj_type: Seq<char>, album: Seq<char>) -> FolderDefView {
    FolderDefView {
        obj_type,
        list_type: SMART_ALBUM_LIST@,
        query_filter: Some(equals_filter("smartAlbum"@, album)),
        is_sensitive: false,
    }
}

/// A folder that has queries of its own.
pub open spec fn plain_folder(
    obj_type: Seq<char>,
    list_type: Seq<char>,
    is_sensitive: bool,
) -> FolderDefView {
    FolderDefView { obj_type, list_type, query_filter: None, is_sensitive }
}

/// Every smart folder, by name.
pub open spec fn all_smart_folders() -> Seq<(Seq<char>, FolderDefView)> {
    seq![
        (
            "Time-lapse"@,
            filtered_folder("CPLAssetInSmartAlbumByAssetDate:Timelapse"@, "TIMELAPSE"@),
        ),
        ("Videos"@, filtered_folder("CPLAssetInSmartAlbumByAssetDate:Video"@, "VIDEO"@)),
        ("Slo-mo"@, filtered_folder("CPLAssetInSmartAlbumByAssetDate:Slomo"@, "SLOMO"@)),
        (
            "Bursts"@,
            plain_folder(
                "CPLAssetBurstStackAssetByAssetDate"@,
                "CPLBurstStackAssetAndMasterByAssetDate"@,
                false,
            ),
        ),
        ("Favorites"@, filtered_folder("CPLAssetInSmartAlbumByAssetDate:Favorite"@, "FAVORITE"@)),
        ("Panoramas"@, filtered_folder("CPLAssetInSmartAlbumByAssetDate:Panorama"@, "PANORAMA"@)),
        (
            "Screenshots"@,
            filtered_folder("CPLAssetInSmartAlbumByAssetDate:Screenshot"@, "SCREENSHOT"@),
        ),
        ("Live"@, filtered_folder("CPLAssetInSmartAlbumByAssetDate:Live"@, "LIVE"@)),
        (
            "Recently Deleted"@,
            plain_folder(
                "CPLAssetDeletedByExpungedDate"@,
                "CPLAssetAndMasterDeletedByExpungedDate"@,
                true,
            ),
        ),
        (
            "Hidden"@,
            plain_folder(
                "CPLAssetHiddenByAssetDate"@,
                "CPLAssetAndMasterHiddenByAssetDate"@,
                true,
            ),
        ),
    ]
}

/// The names of the folders.
pub open spec fn folder_names(folders: Seq<(Seq<char>, FolderDefView)>) -> Seq<Seq<char>> {
    folders.map_values(|f: (Seq<char>, FolderDefView)| f.0)
}

/// The folders that the Photos app keeps behind a separate screen.
pub open spec fn sensitive_folders(folders: Seq<(Seq<char>, FolderDefView)>) -> Seq<
    (Seq<char>, FolderDefView),
>
    decreases folders.len(),
{
    if folders.len() == 0 {
        Seq::empty()
    } else if folders.last().1.is_sensitive {
        sensitive_folders(folders.drop_last()).push(folders.last())
    } else {
        sensitive_folders(folders.drop_last())
    }
}

/// The filter that a field equals a text.
pub fn smart_folder_filter(field: &str, value: &str) -> (filter: Json)
    ensures
        filter@ == equals_filter(field@, value@),
{
    let one = build_condition(field, "STRING", Json::text(value), "EQUALS");
    let list = vec![one];
    proof {
        lemma_list_views(list@);
        assert(list_views(list@) =~= seq![one@]);
    }
    Json::list(list)
}

/// A folder that is told apart by a filter on `smartAlbum`.
fn filtered(obj_type: &'static str, album: &str) -> (def: FolderDef)
    ensures
        def@ == filtered_folder(obj_type@, album@),
{
    FolderDef {
        obj_type,
        list_type: SMART_ALBUM_LIST,
        query_filter: Some(smart_folder_filter("smartAlbum", album)),
        is_sensitive: false,
    }
}

/// A folder that has queries of its own.
fn plain(obj_type: &'static str, list_type: &'static str, is_sensitive: bool) -> (def: FolderDef)
    ensures
        def@ == plain_folder(obj_type@, list_type@, is_sensitive),
{
    FolderDef { obj_type, list_type, query_filter: None, is_sensitive }
}

/// Every smart folder, by name.
pub fn smart_folders() -> (folders: Vec<(&'static str, FolderDef)>)
    ensures
        folder_views(folders@) == all_smart_folders(),
{
    let folders = vec![
        ("Time-lapse", filtered("CPLAssetInSmartAlbumByAssetDate:Timelapse", "TIMELAPSE")),
        ("Videos", filtered("CPLAssetInSmartAlbumByAssetDate:Video", "VIDEO")),
        ("Slo-mo", filtered("CPLAssetInSmartAlbumByAssetDate:Slomo", "SLOMO")),
        (
            "Bursts",
            plain(
                "CPLAssetBurstStackAssetByAssetDate",
                "CPLBurstStackAssetAndMasterByAssetDate",
                false,
            ),
        ),
        ("Favorites", filtered("CPLAssetInSmartAlbumByAssetDate:Favorite", "FAVORITE")),
        ("Panoramas", filtered("CPLAssetInSmartAlbumByAssetDate:Panorama", "PANORAMA")),
        ("Screenshots", filtered("CPLAssetInSmartAlbumByAssetDate:Screenshot", "SCREENSHOT")),
        ("Live", filtered("CPLAssetInSmartAlbumByAssetDate:Live", "LIVE")),
        (
            "Recently Deleted",
            plain(
                "CPLAssetDeletedByExpungedDate",
                "CPLAssetAndMasterDeletedByExpungedDate",
                true,
            ),
        ),
        (
            "Hidden",
            plain("CPLAssetHiddenByAssetDate", "CPLAssetAndMasterHiddenByAssetDate", true),
        ),
    ];
    assert(folder_views(folders@) =~= all_smart_folders());
    folders
}

/// The views of a list of names.
pub open spec fn name_views(names: Seq<&'static str>) -> Seq<Seq<char>> {
    names.map_values(|name: &'static str| name@)
}

/// The name of every smart folder.
pub fn smart_folder_names() -> (names: Vec<&'static str>)
    ensures
        name_views(names@) == folder_names(all_smart_folders()),
{
    let folders = smart_folders();
    let mut names: Vec<&'static str> = Vec::new();
    let mut i: usize = 0;
    while i < folders.len()
        invariant
            i <= folders@.len(),
            name_views(names@) =~= folder_names(folder_views(folders@)).take(i as int),
        decreases folders@.len() - i,
    {
        let ghost before = name_views(names@);
        names.push(folders[i].0);
        assert(name_views(names@) =~= before.push(folders@[i as int].0@));
        i = i + 1;
    }
    proof {
        let all = folder_names(folder_views(folders@));
        assert(all.take(i as int) =~= all);
    }
    names
}

/// The names of the smart folders that the Photos app keeps behind a separate screen.
pub fn sensitive_smart_folder_names() -> (names: Vec<&'static str>)
    ensures
        name_views(names@) == folder_names(sensitive_folders(all_smart_folders())),
{
    let folders = smart_folders();
    let mut names: Vec<&'static str> = Vec::new();
    let mut i: usize = 0;
    let ghost all = folder_views(folders@);
    while i < folders.len()
        invariant
            i <= folders@.len(),
            all == folder_views(folders@),
            name_views(names@) =~= folder_names(sensitive_folders(all.take(i as int))),
        decreases folders@.len() - i,
    {
        let ghost before = name_views(names@);
        proof {
            assert(all.take(i + 1).drop_last() =~= all.take(i as int));
            assert(all.take(i + 1).last() == all[i as int]);
        }
        if folders[i].1.is_sensitive {
            names.push(folders[i].0);
            assert(name_views(names@) =~= before.push(folders@[i as int].0@));
        }
        i = i + 1;
    }
    proof {
        assert(all.take(i as int) =~= all);
    }
    names
}

/// No two smart folders have the same name.
pub proof fn law_smart_folder_names_are_distinct(i: int, j: int)
    requires
        0 <= i < j < all_smart_folders().len(),
    ensures
        all_smart_folders()[i].0 != all_smart_folders()[j].0,
{
    reveal_strlit("Time-lapse");
    reveal_strlit("Videos");
    reveal_strlit("Slo-mo");
    reveal_strlit("Bursts");
    reveal_strlit("Favorites");
    reveal_strlit("Panoramas");
    reveal_strlit("Screenshots");
    reveal_strlit("Live");
    reveal_strlit("Recently Deleted");
    reveal_strlit("Hidden");
    let all = all_smart_folders();
    assert(all[0].0 == "Time-lapse"@);
    assert(all[1].0 == "Videos"@);
    assert(all[2].0 == "Slo-mo"@);
    assert(all[3].0 == "Bursts"@);
    assert(all[4].0 == "Favorites"@);
    assert(all[5].0 == "Panoramas"@);
    assert(all[6].0 == "Screenshots"@);
    assert(all[7].0 == "Live"@);
    assert(all[8].0 == "Recently Deleted"@);
    assert(all[9].0 == "Hidden"@);
    assert("Videos"@[0] == 'V');
    assert("Slo-mo"@[0] == 'S');
    assert("Bursts"@[0] == 'B');
    assert("Hidden"@[0] == 'H');
    assert("Favorites"@[0] == 'F');
    assert("Panoramas"@[0] == 'P');
}

/// A filter that a field equals a text is one condition, which says so.
pub proof fn law_an_equals_filter_says_one_thing(field_name: Seq<char>, value: Seq<char>)
    ensures
        ({
            let filter = equals_filter(field_name, value);
            &&& filter is List
            &&& filter->List_0.len() == 1
            &&& says(
                filter->List_0[0],
                field_name,
                "STRING"@,
                JsonView::Text(value),
                "EQUALS"@,
            )
        }),
{
    law_a_condition_says_what_it_was_made_of(
        field_name,
        "STRING"@,
        JsonView::Text(value),
        "EQUALS"@,
    );
}

/// Exactly what was deleted and what is hidden is kept behind a separate screen. Those two and
/// the bursts have queries of their own; every other smart folder is told apart by a filter on
/// the smart album, and counted by an index of the same name.
pub proof fn law_deleted_and_hidden_are_sensitive(i: int)
    requires
        0 <= i < all_smart_folders().len(),
    ensures
        ({
            let (name, def) = all_smart_folders()[i];
            let own = name == "Recently Deleted"@ || name == "Hidden"@ || name == "Bursts"@;
            &&& all_smart_folders().len() == 10
            &&& def.is_sensitive <==> name == "Recently Deleted"@ || name == "Hidden"@
            &&& def.query_filter is None <==> own
            &&& def.query_filter is Some ==> def.list_type
                == "CPLAssetAndMasterInSmartAlbumByAssetDate"@
            &&& name == "Recently Deleted"@ ==> def.list_type
                == "CPLAssetAndMasterDeletedByExpungedDate"@ && def.obj_type
                == "CPLAssetDeletedByExpungedDate"@
            &&& name == "Hidden"@ ==> def.list_type == "CPLAssetAndMasterHiddenByAssetDate"@
                && def.obj_type == "CPLAssetHiddenByAssetDate"@
            &&& name == "Bursts"@ ==> def.list_type == "CPLBurstStackAssetAndMasterByAssetDate"@
                && def.obj_type == "CPLAssetBurstStackAssetByAssetDate"@
        }),
{
    law_smart_folder_names_are_distinct(3, 8);
    law_smart_folder_names_are_distinct(3, 9);
    law_smart_folder_names_are_distinct(8, 9);
    if i != 3 {
        law_smart_folder_names_are_distinct(if i < 3 { i } else { 3 }, if i < 3 { 3 } else { i });
    }
    if i != 8 {
        law_smart_folder_names_are_distinct(if i < 8 { i } else { 8 }, if i < 8 { 8 } else { i });
    }
    if i != 9 {
        law_smart_folder_names_are_distinct(i, 9);
    }
}

/// Every smart folder that goes by a filter asks for the album of its own kind.
pub proof fn law_smart_folders_ask_for_their_own_kind(i: int)
    requires
        0 <= i < all_smart_folders().len(),
        all_smart_folders()[i].1.query_filter is Some,
    ensures
        ({
            let (name, def) = all_smart_folders()[i];
            let (kind, index) = if name == "Time-lapse"@ {
                ("TIMELAPSE"@, "CPLAssetInSmartAlbumByAssetDate:Timelapse"@)
            } else if name == "Videos"@ {
                ("VIDEO"@, "CPLAssetInSmartAlbumByAssetDate:Video"@)
            } else if name == "Slo-mo"@ {
                ("SLOMO"@, "CPLAssetInSmartAlbumByAssetDate:Slomo"@)
            } else if name == "Favorites"@ {
                ("FAVORITE"@, "CPLAssetInSmartAlbumByAssetDate:Favorite"@)
            } else if name == "Panoramas"@ {
                ("PANORAMA"@, "CPLAssetInSmartAlbumByAssetDate:Panorama"@)
            } else if name == "Screenshots"@ {
                ("SCREENSHOT"@, "CPLAssetInSmartAlbumByAssetDate:Screenshot"@)
            } else {
                ("LIVE"@, "CPLAssetInSmartAlbumByAssetDate:Live"@)
            };
            let filter = def.query_filter->0;
            &&& def.obj_type == index
            &&& filter is List
            &&& filter->List_0.len() == 1
            &&& says(
                filter->List_0[0],
                "smartAlbum"@,
                "STRING"@,
                JsonView::Text(kind),
                "EQUALS"@,
            )
        }),
{
    assert forall|j: int, k: int| 0 <= j < k < 10 implies (#[trigger] all_smart_folders()[j]).0 != (
    #[trigger] all_smart_folders()[k]).0 by {
        law_smart_folder_names_are_distinct(j, k);
    }
    assert(all_smart_folders()[0].0 == "Time-lapse"@);
    assert(all_smart_folders()[1].0 == "Videos"@);
    assert(all_smart_folders()[2].0 == "Slo-mo"@);
    assert(all_smart_folders()[4].0 == "Favorites"@);
    assert(all_smart_folders()[5].0 == "Panoramas"@);
    assert(all_smart_folders()[6].0 == "Screenshots"@);
    assert(all_smart_folders()[7].0 == "Live"@);
    law_an_equals_filter_says_one_thing("smartAlbum"@, "TIMELAPSE"@);
    law_an_equals_filter_says_one_thing("smartAlbum"@, "VIDEO"@);
    law_an_equals_filter_says_one_thing("smartAlbum"@, "SLOMO"@);
    law_an_equals_filter_says_one_thing("smartAlbum"@, "FAVORITE"@);
    law_an_equals_filter_says_one_thing("smartAlbum"@, "PANORAMA"@);
    law_an_equals_filter_says_one_thing("smartAlbum"@, "SCREENSHOT"@);
    law_an_equals_filter_says_one_thing("smartAlbum"@, "LIVE"@);
}

/// The sensitive folders of a list are those that are marked so, in their order.
pub proof fn law_sensitive_folders_are_the_marked_ones(folders: Seq<(Seq<char>, FolderDefView)>)
    ensures
        sensitive_folders(folders) == folders.filter(
            |f: (Seq<char>, FolderDefView)| f.1.is_sensitive,
        ),
    decreases folders.len(),
{
    reveal(Seq::filter);
    if folders.len() > 0 {
        law_sensitive_folders_are_the_marked_ones(folders.drop_last());
    }
}

} // verus!
