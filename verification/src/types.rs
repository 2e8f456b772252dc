//! Kinds of assets, of downloadable versions and of changes.
use vstd::prelude::*;

verus! {

/// `String::into_boxed_str`: the same text without spare capacity.
pub assume_specification[ String::into_boxed_str ](s: String) -> (b: Box<str>)
    ensures
        b@ == s@,
;

/// A copy of a text, boxed.
pub fn boxed(s: &str) -> (b: Box<str>)
    ensures
        b@ == s@,
{
    s.to_owned().into_boxed_str()
}

/// The view of an optional boxed text.
pub open spec fn boxed_view(s: Option<Box<str>>) -> Option<Seq<char>> {
    match s {
        Some(s) => Some(s@),
        None => None,
    }
}

/// What an asset is at its core.
#[derive(Clone, Copy, Debug, PartialEq, Eq, Hash, Structural)]
pub enum AssetItemType {
    Image,
    Movie,
}

/// The renditions of an asset that can be downloaded.
#[derive(Clone, Copy, Debug, PartialEq, Eq, Hash, Structural)]
pub enum AssetVersionSize {
    Original,
    Alternative,
    Medium,
    Thumb,
    Adjusted,
    LiveOriginal,
    LiveMedium,
    LiveThumb,
    LiveAdjusted,
}

/// Why a record appears in the change feed.
#[derive(Clone, Copy, Debug, PartialEq, Eq, Hash, Structural)]
pub enum ChangeReason {
    /// New, modified, restored or unhidden: only the state database can tell.
    Created,
    /// In the trash, recoverable.
    SoftDeleted,
    /// Purged.
    HardDeleted,
    Hidden,
}

/// Information about a downloadable asset version.
#[derive(Debug, PartialEq, Eq)]
pub struct AssetVersion {
    pub size: u64,
    pub url: Box<str>,
    pub asset_type: Box<str>,
    pub checksum: Box<str>,
}

/// An [`AssetVersion`] with its texts taken by their characters.
#[verifier::ext_equal]
pub struct AssetVersionView {
    pub size: u64,
    pub url: Seq<char>,
    pub asset_type: Seq<char>,
    pub checksum: Seq<char>,
}

impl View for AssetVersion {
    type V = AssetVersionView;

    open spec fn view(&self) -> AssetVersionView {
        AssetVersionView {
            size: self.size,
            url: self.url@,
            asset_type: self.asset_type@,
            checksum: self.checksum@,
        }
    }
}

impl Clone for AssetVersion {
    fn clone(&self) -> (copy: Self)
        ensures
            copy@ == self@,
    {
        AssetVersion {
            size: self.size,
            url: boxed(&self.url),
            asset_type: boxed(&self.asset_type),
            checksum: boxed(&self.checksum),
        }
    }
}

} // verus!
