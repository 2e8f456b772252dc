//! The downloadable versions of an asset: a `SmallVec` of the `smallvec` crate, which keeps
//! the usual few of them without an allocation.
use crate::types::{AssetVersion, AssetVersionSize, AssetVersionView};
use smallvec::SmallVec;
use vstd::prelude::*;

verus! {

/// A `SmallVec` of an asset's versions, in the order in which they were found; up to four of
/// them stand in place.
#[verifier::external_body]
#[derive(Debug)]
pub struct VersionsMap {
    items: SmallVec<[(AssetVersionSize, AssetVersion); 4]>,
}

/// What a [`VersionsMap`] holds.
pub uninterp spec fn versions_held(versions: VersionsMap) -> Seq<(AssetVersionSize, AssetVersion)>;

impl View for VersionsMap {
    type V = Seq<(AssetVersionSize, AssetVersionView)>;

    open spec fn view(&self) -> Seq<(AssetVersionSize, AssetVersionView)> {
        versions_held(*self).map_values(
            |v: (AssetVersionSize, AssetVersion)| (v.0, v.1@),
        )
    }
}

/// `SmallVec::new`: nothing is held.
#[verifier::external_body]
fn no_versions() -> (versions: VersionsMap)
    ensures
        versions_held(versions).len() == 0,
{
    VersionsMap { items: SmallVec::new() }
}

/// `SmallVec::push`: one more is held, behind the others.
#[verifier::external_body]
fn push_version(versions: &mut VersionsMap, size: AssetVersionSize, version: AssetVersion)
    ensures
        versions_held(*final(versions)) == versions_held(*old(versions)).push((size, version)),
{
    versions.items.push((size, version));
}

/// `SmallVec::len`: how many are held.
#[verifier::external_body]
fn count_versions(versions: &VersionsMap) -> (n: usize)
    ensures
        n == versions_held(*versions).len(),
{
    versions.items.len()
}

/// Indexing a `SmallVec`: the one held at a place.
#[verifier::external_body]
fn version_at(versions: &VersionsMap, i: usize) -> (item: &(AssetVersionSize, AssetVersion))
    requires
        i < versions_held(*versions).len(),
    ensures
        *item == versions_held(*versions)[i as int],
{
    &versions.items[i]
}

/// The version of a size among those held: the first, where there are several.
pub open spec fn version_of_size(
    versions: Seq<(AssetVersionSize, AssetVersionView)>,
    size: AssetVersionSize,
) -> Option<AssetVersionView>
    decreases versions.len(),
{
    if versions.len() == 0 {
        None
    } else if versions[0].0 == size {
        Some(versions[0].1)
    } else {
        version_of_size(versions.drop_first(), size)
    }
}

impl VersionsMap {
    /// No versions.
    pub fn new() -> (versions: Self)
        ensures
            versions@ == Seq::<(AssetVersionSize, AssetVersionView)>::empty(),
    {
        let versions = no_versions();
        assert(versions@ =~= Seq::empty());
        versions
    }

    /// Add a version behind the others.
    pub fn push(&mut self, size: AssetVersionSize, version: AssetVersion)
        ensures
            final(self)@ == old(self)@.push((size, version@)),
    {
        let ghost before = self@;
        let ghost added = version@;
        push_version(self, size, version);
        assert(self@ =~= before.push((size, added)));
    }

    /// How many versions there are.
    pub fn len(&self) -> (n: usize)
        ensures
            n == self@.len(),
    {
        count_versions(self)
    }

    /// Whether there are none.
    pub fn is_empty(&self) -> (empty: bool)
        ensures
            empty == (self@.len() == 0),
    {
        count_versions(self) == 0
    }

    /// The version at a place.
    pub fn at(&self, i: usize) -> (item: &(AssetVersionSize, AssetVersion))
        requires
            i < self@.len(),
        ensures
            (item.0, item.1@) == self@[i as int],
    {
        version_at(self, i)
    }

    /// The version of a size.
    pub fn get(&self, size: AssetVersionSize) -> (version: Option<&AssetVersion>)
        ensures
            match version {
                Some(version) => version_of_size(self@, size) == Some(version@),
                None => version_of_size(self@, size) is None,
            },
    {
        let mut i: usize = 0;
        proof {
            assert(self@.skip(0) =~= self@);
        }
        while i < self.len()
            invariant
                i <= self@.len(),
                version_of_size(self@, size) == version_of_size(self@.skip(i as int), size),
            decreases self@.len() - i,
        {
            let item = self.at(i);
            proof {
                assert(self@.skip(i as int)[0] == self@[i as int]);
                assert(self@.skip(i as int).drop_first() =~= self@.skip(i + 1));
            }
            if item.0 == size {
                return Some(&item.1);
            }
            i = i + 1;
        }
        None
    }
}

/// The version of a size is the first that has the size, and there is none where none has it.
pub proof fn law_the_version_of_a_size_is_found(
    versions: Seq<(AssetVersionSize, AssetVersionView)>,
    size: AssetVersionSize,
    i: int,
)
    requires
        0 <= i <= versions.len(),
        forall|j: int| 0 <= j < i ==> (#[trigger] versions[j]).0 != size,
    ensures
        i < versions.len() && versions[i].0 == size ==> version_of_size(versions, size) == Some(
            versions[i].1,
        ),
        i == versions.len() ==> version_of_size(versions, size) is None,
    decreases i,
{
    if i > 0 {
        assert(versions[0].0 != size);
        let rest = versions.drop_first();
        assert forall|j: int| 0 <= j < i - 1 implies (#[trigger] rest[j]).0 != size by {
            assert(rest[j] == versions[j + 1]);
        }
        law_the_version_of_a_size_is_found(rest, size, i - 1);
    }
}

} // verus!
