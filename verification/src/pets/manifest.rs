//! What is installed.

use vstd::prelude::*;

use crate::duplicate::Duplicate;
use crate::strmap::StrMap;

verus! {

/// An installed pet.
#[derive(Debug)]
pub struct LocalPetEntry {
    pub slug: String,
    pub display_name: String,
    pub source: String,
    pub installed_at: String,
    pub vibes: Vec<String>,
    pub tags: Vec<String>,
    pub kind: Option<String>,
    pub sprite_ext: String,
    pub file_sizes: StrMap<u64>,
    pub remote_checked_at: Option<String>,
}

/// What a [`LocalPetEntry`] stands for.
#[verifier::ext_equal]
pub struct LocalPetModel {
    pub slug: Seq<char>,
    pub display_name: Seq<char>,
    pub source: Seq<char>,
    pub installed_at: Seq<char>,
    pub vibes: Seq<Seq<char>>,
    pub tags: Seq<Seq<char>>,
    pub kind: Option<Seq<char>>,
    pub sprite_ext: Seq<char>,
    pub file_sizes: Map<Seq<char>, u64>,
    pub remote_checked_at: Option<Seq<char>>,
}

impl DeepView for LocalPetEntry {
    type V = LocalPetModel;

    open spec fn deep_view(&self) -> LocalPetModel {
        LocalPetModel {
            slug: self.slug@,
            display_name: self.display_name@,
            source: self.source@,
            installed_at: self.installed_at@,
            vibes: self.vibes.deep_view(),
            tags: self.tags.deep_view(),
            kind: self.kind.deep_view(),
            sprite_ext: self.sprite_ext@,
            file_sizes: self.file_sizes.deep_view(),
            remote_checked_at: self.remote_checked_at.deep_view(),
        }
    }
}

impl Duplicate for LocalPetEntry {
    fn duplicate(&self) -> (r: Self) {
        LocalPetEntry {
            slug: self.slug.duplicate(),
            display_name: self.display_name.duplicate(),
            source: self.source.duplicate(),
            installed_at: self.installed_at.duplicate(),
            vibes: self.vibes.duplicate(),
            tags: self.tags.duplicate(),
            kind: self.kind.duplicate(),
            sprite_ext: self.sprite_ext.duplicate(),
            file_sizes: self.file_sizes.duplicate(),
            remote_checked_at: self.remote_checked_at.duplicate(),
        }
    }
}

impl Clone for LocalPetEntry {
    fn clone(&self) -> (r: Self)
        ensures
            r.deep_view() == self.deep_view(),
    {
        self.duplicate()
    }
}

/// The installed pets, by slug, and when they were last compared with the remote ones.
#[derive(Debug)]
pub struct LocalManifest {
    pub pets: StrMap<LocalPetEntry>,
    pub last_synced_at: Option<String>,
    pub last_remote_manifest_at: Option<String>,
}

/// What a [`LocalManifest`] stands for.
#[verifier::ext_equal]
pub struct LocalManifestModel {
    pub pets: Map<Seq<char>, LocalPetModel>,
    pub last_synced_at: Option<Seq<char>>,
    pub last_remote_manifest_at: Option<Seq<char>>,
}

impl DeepView for LocalManifest {
    type V = LocalManifestModel;

    open spec fn deep_view(&self) -> LocalManifestModel {
        LocalManifestModel {
            pets: self.pets.deep_view(),
            last_synced_at: self.last_synced_at.deep_view(),
            last_remote_manifest_at: self.last_remote_manifest_at.deep_view(),
        }
    }
}

impl Duplicate for LocalManifest {
    fn duplicate(&self) -> (r: Self) {
        LocalManifest {
            pets: self.pets.duplicate(),
            last_synced_at: self.last_synced_at.duplicate(),
            last_remote_manifest_at: self.last_remote_manifest_at.duplicate(),
        }
    }
}

impl LocalManifestModel {
    /// The manifest with a pet put in at a given time.
    pub open spec fn with_pet(
        self,
        slug: Seq<char>,
        entry: LocalPetModel,
        now: Seq<char>,
    ) -> LocalManifestModel {
        LocalManifestModel {
            pets: self.pets.insert(slug, entry),
            last_synced_at: Some(now),
            ..self
        }
    }

    /// The manifest after a synchronisation that ended at a given time.
    pub open spec fn synced(
        self,
        now: Seq<char>,
        generated_at: Option<Seq<char>>,
    ) -> LocalManifestModel {
        LocalManifestModel {
            last_synced_at: Some(now),
            last_remote_manifest_at: generated_at,
            ..self
        }
    }
}

impl LocalManifest {
    /// A manifest of no pets.
    pub fn empty() -> (r: LocalManifest)
        ensures
            r.deep_view() == (LocalManifestModel {
                pets: Map::empty(),
                last_synced_at: None,
                last_remote_manifest_at: None,
            }),
    {
        LocalManifest { pets: StrMap::new(), last_synced_at: None, last_remote_manifest_at: None }
    }

    /// Puts a pet in, at a given time.
    pub fn put_pet(&mut self, slug: String, entry: LocalPetEntry, now: &str)
        ensures
            final(self).deep_view() == old(self).deep_view().with_pet(
                slug@,
                entry.deep_view(),
                now@,
            ),
            final(self).deep_view().pets == old(self).deep_view().pets.insert(
                slug@,
                entry.deep_view(),
            ),
    {
        self.pets.insert(slug, entry);
        self.last_synced_at = Some(now.to_owned());
    }

    /// Notes the end of a synchronisation.
    pub fn note_sync(&mut self, now: &str, generated_at: &Option<String>)
        ensures
            final(self).deep_view() == old(self).deep_view().synced(now@, generated_at.deep_view()),
    {
        self.last_synced_at = Some(now.to_owned());
        self.last_remote_manifest_at = generated_at.duplicate();
    }

    /// Notes the remote manifest that the installed pets were compared with.
    pub fn note_remote(&mut self, generated_at: &Option<String>)
        ensures
            final(self).deep_view() == (LocalManifestModel {
                last_remote_manifest_at: generated_at.deep_view(),
                ..old(self).deep_view()
            }),
    {
        self.last_remote_manifest_at = generated_at.duplicate();
    }
}

/// A model of an installed pet has its fields, each as it is.
pub proof fn local_pet_entry_is_modelled_by_its_fields(x: LocalPetEntry)
    ensures
        x.deep_view().slug == x.slug@,
        x.deep_view().display_name == x.display_name@,
        x.deep_view().source == x.source@,
        x.deep_view().installed_at == x.installed_at@,
        x.deep_view().vibes == x.vibes.deep_view(),
        x.deep_view().tags == x.tags.deep_view(),
        x.deep_view().kind == x.kind.deep_view(),
        x.deep_view().sprite_ext == x.sprite_ext@,
        x.deep_view().file_sizes == x.file_sizes.deep_view(),
        x.deep_view().remote_checked_at == x.remote_checked_at.deep_view(),
{
}

/// A model of a local manifest has its fields, each as it is.
pub proof fn local_manifest_is_modelled_by_its_fields(x: LocalManifest)
    ensures
        x.deep_view().pets == x.pets.deep_view(),
        x.deep_view().last_synced_at == x.last_synced_at.deep_view(),
        x.deep_view().last_remote_manifest_at == x.last_remote_manifest_at.deep_view(),
{
}

/// A pet that is put in is in the manifest as it was given, whether or not one with its slug was
/// there before; the time is noted, and no other pet is touched.
pub proof fn put_pet_replaces_its_entry(
    m: LocalManifestModel,
    slug: Seq<char>,
    entry: LocalPetModel,
    now: Seq<char>,
    other: Seq<char>,
)
    ensures
        m.with_pet(slug, entry, now).pets.contains_key(slug),
        m.with_pet(slug, entry, now).pets[slug] == entry,
        other != slug ==> m.with_pet(slug, entry, now).pets.contains_key(other)
            == m.pets.contains_key(other),
        other != slug && m.pets.contains_key(other) ==> m.with_pet(slug, entry, now).pets[other]
            == m.pets[other],
        m.with_pet(slug, entry, now).last_synced_at == Some(now),
        m.with_pet(slug, entry, now).last_remote_manifest_at == m.last_remote_manifest_at,
{
}

/// Putting a pet in twice leaves the later entry.
pub proof fn the_later_entry_stays(
    m: LocalManifestModel,
    slug: Seq<char>,
    first: LocalPetModel,
    second: LocalPetModel,
    now: Seq<char>,
    later: Seq<char>,
)
    ensures
        m.with_pet(slug, first, now).with_pet(slug, second, later) == m.with_pet(
            slug,
            second,
            later,
        ),
{
    assert(m.pets.insert(slug, first).insert(slug, second) =~= m.pets.insert(slug, second));
}

/// The end of a synchronisation is noted with its time and the date of the remote manifest, and
/// touches no pet.
pub proof fn sync_is_noted(
    m: LocalManifestModel,
    now: Seq<char>,
    generated_at: Option<Seq<char>>,
)
    ensures
        m.synced(now, generated_at).pets == m.pets,
        m.synced(now, generated_at).last_synced_at == Some(now),
        m.synced(now, generated_at).last_remote_manifest_at == generated_at,
{
}

} // verus!
