//! What is remembered between commands: the active pet, the remote manifest that was seen last,
//! and how pets are displayed.

use vstd::prelude::*;
use vstd::utf8::*;

use crate::duplicate::Duplicate;
use crate::json::{is_utf8_text, object_text, read_text, reads_back, text_field, valid_json};
use crate::json::{write_object, JsonField, JsonFieldModel};
use crate::pets::download::RemoteManifest;
use crate::pets::install::{diff, is_difference, DiffReport, LocalIndex};
use crate::pets::manifest::{LocalManifest, LocalManifestModel};
use crate::text::join;

verus! {

/// The name of the file that holds how pets are displayed.
pub const DISPLAY_PREFS_FILE: &'static str = "display_prefs.json";

/// The name of the file that holds the active pet.
pub const ACTIVE_FILE: &'static str = "active.json";

// ---------------------------------------------------------------------------------------------
// How pets are displayed
// ---------------------------------------------------------------------------------------------

/// A JSON object, opaque.
#[verifier::external_type_specification]
#[verifier::external_body]
#[verifier::reject_recursive_types(K)]
#[verifier::reject_recursive_types(V)]
pub struct ExJsonObject<K, V>(serde_json::Map<K, V>);

/// A JSON value, opaque.
#[verifier::external_type_specification]
#[verifier::external_body]
pub struct ExJsonValue(serde_json::Value);

/// The keys of a JSON object.
pub uninterp spec fn object_keys(
    object: serde_json::Map<String, serde_json::Value>,
) -> Set<Seq<char>>;

/// `serde_json::Map::new`: an object without keys.
#[verifier::external_body]
fn empty_object() -> (r: serde_json::Map<String, serde_json::Value>)
    ensures
        object_keys(r) == Set::<Seq<char>>::empty(),
{
    serde_json::Map::new()
}

/// `Clone` of a `serde_json::Map`: the copy equals the object.
#[verifier::external_body]
fn copy_object(
    object: &serde_json::Map<String, serde_json::Value>,
) -> (r: serde_json::Map<String, serde_json::Value>)
    ensures
        r == *object,
{
    object.clone()
}

/// How pets are displayed.
#[derive(Debug)]
pub struct DisplayPrefs {
    pub enabled: bool,
    pub motion_enabled: bool,
    pub default_state: String,
    pub event_overrides: serde_json::Map<String, serde_json::Value>,
}

impl Clone for DisplayPrefs {
    fn clone(&self) -> (r: Self)
        ensures
            r == *self,
    {
        DisplayPrefs {
            enabled: self.enabled,
            motion_enabled: self.motion_enabled,
            default_state: self.default_state.clone(),
            event_overrides: copy_object(&self.event_overrides),
        }
    }
}

/// Pets are displayed as they are where nothing else was chosen.
pub open spec fn is_default_display(prefs: DisplayPrefs) -> bool {
    &&& prefs.enabled
    &&& prefs.motion_enabled
    &&& prefs.default_state@ == "idle"@
    &&& object_keys(prefs.event_overrides) == Set::<Seq<char>>::empty()
}

impl Default for DisplayPrefs {
    fn default() -> (r: Self)
        ensures
            is_default_display(r),
    {
        DisplayPrefs {
            enabled: true,
            motion_enabled: true,
            default_state: "idle".to_owned(),
            event_overrides: empty_object(),
        }
    }
}

/// The stored preferences, or the default where there are none or they cannot be read.
pub fn prefs_or_default(stored: Option<DisplayPrefs>) -> (r: DisplayPrefs)
    ensures
        match stored {
            Some(prefs) => r == prefs,
            None => is_default_display(r),
        },
{
    match stored {
        Some(prefs) => prefs,
        None => DisplayPrefs::default(),
    }
}

// ---------------------------------------------------------------------------------------------
// The active pet
// ---------------------------------------------------------------------------------------------

/// The choice of the active pet, as it is stored.
#[derive(Debug)]
pub struct ActivePref {
    pub slug: String,
}

impl Clone for ActivePref {
    fn clone(&self) -> (r: Self)
        ensures
            r.slug@ == self.slug@,
    {
        ActivePref { slug: self.slug.duplicate() }
    }
}

/// The members of the document that holds the active pet.
pub open spec fn active_fields(slug: Seq<char>) -> Seq<(Seq<char>, JsonFieldModel)> {
    seq![("slug"@, JsonFieldModel::Text(slug))]
}

/// The active pet that a stored text tells of; none where it is no JSON object with a slug.
pub open spec fn active_of(raw: Option<Seq<char>>) -> Option<Seq<char>> {
    match raw {
        Some(text) => text_field(encode_utf8(text), "slug"@),
        None => None,
    }
}

/// Reads the active pet from a stored text, where there is one.
pub fn read_active(raw: &Option<String>) -> (r: Option<String>)
    ensures
        r.deep_view() == active_of(raw.deep_view()),
{
    match raw {
        Some(text) => read_text(text.as_str().as_bytes(), "slug"),
        None => None,
    }
}

/// The document that stores the active pet. It is a text, and whoever reads that text finds the
/// pet.
pub fn write_active(active: &ActivePref) -> (r: Vec<u8>)
    ensures
        r@ == object_text(active_fields(active.slug@)),
        valid_json(r@),
        reads_back(r@, active_fields(active.slug@)),
        is_utf8_text(r@),
        forall|raw: Seq<char>| #[trigger]
            encode_utf8(raw) == r@ ==> active_of(Some(raw)) == Some(active.slug@),
{
    let mut fields: Vec<(String, JsonField)> = Vec::new();
    fields.push(("slug".to_owned(), JsonField::Text(active.slug.duplicate())));
    proof {
        reveal_strlit("slug");
        assert(fields.deep_view() =~= active_fields(active.slug@));
    }
    let r = write_object(&fields);
    proof {
        assert forall|raw: Seq<char>| #[trigger] encode_utf8(raw) == r@ implies active_of(
            Some(raw),
        ) == Some(active.slug@) by {
            stored_active_is_read_back(active.slug@, raw);
        }
    }
    r
}

// ---------------------------------------------------------------------------------------------
// What is remembered
// ---------------------------------------------------------------------------------------------

/// What is remembered between commands.
pub struct PetsState {
    pub active_slug: Option<String>,
    pub remote_cache: Option<RemoteManifest>,
    pub display_prefs_cache: Option<DisplayPrefs>,
}

impl Default for PetsState {
    fn default() -> (r: Self)
        ensures
            r.active_slug is None,
            r.remote_cache is None,
            r.display_prefs_cache is None,
    {
        PetsState { active_slug: None, remote_cache: None, display_prefs_cache: None }
    }
}

/// Remembers the active pet, once it has been stored.
pub fn pets_set_active(state: &mut PetsState, slug: String)
    ensures
        final(state).active_slug.deep_view() == Some(slug@),
        final(state).remote_cache == old(state).remote_cache,
        final(state).display_prefs_cache == old(state).display_prefs_cache,
{
    state.active_slug = Some(slug);
}

/// The active pet, by what is remembered and what is stored.
pub open spec fn active_answer(
    remembered: Option<Seq<char>>,
    raw: Option<Seq<char>>,
) -> Option<Seq<char>> {
    match remembered {
        Some(slug) => Some(slug),
        None => active_of(raw),
    }
}

/// The active pet: the remembered one, or the one that the stored text `raw` tells of, which is
/// then remembered.
pub fn pets_get_active(state: &mut PetsState, raw: &Option<String>) -> (r: Option<String>)
    ensures
        r.deep_view() == active_answer(old(state).active_slug.deep_view(), raw.deep_view()),
        final(state).active_slug.deep_view() == r.deep_view(),
        final(state).remote_cache == old(state).remote_cache,
        final(state).display_prefs_cache == old(state).display_prefs_cache,
{
    if state.active_slug.is_some() {
        return state.active_slug.duplicate();
    }
    let stored = read_active(raw);
    state.active_slug = stored.duplicate();
    stored
}

/// `answer` is how pets are displayed, by what is remembered and what is stored.
pub open spec fn is_display_answer(
    remembered: Option<DisplayPrefs>,
    stored: Option<DisplayPrefs>,
    answer: Option<DisplayPrefs>,
) -> bool {
    match (remembered, stored) {
        (Some(prefs), _) => answer == Some(prefs),
        (None, Some(prefs)) => answer == Some(prefs),
        (None, None) => answer matches Some(prefs) && is_default_display(prefs),
    }
}

/// How pets are displayed: as it is remembered, or as it was stored, or the default; whichever it
/// is, it is remembered.
pub fn pets_get_display_prefs(
    state: &mut PetsState,
    stored: Option<DisplayPrefs>,
) -> (r: DisplayPrefs)
    ensures
        is_display_answer(old(state).display_prefs_cache, stored, Some(r)),
        final(state).display_prefs_cache == Some(r),
        final(state).active_slug == old(state).active_slug,
        final(state).remote_cache == old(state).remote_cache,
{
    if let Some(prefs) = &state.display_prefs_cache {
        return prefs.clone();
    }
    let prefs = prefs_or_default(stored);
    state.display_prefs_cache = Some(prefs.clone());
    prefs
}

/// Remembers how pets are displayed from now on, once it has been stored. The result is what is
/// remembered.
pub fn pets_set_display_prefs(state: &mut PetsState, prefs: DisplayPrefs) -> (r: DisplayPrefs)
    ensures
        r == prefs,
        final(state).display_prefs_cache == Some(prefs),
        final(state).active_slug == old(state).active_slug,
        final(state).remote_cache == old(state).remote_cache,
{
    state.display_prefs_cache = Some(prefs.clone());
    prefs
}

/// Remembers a remote manifest that was fetched. The result is what is remembered.
pub fn pets_fetch_remote_manifest(
    state: &mut PetsState,
    manifest: RemoteManifest,
) -> (r: RemoteManifest)
    ensures
        r == manifest,
        final(state).remote_cache.deep_view() == Some(manifest.deep_view()),
        final(state).active_slug == old(state).active_slug,
        final(state).display_prefs_cache == old(state).display_prefs_cache,
{
    state.remote_cache = Some(manifest.duplicate());
    manifest
}

/// The remote manifest that is remembered; where there is none, one has to be fetched.
pub fn cached_remote(state: &PetsState) -> (r: Option<RemoteManifest>)
    ensures
        r.deep_view() == state.remote_cache.deep_view(),
{
    state.remote_cache.duplicate()
}

/// Compares the installed pets with a remote manifest that was fetched: the remote manifest is
/// remembered, and the local one notes it.
pub fn pets_diff(
    state: &mut PetsState,
    local: &LocalIndex,
    manifest: &mut LocalManifest,
    remote: RemoteManifest,
) -> (r: DiffReport)
    ensures
        is_difference(r, local.pets.deep_view(), remote.deep_view()),
        final(state).remote_cache == Some(remote),
        final(state).active_slug == old(state).active_slug,
        final(state).display_prefs_cache == old(state).display_prefs_cache,
        final(manifest).deep_view() == (LocalManifestModel {
            last_remote_manifest_at: remote.deep_view().generated_at,
            ..old(manifest).deep_view()
        }),
{
    let report = diff(local, &remote);
    manifest.note_remote(&remote.generated_at);
    state.remote_cache = Some(remote);
    report
}

// ---------------------------------------------------------------------------------------------
// Files
// ---------------------------------------------------------------------------------------------

/// The spritesheet of a pet that is shown; `webp` and `png` tell which files exist.
pub fn pets_resolve_path(slug: &str, webp: bool, png: bool) -> (r: Result<&'static str, String>)
    ensures
        match r {
            Ok(file) => {
                &&& webp || png
                &&& file@ == if webp {
                    "spritesheet.webp"@
                } else {
                    "spritesheet.png"@
                }
            },
            Err(e) => !webp && !png && e@ == "no spritesheet for slug '"@ + slug@ + "'"@,
        },
{
    if webp {
        Ok("spritesheet.webp")
    } else if png {
        Ok("spritesheet.png")
    } else {
        let text = join("no spritesheet for slug '", slug);
        Err(join(text.as_str(), "'"))
    }
}

/// The extension under which a file is written before it takes its place, by its own extension.
pub fn temp_extension(ext: Option<&str>) -> (r: String)
    ensures
        r@ == match ext {
            Some(e) => e@ + ".tmp"@,
            None => "dat.tmp"@,
        },
{
    match ext {
        Some(e) => join(e, ".tmp"),
        None => "dat.tmp".to_owned(),
    }
}

// ---------------------------------------------------------------------------------------------
// Laws
// ---------------------------------------------------------------------------------------------

/// A document that holds an active pet, as it is written, is read as that pet.
pub proof fn stored_active_is_read_back(slug: Seq<char>, raw: Seq<char>)
    requires
        reads_back(encode_utf8(raw), active_fields(slug)),
    ensures
        active_of(Some(raw)) == Some(slug),
{
    let f = active_fields(slug);
    assert(f[0] == ("slug"@, JsonFieldModel::Text(slug)));
}

/// The pet that was chosen last is the active one, whatever is stored; and whoever asks twice
/// gets the same answer, whatever is stored in between, once there is one.
pub proof fn chosen_pet_stays_active(
    slug: Seq<char>,
    remembered: Option<Seq<char>>,
    raw: Option<Seq<char>>,
    later: Option<Seq<char>>,
)
    ensures
        active_answer(Some(slug), raw) == Some(slug),
        active_answer(active_answer(remembered, raw), raw) == active_answer(remembered, raw),
        active_answer(remembered, raw) is Some ==> active_answer(
            active_answer(remembered, raw),
            later,
        ) == active_answer(remembered, raw),
{
}

/// The way of displaying that was chosen last is in force, whatever is stored; and whoever asks
/// twice gets the same answer.
pub proof fn chosen_display_stays(
    prefs: DisplayPrefs,
    remembered: Option<DisplayPrefs>,
    stored: Option<DisplayPrefs>,
    later: Option<DisplayPrefs>,
    first: Option<DisplayPrefs>,
    second: Option<DisplayPrefs>,
)
    ensures
        is_display_answer(Some(prefs), stored, first) ==> first == Some(prefs),
        is_display_answer(remembered, stored, first) && is_display_answer(first, later, second)
            ==> second == first,
{
}

/// Without a choice pets are shown, they move, they are idle, and no event is overridden.
pub proof fn the_default_display_is_plain(prefs: DisplayPrefs)
    requires
        is_default_display(prefs),
    ensures
        prefs.enabled,
        prefs.motion_enabled,
        prefs.default_state@ == "idle"@,
        forall|k: Seq<char>| !(#[trigger] object_keys(prefs.event_overrides).contains(k)),
{
}

/// What is stored counts where nothing is remembered, and the default where nothing is stored
/// either.
pub proof fn stored_display_counts_where_none_is_remembered(
    stored: Option<DisplayPrefs>,
    answer: Option<DisplayPrefs>,
)
    requires
        is_display_answer(None, stored, answer),
    ensures
        stored is Some ==> answer == stored,
        stored is None ==> (answer matches Some(prefs) && prefs.enabled && prefs.motion_enabled
            && prefs.default_state@ == "idle"@),
{
}

/// Without a remembered pet the active one is the text under the key `slug` of what is stored, and
/// there is none where nothing is stored.
pub proof fn the_stored_slug_is_active(raw: Seq<char>)
    ensures
        active_answer(None, Some(raw)) == text_field(encode_utf8(raw), "slug"@),
        active_answer(None, None) is None,
{
}

/// The document of an active pet has its slug and nothing else.
pub proof fn an_active_pet_is_its_slug(slug: Seq<char>)
    ensures
        active_fields(slug).len() == 1,
        active_fields(slug)[0].0 == "slug"@,
        active_fields(slug)[0].1 == JsonFieldModel::Text(slug),
{
}

} // verus!
