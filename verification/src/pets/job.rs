//! The installation of one pet, as a machine: at each stage one thing has to be done, and what
//! came of it leads to the next stage.

use vstd::prelude::*;

use crate::duplicate::Duplicate;
use crate::json::{is_json, is_utf8_text, list_field, object_text, ordinary_keys, reads_back};
use crate::json::{text_field, valid_json, write_object, JsonField, JsonFieldModel};
use crate::pets::download::{extract_ext_from_url, sprite_extension, RemotePet, RemotePetModel};
use crate::pets::install::{FailedInstall, FailedInstallModel};
use crate::pets::manifest::{LocalPetEntry, LocalPetModel};
use crate::strmap::StrMap;
use crate::text::join;

verus! {

/// The reason that is given where a pet is installed already.
pub const ALREADY_INSTALLED: &'static str = "already installed";

/// What was downloaded of a pet.
pub struct Download {
    pub sprite_ext: String,
    pub pet_json: Vec<u8>,
    pub sprite: Vec<u8>,
}

/// What a [`Download`] stands for.
#[verifier::ext_equal]
pub struct DownloadModel {
    pub sprite_ext: Seq<char>,
    pub pet_json: Seq<u8>,
    pub sprite: Seq<u8>,
}

impl DeepView for Download {
    type V = DownloadModel;

    open spec fn deep_view(&self) -> DownloadModel {
        DownloadModel {
            sprite_ext: self.sprite_ext@,
            pet_json: self.pet_json@,
            sprite: self.sprite@,
        }
    }
}

/// What has to be done next for a pet to be installed.
pub enum InstallStage {
    /// Fetch the description of the pet.
    FetchPetJson { pet_json_url: String, sprite_url: String },
    /// Fetch the spritesheet.
    FetchSprite { sprite_url: String, pet_json: Vec<u8> },
    /// Make the directory of the pet.
    MakeDir(Download),
    /// Write the spritesheet.
    WriteSprite(Download),
    /// Write the description.
    WritePetJson(Download),
    /// Write the metadata; it does not matter whether that succeeds.
    WriteMetadata(Download),
    /// Nothing: the pet is installed.
    Installed { bytes: u64, entry: LocalPetEntry },
    /// Nothing: the pet could not be installed.
    Failed(FailedInstall),
}

/// What an [`InstallStage`] stands for.
#[verifier::ext_equal]
pub enum StageModel {
    FetchPetJson { pet_json_url: Seq<char>, sprite_url: Seq<char> },
    FetchSprite { sprite_url: Seq<char>, pet_json: Seq<u8> },
    MakeDir(DownloadModel),
    WriteSprite(DownloadModel),
    WritePetJson(DownloadModel),
    WriteMetadata(DownloadModel),
    Installed { bytes: nat, entry: LocalPetModel },
    Failed(FailedInstallModel),
}

impl DeepView for InstallStage {
    type V = StageModel;

    open spec fn deep_view(&self) -> StageModel {
        match self {
            InstallStage::FetchPetJson { pet_json_url, sprite_url } => StageModel::FetchPetJson {
                pet_json_url: pet_json_url@,
                sprite_url: sprite_url@,
            },
            InstallStage::FetchSprite { sprite_url, pet_json } => StageModel::FetchSprite {
                sprite_url: sprite_url@,
                pet_json: pet_json@,
            },
            InstallStage::MakeDir(d) => StageModel::MakeDir(d.deep_view()),
            InstallStage::WriteSprite(d) => StageModel::WriteSprite(d.deep_view()),
            InstallStage::WritePetJson(d) => StageModel::WritePetJson(d.deep_view()),
            InstallStage::WriteMetadata(d) => StageModel::WriteMetadata(d.deep_view()),
            InstallStage::Installed { bytes, entry } => StageModel::Installed {
                bytes: *bytes as nat,
                entry: entry.deep_view(),
            },
            InstallStage::Failed(f) => StageModel::Failed(f.deep_view()),
        }
    }
}

/// What came of the thing that had to be done.
pub enum InstallEvent {
    /// The bytes that had to be fetched.
    Fetched(Vec<u8>),
    /// It was done.
    Done,
    /// It failed.
    Fault(String),
    /// The metadata was dealt with, and the installation is recorded at these times.
    Recorded { installed_at: String, checked_at: String },
}

/// What an [`InstallEvent`] stands for.
#[verifier::ext_equal]
pub enum EventModel {
    Fetched(Seq<u8>),
    Done,
    Fault(Seq<char>),
    Recorded { installed_at: Seq<char>, checked_at: Seq<char> },
}

impl DeepView for InstallEvent {
    type V = EventModel;

    open spec fn deep_view(&self) -> EventModel {
        match self {
            InstallEvent::Fetched(b) => EventModel::Fetched(b@),
            InstallEvent::Done => EventModel::Done,
            InstallEvent::Fault(t) => EventModel::Fault(t@),
            InstallEvent::Recorded { installed_at, checked_at } => EventModel::Recorded {
                installed_at: installed_at@,
                checked_at: checked_at@,
            },
        }
    }
}

// ---------------------------------------------------------------------------------------------
// The first stage
// ---------------------------------------------------------------------------------------------

/// A failure of `pet`.
pub open spec fn failure(pet: RemotePetModel, reason: Seq<char>) -> StageModel {
    StageModel::Failed(FailedInstallModel { slug: pet.slug, reason })
}

/// Where the installation of a pet starts. `present` tells whether its directory exists.
pub open spec fn first_stage(pet: RemotePetModel, present: bool, overwrite: bool) -> StageModel {
    if present && !overwrite {
        failure(pet, ALREADY_INSTALLED@)
    } else {
        match (pet.spritesheet_url, pet.pet_json_url) {
            (None, _) => failure(pet, "missing spritesheet url"@),
            (Some(_), None) => failure(pet, "missing pet.json url"@),
            (Some(sprite_url), Some(pet_json_url)) => StageModel::FetchPetJson {
                pet_json_url,
                sprite_url,
            },
        }
    }
}

fn fail(pet: &RemotePet, reason: String) -> (r: InstallStage)
    ensures
        r.deep_view() == failure(pet.deep_view(), reason@),
{
    InstallStage::Failed(FailedInstall { slug: pet.slug.duplicate(), reason })
}

/// Starts the installation of a pet. `present` tells whether its directory exists.
pub fn start_install(pet: &RemotePet, present: bool, overwrite: bool) -> (r: InstallStage)
    ensures
        r.deep_view() == first_stage(pet.deep_view(), present, overwrite),
{
    if present && !overwrite {
        return fail(pet, ALREADY_INSTALLED.to_owned());
    }
    match (&pet.spritesheet_url, &pet.pet_json_url) {
        (None, _) => fail(pet, "missing spritesheet url".to_owned()),
        (Some(_), None) => fail(pet, "missing pet.json url".to_owned()),
        (Some(sprite_url), Some(pet_json_url)) => InstallStage::FetchPetJson {
            pet_json_url: pet_json_url.duplicate(),
            sprite_url: sprite_url.duplicate(),
        },
    }
}

// ---------------------------------------------------------------------------------------------
// From stage to stage
// ---------------------------------------------------------------------------------------------

/// The sizes of the files of a pet.
pub open spec fn file_sizes(sprite: u64, pet_json: u64) -> Map<Seq<char>, u64> {
    Map::empty().insert("spritesheet"@, sprite).insert("pet.json"@, pet_json)
}

/// The entry of a pet that was installed from a download.
pub open spec fn installed_entry(
    pet: RemotePetModel,
    d: DownloadModel,
    installed_at: Seq<char>,
    checked_at: Seq<char>,
) -> LocalPetModel {
    LocalPetModel {
        slug: pet.slug,
        display_name: pet.display_name,
        source: "manifest"@,
        installed_at,
        vibes: pet.vibes,
        tags: pet.tags,
        kind: pet.kind,
        sprite_ext: d.sprite_ext,
        file_sizes: file_sizes(d.sprite.len() as u64, d.pet_json.len() as u64),
        remote_checked_at: Some(checked_at),
    }
}

/// The next stage. `document` tells whether fetched bytes are a JSON document. An event that
/// does not answer the stage changes nothing.
pub open spec fn next_stage(
    pet: RemotePetModel,
    stage: StageModel,
    event: EventModel,
    document: bool,
) -> StageModel {
    match (stage, event) {
        (StageModel::FetchPetJson { sprite_url, .. }, EventModel::Fetched(bytes)) => if document {
            StageModel::FetchSprite { sprite_url, pet_json: bytes }
        } else {
            failure(pet, "pet.json invalid"@)
        },
        (StageModel::FetchPetJson { .. }, EventModel::Fault(t)) => failure(pet, "pet.json: "@ + t),
        (StageModel::FetchSprite { sprite_url, pet_json }, EventModel::Fetched(bytes)) =>
            StageModel::MakeDir(
            DownloadModel {
                sprite_ext: sprite_extension(sprite_url),
                pet_json,
                sprite: bytes,
            },
        ),
        (StageModel::FetchSprite { .. }, EventModel::Fault(t)) => failure(pet, "sprite: "@ + t),
        (StageModel::MakeDir(d), EventModel::Done) => StageModel::WriteSprite(d),
        (StageModel::MakeDir(_), EventModel::Fault(t)) => failure(pet, "mkdir: "@ + t),
        (StageModel::WriteSprite(d), EventModel::Done) => StageModel::WritePetJson(d),
        (StageModel::WriteSprite(_), EventModel::Fault(t)) => failure(pet, "sprite write: "@ + t),
        (StageModel::WritePetJson(d), EventModel::Done) => StageModel::WriteMetadata(d),
        (StageModel::WritePetJson(_), EventModel::Fault(t)) => failure(
            pet,
            "pet.json write: "@ + t,
        ),
        (StageModel::WriteMetadata(d), EventModel::Recorded { installed_at, checked_at }) =>
            StageModel::Installed {
            bytes: d.sprite.len() + d.pet_json.len(),
            entry: installed_entry(pet, d, installed_at, checked_at),
        },
        _ => stage,
    }
}

/// The sizes of a download add up within the range of a size.
pub open spec fn fits(stage: StageModel) -> bool {
    match stage {
        StageModel::WriteMetadata(d) => d.sprite.len() + d.pet_json.len() <= u64::MAX,
        _ => true,
    }
}

/// Whether the sizes of a download add up within the range of a size.
pub fn sizes_fit(stage: &InstallStage) -> (r: bool)
    ensures
        r == fits(stage.deep_view()),
{
    match stage {
        InstallStage::WriteMetadata(d) => {
            d.sprite.len() as u64 <= u64::MAX - d.pet_json.len() as u64
        },
        _ => true,
    }
}

/// Goes on to the next stage; `document` tells whether fetched bytes are a JSON document.
pub fn advance_with(
    pet: &RemotePet,
    stage: InstallStage,
    event: InstallEvent,
    document: bool,
) -> (r: InstallStage)
    requires
        fits(stage.deep_view()),
    ensures
        r.deep_view() == next_stage(
            pet.deep_view(),
            stage.deep_view(),
            event.deep_view(),
            document,
        ),
{
    match (stage, event) {
        (
            InstallStage::FetchPetJson { pet_json_url: _, sprite_url },
            InstallEvent::Fetched(bytes),
        ) => {
            if document {
                InstallStage::FetchSprite { sprite_url, pet_json: bytes }
            } else {
                fail(pet, "pet.json invalid".to_owned())
            }
        },
        (
            InstallStage::FetchPetJson { pet_json_url: _, sprite_url: _ },
            InstallEvent::Fault(t),
        ) => fail(pet, join("pet.json: ", t.as_str())),
        (InstallStage::FetchSprite { sprite_url, pet_json }, InstallEvent::Fetched(bytes)) => {
            let ext = extract_ext_from_url(sprite_url.as_str());
            InstallStage::MakeDir(Download { sprite_ext: ext.to_owned(), pet_json, sprite: bytes })
        },
        (InstallStage::FetchSprite { sprite_url: _, pet_json: _ }, InstallEvent::Fault(t)) => fail(
            pet,
            join("sprite: ", t.as_str()),
        ),
        (InstallStage::MakeDir(d), InstallEvent::Done) => InstallStage::WriteSprite(d),
        (InstallStage::MakeDir(_), InstallEvent::Fault(t)) => fail(
            pet,
            join("mkdir: ", t.as_str()),
        ),
        (InstallStage::WriteSprite(d), InstallEvent::Done) => InstallStage::WritePetJson(d),
        (InstallStage::WriteSprite(_), InstallEvent::Fault(t)) => fail(
            pet,
            join("sprite write: ", t.as_str()),
        ),
        (InstallStage::WritePetJson(d), InstallEvent::Done) => InstallStage::WriteMetadata(d),
        (InstallStage::WritePetJson(_), InstallEvent::Fault(t)) => fail(
            pet,
            join("pet.json write: ", t.as_str()),
        ),
        (
            InstallStage::WriteMetadata(d),
            InstallEvent::Recorded { installed_at, checked_at },
        ) => {
            let sprite = d.sprite.len() as u64;
            let pet_json = d.pet_json.len() as u64;
            let mut sizes: StrMap<u64> = StrMap::new();
            sizes.insert("spritesheet".to_owned(), sprite);
            sizes.insert("pet.json".to_owned(), pet_json);
            let entry = LocalPetEntry {
                slug: pet.slug.duplicate(),
                display_name: pet.display_name.duplicate(),
                source: "manifest".to_owned(),
                installed_at,
                vibes: pet.vibes.duplicate(),
                tags: pet.tags.duplicate(),
                kind: pet.kind.duplicate(),
                sprite_ext: d.sprite_ext,
                file_sizes: sizes,
                remote_checked_at: Some(checked_at),
            };
            InstallStage::Installed { bytes: sprite + pet_json, entry }
        },
        (stage, _) => stage,
    }
}

/// Whether fetched bytes are a JSON document; anything but fetched bytes is none.
pub open spec fn event_is_document(event: EventModel) -> bool {
    event matches EventModel::Fetched(bytes) && valid_json(bytes)
}

/// Goes on to the next stage.
pub fn advance(pet: &RemotePet, stage: InstallStage, event: InstallEvent) -> (r: InstallStage)
    requires
        fits(stage.deep_view()),
    ensures
        r.deep_view() == next_stage(
            pet.deep_view(),
            stage.deep_view(),
            event.deep_view(),
            event_is_document(event.deep_view()),
        ),
{
    let document = match &event {
        InstallEvent::Fetched(bytes) => is_json(bytes.as_slice()),
        _ => false,
    };
    advance_with(pet, stage, event, document)
}

// ---------------------------------------------------------------------------------------------
// Metadata
// ---------------------------------------------------------------------------------------------

/// The path under which a file of a pet is served.
pub open spec fn served_path(slug: Seq<char>, file: Seq<char>) -> Seq<char> {
    "/pets/"@ + slug + "/"@ + file
}

/// The name of the file that holds a spritesheet.
pub open spec fn sprite_file(ext: Seq<char>) -> Seq<char> {
    "spritesheet."@ + ext
}

/// A text that may be missing, as a text.
pub open spec fn text_or_empty(s: Option<Seq<char>>) -> Seq<char> {
    match s {
        Some(t) => t,
        None => seq![],
    }
}

/// The members of the metadata document of a pet.
pub open spec fn metadata_fields(
    pet: RemotePetModel,
    sprite_ext: Seq<char>,
    imported_at: Seq<char>,
) -> Seq<(Seq<char>, JsonFieldModel)> {
    seq![
        ("id"@, JsonFieldModel::Text(pet.slug)),
        ("slug"@, JsonFieldModel::Text(pet.slug)),
        ("displayName"@, JsonFieldModel::Text(pet.display_name)),
        ("description"@, JsonFieldModel::Text(text_or_empty(pet.description))),
        (
            "spritesheetPath"@,
            JsonFieldModel::Text(served_path(pet.slug, sprite_file(sprite_ext))),
        ),
        ("petJsonPath"@, JsonFieldModel::Text(served_path(pet.slug, "pet.json"@))),
        ("kind"@, JsonFieldModel::Text(text_or_empty(pet.kind))),
        ("vibes"@, JsonFieldModel::Texts(pet.vibes)),
        ("tags"@, JsonFieldModel::Texts(pet.tags)),
        ("featured"@, JsonFieldModel::Flag(pet.featured)),
        ("submittedBy"@, JsonFieldModel::MaybeText(pet.submitted_by)),
        ("importedAt"@, JsonFieldModel::Text(imported_at)),
    ]
}

/// The name of the file that holds a spritesheet.
pub fn sprite_file_name(ext: &str) -> (r: String)
    ensures
        r@ == sprite_file(ext@),
{
    join("spritesheet.", ext)
}

fn path_of(slug: &str, file: &str) -> (r: String)
    ensures
        r@ == served_path(slug@, file@),
{
    let head = join("/pets/", slug);
    let head = join(head.as_str(), "/");
    join(head.as_str(), file)
}

fn or_empty(s: &Option<String>) -> (r: String)
    ensures
        r@ == text_or_empty(s.deep_view()),
{
    match s {
        Some(t) => t.duplicate(),
        None => String::new(),
    }
}

/// The members of the metadata document of a pet.
pub fn metadata_document(pet: &RemotePet, sprite_ext: &str, imported_at: &str) -> (r: Vec<
    (String, JsonField),
>)
    ensures
        r.deep_view() == metadata_fields(pet.deep_view(), sprite_ext@, imported_at@),
{
    let sprite = sprite_file_name(sprite_ext);
    let mut r: Vec<(String, JsonField)> = Vec::new();
    r.push(("id".to_owned(), JsonField::Text(pet.slug.duplicate())));
    r.push(("slug".to_owned(), JsonField::Text(pet.slug.duplicate())));
    r.push(("displayName".to_owned(), JsonField::Text(pet.display_name.duplicate())));
    r.push(("description".to_owned(), JsonField::Text(or_empty(&pet.description))));
    r.push(
        (
            "spritesheetPath".to_owned(),
            JsonField::Text(path_of(pet.slug.as_str(), sprite.as_str())),
        ),
    );
    r.push(("petJsonPath".to_owned(), JsonField::Text(path_of(pet.slug.as_str(), "pet.json"))));
    r.push(("kind".to_owned(), JsonField::Text(or_empty(&pet.kind))));
    r.push(("vibes".to_owned(), JsonField::Texts(pet.vibes.duplicate())));
    r.push(("tags".to_owned(), JsonField::Texts(pet.tags.duplicate())));
    r.push(("featured".to_owned(), JsonField::Flag(pet.featured)));
    r.push(("submittedBy".to_owned(), JsonField::MaybeText(pet.submitted_by.duplicate())));
    r.push(("importedAt".to_owned(), JsonField::Text(imported_at.to_owned())));
    assert(r.deep_view() =~= metadata_fields(pet.deep_view(), sprite_ext@, imported_at@));
    r
}

/// The metadata document of a pet. Its display name, kind, vibes and tags are read back from
/// it under their keys.
pub fn metadata_bytes(pet: &RemotePet, sprite_ext: &str, imported_at: &str) -> (r: Vec<u8>)
    ensures
        r@ == object_text(metadata_fields(pet.deep_view(), sprite_ext@, imported_at@)),
        is_utf8_text(r@),
        valid_json(r@),
        reads_back(r@, metadata_fields(pet.deep_view(), sprite_ext@, imported_at@)),
        text_field(r@, "id"@) == Some(pet.slug@),
        text_field(r@, "slug"@) == Some(pet.slug@),
        text_field(r@, "spritesheetPath"@) == Some(
            "/pets/"@ + pet.slug@ + "/"@ + ("spritesheet."@ + sprite_ext@),
        ),
        text_field(r@, "petJsonPath"@) == Some("/pets/"@ + pet.slug@ + "/"@ + "pet.json"@),
        text_field(r@, "submittedBy"@) == pet.deep_view().submitted_by,
        text_field(r@, "importedAt"@) == Some(imported_at@),
        text_field(r@, "displayName"@) == Some(pet.deep_view().display_name),
        text_field(r@, "kind"@) == Some(text_or_empty(pet.deep_view().kind)),
        list_field(r@, "vibes"@) == Some(
            pet.deep_view().vibes.map_values(|s: Seq<char>| Some(s)),
        ),
        list_field(r@, "tags"@) == Some(pet.deep_view().tags.map_values(|s: Seq<char>| Some(s))),
{
    let fields = metadata_document(pet, sprite_ext, imported_at);
    proof {
        metadata_keys_are_ordinary(pet.deep_view(), sprite_ext@, imported_at@);
    }
    let r = write_object(&fields);
    proof {
        let f = metadata_fields(pet.deep_view(), sprite_ext@, imported_at@);
        assert(f[0].0 == "id"@);
        assert(f[1].0 == "slug"@);
        assert(f[2].0 == "displayName"@);
        assert(f[4].0 == "spritesheetPath"@);
        assert(f[5].0 == "petJsonPath"@);
        assert(f[6].0 == "kind"@);
        assert(f[10].0 == "submittedBy"@);
        assert(f[11].0 == "importedAt"@);
        assert(f[7].0 == "vibes"@);
        assert(f[8].0 == "tags"@);
    }
    r
}

// ---------------------------------------------------------------------------------------------
// Laws
// ---------------------------------------------------------------------------------------------

/// The keys of the metadata document are distinct.
pub proof fn metadata_keys_are_ordinary(
    pet: RemotePetModel,
    sprite_ext: Seq<char>,
    imported_at: Seq<char>,
)
    ensures
        ordinary_keys(metadata_fields(pet, sprite_ext, imported_at)),
{
    reveal_strlit("id");
    reveal_strlit("slug");
    reveal_strlit("displayName");
    reveal_strlit("description");
    reveal_strlit("spritesheetPath");
    reveal_strlit("petJsonPath");
    reveal_strlit("kind");
    reveal_strlit("vibes");
    reveal_strlit("tags");
    reveal_strlit("featured");
    reveal_strlit("submittedBy");
    reveal_strlit("importedAt");
    let f = metadata_fields(pet, sprite_ext, imported_at);
    assert(f[0].0.len() == 2 && f[0].0[0] == 'i' && f[0].0[1] == 'd');
    assert(f[1].0.len() == 4 && f[1].0[0] == 's' && f[1].0[1] == 'l');
    assert(f[2].0.len() == 11 && f[2].0[0] == 'd' && f[2].0[1] == 'i');
    assert(f[3].0.len() == 11 && f[3].0[0] == 'd' && f[3].0[1] == 'e');
    assert(f[4].0.len() == 15 && f[4].0[0] == 's' && f[4].0[1] == 'p');
    assert(f[5].0.len() == 11 && f[5].0[0] == 'p' && f[5].0[1] == 'e');
    assert(f[6].0.len() == 4 && f[6].0[0] == 'k' && f[6].0[1] == 'i');
    assert(f[7].0.len() == 5 && f[7].0[0] == 'v' && f[7].0[1] == 'i');
    assert(f[8].0.len() == 4 && f[8].0[0] == 't' && f[8].0[1] == 'a');
    assert(f[9].0.len() == 8 && f[9].0[0] == 'f' && f[9].0[1] == 'e');
    assert(f[10].0.len() == 11 && f[10].0[0] == 's' && f[10].0[1] == 'u');
    assert(f[11].0.len() == 10 && f[11].0[0] == 'i' && f[11].0[1] == 'm');
    assert forall|i: int, j: int|
        #![trigger f[i], f[j]]
        0 <= i < j < f.len() implies f[i].0 != f[j].0 by {
        assert(f.len() == 12);
    }
    assert forall|i: int| 0 <= i < f.len() implies (#[trigger] f[i]).0.len() > 0 && f[i].0[0]
        != '$' by {
        assert(f.len() == 12);
    }
}

/// An installation is over when the pet is installed or has failed.
pub open spec fn is_over(stage: StageModel) -> bool {
    stage is Installed || stage is Failed
}

/// What is over stays as it is.
pub proof fn end_is_final(
    pet: RemotePetModel,
    stage: StageModel,
    event: EventModel,
    document: bool,
)
    requires
        is_over(stage),
    ensures
        next_stage(pet, stage, event, document) == stage,
{
}

/// Whatever is reported as failed is reported under the slug of the pet.
pub proof fn failure_names_the_pet(
    pet: RemotePetModel,
    stage: StageModel,
    event: EventModel,
    document: bool,
    present: bool,
    overwrite: bool,
)
    ensures
        first_stage(pet, present, overwrite) matches StageModel::Failed(f) ==> f.slug == pet.slug,
        !(stage is Failed) ==> (next_stage(pet, stage, event, document) matches StageModel::Failed(
            f,
        ) ==> f.slug == pet.slug),
{
}

/// The stages that events in turn lead to; each event comes with whether its bytes are a JSON
/// document.
pub open spec fn stage_after(
    pet: RemotePetModel,
    start: StageModel,
    events: Seq<(EventModel, bool)>,
) -> StageModel
    decreases events.len(),
{
    if events.len() == 0 {
        start
    } else {
        next_stage(
            pet,
            stage_after(pet, start, events.drop_last()),
            events.last().0,
            events.last().1,
        )
    }
}

/// How many events have to be answered well before a stage is reached.
pub open spec fn progress(stage: StageModel) -> nat {
    match stage {
        StageModel::FetchPetJson { .. } => 0,
        StageModel::FetchSprite { .. } => 1,
        StageModel::MakeDir(_) => 2,
        StageModel::WriteSprite(_) => 3,
        StageModel::WritePetJson(_) => 4,
        StageModel::WriteMetadata(_) => 5,
        StageModel::Installed { .. } => 6,
        StageModel::Failed(_) => 0,
    }
}

/// One event leads to the next stage, to failure, or nowhere: no stage is left out.
pub proof fn no_stage_is_skipped(
    pet: RemotePetModel,
    stage: StageModel,
    event: EventModel,
    document: bool,
)
    ensures
        ({
            let next = next_stage(pet, stage, event, document);
            ||| next == stage
            ||| next is Failed
            ||| progress(next) == progress(stage) + 1
        }),
{
}

/// What a stage has at hand to be written.
pub open spec fn at_hand(stage: StageModel) -> Option<DownloadModel> {
    match stage {
        StageModel::MakeDir(d) => Some(d),
        StageModel::WriteSprite(d) => Some(d),
        StageModel::WritePetJson(d) => Some(d),
        StageModel::WriteMetadata(d) => Some(d),
        _ => None,
    }
}

/// The bytes were fetched in the course of the events.
pub open spec fn was_fetched(events: Seq<(EventModel, bool)>, bytes: Seq<u8>) -> bool {
    exists|document: bool| #[trigger] events.contains((EventModel::Fetched(bytes), document))
}

/// Nothing is written before the description and the spritesheet have been fetched and the
/// description has been found to be a JSON document: what is written is what was fetched.
pub proof fn written_is_what_was_fetched(
    pet: RemotePetModel,
    present: bool,
    overwrite: bool,
    events: Seq<(EventModel, bool)>,
    d: DownloadModel,
)
    requires
        at_hand(stage_after(pet, first_stage(pet, present, overwrite), events)) == Some(d),
    ensures
        events.contains((EventModel::Fetched(d.pet_json), true)),
        was_fetched(events, d.sprite),
        pet.spritesheet_url is Some,
        d.sprite_ext == sprite_extension(pet.spritesheet_url.unwrap()),
    decreases events.len(),
{
    let start = first_stage(pet, present, overwrite);
    if events.len() > 0 {
        let init = events.drop_last();
        let before = stage_after(pet, start, init);
        let last = events.last();
        assert(events[events.len() - 1] == last);
        assert forall|e: (EventModel, bool)| init.contains(e) implies events.contains(e) by {
            let i = choose|i: int| 0 <= i < init.len() && init[i] == e;
            assert(events[i] == e);
        }
        assert(events.contains(last));
        if at_hand(before) is Some {
            assert(at_hand(before) == Some(d));
            written_is_what_was_fetched(pet, present, overwrite, init, d);
            let document = choose|document: bool|
                #[trigger] init.contains((EventModel::Fetched(d.sprite), document));
            assert(events.contains((EventModel::Fetched(d.sprite), document)));
        } else {
            lemma_fetched_so_far(pet, present, overwrite, init);
            assert(before is FetchSprite);
            assert(last == (EventModel::Fetched(d.sprite), last.1));
        }
    }
}

proof fn lemma_fetched_so_far(
    pet: RemotePetModel,
    present: bool,
    overwrite: bool,
    events: Seq<(EventModel, bool)>,
)
    ensures
        ({
            let stage = stage_after(pet, first_stage(pet, present, overwrite), events);
            &&& stage matches StageModel::FetchPetJson { sprite_url, .. } ==> pet.spritesheet_url
                == Some(sprite_url)
            &&& stage matches StageModel::FetchSprite { sprite_url, pet_json } ==> {
                &&& pet.spritesheet_url == Some(sprite_url)
                &&& events.contains((EventModel::Fetched(pet_json), true))
            }
        }),
    decreases events.len(),
{
    if events.len() > 0 {
        let init = events.drop_last();
        lemma_fetched_so_far(pet, present, overwrite, init);
        assert(events[events.len() - 1] == events.last());
        assert forall|e: (EventModel, bool)| init.contains(e) implies events.contains(e) by {
            let i = choose|i: int| 0 <= i < init.len() && init[i] == e;
            assert(events[i] == e);
        }
        assert(events.contains(events.last()));
    }
}

/// A pet that goes through every stage well is installed, with the sum of the sizes of its two
/// files.
pub proof fn six_good_answers_install(
    pet: RemotePetModel,
    present: bool,
    overwrite: bool,
    pet_json: Seq<u8>,
    sprite: Seq<u8>,
    installed_at: Seq<char>,
    checked_at: Seq<char>,
)
    requires
        !present || overwrite,
        pet.spritesheet_url is Some,
        pet.pet_json_url is Some,
    ensures
        ({
            let d = DownloadModel {
                sprite_ext: sprite_extension(pet.spritesheet_url.unwrap()),
                pet_json,
                sprite,
            };
            stage_after(
                pet,
                first_stage(pet, present, overwrite),
                seq![
                    (EventModel::Fetched(pet_json), true),
                    (EventModel::Fetched(sprite), false),
                    (EventModel::Done, false),
                    (EventModel::Done, false),
                    (EventModel::Done, false),
                    (EventModel::Recorded { installed_at, checked_at }, false),
                ],
            ) == (StageModel::Installed {
                bytes: sprite.len() + pet_json.len(),
                entry: installed_entry(pet, d, installed_at, checked_at),
            })
        }),
{
    let e = seq![
        (EventModel::Fetched(pet_json), true),
        (EventModel::Fetched(sprite), false),
        (EventModel::Done, false),
        (EventModel::Done, false),
        (EventModel::Done, false),
        (EventModel::Recorded { installed_at, checked_at }, false),
    ];
    let start = first_stage(pet, present, overwrite);
    assert(e.take(6) =~= e);
    assert(stage_after(pet, start, e.take(0)) == start);
    assert(e.take(1).drop_last() =~= e.take(0));
    assert(e.take(2).drop_last() =~= e.take(1));
    assert(e.take(3).drop_last() =~= e.take(2));
    assert(e.take(4).drop_last() =~= e.take(3));
    assert(e.take(5).drop_last() =~= e.take(4));
    assert(e.take(6).drop_last() =~= e.take(5));
    assert(stage_after(pet, start, e.take(1)) is FetchSprite);
    assert(stage_after(pet, start, e.take(2)) is MakeDir);
    assert(stage_after(pet, start, e.take(3)) is WriteSprite);
    assert(stage_after(pet, start, e.take(4)) is WritePetJson);
    assert(stage_after(pet, start, e.take(5)) is WriteMetadata);
}

/// A model of a download has its fields, each as it is.
pub proof fn download_is_modelled_by_its_fields(x: Download)
    ensures
        x.deep_view().sprite_ext == x.sprite_ext@,
        x.deep_view().pet_json == x.pet_json@,
        x.deep_view().sprite == x.sprite@,
{
}

/// A pet whose directory exists is left alone unless it is to be overwritten. Any other needs the
/// address of its spritesheet and then that of its description; with both, the description is
/// fetched first.
pub proof fn installation_starts_as_it_should(
    pet: RemotePetModel,
    present: bool,
    overwrite: bool,
)
    ensures
        ({
            let start = first_stage(pet, present, overwrite);
            &&& present && !overwrite ==> (start matches StageModel::Failed(f) && f.slug
                == pet.slug && f.reason == "already installed"@)
            &&& (!present || overwrite) && pet.spritesheet_url is None ==> (start matches
                StageModel::Failed(f) && f.slug == pet.slug && f.reason
                == "missing spritesheet url"@)
            &&& (!present || overwrite) && pet.spritesheet_url is Some && pet.pet_json_url is None
                ==> (start matches StageModel::Failed(f) && f.slug == pet.slug && f.reason
                == "missing pet.json url"@)
            &&& (!present || overwrite) && pet.spritesheet_url is Some && pet.pet_json_url is Some
                ==> (start matches StageModel::FetchPetJson { pet_json_url, sprite_url }
                && Some(pet_json_url) == pet.pet_json_url && Some(sprite_url)
                == pet.spritesheet_url)
        }),
{
}

/// A fault ends the installation wherever something had to be done that can fail, and the reason
/// tells what it was.
pub proof fn a_fault_ends_the_installation(
    pet: RemotePetModel,
    stage: StageModel,
    t: Seq<char>,
    document: bool,
)
    ensures
        ({
            let next = next_stage(pet, stage, EventModel::Fault(t), document);
            &&& stage is FetchPetJson ==> (next matches StageModel::Failed(f) && f.slug == pet.slug
                && f.reason == "pet.json: "@ + t)
            &&& stage is FetchSprite ==> (next matches StageModel::Failed(f) && f.slug == pet.slug
                && f.reason == "sprite: "@ + t)
            &&& stage is MakeDir ==> (next matches StageModel::Failed(f) && f.slug == pet.slug
                && f.reason == "mkdir: "@ + t)
            &&& stage is WriteSprite ==> (next matches StageModel::Failed(f) && f.slug == pet.slug
                && f.reason == "sprite write: "@ + t)
            &&& stage is WritePetJson ==> (next matches StageModel::Failed(f) && f.slug == pet.slug
                && f.reason == "pet.json write: "@ + t)
            &&& stage is WriteMetadata || stage is Installed || stage is Failed ==> next == stage
        }),
{
}

/// Fetched bytes are taken as the description where it was asked for, if they are a JSON document,
/// and as the spritesheet where that was asked for; nowhere else do they matter.
pub proof fn fetched_bytes_are_taken_as_asked(
    pet: RemotePetModel,
    stage: StageModel,
    bytes: Seq<u8>,
    document: bool,
)
    ensures
        ({
            let next = next_stage(pet, stage, EventModel::Fetched(bytes), document);
            &&& stage matches StageModel::FetchPetJson { sprite_url, .. } ==> {
                &&& document ==> (next matches StageModel::FetchSprite { sprite_url: u, pet_json }
                    && u == sprite_url && pet_json == bytes)
                &&& !document ==> (next matches StageModel::Failed(f) && f.slug == pet.slug
                    && f.reason == "pet.json invalid"@)
            }
            &&& stage matches StageModel::FetchSprite { sprite_url, pet_json } ==> (next matches
                StageModel::MakeDir(d) && d.pet_json == pet_json && d.sprite == bytes
                && d.sprite_ext == sprite_extension(sprite_url))
            &&& !(stage is FetchPetJson) && !(stage is FetchSprite) ==> next == stage
        }),
{
}

/// What was to be written is written in turn: the directory, the spritesheet, the description,
/// the metadata; and the download stays as it is.
pub proof fn writing_goes_in_turn(pet: RemotePetModel, stage: StageModel, document: bool)
    ensures
        ({
            let next = next_stage(pet, stage, EventModel::Done, document);
            &&& stage matches StageModel::MakeDir(d) ==> next == StageModel::WriteSprite(d)
            &&& stage matches StageModel::WriteSprite(d) ==> next == StageModel::WritePetJson(d)
            &&& stage matches StageModel::WritePetJson(d) ==> next == StageModel::WriteMetadata(d)
            &&& !(stage is MakeDir) && !(stage is WriteSprite) && !(stage is WritePetJson)
                ==> next == stage
        }),
{
}

/// An installed pet is recorded with what it was offered with, with the extension and the sizes
/// of what was downloaded, and with the given times; the bytes are those of both files.
pub proof fn installed_pet_is_recorded_as_offered(
    pet: RemotePetModel,
    d: DownloadModel,
    installed_at: Seq<char>,
    checked_at: Seq<char>,
    document: bool,
)
    requires
        d.sprite.len() <= u64::MAX,
        d.pet_json.len() <= u64::MAX,
    ensures
        next_stage(
            pet,
            StageModel::WriteMetadata(d),
            EventModel::Recorded { installed_at, checked_at },
            document,
        ) matches StageModel::Installed { bytes, entry } && {
            &&& bytes == d.sprite.len() + d.pet_json.len()
            &&& entry.slug == pet.slug
            &&& entry.display_name == pet.display_name
            &&& entry.source == "manifest"@
            &&& entry.installed_at == installed_at
            &&& entry.vibes == pet.vibes
            &&& entry.tags == pet.tags
            &&& entry.kind == pet.kind
            &&& entry.sprite_ext == d.sprite_ext
            &&& entry.remote_checked_at == Some(checked_at)
            &&& entry.file_sizes.contains_key("spritesheet"@)
            &&& entry.file_sizes["spritesheet"@] == d.sprite.len()
            &&& entry.file_sizes.contains_key("pet.json"@)
            &&& entry.file_sizes["pet.json"@] == d.pet_json.len()
            &&& forall|k: Seq<char>| #[trigger]
                entry.file_sizes.contains_key(k) ==> k == "spritesheet"@ || k == "pet.json"@
        },
{
    reveal_strlit("spritesheet");
    reveal_strlit("pet.json");
    assert("spritesheet"@.len() == 11 && "pet.json"@.len() == 8);
}

/// A record of the times is taken only where the metadata was dealt with.
pub proof fn times_are_taken_at_the_end(
    pet: RemotePetModel,
    stage: StageModel,
    installed_at: Seq<char>,
    checked_at: Seq<char>,
    document: bool,
)
    requires
        !(stage is WriteMetadata),
    ensures
        next_stage(pet, stage, EventModel::Recorded { installed_at, checked_at }, document)
            == stage,
{
}

/// Only the sizes of what is about to be recorded have to add up.
pub proof fn only_recorded_sizes_have_to_fit(stage: StageModel)
    ensures
        fits(stage) <==> !(stage matches StageModel::WriteMetadata(d) && d.sprite.len()
            + d.pet_json.len() > u64::MAX),
{
}

/// An event holds a JSON document exactly when it brings bytes that are one.
pub proof fn documents_are_fetched(event: EventModel)
    ensures
        event_is_document(event) <==> (event matches EventModel::Fetched(bytes) && valid_json(
            bytes,
        )),
{
}

/// The metadata document has these members and no others.
pub proof fn metadata_tells_what_was_offered(
    pet: RemotePetModel,
    sprite_ext: Seq<char>,
    imported_at: Seq<char>,
)
    ensures
        ({
            let f = metadata_fields(pet, sprite_ext, imported_at);
            &&& f.len() == 12
            &&& f.contains(("id"@, JsonFieldModel::Text(pet.slug)))
            &&& f.contains(("slug"@, JsonFieldModel::Text(pet.slug)))
            &&& f.contains(("displayName"@, JsonFieldModel::Text(pet.display_name)))
            &&& pet.description matches Some(d) ==> f.contains(
                ("description"@, JsonFieldModel::Text(d)),
            )
            &&& pet.description is None ==> f.contains(
                ("description"@, JsonFieldModel::Text(seq![])),
            )
            &&& f.contains(
                (
                    "spritesheetPath"@,
                    JsonFieldModel::Text(
                        "/pets/"@ + pet.slug + "/"@ + ("spritesheet."@ + sprite_ext),
                    ),
                ),
            )
            &&& f.contains(
                (
                    "petJsonPath"@,
                    JsonFieldModel::Text("/pets/"@ + pet.slug + "/"@ + "pet.json"@),
                ),
            )
            &&& pet.kind matches Some(k) ==> f.contains(("kind"@, JsonFieldModel::Text(k)))
            &&& pet.kind is None ==> f.contains(("kind"@, JsonFieldModel::Text(seq![])))
            &&& f.contains(("vibes"@, JsonFieldModel::Texts(pet.vibes)))
            &&& f.contains(("tags"@, JsonFieldModel::Texts(pet.tags)))
            &&& f.contains(("featured"@, JsonFieldModel::Flag(pet.featured)))
            &&& f.contains(("submittedBy"@, JsonFieldModel::MaybeText(pet.submitted_by)))
            &&& f.contains(("importedAt"@, JsonFieldModel::Text(imported_at)))
        }),
{
    let f = metadata_fields(pet, sprite_ext, imported_at);
    assert(f[0] == ("id"@, JsonFieldModel::Text(pet.slug)));
    assert(f[1] == ("slug"@, JsonFieldModel::Text(pet.slug)));
    assert(f[2] == ("displayName"@, JsonFieldModel::Text(pet.display_name)));
    assert(f[3] == ("description"@, JsonFieldModel::Text(text_or_empty(pet.description))));
    assert(f[4].0 == "spritesheetPath"@);
    assert(f[5].0 == "petJsonPath"@);
    assert(f[6] == ("kind"@, JsonFieldModel::Text(text_or_empty(pet.kind))));
    assert(f[7] == ("vibes"@, JsonFieldModel::Texts(pet.vibes)));
    assert(f[8] == ("tags"@, JsonFieldModel::Texts(pet.tags)));
    assert(f[9] == ("featured"@, JsonFieldModel::Flag(pet.featured)));
    assert(f[10] == ("submittedBy"@, JsonFieldModel::MaybeText(pet.submitted_by)));
    assert(f[11] == ("importedAt"@, JsonFieldModel::Text(imported_at)));
}

/// A stage is modelled by what it holds.
pub proof fn stage_is_modelled_by_what_it_holds(x: InstallStage)
    ensures
        match x {
            InstallStage::FetchPetJson { pet_json_url, sprite_url } => x.deep_view() == (
            StageModel::FetchPetJson { pet_json_url: pet_json_url@, sprite_url: sprite_url@ }),
            InstallStage::FetchSprite { sprite_url, pet_json } => x.deep_view() == (
            StageModel::FetchSprite { sprite_url: sprite_url@, pet_json: pet_json@ }),
            InstallStage::MakeDir(d) => x.deep_view() == StageModel::MakeDir(d.deep_view()),
            InstallStage::WriteSprite(d) => x.deep_view() == StageModel::WriteSprite(
                d.deep_view(),
            ),
            InstallStage::WritePetJson(d) => x.deep_view() == StageModel::WritePetJson(
                d.deep_view(),
            ),
            InstallStage::WriteMetadata(d) => x.deep_view() == StageModel::WriteMetadata(
                d.deep_view(),
            ),
            InstallStage::Installed { bytes, entry } => x.deep_view() == (StageModel::Installed {
                bytes: bytes as nat,
                entry: entry.deep_view(),
            }),
            InstallStage::Failed(f) => x.deep_view() == StageModel::Failed(f.deep_view()),
        },
{
}

/// An event is modelled by what it brings.
pub proof fn event_is_modelled_by_what_it_brings(x: InstallEvent)
    ensures
        match x {
            InstallEvent::Fetched(b) => x.deep_view() == EventModel::Fetched(b@),
            InstallEvent::Done => x.deep_view() == EventModel::Done,
            InstallEvent::Fault(t) => x.deep_view() == EventModel::Fault(t@),
            InstallEvent::Recorded { installed_at, checked_at } => x.deep_view() == (
            EventModel::Recorded { installed_at: installed_at@, checked_at: checked_at@ }),
        },
{
}

} // verus!
