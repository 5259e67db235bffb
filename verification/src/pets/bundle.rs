//! Installing a bundle: what its files tell of each pet, and which pets are installed.

use vstd::prelude::*;
use vstd::utf8::*;

use crate::duplicate::Duplicate;
use crate::json::{list_field, read_list, read_text, reads_back, text_field, JsonFieldModel};
use crate::order::{same_text, text_le};
use crate::pets::archive::{a_pet_is_grouped_with_its_files, bundle_model, bundle_outcome};
use crate::pets::archive::{by_pet, files_for, group_files, heads_agree, read_bundle};
use crate::pets::archive::{BundleFile, BundleFileModel, EntryHeadModel};
use crate::pets::download::RemotePetModel;
use crate::pets::install::{failed_slugs, FailedInstall, FailedInstallModel, InstallReport};
use crate::pets::install::{InstallReportModel, StartedEvent};
use crate::pets::job::{metadata_fields, text_or_empty};
use crate::pets::manifest::{LocalManifest, LocalManifestModel, LocalPetEntry, LocalPetModel};
use crate::pets::sync::{all_installed, Notice, NoticeModel};
use crate::strmap::{in_key_order, keys_ascend, keys_of, map_has_the_keys_of_its_pairs};
use crate::strmap::{pair_is_found, StrMap};
use crate::text::{all_texts_are_among, ascii_lowered, join, lowercase, only_texts, texts_among};

verus! {

// ---------------------------------------------------------------------------------------------
// What a file tells of its pet
// ---------------------------------------------------------------------------------------------

/// What a file of a bundle is for.
#[derive(Debug, Clone, Copy, PartialEq, Eq)]
pub enum FileKind {
    WebpSheet,
    PngSheet,
    PetJson,
    Metadata,
    Other,
}

/// What a file is for, by its name in lower case.
pub open spec fn kind_of(lower: Seq<char>) -> FileKind {
    if lower == "spritesheet.webp"@ {
        FileKind::WebpSheet
    } else if lower == "spritesheet.png"@ {
        FileKind::PngSheet
    } else if lower == "pet.json"@ {
        FileKind::PetJson
    } else if lower == "metadata.json"@ {
        FileKind::Metadata
    } else {
        FileKind::Other
    }
}

/// What a file is for, by its name in lower case.
pub fn kind_of_lowered(lower: &str) -> (r: FileKind)
    ensures
        r == kind_of(lower@),
{
    if same_text(lower, "spritesheet.webp") {
        FileKind::WebpSheet
    } else if same_text(lower, "spritesheet.png") {
        FileKind::PngSheet
    } else if same_text(lower, "pet.json") {
        FileKind::PetJson
    } else if same_text(lower, "metadata.json") {
        FileKind::Metadata
    } else {
        FileKind::Other
    }
}

/// What a file is for, by its name; case does not matter.
pub fn file_kind(name: &str) -> (r: FileKind)
    ensures
        r == kind_of(lowercase(name@)),
        is_ascii_chars(name@) ==> r == kind_of(ascii_lowered(name@)),
{
    let lower = name.to_lowercase();
    kind_of_lowered(lower.as_str())
}

/// What a JSON document tells of a pet.
pub struct PetDocument {
    pub display_name: Option<String>,
    pub vibes: Option<Vec<String>>,
    pub tags: Option<Vec<String>>,
    pub kind: Option<String>,
}

/// What a [`PetDocument`] stands for.
#[verifier::ext_equal]
pub struct PetDocumentModel {
    pub display_name: Option<Seq<char>>,
    pub vibes: Option<Seq<Seq<char>>>,
    pub tags: Option<Seq<Seq<char>>>,
    pub kind: Option<Seq<char>>,
}

impl DeepView for PetDocument {
    type V = PetDocumentModel;

    open spec fn deep_view(&self) -> PetDocumentModel {
        PetDocumentModel {
            display_name: self.display_name.deep_view(),
            vibes: self.vibes.deep_view(),
            tags: self.tags.deep_view(),
            kind: self.kind.deep_view(),
        }
    }
}

/// The texts of the array under a key, where there is one.
pub open spec fn texts_under(bytes: Seq<u8>, key: Seq<char>) -> Option<Seq<Seq<char>>> {
    match list_field(bytes, key) {
        Some(list) => Some(texts_among(list)),
        None => None,
    }
}

/// What bytes, read as a JSON document, tell of a pet.
pub open spec fn document_of(bytes: Seq<u8>) -> PetDocumentModel {
    PetDocumentModel {
        display_name: text_field(bytes, "displayName"@),
        vibes: texts_under(bytes, "vibes"@),
        tags: texts_under(bytes, "tags"@),
        kind: text_field(bytes, "kind"@),
    }
}

fn read_texts(bytes: &[u8], key: &str) -> (r: Option<Vec<String>>)
    ensures
        r.deep_view() == texts_under(bytes@, key@),
{
    match read_list(bytes, key) {
        Some(list) => Some(only_texts(&list)),
        None => None,
    }
}

/// Reads what bytes tell of a pet. Bytes that are no JSON object tell nothing.
pub fn read_document(bytes: &[u8]) -> (r: PetDocument)
    ensures
        r.deep_view() == document_of(bytes@),
{
    PetDocument {
        display_name: read_text(bytes, "displayName"),
        vibes: read_texts(bytes, "vibes"),
        tags: read_texts(bytes, "tags"),
        kind: read_text(bytes, "kind"),
    }
}

// ---------------------------------------------------------------------------------------------
// What the files tell together
// ---------------------------------------------------------------------------------------------

/// What is known of a pet of a bundle.
pub struct PetFacts {
    pub display_name: String,
    pub vibes: Vec<String>,
    pub tags: Vec<String>,
    pub kind: Option<String>,
    pub sprite_ext: String,
    pub file_sizes: StrMap<u64>,
    pub has_sprite: bool,
}

/// What [`PetFacts`] stand for.
#[verifier::ext_equal]
pub struct PetFactsModel {
    pub display_name: Seq<char>,
    pub vibes: Seq<Seq<char>>,
    pub tags: Seq<Seq<char>>,
    pub kind: Option<Seq<char>>,
    pub sprite_ext: Seq<char>,
    pub file_sizes: Map<Seq<char>, u64>,
    pub has_sprite: bool,
}

impl DeepView for PetFacts {
    type V = PetFactsModel;

    open spec fn deep_view(&self) -> PetFactsModel {
        PetFactsModel {
            display_name: self.display_name@,
            vibes: self.vibes.deep_view(),
            tags: self.tags.deep_view(),
            kind: self.kind.deep_view(),
            sprite_ext: self.sprite_ext@,
            file_sizes: self.file_sizes.deep_view(),
            has_sprite: self.has_sprite,
        }
    }
}

/// What is known of a pet before its files are looked at.
pub open spec fn first_facts(slug: Seq<char>) -> PetFactsModel {
    PetFactsModel {
        display_name: slug,
        vibes: seq![],
        tags: seq![],
        kind: None,
        sprite_ext: "webp"@,
        file_sizes: Map::empty(),
        has_sprite: false,
    }
}

/// The value, or the one that there was before.
pub open spec fn or_before<A>(value: Option<A>, before: A) -> A {
    match value {
        Some(v) => v,
        None => before,
    }
}

/// A spritesheet of `size` bytes with this extension was come upon. Its extension counts even
/// if it could not be written.
pub open spec fn with_sheet(
    facts: PetFactsModel,
    ext: Seq<char>,
    size: u64,
    written: bool,
) -> PetFactsModel {
    if written {
        PetFactsModel {
            sprite_ext: ext,
            file_sizes: facts.file_sizes.insert("spritesheet"@, size),
            has_sprite: true,
            ..facts
        }
    } else {
        PetFactsModel { sprite_ext: ext, ..facts }
    }
}

/// What is known after one more file, of this kind and size, that holds this document. What a
/// file tells counts only if it could be written.
pub open spec fn noted(
    facts: PetFactsModel,
    kind: FileKind,
    size: u64,
    document: PetDocumentModel,
    written: bool,
) -> PetFactsModel {
    match kind {
        FileKind::WebpSheet => with_sheet(facts, "webp"@, size, written),
        FileKind::PngSheet => with_sheet(facts, "png"@, size, written),
        FileKind::PetJson => if written {
            PetFactsModel {
                display_name: or_before(document.display_name, facts.display_name),
                file_sizes: facts.file_sizes.insert("pet.json"@, size),
                ..facts
            }
        } else {
            facts
        },
        FileKind::Metadata => if written {
            PetFactsModel {
                display_name: or_before(document.display_name, facts.display_name),
                vibes: or_before(document.vibes, facts.vibes),
                tags: or_before(document.tags, facts.tags),
                kind: match document.kind {
                    Some(k) => Some(k),
                    None => facts.kind,
                },
                ..facts
            }
        } else {
            facts
        },
        FileKind::Other => facts,
    }
}

/// What is known after the files, in order; `written` tells of each whether it could be written.
pub open spec fn facts_of(
    slug: Seq<char>,
    files: Seq<(Seq<char>, Seq<u8>)>,
    written: Seq<bool>,
) -> PetFactsModel
    decreases files.len(),
{
    if files.len() == 0 {
        first_facts(slug)
    } else {
        noted(
            facts_of(slug, files.drop_last(), written),
            kind_of(lowercase(files.last().0)),
            files.last().1.len() as u64,
            document_of(files.last().1),
            written[files.len() - 1],
        )
    }
}

/// Takes note of one more file, of this kind and size, that holds this document.
pub fn note_file(
    facts: PetFacts,
    kind: FileKind,
    size: u64,
    document: PetDocument,
    written: bool,
) -> (r: PetFacts)
    ensures
        r.deep_view() == noted(facts.deep_view(), kind, size, document.deep_view(), written),
{
    let mut facts = facts;
    match kind {
        FileKind::WebpSheet => {
            facts.sprite_ext = "webp".to_owned();
            if written {
                facts.file_sizes.insert("spritesheet".to_owned(), size);
                facts.has_sprite = true;
            }
        },
        FileKind::PngSheet => {
            facts.sprite_ext = "png".to_owned();
            if written {
                facts.file_sizes.insert("spritesheet".to_owned(), size);
                facts.has_sprite = true;
            }
        },
        FileKind::PetJson => {
            if written {
                facts.file_sizes.insert("pet.json".to_owned(), size);
                if let Some(name) = document.display_name {
                    facts.display_name = name;
                }
            }
        },
        FileKind::Metadata => {
            if written {
                if let Some(name) = document.display_name {
                    facts.display_name = name;
                }
                if let Some(vibes) = document.vibes {
                    facts.vibes = vibes;
                }
                if let Some(tags) = document.tags {
                    facts.tags = tags;
                }
                if let Some(k) = document.kind {
                    facts.kind = Some(k);
                }
            }
        },
        FileKind::Other => {},
    }
    facts
}

/// Looks at the files of a pet, in order; `written` tells of each whether it could be written.
pub fn describe_pet(
    slug: &str,
    files: &Vec<(String, Vec<u8>)>,
    written: &Vec<bool>,
) -> (r: PetFacts)
    requires
        written@.len() == files@.len(),
    ensures
        r.deep_view() == facts_of(slug@, files.deep_view(), written@),
{
    let n = files.len();
    let ghost all = files.deep_view();
    let mut facts = PetFacts {
        display_name: slug.to_owned(),
        vibes: Vec::new(),
        tags: Vec::new(),
        kind: None,
        sprite_ext: "webp".to_owned(),
        file_sizes: StrMap::new(),
        has_sprite: false,
    };
    let mut i: usize = 0;
    assert(facts.deep_view() =~= facts_of(slug@, all.take(0), written@));
    while i < n
        invariant
            n == files@.len() == written@.len(),
            all == files.deep_view(),
            i <= n,
            facts.deep_view() == facts_of(slug@, all.take(i as int), written@),
        decreases n - i,
    {
        let bytes = &files[i].1;
        proof {
            assert(all.take(i + 1).drop_last() =~= all.take(i as int));
            assert(all.take(i + 1).last() == files@[i as int].deep_view());
            assert(bytes.deep_view() =~= bytes@);
        }
        let kind = file_kind(files[i].0.as_str());
        let document = match kind {
            FileKind::PetJson => read_document(bytes.as_slice()),
            FileKind::Metadata => read_document(bytes.as_slice()),
            _ => PetDocument { display_name: None, vibes: None, tags: None, kind: None },
        };
        facts = note_file(facts, kind, bytes.len() as u64, document, written[i]);
        i += 1;
    }
    assert(all.take(n as int) =~= all);
    facts
}

/// How many bytes files hold in all.
pub open spec fn bytes_in(files: Seq<(Seq<char>, Seq<u8>)>) -> nat
    decreases files.len(),
{
    if files.len() == 0 {
        0
    } else {
        bytes_in(files.drop_last()) + files.last().1.len()
    }
}

/// A part of the files holds no more than all of them.
proof fn lemma_part_holds_less(files: Seq<(Seq<char>, Seq<u8>)>, n: int)
    requires
        0 <= n <= files.len(),
    ensures
        bytes_in(files.take(n)) <= bytes_in(files),
    decreases files.len() - n,
{
    if n == files.len() {
        assert(files.take(n) =~= files);
    } else {
        assert(files.take(n + 1).drop_last() =~= files.take(n));
        lemma_part_holds_less(files, n + 1);
    }
}

/// Adds the sizes of the files to `start`; nothing, where the sum is out of range.
pub fn add_sizes(start: u64, files: &Vec<(String, Vec<u8>)>) -> (r: Option<u64>)
    ensures
        match r {
            Some(sum) => sum == start + bytes_in(files.deep_view()),
            None => start + bytes_in(files.deep_view()) > u64::MAX,
        },
{
    let n = files.len();
    let ghost all = files.deep_view();
    let mut sum: u64 = start;
    let mut i: usize = 0;
    assert(bytes_in(all.take(0)) == 0);
    while i < n
        invariant
            n == files@.len(),
            all == files.deep_view(),
            i <= n,
            sum == start + bytes_in(all.take(i as int)),
        decreases n - i,
    {
        proof {
            assert(all.take(i + 1).drop_last() =~= all.take(i as int));
            assert(all.take(i + 1).last() == files@[i as int].deep_view());
            lemma_part_holds_less(all, i + 1);
        }
        match sum.checked_add(files[i].1.len() as u64) {
            Some(more) => {
                sum = more;
            },
            None => {
                return None;
            },
        }
        i += 1;
    }
    assert(all.take(n as int) =~= all);
    Some(sum)
}

// ---------------------------------------------------------------------------------------------
// A run
// ---------------------------------------------------------------------------------------------

/// The installation of a bundle that is under way.
pub struct BundleRun {
    queue: Vec<(String, Vec<(String, Vec<u8>)>)>,
    total: u32,
    total_bytes: u64,
    added: Vec<String>,
    skipped: Vec<String>,
    failed: Vec<FailedInstall>,
}

/// What a [`BundleRun`] stands for.
#[verifier::ext_equal]
pub struct BundleRunModel {
    /// The pets that are still to be installed, with their files.
    pub waiting: Seq<(Seq<char>, Seq<(Seq<char>, Seq<u8>)>)>,
    /// The number of pets, as it is reported.
    pub total: u32,
    pub total_bytes: u64,
    pub added: Seq<Seq<char>>,
    pub skipped: Seq<Seq<char>>,
    pub failed: Seq<FailedInstallModel>,
}

impl DeepView for BundleRun {
    type V = BundleRunModel;

    closed spec fn deep_view(&self) -> BundleRunModel {
        BundleRunModel {
            waiting: self.queue.deep_view(),
            total: self.total,
            total_bytes: self.total_bytes,
            added: self.added.deep_view(),
            skipped: self.skipped.deep_view(),
            failed: self.failed.deep_view(),
        }
    }
}

/// Tells the pets that are installed already, or those that are not.
pub open spec fn is_known(installed: Map<Seq<char>, LocalPetModel>, known: bool) -> spec_fn(
    (Seq<char>, Seq<(Seq<char>, Seq<u8>)>),
) -> bool {
    |p: (Seq<char>, Seq<(Seq<char>, Seq<u8>)>)| installed.contains_key(p.0) == known
}

/// The pets of a bundle that are installed already, or those that are not, with their files.
pub open spec fn known_pets(
    pairs: Seq<(Seq<char>, Seq<(Seq<char>, Seq<u8>)>)>,
    installed: Map<Seq<char>, LocalPetModel>,
    known: bool,
) -> Seq<(Seq<char>, Seq<(Seq<char>, Seq<u8>)>)> {
    pairs.filter(is_known(installed, known))
}

/// A run that starts with these pets, of which the installed ones are skipped.
pub open spec fn run_with(
    pairs: Seq<(Seq<char>, Seq<(Seq<char>, Seq<u8>)>)>,
    installed: Map<Seq<char>, LocalPetModel>,
    total: u32,
) -> BundleRunModel {
    BundleRunModel {
        waiting: known_pets(pairs, installed, false),
        total,
        total_bytes: 0,
        added: seq![],
        skipped: keys_of(known_pets(pairs, installed, true)),
        failed: seq![],
    }
}

/// A run on a bundle that cannot be read.
pub open spec fn unreadable_run(fault: Seq<char>, total: u32) -> BundleRunModel {
    BundleRunModel {
        waiting: seq![],
        total,
        total_bytes: 0,
        added: seq![],
        skipped: seq![],
        failed: seq![FailedInstallModel { slug: "bundle"@, reason: "zip: "@ + fault }],
    }
}

/// `run` is how a run starts on the files of a bundle: the pets are taken in ascending order of
/// their slugs, and installed ones are skipped.
pub open spec fn starts_with_files(
    run: BundleRunModel,
    files: Seq<BundleFileModel>,
    installed: Map<Seq<char>, LocalPetModel>,
    total: u32,
) -> bool {
    exists|pairs: Seq<(Seq<char>, Seq<(Seq<char>, Seq<u8>)>)>|
        {
            &&& #[trigger] in_key_order(by_pet(files), pairs)
            &&& run == run_with(pairs, installed, total)
        }
}

/// `run` is how a run starts on what was read of a bundle.
pub open spec fn starts_with(
    run: BundleRunModel,
    read: Result<Seq<BundleFileModel>, Seq<char>>,
    installed: Map<Seq<char>, LocalPetModel>,
    total: u32,
) -> bool {
    match read {
        Ok(files) => starts_with_files(run, files, installed, total),
        Err(e) => run == unreadable_run(e, total),
    }
}

/// Starts the installation of what was read of a bundle.
pub fn start_bundle(
    manifest: &LocalManifest,
    total: u32,
    read: Result<Vec<BundleFile>, String>,
) -> (r: BundleRun)
    ensures
        starts_with(r.deep_view(), bundle_model(read), manifest.deep_view().pets, total),
{
    let added: Vec<String> = Vec::new();
    let mut skipped: Vec<String> = Vec::new();
    let mut failed: Vec<FailedInstall> = Vec::new();
    let mut queue: Vec<(String, Vec<(String, Vec<u8>)>)> = Vec::new();
    proof {
        assert(added.deep_view() =~= seq![]);
        assert(skipped.deep_view() =~= seq![]);
        assert(failed.deep_view() =~= seq![]);
        assert(queue.deep_view() =~= seq![]);
    }
    match read {
        Err(e) => {
            let fault = FailedInstall {
                slug: "bundle".to_owned(),
                reason: join("zip: ", e.as_str()),
            };
            failed.push(fault);
            let run = BundleRun { queue, total, total_bytes: 0, added, skipped, failed };
            assert(run.deep_view() =~= unreadable_run(e@, total));
            run
        },
        Ok(files) => {
            let ghost all = files.deep_view();
            let mut entries = group_files(files).into_entries();
            let ghost pairs = entries.deep_view();
            let ghost installed = manifest.deep_view().pets;
            let n = entries.len();
            let mut i: usize = 0;
            proof {
                reveal(Seq::filter);
                assert(pairs.skip(0) =~= pairs);
                assert(queue.deep_view() =~= known_pets(pairs.take(0), installed, false));
                assert(skipped.deep_view() =~= keys_of(known_pets(pairs.take(0), installed, true)));
            }
            while i < n
                invariant
                    n == pairs.len(),
                    installed == manifest.pets.deep_view(),
                    i <= n,
                    entries.deep_view() == pairs.skip(i as int),
                    queue.deep_view() == known_pets(pairs.take(i as int), installed, false),
                    skipped.deep_view() == keys_of(
                        known_pets(pairs.take(i as int), installed, true),
                    ),
                decreases n - i,
            {
                let ghost left = entries.deep_view();
                let ghost waiting = queue.deep_view();
                let ghost done = skipped.deep_view();
                proof {
                    reveal(Seq::filter);
                    assert(left[0] == pairs[i as int]);
                    assert(pairs.take(i + 1).drop_last() =~= pairs.take(i as int));
                    assert(pairs.take(i + 1).last() == pairs[i as int]);
                    assert(pairs.skip(i + 1) =~= left.drop_first());
                }
                let (slug, files) = entries.remove(0);
                assert(entries.deep_view() =~= left.drop_first());
                if manifest.pets.contains(slug.as_str()) {
                    skipped.push(slug);
                    assert(skipped.deep_view() =~= done.push(slug@));
                    assert(skipped.deep_view() =~= keys_of(
                        known_pets(pairs.take(i + 1), installed, true),
                    ));
                } else {
                    let pair = (slug, files);
                    queue.push(pair);
                    assert(queue.deep_view() =~= waiting.push(pair.deep_view()));
                }
                i += 1;
            }
            let run = BundleRun { queue, total, total_bytes: 0, added, skipped, failed };
            proof {
                assert(pairs.take(n as int) =~= pairs);
                assert(run.deep_view() =~= run_with(pairs, installed, total));
                assert(in_key_order(by_pet(all), pairs));
            }
            run
        },
    }
}

/// Opens a bundle and starts its installation.
pub fn open_bundle(manifest: &LocalManifest, total: u32, bytes: Vec<u8>) -> (r: BundleRun)
    ensures
        exists|heads: Seq<EntryHeadModel>|
            #![trigger bundle_outcome(bytes@, heads)]
            heads_agree(bytes@, heads) && starts_with(
                r.deep_view(),
                bundle_outcome(bytes@, heads),
                manifest.deep_view().pets,
                total,
            ),
{
    let read = read_bundle(bytes);
    start_bundle(manifest, total, read)
}

/// The pet that is to be installed next, with its files: its directory is to be made, and its
/// files are to be written into it. There is none where the run is over.
pub fn current_pet(run: &BundleRun) -> (r: Option<&(String, Vec<(String, Vec<u8>)>)>)
    ensures
        match r {
            Some(pet) => {
                &&& run.deep_view().waiting.len() > 0
                &&& pet.deep_view() == run.deep_view().waiting[0]
            },
            None => run.deep_view().waiting.len() == 0,
        },
{
    if run.queue.len() == 0 {
        None
    } else {
        Some(&run.queue[0])
    }
}

/// The entry of a pet that was installed from a bundle.
pub open spec fn bundled_entry(
    slug: Seq<char>,
    facts: PetFactsModel,
    installed_at: Seq<char>,
    checked_at: Seq<char>,
) -> LocalPetModel {
    LocalPetModel {
        slug,
        display_name: facts.display_name,
        source: "bundle"@,
        installed_at,
        vibes: facts.vibes,
        tags: facts.tags,
        kind: facts.kind,
        sprite_ext: facts.sprite_ext,
        file_sizes: facts.file_sizes,
        remote_checked_at: Some(checked_at),
    }
}

impl BundleRunModel {
    /// The slug of the pet that is next.
    pub open spec fn slug(self) -> Seq<char> {
        self.waiting[0].0
    }

    /// The files of the pet that is next.
    pub open spec fn files(self) -> Seq<(Seq<char>, Seq<u8>)> {
        self.waiting[0].1
    }

    /// After the next pet has failed.
    pub open spec fn with_failure(self, reason: Seq<char>) -> BundleRunModel {
        BundleRunModel {
            waiting: self.waiting.drop_first(),
            failed: self.failed.push(FailedInstallModel { slug: self.slug(), reason }),
            ..self
        }
    }

    /// The number under which the next pet is reported if it is installed.
    pub open spec fn next_number(self) -> nat {
        self.added.len() % 0x1_0000_0000 + 1
    }

    /// The counters stay in range when the next pet is written.
    pub open spec fn has_room(self) -> bool {
        &&& self.total_bytes + bytes_in(self.files()) <= u64::MAX
        &&& self.next_number() <= u32::MAX
    }

    /// After the files of the next pet have been written, as far as they could be. It counts as
    /// installed only with a spritesheet.
    pub open spec fn with_written(self, written: Seq<bool>) -> BundleRunModel {
        let counted = BundleRunModel {
            total_bytes: (self.total_bytes + bytes_in(self.files())) as u64,
            ..self
        };
        if facts_of(self.slug(), self.files(), written).has_sprite {
            BundleRunModel {
                waiting: self.waiting.drop_first(),
                added: self.added.push(self.slug()),
                ..counted
            }
        } else {
            counted.with_failure("no spritesheet in bundle entry"@)
        }
    }

    /// What is told after the files of the next pet have been written.
    pub open spec fn written_notice(self, written: Seq<bool>) -> NoticeModel {
        if facts_of(self.slug(), self.files(), written).has_sprite {
            NoticeModel::Progress {
                slug: self.slug(),
                current: self.next_number() as u32,
                total: self.total,
                bytes_downloaded: (self.total_bytes + bytes_in(self.files())) as u64,
            }
        } else {
            NoticeModel::Nothing
        }
    }
}

/// The manifest after the files of a pet have been written, as far as they could be.
pub open spec fn manifest_with_bundled(
    m: LocalManifestModel,
    slug: Seq<char>,
    facts: PetFactsModel,
    installed_at: Seq<char>,
    checked_at: Seq<char>,
) -> LocalManifestModel {
    if facts.has_sprite {
        LocalManifestModel {
            pets: m.pets.insert(slug, bundled_entry(slug, facts, installed_at, checked_at)),
            ..m
        }
    } else {
        m
    }
}

/// The directory of the next pet could not be made.
pub fn record_no_dir(run: BundleRun, fault: &str) -> (r: BundleRun)
    requires
        run.deep_view().waiting.len() > 0,
    ensures
        r.deep_view() == run.deep_view().with_failure("mkdir: "@ + fault@),
{
    let ghost before = run.deep_view();
    let mut run = run;
    let (slug, _) = run.queue.remove(0);
    assert(run.queue.deep_view() =~= before.waiting.drop_first());
    run.failed.push(FailedInstall { slug, reason: join("mkdir: ", fault) });
    assert(run.failed.deep_view() =~= before.with_failure("mkdir: "@ + fault@).failed);
    run
}

/// Whether the counters stay in range when the next pet is written.
pub fn has_room(run: &BundleRun) -> (r: bool)
    requires
        run.deep_view().waiting.len() > 0,
    ensures
        r == run.deep_view().has_room(),
{
    let fits = add_sizes(run.total_bytes, &run.queue[0].1).is_some();
    let n = run.added.len() as u64;
    fits && n % 0x1_0000_0000 < 0xffff_ffff
}

/// The files of the next pet have been written; `written` tells of each whether it could be.
/// The pet is installed, and goes into the manifest with the given times, if a spritesheet is
/// among the written files. The result is the run and what is to be told.
pub fn record_written(
    run: BundleRun,
    manifest: &mut LocalManifest,
    written: &Vec<bool>,
    installed_at: &str,
    checked_at: &str,
) -> (r: (BundleRun, Notice))
    requires
        run.deep_view().waiting.len() > 0,
        run.deep_view().has_room(),
        written@.len() == run.deep_view().files().len(),
    ensures
        r.0.deep_view() == run.deep_view().with_written(written@),
        r.1.deep_view() == run.deep_view().written_notice(written@),
        final(manifest).deep_view() == manifest_with_bundled(
            old(manifest).deep_view(),
            run.deep_view().slug(),
            facts_of(run.deep_view().slug(), run.deep_view().files(), written@),
            installed_at@,
            checked_at@,
        ),
        facts_of(run.deep_view().slug(), run.deep_view().files(), written@).has_sprite ==> ({
            let slug = run.deep_view().waiting[0].0;
            let files = run.deep_view().waiting[0].1;
            let entry = final(manifest).deep_view().pets[slug];
            &&& final(manifest).deep_view().pets.contains_key(slug)
            &&& entry.slug == slug
            &&& entry.source == "bundle"@
            &&& entry.installed_at == installed_at@
            &&& entry.remote_checked_at == Some(checked_at@)
            &&& entry.display_name == last_there(names_told(files, written@), slug)
            &&& entry.vibes == last_there(lists_told(files, written@, "vibes"@), seq![])
            &&& entry.tags == last_there(lists_told(files, written@, "tags"@), seq![])
            &&& entry.kind == last_there(kinds_told(files, written@), None)
            &&& entry.sprite_ext == last_there(extensions_told(files), "webp"@)
        }),
{
    let ghost before = run.deep_view();
    proof {
        lemma_the_last_file_counts(before.slug(), before.files(), written@);
    }
    let mut run = run;
    let (slug, files) = run.queue.remove(0);
    proof {
        assert(run.queue.deep_view() =~= before.waiting.drop_first());
        assert(slug@ == before.slug());
        assert(files.deep_view() == before.files());
    }
    let total_bytes = match add_sizes(run.total_bytes, &files) {
        Some(sum) => sum,
        None => run.total_bytes,
    };
    run.total_bytes = total_bytes;
    let facts = describe_pet(slug.as_str(), &files, written);
    if !facts.has_sprite {
        let fault = FailedInstall { slug, reason: "no spritesheet in bundle entry".to_owned() };
        run.failed.push(fault);
        assert(run.failed.deep_view() =~= before.failed.push(fault.deep_view()));
        return (run, Notice::Nothing);
    }
    let n = run.added.len() as u64;
    proof {
        assert((#[verifier::truncate] (n as u32)) == n % 0x1_0000_0000) by (bit_vector);
    }
    let before_it: u32 = #[verifier::truncate]
    (n as u32);
    let current = before_it + 1;
    let entry = LocalPetEntry {
        slug: slug.duplicate(),
        display_name: facts.display_name,
        source: "bundle".to_owned(),
        installed_at: installed_at.to_owned(),
        vibes: facts.vibes,
        tags: facts.tags,
        kind: facts.kind,
        sprite_ext: facts.sprite_ext,
        file_sizes: facts.file_sizes,
        remote_checked_at: Some(checked_at.to_owned()),
    };
    manifest.pets.insert(slug.duplicate(), entry);
    run.added.push(slug.duplicate());
    assert(run.added.deep_view() =~= before.added.push(slug@));
    let total = run.total;
    (run, Notice::Progress { slug, current, total, bytes_downloaded: total_bytes })
}

/// Ends the run, at the time `now`: the manifest notes it, and the result is the report.
pub fn finish_bundle(
    run: BundleRun,
    manifest: &mut LocalManifest,
    generated_at: &Option<String>,
    now: &str,
    duration_ms: u64,
) -> (r: InstallReport)
    ensures
        r.deep_view() == (InstallReportModel {
            added: run.deep_view().added,
            skipped: run.deep_view().skipped,
            failed: run.deep_view().failed,
            total_bytes: run.deep_view().total_bytes,
            duration_ms,
        }),
        final(manifest).deep_view() == old(manifest).deep_view().synced(
            now@,
            generated_at.deep_view(),
        ),
{
    manifest.note_sync(now, generated_at);
    InstallReport {
        added: run.added,
        skipped: run.skipped,
        failed: run.failed,
        total_bytes: run.total_bytes,
        duration_ms,
    }
}

/// The event that announces the installation of a bundle.
pub fn bundle_started(total: u32) -> (r: StartedEvent)
    ensures
        r.kind@ == "bundle"@,
        r.expected == total,
{
    StartedEvent { kind: "bundle".to_owned(), expected: total }
}

/// The report on a bundle that could not be downloaded.
pub fn no_bundle_report(fault: &str, duration_ms: u64) -> (r: InstallReport)
    ensures
        r.deep_view() == (InstallReportModel {
            added: seq![],
            skipped: seq![],
            failed: seq![
                FailedInstallModel { slug: "bundle"@, reason: "bundle download: "@ + fault@ },
            ],
            total_bytes: 0,
            duration_ms,
        }),
{
    let mut failed: Vec<FailedInstall> = Vec::new();
    failed.push(
        FailedInstall { slug: "bundle".to_owned(), reason: join("bundle download: ", fault) },
    );
    let r = InstallReport {
        added: Vec::new(),
        skipped: Vec::new(),
        failed,
        total_bytes: 0,
        duration_ms,
    };
    proof {
        assert(r.deep_view().added =~= seq![]);
        assert(r.deep_view().skipped =~= seq![]);
        assert(r.deep_view().failed =~= seq![
            FailedInstallModel { slug: "bundle"@, reason: "bundle download: "@ + fault@ },
        ]);
    }
    r
}

// ---------------------------------------------------------------------------------------------
// Laws
// ---------------------------------------------------------------------------------------------

/// A file of this name is a spritesheet.
pub open spec fn is_sheet(name: Seq<char>) -> bool {
    kind_of(lowercase(name)) is WebpSheet || kind_of(lowercase(name)) is PngSheet
}

/// A pet of a bundle has a spritesheet exactly when one of its spritesheets could be written.
pub proof fn sprite_is_a_written_sheet(
    slug: Seq<char>,
    files: Seq<(Seq<char>, Seq<u8>)>,
    written: Seq<bool>,
)
    ensures
        facts_of(slug, files, written).has_sprite <==> exists|i: int|
            0 <= i < files.len() && is_sheet((#[trigger] files[i]).0) && written[i],
    decreases files.len(),
{
    if files.len() > 0 {
        let init = files.drop_last();
        let last = files.len() - 1;
        sprite_is_a_written_sheet(slug, init, written);
        if facts_of(slug, init, written).has_sprite {
            let i = choose|i: int|
                0 <= i < init.len() && is_sheet((#[trigger] init[i]).0) && written[i];
            assert(files[i] == init[i]);
        }
        assert(is_sheet(files[last].0) && written[last] ==> facts_of(
            slug,
            files,
            written,
        ).has_sprite);
        if exists|i: int| 0 <= i < files.len() && is_sheet((#[trigger] files[i]).0) && written[i] {
            let i = choose|i: int|
                0 <= i < files.len() && is_sheet((#[trigger] files[i]).0) && written[i];
            if i < last {
                assert(init[i] == files[i]);
            }
        }
    }
}

/// A pet that was installed, and whose files are then put into a bundle, comes out of it with
/// the display name, the kind, the vibes and the tags that it was offered with.
pub proof fn metadata_survives_a_bundle(
    pet: RemotePetModel,
    sprite_ext: Seq<char>,
    imported_at: Seq<char>,
    bytes: Seq<u8>,
    facts: PetFactsModel,
    size: u64,
)
    requires
        reads_back(bytes, metadata_fields(pet, sprite_ext, imported_at)),
    ensures
        noted(facts, FileKind::Metadata, size, document_of(bytes), true) == (PetFactsModel {
            display_name: pet.display_name,
            vibes: pet.vibes,
            tags: pet.tags,
            kind: Some(text_or_empty(pet.kind)),
            ..facts
        }),
{
    let f = metadata_fields(pet, sprite_ext, imported_at);
    assert(f[2] == ("displayName"@, JsonFieldModel::Text(pet.display_name)));
    assert(f[6] == ("kind"@, JsonFieldModel::Text(text_or_empty(pet.kind))));
    assert(f[7] == ("vibes"@, JsonFieldModel::Texts(pet.vibes)));
    assert(f[8] == ("tags"@, JsonFieldModel::Texts(pet.tags)));
    all_texts_are_among(pet.vibes);
    all_texts_are_among(pet.tags);
}

/// The pets of a bundle are divided into those that are skipped and those that are installed.
#[verifier::spinoff_prover]
proof fn lemma_pets_are_divided(
    pairs: Seq<(Seq<char>, Seq<(Seq<char>, Seq<u8>)>)>,
    installed: Map<Seq<char>, LocalPetModel>,
)
    ensures
        keys_of(known_pets(pairs, installed, true)).to_multiset().add(
            keys_of(known_pets(pairs, installed, false)).to_multiset(),
        ) == keys_of(pairs).to_multiset(),
    decreases pairs.len(),
{
    broadcast use vstd::multiset::group_multiset_axioms;
    broadcast use vstd::seq_lib::group_to_multiset_ensures;

    reveal(Seq::filter);
    let x = known_pets(pairs, installed, true);
    let y = known_pets(pairs, installed, false);
    if pairs.len() > 0 {
        let init = pairs.drop_last();
        let last = pairs.last();
        lemma_pets_are_divided(init, installed);
        let x0 = known_pets(init, installed, true);
        let y0 = known_pets(init, installed, false);
        assert(keys_of(pairs) =~= keys_of(init).push(last.0));
        vstd::seq_lib::to_multiset_build(keys_of(init), last.0);
        if installed.contains_key(last.0) {
            assert(keys_of(x) =~= keys_of(x0).push(last.0));
            vstd::seq_lib::to_multiset_build(keys_of(x0), last.0);
            assert(y == y0);
        } else {
            assert(keys_of(y) =~= keys_of(y0).push(last.0));
            vstd::seq_lib::to_multiset_build(keys_of(y0), last.0);
            assert(x == x0);
        }
    } else {
        assert(keys_of(x) =~= seq![]);
        assert(keys_of(y) =~= seq![]);
        assert(keys_of(pairs) =~= seq![]);
    }
    assert(keys_of(x).to_multiset().add(keys_of(y).to_multiset()) =~= keys_of(
        pairs,
    ).to_multiset());
}

/// Every pet that a run has dealt with or has yet to deal with, each as often as it occurs.
pub open spec fn ledger(run: BundleRunModel) -> vstd::multiset::Multiset<Seq<char>> {
    run.added.to_multiset().add(run.skipped.to_multiset()).add(
        failed_slugs(run.failed).to_multiset(),
    ).add(keys_of(run.waiting).to_multiset())
}

/// A run starts with each pet of the bundle, once: it is skipped or waits.
#[verifier::spinoff_prover]
pub proof fn run_starts_with_every_pet(
    pairs: Seq<(Seq<char>, Seq<(Seq<char>, Seq<u8>)>)>,
    installed: Map<Seq<char>, LocalPetModel>,
    total: u32,
)
    ensures
        ledger(run_with(pairs, installed, total)) == keys_of(pairs).to_multiset(),
{
    broadcast use vstd::multiset::group_multiset_axioms;
    broadcast use vstd::seq_lib::group_to_multiset_ensures;

    let run = run_with(pairs, installed, total);
    lemma_pets_are_divided(pairs, installed);
    assert(failed_slugs(run.failed) =~= seq![]);
    assert(ledger(run) =~= keys_of(pairs).to_multiset());
}

/// A pet that is installed already is never installed from a bundle: it is skipped, and whoever
/// waits is not installed.
pub proof fn bundle_replaces_no_pet(
    pairs: Seq<(Seq<char>, Seq<(Seq<char>, Seq<u8>)>)>,
    installed: Map<Seq<char>, LocalPetModel>,
    total: u32,
)
    ensures
        forall|i: int|
            0 <= i < run_with(pairs, installed, total).waiting.len() ==> !installed.contains_key(
                (#[trigger] run_with(pairs, installed, total).waiting[i]).0,
            ),
        forall|i: int|
            0 <= i < run_with(pairs, installed, total).skipped.len() ==> installed.contains_key(
                #[trigger] run_with(pairs, installed, total).skipped[i],
            ),
{
    let run = run_with(pairs, installed, total);
    assert forall|i: int| 0 <= i < run.waiting.len() implies !installed.contains_key(
        (#[trigger] run.waiting[i]).0,
    ) by {
        pairs.lemma_filter_pred(is_known(installed, false), i);
    }
    assert forall|i: int| 0 <= i < run.skipped.len() implies installed.contains_key(
        #[trigger] run.skipped[i],
    ) by {
        pairs.lemma_filter_pred(is_known(installed, true), i);
    }
}

/// Dealing with a pet loses no pet and counts none twice: the one that was next is added or has
/// failed, and every other one stays where it was.
#[verifier::spinoff_prover]
pub proof fn each_pet_is_dealt_with_once(
    run: BundleRunModel,
    reason: Seq<char>,
    written: Seq<bool>,
)
    requires
        run.waiting.len() > 0,
    ensures
        ledger(run.with_failure(reason)) == ledger(run),
        ledger(run.with_written(written)) == ledger(run),
        run.with_failure(reason).waiting == run.waiting.drop_first(),
        run.with_written(written).waiting == run.waiting.drop_first(),
{
    broadcast use vstd::multiset::group_multiset_axioms;
    broadcast use vstd::seq_lib::group_to_multiset_ensures;

    let slug = run.slug();
    let rest = keys_of(run.waiting.drop_first());
    let keys = keys_of(run.waiting);
    assert(keys =~= seq![slug] + rest);
    vstd::seq_lib::lemma_multiset_commutative(seq![slug], rest);
    assert(seq![slug] =~= Seq::<Seq<char>>::empty().push(slug));
    vstd::seq_lib::to_multiset_build(Seq::<Seq<char>>::empty(), slug);
    vstd::seq_lib::to_multiset_build(run.added, slug);
    vstd::seq_lib::to_multiset_build(failed_slugs(run.failed), slug);
    let a = run.with_failure(reason);
    assert(failed_slugs(a.failed) =~= failed_slugs(run.failed).push(slug));
    assert(ledger(a) =~= ledger(run));
    let b = run.with_written(written);
    if facts_of(slug, run.files(), written).has_sprite {
        assert(ledger(b) =~= ledger(run));
    } else {
        assert(failed_slugs(b.failed) =~= failed_slugs(run.failed).push(slug));
        assert(ledger(b) =~= ledger(run));
    }
}

/// Whatever a run has added is installed, whatever becomes of the next pet, and no other pet is
/// touched.
pub proof fn bundled_pets_are_installed(
    run: BundleRunModel,
    m: LocalManifestModel,
    reason: Seq<char>,
    written: Seq<bool>,
    installed_at: Seq<char>,
    checked_at: Seq<char>,
)
    requires
        run.waiting.len() > 0,
        all_installed(run.added, m.pets),
    ensures
        all_installed(run.with_failure(reason).added, m.pets),
        ({
            let after = manifest_with_bundled(
                m,
                run.slug(),
                facts_of(run.slug(), run.files(), written),
                installed_at,
                checked_at,
            );
            &&& all_installed(run.with_written(written).added, after.pets)
            &&& forall|k: Seq<char>| #[trigger]
                m.pets.contains_key(k) ==> after.pets.contains_key(k)
            &&& forall|k: Seq<char>|
                k != run.slug() && #[trigger] m.pets.contains_key(k) ==> after.pets[k] == m.pets[k]
        }),
{
}

/// A model of a document has its fields, each as it is.
pub proof fn pet_document_is_modelled_by_its_fields(x: PetDocument)
    ensures
        x.deep_view().display_name == x.display_name.deep_view(),
        x.deep_view().vibes == x.vibes.deep_view(),
        x.deep_view().tags == x.tags.deep_view(),
        x.deep_view().kind == x.kind.deep_view(),
{
}

/// A model of what is known of a pet has its fields, each as it is.
pub proof fn pet_facts_is_modelled_by_its_fields(x: PetFacts)
    ensures
        x.deep_view().display_name == x.display_name@,
        x.deep_view().vibes == x.vibes.deep_view(),
        x.deep_view().tags == x.tags.deep_view(),
        x.deep_view().kind == x.kind.deep_view(),
        x.deep_view().sprite_ext == x.sprite_ext@,
        x.deep_view().file_sizes == x.file_sizes.deep_view(),
        x.deep_view().has_sprite == x.has_sprite,
{
}

/// A file is what its name in lower case says it is.
pub proof fn the_name_tells_the_kind(lower: Seq<char>)
    ensures
        kind_of(lower) is WebpSheet <==> lower == "spritesheet.webp"@,
        kind_of(lower) is PngSheet <==> lower == "spritesheet.png"@,
        kind_of(lower) is PetJson <==> lower == "pet.json"@,
        kind_of(lower) is Metadata <==> lower == "metadata.json"@,
{
    reveal_strlit("spritesheet.webp");
    reveal_strlit("spritesheet.png");
    reveal_strlit("pet.json");
    reveal_strlit("metadata.json");
    assert("spritesheet.webp"@.len() == 16);
    assert("spritesheet.png"@.len() == 15);
    assert("pet.json"@.len() == 8);
    assert("metadata.json"@.len() == 13);
}

/// A document tells a display name and a kind by the texts under those keys, and vibes and tags by
/// the texts of the arrays under those keys; each only where it is there.
pub proof fn a_document_tells_what_stands_under_its_keys(bytes: Seq<u8>)
    ensures
        document_of(bytes).display_name == text_field(bytes, "displayName"@),
        document_of(bytes).kind == text_field(bytes, "kind"@),
        list_field(bytes, "vibes"@) matches Some(list) ==> document_of(bytes).vibes == Some(
            texts_among(list),
        ),
        list_field(bytes, "vibes"@) is None ==> document_of(bytes).vibes is None,
        list_field(bytes, "tags"@) matches Some(list) ==> document_of(bytes).tags == Some(
            texts_among(list),
        ),
        list_field(bytes, "tags"@) is None ==> document_of(bytes).tags is None,
{
}

/// The last value that there is in a sequence, or another one where there is none.
pub open spec fn last_there<A>(s: Seq<Option<A>>, otherwise: A) -> A
    decreases s.len(),
{
    if s.len() == 0 {
        otherwise
    } else {
        match s.last() {
            Some(v) => v,
            None => last_there(s.drop_last(), otherwise),
        }
    }
}

/// The last value that there is in a sequence is one behind which there is none.
pub proof fn nothing_is_behind_the_last<A>(s: Seq<Option<A>>, otherwise: A, i: int)
    ensures
        0 <= i < s.len() && s[i] is Some && (forall|j: int|
            i < j < s.len() ==> #[trigger] s[j] is None) ==> last_there(s, otherwise) == s[i]->0,
        (forall|j: int| 0 <= j < s.len() ==> #[trigger] s[j] is None) ==> last_there(s, otherwise)
            == otherwise,
    decreases s.len(),
{
    if s.len() > 0 {
        let init = s.drop_last();
        let last = s.len() - 1;
        nothing_is_behind_the_last(init, otherwise, i);
        if 0 <= i < last && s[i] is Some && (forall|j: int|
            i < j < s.len() ==> #[trigger] s[j] is None) {
            assert(s[last] is None);
            assert(init[i] == s[i]);
            assert forall|j: int| i < j < init.len() implies #[trigger] init[j] is None by {
                assert(s[j] is None);
            }
        }
        if forall|j: int| 0 <= j < s.len() ==> #[trigger] s[j] is None {
            assert(s[last] is None);
            assert forall|j: int| 0 <= j < init.len() implies #[trigger] init[j] is None by {
                assert(s[j] is None);
            }
        }
    }
}

/// The display names that files tell of, as far as they were written.
pub open spec fn names_told(files: Seq<(Seq<char>, Seq<u8>)>, written: Seq<bool>) -> Seq<
    Option<Seq<char>>,
> {
    Seq::new(
        files.len(),
        |i: int|
            if written[i] && (lowercase(files[i].0) == "pet.json"@ || lowercase(files[i].0)
                == "metadata.json"@) {
                text_field(files[i].1, "displayName"@)
            } else {
                None
            },
    )
}

/// The kinds that files tell of, as far as they were written.
pub open spec fn kinds_told(files: Seq<(Seq<char>, Seq<u8>)>, written: Seq<bool>) -> Seq<
    Option<Option<Seq<char>>>,
> {
    Seq::new(
        files.len(),
        |i: int|
            if written[i] && lowercase(files[i].0) == "metadata.json"@ && text_field(
                files[i].1,
                "kind"@,
            ) is Some {
                Some(text_field(files[i].1, "kind"@))
            } else {
                None
            },
    )
}

/// The lists of texts that files tell of under a key, as far as they were written.
pub open spec fn lists_told(
    files: Seq<(Seq<char>, Seq<u8>)>,
    written: Seq<bool>,
    key: Seq<char>,
) -> Seq<Option<Seq<Seq<char>>>> {
    Seq::new(
        files.len(),
        |i: int|
            if written[i] && lowercase(files[i].0) == "metadata.json"@ && list_field(
                files[i].1,
                key,
            ) is Some {
                Some(texts_among(list_field(files[i].1, key)->0))
            } else {
                None
            },
    )
}

/// The extensions of the spritesheets, written or not.
pub open spec fn extensions_told(files: Seq<(Seq<char>, Seq<u8>)>) -> Seq<Option<Seq<char>>> {
    Seq::new(
        files.len(),
        |i: int|
            if lowercase(files[i].0) == "spritesheet.webp"@ {
                Some("webp"@)
            } else if lowercase(files[i].0) == "spritesheet.png"@ {
                Some("png"@)
            } else {
                None
            },
    )
}

/// The sizes of the spritesheets that were written.
pub open spec fn sheet_sizes_told(
    files: Seq<(Seq<char>, Seq<u8>)>,
    written: Seq<bool>,
) -> Seq<Option<Option<u64>>> {
    Seq::new(
        files.len(),
        |i: int|
            if written[i] && (lowercase(files[i].0) == "spritesheet.webp"@ || lowercase(files[i].0)
                == "spritesheet.png"@) {
                Some(Some(files[i].1.len() as u64))
            } else {
                None
            },
    )
}

/// The sizes of the descriptions that were written.
pub open spec fn description_sizes_told(
    files: Seq<(Seq<char>, Seq<u8>)>,
    written: Seq<bool>,
) -> Seq<Option<Option<u64>>> {
    Seq::new(
        files.len(),
        |i: int|
            if written[i] && lowercase(files[i].0) == "pet.json"@ {
                Some(Some(files[i].1.len() as u64))
            } else {
                None
            },
    )
}

/// What a map has under a key, if anything.
pub open spec fn under<A>(m: Map<Seq<char>, A>, key: Seq<char>) -> Option<A> {
    if m.contains_key(key) {
        Some(m[key])
    } else {
        None
    }
}

/// What the files of a pet tell of it is, of each thing, what the last of them tells that was
/// written and tells it at all.
#[verifier::spinoff_prover]
#[verifier::rlimit(40)]
proof fn lemma_the_last_file_counts(
    slug: Seq<char>,
    files: Seq<(Seq<char>, Seq<u8>)>,
    written: Seq<bool>,
)
    ensures
        ({
            let facts = facts_of(slug, files, written);
            &&& facts.display_name == last_there(names_told(files, written), slug)
            &&& facts.vibes == last_there(lists_told(files, written, "vibes"@), seq![])
            &&& facts.tags == last_there(lists_told(files, written, "tags"@), seq![])
            &&& facts.kind == last_there(kinds_told(files, written), None)
            &&& facts.sprite_ext == last_there(extensions_told(files), "webp"@)
            &&& under(facts.file_sizes, "spritesheet"@) == last_there(
                sheet_sizes_told(files, written),
                None,
            )
            &&& under(facts.file_sizes, "pet.json"@) == last_there(
                description_sizes_told(files, written),
                None,
            )
            &&& forall|k: Seq<char>| #[trigger]
                facts.file_sizes.contains_key(k) ==> k == "spritesheet"@ || k == "pet.json"@
        }),
    decreases files.len(),
{
    assert("spritesheet"@ != "pet.json"@) by {
        reveal_strlit("spritesheet");
        reveal_strlit("pet.json");
        assert("spritesheet"@.len() == 11 && "pet.json"@.len() == 8);
    }
    if files.len() > 0 {
        let init = files.drop_last();
        lemma_the_last_file_counts(slug, init, written);
        the_name_tells_the_kind(lowercase(files.last().0));
        assert(names_told(files, written).drop_last() =~= names_told(init, written));
        assert(lists_told(files, written, "vibes"@).drop_last() =~= lists_told(
            init,
            written,
            "vibes"@,
        ));
        assert(lists_told(files, written, "tags"@).drop_last() =~= lists_told(
            init,
            written,
            "tags"@,
        ));
        assert(kinds_told(files, written).drop_last() =~= kinds_told(init, written));
        assert(extensions_told(files).drop_last() =~= extensions_told(init));
        assert(sheet_sizes_told(files, written).drop_last() =~= sheet_sizes_told(init, written));
        assert(description_sizes_told(files, written).drop_last() =~= description_sizes_told(
            init,
            written,
        ));
    } else {
        assert(facts_of(slug, files, written).vibes =~= seq![]);
    }
}

/// A pet of a bundle goes into the manifest, in place of any entry it had, with what its files
/// tell: of each thing, what the last file tells that was written and tells it at all. It goes in
/// exactly when one of its spritesheets was written.
pub proof fn a_bundled_pet_is_recorded_as_its_files_tell(
    m: LocalManifestModel,
    slug: Seq<char>,
    files: Seq<(Seq<char>, Seq<u8>)>,
    written: Seq<bool>,
    installed_at: Seq<char>,
    checked_at: Seq<char>,
)
    ensures
        ({
            let after = manifest_with_bundled(
                m,
                slug,
                facts_of(slug, files, written),
                installed_at,
                checked_at,
            );
            let has_sheet = exists|i: int|
                0 <= i < files.len() && written[i] && (lowercase((#[trigger] files[i]).0)
                    == "spritesheet.webp"@ || lowercase(files[i].0) == "spritesheet.png"@);
            &&& !has_sheet ==> after == m
            &&& after.last_synced_at == m.last_synced_at
            &&& after.last_remote_manifest_at == m.last_remote_manifest_at
            &&& has_sheet ==> after.pets.contains_key(slug) && ({
                let entry = after.pets[slug];
                &&& entry.slug == slug
                &&& entry.source == "bundle"@
                &&& entry.installed_at == installed_at
                &&& entry.remote_checked_at == Some(checked_at)
                &&& entry.display_name == last_there(names_told(files, written), slug)
                &&& entry.vibes == last_there(lists_told(files, written, "vibes"@), seq![])
                &&& entry.tags == last_there(lists_told(files, written, "tags"@), seq![])
                &&& entry.kind == last_there(kinds_told(files, written), None)
                &&& entry.sprite_ext == last_there(extensions_told(files), "webp"@)
                &&& under(entry.file_sizes, "spritesheet"@) == last_there(
                    sheet_sizes_told(files, written),
                    None,
                )
                &&& under(entry.file_sizes, "pet.json"@) == last_there(
                    description_sizes_told(files, written),
                    None,
                )
                &&& forall|k: Seq<char>| #[trigger]
                    entry.file_sizes.contains_key(k) ==> k == "spritesheet"@ || k == "pet.json"@
            })
        }),
{
    lemma_the_last_file_counts(slug, files, written);
    sprite_is_a_written_sheet(slug, files, written);
    assert forall|i: int| 0 <= i < files.len() implies (is_sheet((#[trigger] files[i]).0) <==> (
    lowercase(files[i].0) == "spritesheet.webp"@ || lowercase(files[i].0)
        == "spritesheet.png"@)) by {
        the_name_tells_the_kind(lowercase(files[i].0));
    }
}

/// A pet whose last metadata was written for an offered pet goes into the manifest with the vibes
/// and the tags of that pet, each where it belongs, and with its display name where no later file
/// tells another.
pub proof fn a_bundled_pet_has_what_was_offered(
    m: LocalManifestModel,
    slug: Seq<char>,
    files: Seq<(Seq<char>, Seq<u8>)>,
    written: Seq<bool>,
    installed_at: Seq<char>,
    checked_at: Seq<char>,
    pet: RemotePetModel,
    i: int,
)
    requires
        facts_of(slug, files, written).has_sprite,
        0 <= i < files.len(),
        written[i],
        lowercase(files[i].0) == "metadata.json"@,
        text_field(files[i].1, "displayName"@) == Some(pet.display_name),
        list_field(files[i].1, "vibes"@) == Some(pet.vibes.map_values(|s: Seq<char>| Some(s))),
        list_field(files[i].1, "tags"@) == Some(pet.tags.map_values(|s: Seq<char>| Some(s))),
        forall|j: int|
            i < j < files.len() ==> lowercase((#[trigger] files[j]).0) != "metadata.json"@,
    ensures
        ({
            let entry = manifest_with_bundled(
                m,
                slug,
                facts_of(slug, files, written),
                installed_at,
                checked_at,
            ).pets[slug];
            &&& entry.vibes == pet.vibes
            &&& entry.tags == pet.tags
            &&& (forall|j: int|
                i < j < files.len() ==> lowercase((#[trigger] files[j]).0) != "pet.json"@)
                ==> entry.display_name == pet.display_name
        }),
{
    lemma_the_last_file_counts(slug, files, written);
    all_texts_are_among(pet.vibes);
    all_texts_are_among(pet.tags);
    let v = lists_told(files, written, "vibes"@);
    let t = lists_told(files, written, "tags"@);
    let d = names_told(files, written);
    assert forall|j: int| i < j < v.len() implies #[trigger] v[j] is None by {
        assert(lowercase(files[j].0) != "metadata.json"@);
    }
    assert forall|j: int| i < j < t.len() implies #[trigger] t[j] is None by {
        assert(lowercase(files[j].0) != "metadata.json"@);
    }
    nothing_is_behind_the_last(v, seq![], i);
    nothing_is_behind_the_last(t, seq![], i);
    if forall|j: int| i < j < files.len() ==> lowercase((#[trigger] files[j]).0) != "pet.json"@ {
        assert forall|j: int| i < j < d.len() implies #[trigger] d[j] is None by {
            assert(lowercase(files[j].0) != "metadata.json"@);
            assert(lowercase(files[j].0) != "pet.json"@);
        }
        nothing_is_behind_the_last(d, slug, i);
    }
}

/// The bytes of files add up: those of two parts are those of each, and those of one file are as
/// many as it has.
pub proof fn bytes_add_up(a: Seq<(Seq<char>, Seq<u8>)>, b: Seq<(Seq<char>, Seq<u8>)>)
    ensures
        bytes_in(a + b) == bytes_in(a) + bytes_in(b),
        b.len() == 0 ==> bytes_in(b) == 0,
        b.len() == 1 ==> bytes_in(b) == b[0].1.len(),
    decreases b.len(),
{
    reveal_with_fuel(bytes_in, 2);
    if b.len() > 0 {
        bytes_add_up(a, b.drop_last());
        assert((a + b).drop_last() =~= a + b.drop_last());
        assert((a + b).last() == b.last());
    } else {
        assert(a + b =~= a);
    }
}

/// The pets of a bundle that are known, and those that are not, keep their order: those of two
/// parts are those of each, and of one pet it is the pet or none.
proof fn lemma_known_in_parts(
    a: Seq<(Seq<char>, Seq<(Seq<char>, Seq<u8>)>)>,
    b: Seq<(Seq<char>, Seq<(Seq<char>, Seq<u8>)>)>,
    installed: Map<Seq<char>, LocalPetModel>,
    known: bool,
)
    ensures
        known_pets(a + b, installed, known) == known_pets(a, installed, known) + known_pets(
            b,
            installed,
            known,
        ),
        b.len() == 1 && installed.contains_key(b[0].0) == known ==> known_pets(b, installed, known)
            == b,
        b.len() == 1 && installed.contains_key(b[0].0) != known ==> known_pets(b, installed, known)
            == Seq::<(Seq<char>, Seq<(Seq<char>, Seq<u8>)>)>::empty(),
    decreases b.len(),
{
    reveal(Seq::filter);
    if b.len() > 0 {
        let init = b.drop_last();
        lemma_known_in_parts(a, init, installed, known);
        assert((a + b).drop_last() =~= a + init);
        assert((a + b).last() == b.last());
        assert(b =~= init.push(b.last()));
        if b.len() == 1 {
            assert(init =~= seq![]);
            assert(known_pets(init, installed, known) =~= seq![]);
            if installed.contains_key(b[0].0) == known {
                assert(known_pets(b, installed, known) =~= b);
            }
        }
    } else {
        assert(a + b =~= a);
        assert(known_pets(b, installed, known) =~= seq![]);
    }
    assert(known_pets(a + b, installed, known) =~= known_pets(a, installed, known) + known_pets(
        b,
        installed,
        known,
    ));
}

/// A run on pets in order takes those that are not installed and skips those that are, each in
/// that order and with its files, and starts with nothing counted.
pub proof fn a_run_takes_new_pets_in_order(
    a: Seq<(Seq<char>, Seq<(Seq<char>, Seq<u8>)>)>,
    pet: (Seq<char>, Seq<(Seq<char>, Seq<u8>)>),
    installed: Map<Seq<char>, LocalPetModel>,
    total: u32,
)
    ensures
        ({
            let before = run_with(a, installed, total);
            let after = run_with(a.push(pet), installed, total);
            &&& installed.contains_key(pet.0) ==> after.skipped == before.skipped.push(pet.0)
                && after.waiting == before.waiting
            &&& !installed.contains_key(pet.0) ==> after.waiting == before.waiting.push(pet)
                && after.skipped == before.skipped
            &&& run_with(seq![], installed, total).waiting.len() == 0
            &&& run_with(seq![], installed, total).skipped.len() == 0
            &&& before.total == total
            &&& before.total_bytes == 0
            &&& before.added.len() == 0
            &&& before.failed.len() == 0
        }),
{
    reveal(Seq::filter);
    let b = seq![pet];
    assert(a + b =~= a.push(pet));
    lemma_known_in_parts(a, b, installed, true);
    lemma_known_in_parts(a, b, installed, false);
    let k = known_pets(a, installed, true);
    assert(keys_of(k.push(pet)) =~= keys_of(k).push(pet.0));
    assert(k + b =~= k.push(pet));
    let w = known_pets(a, installed, false);
    assert(w + b =~= w.push(pet));
    let none = Seq::<(Seq<char>, Seq<(Seq<char>, Seq<u8>)>)>::empty();
    assert(k + none =~= k);
    assert(w + none =~= w);
    assert(known_pets(none, installed, true) =~= none);
    assert(known_pets(none, installed, false) =~= none);
}

/// A run starts with each pet that the bundle has files of and that is not installed, with those
/// files, and with no other.
pub proof fn a_run_starts_with_the_new_pets(
    run: BundleRunModel,
    files: Seq<BundleFileModel>,
    installed: Map<Seq<char>, LocalPetModel>,
    total: u32,
    slug: Seq<char>,
)
    requires
        starts_with(run, Ok(files), installed, total),
    ensures
        run.waiting.contains((slug, files_for(files, slug))) <==> {
            &&& !installed.contains_key(slug)
            &&& exists|i: int| 0 <= i < files.len() && (#[trigger] files[i]).slug == slug
        },
        run.skipped.contains(slug) <==> {
            &&& installed.contains_key(slug)
            &&& exists|i: int| 0 <= i < files.len() && (#[trigger] files[i]).slug == slug
        },
        run.total == total,
        run.total_bytes == 0,
        run.added.len() == 0,
        run.failed.len() == 0,
{
    let pairs = choose|pairs: Seq<(Seq<char>, Seq<(Seq<char>, Seq<u8>)>)>|
        {
            &&& #[trigger] in_key_order(by_pet(files), pairs)
            &&& run == run_with(pairs, installed, total)
        };
    let pet = (slug, files_for(files, slug));
    let fresh = is_known(installed, false);
    let old = is_known(installed, true);
    a_pet_is_grouped_with_its_files(files, slug);
    map_has_the_keys_of_its_pairs(pairs, slug);
    if run.waiting.contains(pet) {
        let i = choose|i: int| 0 <= i < run.waiting.len() && run.waiting[i] == pet;
        pairs.lemma_filter_pred(fresh, i);
        pairs.lemma_filter_contains_rev(fresh, pet);
        let k = choose|k: int| 0 <= k < pairs.len() && pairs[k] == pet;
        assert(pairs[k].0 == slug);
    }
    if run.skipped.contains(slug) {
        let i = choose|i: int| 0 <= i < run.skipped.len() && run.skipped[i] == slug;
        let p = pairs.filter(old)[i];
        pairs.lemma_filter_pred(old, i);
        assert(pairs.filter(old).contains(p));
        pairs.lemma_filter_contains_rev(old, p);
        let k = choose|k: int| 0 <= k < pairs.len() && pairs[k] == p;
        assert(pairs[k].0 == slug);
    }
    if by_pet(files).contains_key(slug) {
        let k = choose|k: int| 0 <= k < pairs.len() && (#[trigger] pairs[k]).0 == slug;
        pair_is_found(pairs, k);
        assert(pairs[k] == pet);
        if installed.contains_key(slug) {
            pairs.lemma_filter_contains(old, k);
            let i = choose|i: int| 0 <= i < pairs.filter(old).len() && pairs.filter(old)[i] == pet;
            assert(run.skipped[i] == slug);
        } else {
            pairs.lemma_filter_contains(fresh, k);
        }
    }
}

/// The pets of a bundle are taken in ascending order of the bytes of their slugs.
pub proof fn a_run_takes_pets_in_order_of_slugs(
    run: BundleRunModel,
    files: Seq<BundleFileModel>,
    installed: Map<Seq<char>, LocalPetModel>,
    total: u32,
    i: int,
    j: int,
)
    requires
        starts_with(run, Ok(files), installed, total),
        0 <= i < j,
    ensures
        j < run.waiting.len() ==> text_le(run.waiting[i].0, run.waiting[j].0) && run.waiting[i].0
            != run.waiting[j].0,
        j < run.skipped.len() ==> text_le(run.skipped[i], run.skipped[j]) && run.skipped[i]
            != run.skipped[j],
{
    let pairs = choose|pairs: Seq<(Seq<char>, Seq<(Seq<char>, Seq<u8>)>)>|
        {
            &&& #[trigger] in_key_order(by_pet(files), pairs)
            &&& run == run_with(pairs, installed, total)
        };
    lemma_known_ascend(pairs, installed, false);
    lemma_known_ascend(pairs, installed, true);
    let w = keys_of(run.waiting);
    if j < w.len() {
        assert(text_le(w[i], w[j]) && w[i] != w[j]);
    }
}

/// Pets picked out of ascending ones ascend.
proof fn lemma_known_ascend(
    pairs: Seq<(Seq<char>, Seq<(Seq<char>, Seq<u8>)>)>,
    installed: Map<Seq<char>, LocalPetModel>,
    known: bool,
)
    requires
        keys_ascend(keys_of(pairs)),
    ensures
        keys_ascend(keys_of(known_pets(pairs, installed, known))),
        forall|i: int|
            0 <= i < known_pets(pairs, installed, known).len() ==> pairs.contains(
                #[trigger] known_pets(pairs, installed, known)[i],
            ),
    decreases pairs.len(),
{
    reveal(Seq::filter);
    let picked = known_pets(pairs, installed, known);
    if pairs.len() > 0 {
        let init = pairs.drop_last();
        let last = pairs.last();
        let before = known_pets(init, installed, known);
        assert forall|i: int, j: int|
            #![trigger keys_of(init)[i], keys_of(init)[j]]
            0 <= i < j < init.len() implies text_le(keys_of(init)[i], keys_of(init)[j]) && keys_of(
            init,
        )[i] != keys_of(init)[j] by {
            assert(keys_of(init)[i] == keys_of(pairs)[i] && keys_of(init)[j] == keys_of(pairs)[j]);
        }
        lemma_known_ascend(init, installed, known);
        assert forall|i: int| 0 <= i < picked.len() implies pairs.contains(
            #[trigger] picked[i],
        ) by {
            if i < before.len() {
                assert(picked[i] == before[i]);
                let k = choose|k: int| 0 <= k < init.len() && init[k] == before[i];
                assert(pairs[k] == picked[i]);
            } else {
                assert(pairs[pairs.len() - 1] == picked[i]);
            }
        }
        let keys = keys_of(picked);
        assert forall|i: int, j: int|
            #![trigger keys[i], keys[j]]
            0 <= i < j < keys.len() implies text_le(keys[i], keys[j]) && keys[i] != keys[j] by {
            assert(keys[i] == keys_of(before)[i]);
            if j < before.len() {
                assert(keys[j] == keys_of(before)[j]);
            } else {
                assert(init.contains(before[i]));
                let k = choose|k: int| 0 <= k < init.len() && init[k] == before[i];
                assert(keys_of(pairs)[k] == keys[i]);
                assert(keys_of(pairs)[pairs.len() - 1] == keys[j]);
            }
        }
    }
}

/// A bundle that cannot be read has no pets, and is itself reported as failed, with the fault.
pub proof fn an_unreadable_bundle_is_told(run: BundleRunModel, e: Seq<char>, installed: Map<
    Seq<char>,
    LocalPetModel,
>, total: u32)
    requires
        starts_with(run, Err(e), installed, total),
    ensures
        run.waiting.len() == 0,
        run.added.len() == 0,
        run.skipped.len() == 0,
        run.failed.len() == 1,
        run.failed[0].slug == "bundle"@,
        run.failed[0].reason == "zip: "@ + e,
        run.total == total,
        run.total_bytes == 0,
{
}

/// A pet that fails is reported with its reason, and nothing else changes but that the next pet is
/// at hand.
pub proof fn a_failed_pet_is_told(run: BundleRunModel, reason: Seq<char>)
    requires
        run.waiting.len() > 0,
    ensures
        ({
            let after = run.with_failure(reason);
            &&& after.waiting == run.waiting.drop_first()
            &&& after.failed.len() == run.failed.len() + 1
            &&& after.failed.last().slug == run.waiting[0].0
            &&& after.failed.last().reason == reason
            &&& after.failed.drop_last() == run.failed
            &&& after.added == run.added
            &&& after.skipped == run.skipped
            &&& after.total == run.total
            &&& after.total_bytes == run.total_bytes
        }),
{
    assert(run.with_failure(reason).failed.drop_last() =~= run.failed);
}

/// A pet whose files were dealt with counts with the bytes of all its files, written or not. It is
/// added where a spritesheet was written, and its progress is told; otherwise it has failed for
/// want of one, and nothing is told.
pub proof fn a_written_pet_is_added_or_has_failed(run: BundleRunModel, written: Seq<bool>)
    requires
        run.waiting.len() > 0,
        run.has_room(),
    ensures
        ({
            let slug = run.waiting[0].0;
            let files = run.waiting[0].1;
            let after = run.with_written(written);
            let has_sheet = exists|i: int|
                0 <= i < files.len() && written[i] && (lowercase((#[trigger] files[i]).0)
                    == "spritesheet.webp"@ || lowercase(files[i].0) == "spritesheet.png"@);
            &&& after.total_bytes == run.total_bytes + bytes_in(files)
            &&& after.waiting == run.waiting.drop_first()
            &&& after.skipped == run.skipped
            &&& after.total == run.total
            &&& has_sheet ==> {
                &&& after.added == run.added.push(slug)
                &&& after.failed == run.failed
                &&& run.written_notice(written) matches NoticeModel::Progress {
                    slug: s,
                    current,
                    total,
                    bytes_downloaded,
                } && s == slug && total == run.total && bytes_downloaded == run.total_bytes
                    + bytes_in(files) && (run.added.len() < u32::MAX ==> current
                    == run.added.len() + 1)
            }
            &&& !has_sheet ==> {
                &&& after.added == run.added
                &&& after.failed == run.failed.push(
                    FailedInstallModel { slug, reason: "no spritesheet in bundle entry"@ },
                )
                &&& run.written_notice(written) is Nothing
            }
        }),
{
    let files = run.waiting[0].1;
    sprite_is_a_written_sheet(run.waiting[0].0, files, written);
    assert forall|i: int| 0 <= i < files.len() implies (is_sheet((#[trigger] files[i]).0) <==> (
    lowercase(files[i].0) == "spritesheet.webp"@ || lowercase(files[i].0)
        == "spritesheet.png"@)) by {
        the_name_tells_the_kind(lowercase(files[i].0));
    }
}

/// There is room for the next pet exactly when neither the sum of the bytes nor the number of
/// pets gets too large.
pub proof fn bundle_room_is_a_matter_of_range(run: BundleRunModel)
    requires
        run.waiting.len() > 0,
    ensures
        run.has_room() <==> {
            &&& run.total_bytes + bytes_in(run.waiting[0].1) <= u64::MAX
            &&& run.added.len() % 0x1_0000_0000 < 0xffff_ffff
        },
        run.slug() == run.waiting[0].0,
        run.files() == run.waiting[0].1,
{
}

} // verus!
