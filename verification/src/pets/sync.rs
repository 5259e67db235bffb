//! Synchronisation with the remote manifest, pet by pet: which pets are installed, how many at
//! a time, and what is reported.

use vstd::multiset::Multiset;
use vstd::prelude::*;

use crate::duplicate::Duplicate;
use crate::order::{has_text, same_text};
use crate::pets::download::{RemoteManifest, RemotePet, RemotePetModel};
use crate::pets::install::{failed_slugs, remote_slugs, FailedInstall, FailedInstallModel};
use crate::pets::install::{InstallReport, InstallReportModel, ProgressEvent, StartedEvent};
use crate::pets::job::ALREADY_INSTALLED;
use crate::pets::manifest::{LocalManifest, LocalManifestModel, LocalPetEntry, LocalPetModel};

verus! {

/// How many pets are installed at the same time at most.
pub const MAX_PARALLEL: usize = 4;

// ---------------------------------------------------------------------------------------------
// What is missing
// ---------------------------------------------------------------------------------------------

/// A pet is to be installed: it is not installed yet, and it was asked for, or nothing in
/// particular was.
pub open spec fn is_wanted(
    installed: Map<Seq<char>, LocalPetModel>,
    requested: Option<Seq<Seq<char>>>,
    pet: RemotePetModel,
) -> bool {
    &&& !installed.contains_key(pet.slug)
    &&& requested matches Some(list) ==> list.contains(pet.slug)
}

/// The pets to be installed, in the order in which they are offered.
pub open spec fn wanted(
    installed: Map<Seq<char>, LocalPetModel>,
    requested: Option<Seq<Seq<char>>>,
    offered: Seq<RemotePetModel>,
) -> Seq<RemotePetModel> {
    offered.filter(|p: RemotePetModel| is_wanted(installed, requested, p))
}

/// The pets to be installed: those that are not installed yet and were asked for; where nothing
/// in particular was asked for, all that are not installed yet.
pub fn missing_pets(
    manifest: &LocalManifest,
    remote: &RemoteManifest,
    requested: &Option<Vec<String>>,
) -> (r: Vec<RemotePet>)
    ensures
        r.deep_view() == wanted(
            manifest.deep_view().pets,
            requested.deep_view(),
            remote.deep_view().pets,
        ),
        forall|pet: RemotePetModel| #[trigger]
            r.deep_view().contains(pet) <==> {
                &&& remote.pets.deep_view().contains(pet)
                &&& !manifest.pets.deep_view().contains_key(pet.slug)
                &&& requested.deep_view() is None || requested.deep_view()->0.contains(pet.slug)
            },
{
    let n = remote.pets.len();
    let ghost installed = manifest.deep_view().pets;
    let ghost asked = requested.deep_view();
    let ghost pred = |p: RemotePetModel| is_wanted(installed, asked, p);
    let ghost all = remote.deep_view().pets;
    let mut r: Vec<RemotePet> = Vec::new();
    let mut i: usize = 0;
    proof {
        reveal(Seq::filter);
        assert(r.deep_view() =~= all.take(0).filter(pred));
    }
    while i < n
        invariant
            n == remote.pets@.len(),
            all == remote.pets.deep_view(),
            installed == manifest.pets.deep_view(),
            asked == requested.deep_view(),
            pred == (|p: RemotePetModel| is_wanted(installed, asked, p)),
            i <= n,
            r.deep_view() == all.take(i as int).filter(pred),
        decreases n - i,
    {
        let ghost done = r.deep_view();
        let pet = &remote.pets[i];
        proof {
            reveal(Seq::filter);
            assert(all.take(i + 1).drop_last() =~= all.take(i as int));
            assert(all.take(i + 1).last() == pet.deep_view());
        }
        let asked_for = match requested {
            Some(list) => has_text(list.as_slice(), pet.slug.as_str()),
            None => true,
        };
        if !manifest.pets.contains(pet.slug.as_str()) && asked_for {
            let copy = pet.duplicate();
            r.push(copy);
            assert(r.deep_view() =~= done.push(copy.deep_view()));
        }
        i += 1;
    }
    assert(all.take(n as int) =~= all);
    assert forall|pet: RemotePetModel| #[trigger] r.deep_view().contains(pet) <==> {
        &&& all.contains(pet)
        &&& !installed.contains_key(pet.slug)
        &&& asked is None || asked->0.contains(pet.slug)
    } by {
        the_slug_decides_what_is_missing(installed, asked, all, pet);
    }
    r
}

// ---------------------------------------------------------------------------------------------
// A run
// ---------------------------------------------------------------------------------------------

/// The outcome of installing one pet.
pub enum Outcome {
    Installed { slug: String, bytes: u64, entry: LocalPetEntry },
    Failed(FailedInstall),
}

/// What an [`Outcome`] stands for.
#[verifier::ext_equal]
pub enum OutcomeModel {
    Installed { slug: Seq<char>, bytes: u64, entry: LocalPetModel },
    Failed(FailedInstallModel),
}

impl DeepView for Outcome {
    type V = OutcomeModel;

    open spec fn deep_view(&self) -> OutcomeModel {
        match self {
            Outcome::Installed { slug, bytes, entry } => OutcomeModel::Installed {
                slug: slug@,
                bytes: *bytes,
                entry: entry.deep_view(),
            },
            Outcome::Failed(f) => OutcomeModel::Failed(f.deep_view()),
        }
    }
}

impl OutcomeModel {
    /// The slug of the pet.
    pub open spec fn slug(self) -> Seq<char> {
        match self {
            OutcomeModel::Installed { slug, .. } => slug,
            OutcomeModel::Failed(f) => f.slug,
        }
    }

    /// How many bytes were installed.
    pub open spec fn bytes(self) -> nat {
        match self {
            OutcomeModel::Installed { bytes, .. } => bytes as nat,
            OutcomeModel::Failed(_) => 0,
        }
    }
}

impl Outcome {
    /// The slug of the pet.
    pub fn slug(&self) -> (r: &str)
        ensures
            r@ == self.deep_view().slug(),
    {
        match self {
            Outcome::Installed { slug, .. } => slug.as_str(),
            Outcome::Failed(f) => f.slug.as_str(),
        }
    }
}

/// What is to be told of an outcome.
pub enum Notice {
    Progress { slug: String, current: u32, total: u32, bytes_downloaded: u64 },
    Error { slug: String, message: String },
    Nothing,
}

/// What a [`Notice`] stands for.
#[verifier::ext_equal]
pub enum NoticeModel {
    Progress { slug: Seq<char>, current: u32, total: u32, bytes_downloaded: u64 },
    Error { slug: Seq<char>, message: Seq<char> },
    Nothing,
}

impl DeepView for Notice {
    type V = NoticeModel;

    open spec fn deep_view(&self) -> NoticeModel {
        match self {
            Notice::Progress { slug, current, total, bytes_downloaded } => NoticeModel::Progress {
                slug: slug@,
                current: *current,
                total: *total,
                bytes_downloaded: *bytes_downloaded,
            },
            Notice::Error { slug, message } => NoticeModel::Error {
                slug: slug@,
                message: message@,
            },
            Notice::Nothing => NoticeModel::Nothing,
        }
    }
}

impl Notice {
    /// The progress event to be sent, if the notice is one.
    pub fn progress_event(&self) -> (r: Option<ProgressEvent<'_>>)
        ensures
            match (r, self.deep_view()) {
                (Some(e), NoticeModel::Progress { slug, current, total, bytes_downloaded }) => {
                    &&& e.slug@ == slug
                    &&& e.current == current
                    &&& e.total == total
                    &&& e.bytes_downloaded == bytes_downloaded
                    &&& e.bytes_total == 0
                },
                (None, NoticeModel::Progress { .. }) => false,
                (Some(_), _) => false,
                (None, _) => true,
            },
    {
        match self {
            Notice::Progress { slug, current, total, bytes_downloaded } => Some(
                ProgressEvent {
                    slug: slug.as_str(),
                    current: *current,
                    total: *total,
                    bytes_downloaded: *bytes_downloaded,
                    bytes_total: 0,
                },
            ),
            _ => None,
        }
    }
}

/// A synchronisation that is under way.
pub struct SyncRun {
    queue: Vec<RemotePet>,
    next: usize,
    in_flight: Vec<String>,
    total: u32,
    current: u32,
    total_bytes: u64,
    added: Vec<String>,
    skipped: Vec<String>,
    failed: Vec<FailedInstall>,
}

/// What a [`SyncRun`] stands for.
#[verifier::ext_equal]
pub struct SyncModel {
    /// The pets to be installed in all, each as often as it occurs.
    pub targets: Multiset<Seq<char>>,
    /// The pets whose installation has not begun.
    pub waiting: Seq<RemotePetModel>,
    /// The pets whose installation is under way, each as often as it occurs.
    pub in_flight: Multiset<Seq<char>>,
    /// The number of pets, as it is reported.
    pub total: u32,
    /// How many installations are over.
    pub current: u32,
    pub total_bytes: u64,
    pub added: Seq<Seq<char>>,
    pub skipped: Seq<Seq<char>>,
    pub failed: Seq<FailedInstallModel>,
}

impl SyncModel {
    /// Every pet that waits, is being installed, or is accounted for.
    pub open spec fn ledger(self) -> Multiset<Seq<char>> {
        self.added.to_multiset().add(self.skipped.to_multiset()).add(
            failed_slugs(self.failed).to_multiset(),
        ).add(self.in_flight).add(remote_slugs(self.waiting).to_multiset())
    }

    /// Never more installations at a time than allowed, and never fewer while pets wait; every
    /// pet waits, is being installed, or is accounted for, and is so once.
    pub open spec fn consistent(self) -> bool {
        &&& self.in_flight.len() <= MAX_PARALLEL
        &&& self.waiting.len() > 0 ==> self.in_flight.len() == MAX_PARALLEL
        &&& self.ledger() == self.targets
        &&& self.waiting.len() + self.in_flight.len() + self.current == self.targets.len()
        &&& self.added.len() + self.skipped.len() + self.failed.len() == self.current
    }

    /// After one installation has ended with this outcome, and before another one begins.
    pub open spec fn counted(self, outcome: OutcomeModel) -> SyncModel {
        let done = SyncModel {
            in_flight: self.in_flight.remove(outcome.slug()),
            current: (self.current + 1) as u32,
            ..self
        };
        match outcome {
            OutcomeModel::Installed { slug, bytes, .. } => SyncModel {
                total_bytes: (self.total_bytes + bytes) as u64,
                added: self.added.push(slug),
                ..done
            },
            OutcomeModel::Failed(f) => if f.reason == ALREADY_INSTALLED@ {
                SyncModel { skipped: self.skipped.push(f.slug), ..done }
            } else {
                SyncModel { failed: self.failed.push(f), ..done }
            },
        }
    }

    /// After the next waiting pet, if there is one, has begun to be installed.
    pub open spec fn refilled(self) -> SyncModel {
        if self.waiting.len() > 0 {
            SyncModel {
                waiting: self.waiting.drop_first(),
                in_flight: self.in_flight.insert(self.waiting[0].slug),
                ..self
            }
        } else {
            self
        }
    }

    /// The pet whose installation begins next.
    pub open spec fn next_pet(self) -> Option<RemotePetModel> {
        if self.waiting.len() > 0 {
            Some(self.waiting[0])
        } else {
            None
        }
    }

    /// What is told of an outcome.
    pub open spec fn notice(self, outcome: OutcomeModel) -> NoticeModel {
        match outcome {
            OutcomeModel::Installed { slug, bytes, .. } => NoticeModel::Progress {
                slug,
                current: (self.current + 1) as u32,
                total: self.total,
                bytes_downloaded: (self.total_bytes + bytes) as u64,
            },
            OutcomeModel::Failed(f) => if f.reason == ALREADY_INSTALLED@ {
                NoticeModel::Nothing
            } else {
                NoticeModel::Error { slug: f.slug, message: f.reason }
            },
        }
    }

    /// The counters stay in range when this outcome is counted.
    pub open spec fn has_room_for(self, outcome: OutcomeModel) -> bool {
        &&& self.current < u32::MAX
        &&& outcome matches OutcomeModel::Installed { bytes, .. } ==> self.total_bytes + bytes
            <= u64::MAX
    }
}

/// A run before anything has ended: the first pets are being installed, the others wait.
pub open spec fn run_of(targets: Seq<RemotePetModel>) -> SyncModel {
    let first = first_count(targets.len());
    SyncModel {
        targets: remote_slugs(targets).to_multiset(),
        waiting: targets.skip(first as int),
        in_flight: remote_slugs(targets.take(first as int)).to_multiset(),
        total: (targets.len() % 0x1_0000_0000) as u32,
        current: 0,
        total_bytes: 0,
        added: seq![],
        skipped: seq![],
        failed: seq![],
    }
}

/// How many installations begin at once.
pub open spec fn first_count(targets: nat) -> nat {
    if targets < MAX_PARALLEL {
        targets
    } else {
        MAX_PARALLEL as nat
    }
}

impl SyncRun {
    spec fn model(self) -> SyncModel {
        SyncModel {
            targets: remote_slugs(self.queue.deep_view()).to_multiset(),
            waiting: self.queue.deep_view().skip(self.next as int),
            in_flight: self.in_flight.deep_view().to_multiset(),
            total: self.total,
            current: self.current,
            total_bytes: self.total_bytes,
            added: self.added.deep_view(),
            skipped: self.skipped.deep_view(),
            failed: self.failed.deep_view(),
        }
    }

    #[verifier::type_invariant]
    spec fn in_step(self) -> bool {
        &&& self.next <= self.queue@.len()
        &&& self.model().consistent()
    }
}

impl DeepView for SyncRun {
    type V = SyncModel;

    closed spec fn deep_view(&self) -> SyncModel {
        self.model()
    }
}

/// Begins a synchronisation: the run, the pets whose installation begins at once, and the event
/// that announces it.
pub fn begin_sync(targets: Vec<RemotePet>) -> (r: (SyncRun, Vec<RemotePet>, StartedEvent))
    ensures
        r.0.deep_view() == run_of(targets.deep_view()),
        r.0.deep_view().consistent(),
        r.1.deep_view() == targets.deep_view().take(first_count(targets@.len()) as int),
        r.2.kind@ == "incremental"@,
        r.2.expected == r.0.deep_view().total,
{
    let n = targets.len();
    let ghost all = targets.deep_view();
    let first: usize = if n < MAX_PARALLEL {
        n
    } else {
        MAX_PARALLEL
    };
    let wide = n as u64;
    proof {
        assert((#[verifier::truncate] (wide as u32)) == wide % 0x1_0000_0000) by (bit_vector);
    }
    let total = #[verifier::truncate]
    (wide as u32);
    let mut begun: Vec<RemotePet> = Vec::new();
    let mut in_flight: Vec<String> = Vec::new();
    let mut i: usize = 0;
    while i < first
        invariant
            all == targets.deep_view(),
            first <= targets@.len(),
            i <= first,
            begun.deep_view() == all.take(i as int),
            in_flight.deep_view() == remote_slugs(all.take(i as int)),
        decreases first - i,
    {
        let ghost done = begun.deep_view();
        let ghost slugs = in_flight.deep_view();
        let copy = targets[i].duplicate();
        let slug = copy.slug.duplicate();
        in_flight.push(slug);
        assert(in_flight.deep_view() =~= slugs.push(slug@));
        assert(in_flight.deep_view() =~= remote_slugs(all.take(i + 1)));
        begun.push(copy);
        assert(begun.deep_view() =~= done.push(copy.deep_view()));
        assert(begun.deep_view() =~= all.take(i + 1));
        i += 1;
    }
    let added: Vec<String> = Vec::new();
    let skipped: Vec<String> = Vec::new();
    let failed: Vec<FailedInstall> = Vec::new();
    proof {
        assert(added.deep_view() =~= seq![]);
        assert(skipped.deep_view() =~= seq![]);
        assert(failed.deep_view() =~= seq![]);
        run_starts_consistent(all);
    }
    let run = SyncRun {
        queue: targets,
        next: first,
        in_flight,
        total,
        current: 0,
        total_bytes: 0,
        added,
        skipped,
        failed,
    };
    (run, begun, StartedEvent { kind: "incremental".to_owned(), expected: total })
}

/// The manifest after an outcome: an installed pet is in it.
pub open spec fn manifest_after(
    m: LocalManifestModel,
    outcome: OutcomeModel,
    now: Seq<char>,
) -> LocalManifestModel {
    match outcome {
        OutcomeModel::Installed { slug, entry, .. } => m.with_pet(slug, entry, now),
        OutcomeModel::Failed(_) => m,
    }
}

/// The position of a text in a list.
fn find_text(list: &Vec<String>, s: &str) -> (r: Option<usize>)
    ensures
        match r {
            Some(i) => i < list@.len() && list.deep_view()[i as int] == s@,
            None => !list.deep_view().contains(s@),
        },
{
    let n = list.len();
    let mut i: usize = 0;
    while i < n
        invariant
            n == list@.len(),
            i <= n,
            forall|k: int| 0 <= k < i ==> #[trigger] list.deep_view()[k] != s@,
        decreases n - i,
    {
        if same_text(list[i].as_str(), s) {
            return Some(i);
        }
        assert(list.deep_view()[i as int] != s@);
        i += 1;
    }
    None
}

/// Whether an outcome is that of a pet that is being installed.
pub fn awaits(run: &SyncRun, outcome: &Outcome) -> (r: bool)
    ensures
        r == run.deep_view().in_flight.contains(outcome.deep_view().slug()),
{
    proof {
        vstd::seq_lib::to_multiset_contains(
            run.in_flight.deep_view(),
            outcome.deep_view().slug(),
        );
    }
    find_text(&run.in_flight, outcome.slug()).is_some()
}

/// Counts the outcome of one installation, which ended at the time `now`, and begins the next:
/// the run, what is to be told, and the pet whose installation begins.
pub fn record_outcome(
    run: SyncRun,
    manifest: &mut LocalManifest,
    outcome: Outcome,
    now: &str,
) -> (r: (SyncRun, Notice, Option<RemotePet>))
    requires
        run.deep_view().in_flight.contains(outcome.deep_view().slug()),
        run.deep_view().has_room_for(outcome.deep_view()),
    ensures
        r.0.deep_view() == run.deep_view().counted(outcome.deep_view()).refilled(),
        r.0.deep_view().consistent(),
        r.1.deep_view() == run.deep_view().notice(outcome.deep_view()),
        r.2.deep_view() == run.deep_view().next_pet(),
        final(manifest).deep_view() == manifest_after(
            old(manifest).deep_view(),
            outcome.deep_view(),
            now@,
        ),
        outcome.deep_view() matches OutcomeModel::Installed { slug, entry, .. } ==> {
            &&& final(manifest).deep_view().pets == old(manifest).deep_view().pets.insert(
                slug,
                entry,
            )
            &&& final(manifest).deep_view().last_synced_at == Some(now@)
        },
{
    let ghost before = run.deep_view();
    let ghost what = outcome.deep_view();
    proof {
        use_type_invariant(&run);
        run_stays_consistent(before, what);
    }
    let SyncRun {
        queue,
        next,
        mut in_flight,
        total,
        current,
        total_bytes,
        mut added,
        mut skipped,
        mut failed,
    } = run;
    let current = current + 1;
    let mut total_bytes = total_bytes;
    let ghost under_way = in_flight.deep_view();
    proof {
        vstd::seq_lib::to_multiset_contains(under_way, what.slug());
    }
    if let Some(at) = find_text(&in_flight, outcome.slug()) {
        in_flight.remove(at);
        proof {
            assert(in_flight.deep_view() =~= under_way.remove(at as int));
            vstd::seq_lib::to_multiset_remove(under_way, at as int);
        }
    }
    let ghost left = in_flight.deep_view();
    let notice = match outcome {
        Outcome::Installed { slug, bytes, entry } => {
            total_bytes = total_bytes + bytes;
            manifest.put_pet(slug.duplicate(), entry, now);
            let ghost was = added.deep_view();
            added.push(slug.duplicate());
            assert(added.deep_view() =~= was.push(slug@));
            Notice::Progress { slug, current, total, bytes_downloaded: total_bytes }
        },
        Outcome::Failed(f) => {
            if same_text(f.reason.as_str(), ALREADY_INSTALLED) {
                let ghost was = skipped.deep_view();
                let ghost slug = f.slug@;
                skipped.push(f.slug);
                assert(skipped.deep_view() =~= was.push(slug));
                Notice::Nothing
            } else {
                let notice = Notice::Error {
                    slug: f.slug.duplicate(),
                    message: f.reason.duplicate(),
                };
                let ghost was = failed.deep_view();
                let ghost fault = f.deep_view();
                failed.push(f);
                assert(failed.deep_view() =~= was.push(fault));
                notice
            }
        },
    };
    let ghost counted = before.counted(what);
    if next < queue.len() {
        let pet = queue[next].duplicate();
        let slug = pet.slug.duplicate();
        in_flight.push(slug);
        proof {
            assert(in_flight.deep_view() =~= left.push(slug@));
            vstd::seq_lib::to_multiset_build(left, slug@);
            assert(queue.deep_view().skip(next + 1) =~= queue.deep_view().skip(
                next as int,
            ).drop_first());
        }
        let run = SyncRun {
            queue,
            next: next + 1,
            in_flight,
            total,
            current,
            total_bytes,
            added,
            skipped,
            failed,
        };
        assert(run.deep_view() =~= counted.refilled());
        (run, notice, Some(pet))
    } else {
        let run = SyncRun {
            queue,
            next,
            in_flight,
            total,
            current,
            total_bytes,
            added,
            skipped,
            failed,
        };
        assert(run.deep_view() =~= counted.refilled());
        (run, notice, None)
    }
}

/// Whether the counters of a run stay in range when this outcome is counted.
pub fn has_room(run: &SyncRun, outcome: &Outcome) -> (r: bool)
    ensures
        r == run.deep_view().has_room_for(outcome.deep_view()),
{
    let fits = match outcome {
        Outcome::Installed { bytes, .. } => run.total_bytes <= u64::MAX - *bytes,
        Outcome::Failed(_) => true,
    };
    fits && run.current < u32::MAX
}

/// Whether every installation of the run is over.
pub fn is_finished(run: &SyncRun) -> (r: bool)
    ensures
        r == (run.deep_view().in_flight.len() == 0),
        run.deep_view().consistent(),
{
    proof {
        use_type_invariant(run);
    }
    proof {
        vstd::seq_lib::to_multiset_len(run.in_flight.deep_view());
    }
    run.in_flight.len() == 0
}

/// Ends the run, at the time `now`: the manifest notes it, and the result is the report.
pub fn finish_sync(
    run: SyncRun,
    manifest: &mut LocalManifest,
    generated_at: &Option<String>,
    now: &str,
    duration_ms: u64,
) -> (r: InstallReport)
    ensures
        r.deep_view() == (InstallReportModel {
            added: run.deep_view().added,
            skipped: run.deep_view().skipped,
            failed: run.deep_view().failed,
            total_bytes: run.deep_view().total_bytes,
            duration_ms,
        }),
        final(manifest).deep_view() == old(manifest).deep_view().synced(
            now@,
            generated_at.deep_view(),
        ),
{
    manifest.note_sync(now, generated_at);
    InstallReport {
        added: run.added,
        skipped: run.skipped,
        failed: run.failed,
        total_bytes: run.total_bytes,
        duration_ms,
    }
}

// ---------------------------------------------------------------------------------------------
// One pet again
// ---------------------------------------------------------------------------------------------

/// The first offered pet with a slug.
pub open spec fn first_with_slug(
    pets: Seq<RemotePetModel>,
    slug: Seq<char>,
) -> Option<RemotePetModel>
    decreases pets.len(),
{
    if pets.len() == 0 {
        None
    } else if pets[0].slug == slug {
        Some(pets[0])
    } else {
        first_with_slug(pets.drop_first(), slug)
    }
}

/// The first offered pet with a slug.
pub fn find_pet(remote: &RemoteManifest, slug: &str) -> (r: Option<RemotePet>)
    ensures
        r.deep_view() == first_with_slug(remote.deep_view().pets, slug@),
{
    let n = remote.pets.len();
    let ghost all = remote.deep_view().pets;
    let mut i: usize = 0;
    assert(all.skip(0) =~= all);
    while i < n
        invariant
            n == remote.pets@.len(),
            all == remote.pets.deep_view(),
            i <= n,
            first_with_slug(all, slug@) == first_with_slug(all.skip(i as int), slug@),
        decreases n - i,
    {
        assert(all.skip(i as int)[0] == all[i as int]);
        if same_text(remote.pets[i].slug.as_str(), slug) {
            return Some(remote.pets[i].duplicate());
        }
        assert(all.skip(i as int).drop_first() =~= all.skip(i + 1));
        i += 1;
    }
    None
}

/// What is told of a pet that is not offered.
pub fn unknown_pet_notice(slug: &str) -> (r: Notice)
    ensures
        r.deep_view() == (NoticeModel::Error {
            slug: slug@,
            message: "slug not in remote manifest"@,
        }),
{
    Notice::Error { slug: slug.to_owned(), message: "slug not in remote manifest".to_owned() }
}

/// The report on a pet that is not offered.
pub fn unknown_pet_report(slug: String, duration_ms: u64) -> (r: InstallReport)
    ensures
        r.deep_view() == (InstallReportModel {
            added: seq![],
            skipped: seq![],
            failed: seq![
                FailedInstallModel { slug: slug@, reason: "not in remote manifest"@ },
            ],
            total_bytes: 0,
            duration_ms,
        }),
{
    let mut failed: Vec<FailedInstall> = Vec::new();
    failed.push(FailedInstall { slug, reason: "not in remote manifest".to_owned() });
    let r = InstallReport {
        added: Vec::new(),
        skipped: Vec::new(),
        failed,
        total_bytes: 0,
        duration_ms,
    };
    proof {
        assert(r.deep_view().added =~= seq![]);
        assert(r.deep_view().skipped =~= seq![]);
        assert(r.deep_view().failed =~= seq![
            FailedInstallModel { slug: slug@, reason: "not in remote manifest"@ },
        ]);
    }
    r
}

/// The report on the reinstallation of one pet.
pub open spec fn refresh_report(outcome: OutcomeModel, duration_ms: u64) -> InstallReportModel {
    match outcome {
        OutcomeModel::Installed { slug, bytes, .. } => InstallReportModel {
            added: seq![slug],
            skipped: seq![],
            failed: seq![],
            total_bytes: bytes,
            duration_ms,
        },
        OutcomeModel::Failed(f) => InstallReportModel {
            added: seq![],
            skipped: seq![],
            failed: seq![f],
            total_bytes: 0,
            duration_ms,
        },
    }
}

/// Ends the reinstallation of one pet, at the time `now`: an installed pet goes into the
/// manifest, and the result is the report.
pub fn finish_refresh(
    manifest: &mut LocalManifest,
    outcome: Outcome,
    now: &str,
    duration_ms: u64,
) -> (r: InstallReport)
    ensures
        r.deep_view() == refresh_report(outcome.deep_view(), duration_ms),
        final(manifest).deep_view() == manifest_after(
            old(manifest).deep_view(),
            outcome.deep_view(),
            now@,
        ),
        outcome.deep_view() matches OutcomeModel::Installed { slug, entry, .. } ==> {
            &&& final(manifest).deep_view().pets == old(manifest).deep_view().pets.insert(
                slug,
                entry,
            )
            &&& final(manifest).deep_view().last_synced_at == Some(now@)
        },
{
    let ghost what = outcome.deep_view();
    let mut added: Vec<String> = Vec::new();
    let mut failed: Vec<FailedInstall> = Vec::new();
    let mut total_bytes: u64 = 0;
    match outcome {
        Outcome::Installed { slug, bytes, entry } => {
            total_bytes = bytes;
            manifest.put_pet(slug.duplicate(), entry, now);
            added.push(slug);
        },
        Outcome::Failed(f) => {
            failed.push(f);
        },
    }
    let r = InstallReport { added, skipped: Vec::new(), failed, total_bytes, duration_ms };
    assert(r.deep_view() =~= refresh_report(what, duration_ms));
    r
}

// ---------------------------------------------------------------------------------------------
// Laws
// ---------------------------------------------------------------------------------------------

/// A pet that is installed is never among those to be installed, nor is one that was not asked
/// for; every other offered pet is.
pub proof fn wanted_is_offered_and_missing(
    installed: Map<Seq<char>, LocalPetModel>,
    requested: Option<Seq<Seq<char>>>,
    offered: Seq<RemotePetModel>,
    pet: RemotePetModel,
)
    ensures
        wanted(installed, requested, offered).contains(pet) <==> offered.contains(pet)
            && is_wanted(installed, requested, pet),
{
    let pred = |p: RemotePetModel| is_wanted(installed, requested, p);
    let r = offered.filter(pred);
    if r.contains(pet) {
        let i = choose|i: int| 0 <= i < r.len() && r[i] == pet;
        offered.lemma_filter_pred(pred, i);
        offered.lemma_filter_contains_rev(pred, pet);
    }
    if offered.contains(pet) && is_wanted(installed, requested, pet) {
        let i = choose|i: int| 0 <= i < offered.len() && offered[i] == pet;
        offered.lemma_filter_contains(pred, i);
    }
}

/// The slugs of pets in two parts.
proof fn lemma_slugs_in_parts(pets: Seq<RemotePetModel>, n: int)
    requires
        0 <= n <= pets.len(),
    ensures
        remote_slugs(pets).to_multiset() == remote_slugs(pets.take(n)).to_multiset().add(
            remote_slugs(pets.skip(n)).to_multiset(),
        ),
{
    let a = remote_slugs(pets.take(n));
    let b = remote_slugs(pets.skip(n));
    assert(remote_slugs(pets) =~= a + b);
    vstd::seq_lib::lemma_multiset_commutative(a, b);
}

/// A run starts consistent.
#[verifier::spinoff_prover]
pub proof fn run_starts_consistent(targets: Seq<RemotePetModel>)
    ensures
        run_of(targets).consistent(),
{
    broadcast use vstd::multiset::group_multiset_axioms;
    broadcast use vstd::seq_lib::group_to_multiset_ensures;

    let run = run_of(targets);
    lemma_slugs_in_parts(targets, first_count(targets.len()) as int);
    assert(failed_slugs(run.failed) =~= seq![]);
    assert(run.ledger() =~= run.targets);
}

/// A pet that is counted leaves the pets being installed for one of the lists.
#[verifier::spinoff_prover]
proof fn lemma_counting_moves_one_pet(run: SyncModel, outcome: OutcomeModel)
    requires
        run.in_flight.contains(outcome.slug()),
    ensures
        run.counted(outcome).ledger() == run.ledger(),
        run.counted(outcome).in_flight.len() == run.in_flight.len() - 1,
{
    let slug = outcome.slug();
    let next = run.counted(outcome);
    vstd::seq_lib::to_multiset_build(run.added, slug);
    vstd::seq_lib::to_multiset_build(run.skipped, slug);
    vstd::seq_lib::to_multiset_build(failed_slugs(run.failed), slug);
    if let OutcomeModel::Failed(f) = outcome {
        assert(failed_slugs(run.failed.push(f)) =~= failed_slugs(run.failed).push(slug));
    }
    assert(next.ledger() =~= run.ledger()) by {
        broadcast use vstd::multiset::group_multiset_axioms;

    }
    assert(next.in_flight.len() == run.in_flight.len() - 1) by {
        broadcast use vstd::multiset::group_multiset_axioms;

    }
}

/// A pet whose installation begins leaves the waiting ones for those being installed.
#[verifier::spinoff_prover]
proof fn lemma_refilling_moves_one_pet(run: SyncModel)
    requires
        run.waiting.len() > 0,
    ensures
        run.refilled().ledger() == run.ledger(),
        run.refilled().in_flight.len() == run.in_flight.len() + 1,
{
    let slug = run.waiting[0].slug;
    let next = run.refilled();
    lemma_slugs_in_parts(run.waiting, 1);
    let first = remote_slugs(run.waiting.take(1));
    let none = Seq::<Seq<char>>::empty();
    assert(first =~= none.push(slug));
    vstd::seq_lib::to_multiset_build(none, slug);
    vstd::seq_lib::to_multiset_len(none);
    vstd::multiset::lemma_multiset_empty_len(none.to_multiset());
    assert(run.waiting.skip(1) =~= run.waiting.drop_first());
    assert(next.ledger() =~= run.ledger()) by {
        broadcast use vstd::multiset::group_multiset_axioms;

    }
    assert(next.in_flight.len() == run.in_flight.len() + 1) by {
        broadcast use vstd::multiset::group_multiset_axioms;

    }
}

/// Counting the outcome of a pet that is being installed keeps a run consistent.
pub proof fn run_stays_consistent(run: SyncModel, outcome: OutcomeModel)
    requires
        run.consistent(),
        run.in_flight.contains(outcome.slug()),
        run.has_room_for(outcome),
    ensures
        run.counted(outcome).refilled().consistent(),
{
    lemma_counting_moves_one_pet(run, outcome);
    if run.waiting.len() > 0 {
        lemma_refilling_moves_one_pet(run.counted(outcome));
    }
}

/// A run in which nothing is being installed any more is complete: no pet waits, and the pets
/// added, skipped and failed are the pets that were to be installed, each once.
#[verifier::spinoff_prover]
pub proof fn idle_run_is_complete(run: SyncModel)
    requires
        run.consistent(),
        run.in_flight.len() == 0,
    ensures
        run.waiting.len() == 0,
        run.added.to_multiset().add(run.skipped.to_multiset()).add(
            failed_slugs(run.failed).to_multiset(),
        ) == run.targets,
{
    broadcast use vstd::multiset::group_multiset_axioms;
    broadcast use vstd::seq_lib::group_to_multiset_ensures;

    vstd::multiset::lemma_multiset_empty_len(run.in_flight);
    assert(remote_slugs(run.waiting) =~= seq![]);
    assert(run.added.to_multiset().add(run.skipped.to_multiset()).add(
        failed_slugs(run.failed).to_multiset(),
    ) =~= run.targets);
}

/// Each outcome brings a run nearer to its end: there are as many outcomes as pets.
pub proof fn each_outcome_counts_once(run: SyncModel, outcome: OutcomeModel)
    requires
        run.consistent(),
        run.in_flight.contains(outcome.slug()),
        run.has_room_for(outcome),
    ensures
        ({
            let next = run.counted(outcome).refilled();
            &&& next.targets == run.targets
            &&& next.current == run.current + 1
            &&& next.total_bytes == run.total_bytes + outcome.bytes()
            &&& next.waiting.len() + next.in_flight.len() == run.waiting.len()
                + run.in_flight.len() - 1
            &&& next.added.len() + next.skipped.len() + next.failed.len() == run.added.len()
                + run.skipped.len() + run.failed.len() + 1
        }),
{
    run_stays_consistent(run, outcome);
}

/// A run after outcomes in turn.
pub open spec fn run_after(run: SyncModel, outcomes: Seq<OutcomeModel>) -> SyncModel
    decreases outcomes.len(),
{
    if outcomes.len() == 0 {
        run
    } else {
        run_after(run, outcomes.drop_last()).counted(outcomes.last()).refilled()
    }
}

/// Each of the outcomes in turn is that of a pet that is then being installed, and the counters
/// of the run stay in range with it.
pub open spec fn is_course_of(run: SyncModel, outcomes: Seq<OutcomeModel>) -> bool {
    forall|n: int|
        #![trigger outcomes.take(n)]
        0 <= n < outcomes.len() ==> {
            &&& run_after(run, outcomes.take(n)).in_flight.contains(outcomes[n].slug())
            &&& run_after(run, outcomes.take(n)).has_room_for(outcomes[n])
        }
}

/// How many bytes were installed with outcomes in all.
pub open spec fn bytes_installed(outcomes: Seq<OutcomeModel>) -> nat
    decreases outcomes.len(),
{
    if outcomes.len() == 0 {
        0
    } else {
        bytes_installed(outcomes.drop_last()) + outcomes.last().bytes()
    }
}

proof fn lemma_run_after(targets: Seq<RemotePetModel>, outcomes: Seq<OutcomeModel>)
    requires
        is_course_of(run_of(targets), outcomes),
    ensures
        run_after(run_of(targets), outcomes).consistent(),
        run_after(run_of(targets), outcomes).targets == remote_slugs(targets).to_multiset(),
        run_after(run_of(targets), outcomes).current == outcomes.len(),
        run_after(run_of(targets), outcomes).total_bytes == bytes_installed(outcomes),
    decreases outcomes.len(),
{
    run_starts_consistent(targets);
    if outcomes.len() > 0 {
        let init = outcomes.drop_last();
        let last = outcomes.last();
        let start = run_of(targets);
        assert forall|n: int|
            #![trigger init.take(n)]
            0 <= n < init.len() implies run_after(start, init.take(n)).in_flight.contains(
            init[n].slug(),
        ) && run_after(start, init.take(n)).has_room_for(init[n]) by {
            assert(init.take(n) =~= outcomes.take(n));
        }
        lemma_run_after(targets, init);
        assert(outcomes.take(outcomes.len() - 1) =~= init);
        each_outcome_counts_once(run_after(start, init), last);
        run_stays_consistent(run_after(start, init), last);
    }
}

/// A run is over after as many outcomes as there are pets, and not before. The pets added,
/// skipped and failed are then the pets that were to be installed, each once. The bytes that are
/// reported are those of the installed pets.
pub proof fn run_ends_with_its_last_pet(
    targets: Seq<RemotePetModel>,
    outcomes: Seq<OutcomeModel>,
)
    requires
        is_course_of(run_of(targets), outcomes),
    ensures
        ({
            let run = run_after(run_of(targets), outcomes);
            &&& outcomes.len() <= targets.len()
            &&& run.in_flight.len() == 0 <==> outcomes.len() == targets.len()
            &&& run.added.len() + run.skipped.len() + run.failed.len() == outcomes.len()
            &&& run.total_bytes == bytes_installed(outcomes)
            &&& outcomes.len() == targets.len() ==> run.added.to_multiset().add(
                run.skipped.to_multiset(),
            ).add(failed_slugs(run.failed).to_multiset()) == remote_slugs(targets).to_multiset()
        }),
{
    lemma_run_after(targets, outcomes);
    vstd::seq_lib::to_multiset_len(remote_slugs(targets));
    let run = run_after(run_of(targets), outcomes);
    if run.in_flight.len() == 0 {
        idle_run_is_complete(run);
    }
}

/// An installed pet is not missing any more, and installing it takes no other pet away.
pub proof fn installed_is_not_missing(
    m: LocalManifestModel,
    outcome: OutcomeModel,
    now: Seq<char>,
    requested: Option<Seq<Seq<char>>>,
    pet: RemotePetModel,
)
    ensures
        outcome matches OutcomeModel::Installed { slug, .. } ==> (slug == pet.slug ==> !is_wanted(
            manifest_after(m, outcome, now).pets,
            requested,
            pet,
        )),
        forall|k: Seq<char>| #[trigger]
            m.pets.contains_key(k) ==> manifest_after(m, outcome, now).pets.contains_key(k),
{
}

/// Every slug is that of an installed pet.
pub open spec fn all_installed(slugs: Seq<Seq<char>>, pets: Map<Seq<char>, LocalPetModel>) -> bool {
    forall|i: int| 0 <= i < slugs.len() ==> pets.contains_key(#[trigger] slugs[i])
}

/// Whatever a run reports as added is installed: it is so when the run starts, and it stays so
/// with each outcome.
pub proof fn added_pets_are_installed(
    targets: Seq<RemotePetModel>,
    run: SyncModel,
    m: LocalManifestModel,
    outcome: OutcomeModel,
    now: Seq<char>,
)
    ensures
        all_installed(run_of(targets).added, m.pets),
        all_installed(run.added, m.pets) ==> all_installed(
            run.counted(outcome).refilled().added,
            manifest_after(m, outcome, now).pets,
        ),
{
}

/// The pet found by a slug has it, is offered, and is the first such; where none is found, none
/// is offered.
pub proof fn found_pet_is_first(pets: Seq<RemotePetModel>, slug: Seq<char>)
    ensures
        match first_with_slug(pets, slug) {
            Some(p) => exists|i: int|
                {
                    &&& 0 <= i < pets.len()
                    &&& #[trigger] pets[i] == p
                    &&& p.slug == slug
                    &&& forall|j: int| 0 <= j < i ==> (#[trigger] pets[j]).slug != slug
                },
            None => forall|j: int| 0 <= j < pets.len() ==> (#[trigger] pets[j]).slug != slug,
        },
    decreases pets.len(),
{
    if pets.len() > 0 {
        if pets[0].slug != slug {
            let rest = pets.drop_first();
            found_pet_is_first(rest, slug);
            match first_with_slug(rest, slug) {
                Some(p) => {
                    let i = choose|i: int|
                        {
                            &&& 0 <= i < rest.len()
                            &&& #[trigger] rest[i] == p
                            &&& p.slug == slug
                            &&& forall|j: int| 0 <= j < i ==> (#[trigger] rest[j]).slug != slug
                        };
                    assert(pets[i + 1] == p);
                    assert forall|j: int| 0 <= j < i + 1 implies (#[trigger] pets[j]).slug
                        != slug by {
                        if j > 0 {
                            assert(rest[j - 1] == pets[j]);
                        }
                    }
                },
                None => {
                    assert forall|j: int| 0 <= j < pets.len() implies (#[trigger] pets[j]).slug
                        != slug by {
                        if j > 0 {
                            assert(rest[j - 1] == pets[j]);
                        }
                    }
                },
            }
        }
    }
}

/// An offered pet is to be installed exactly when no pet with its slug is installed and nothing in
/// particular was asked for, or its slug was. Nothing but its slug matters.
pub proof fn the_slug_decides_what_is_missing(
    installed: Map<Seq<char>, LocalPetModel>,
    requested: Option<Seq<Seq<char>>>,
    offered: Seq<RemotePetModel>,
    pet: RemotePetModel,
)
    ensures
        wanted(installed, requested, offered).contains(pet) <==> {
            &&& offered.contains(pet)
            &&& !installed.contains_key(pet.slug)
            &&& requested is None || requested->0.contains(pet.slug)
        },
{
    wanted_is_offered_and_missing(installed, requested, offered, pet);
}

/// Two offered pets with one slug are both to be installed, or neither is.
pub proof fn pets_with_one_slug_are_wanted_alike(
    installed: Map<Seq<char>, LocalPetModel>,
    requested: Option<Seq<Seq<char>>>,
    offered: Seq<RemotePetModel>,
    i: int,
    j: int,
)
    requires
        0 <= i < offered.len(),
        0 <= j < offered.len(),
        offered[i].slug == offered[j].slug,
    ensures
        wanted(installed, requested, offered).contains(offered[i]) == wanted(
            installed,
            requested,
            offered,
        ).contains(offered[j]),
{
    assert(offered.contains(offered[i]) && offered.contains(offered[j]));
    the_slug_decides_what_is_missing(installed, requested, offered, offered[i]);
    the_slug_decides_what_is_missing(installed, requested, offered, offered[j]);
}

/// The pets to be installed stand as they are offered, each as often as it is: those of two parts
/// are those of each, and of one pet it is the pet or none.
pub proof fn wanted_in_parts(
    installed: Map<Seq<char>, LocalPetModel>,
    requested: Option<Seq<Seq<char>>>,
    a: Seq<RemotePetModel>,
    b: Seq<RemotePetModel>,
)
    ensures
        wanted(installed, requested, a + b) == wanted(installed, requested, a) + wanted(
            installed,
            requested,
            b,
        ),
        b.len() == 1 && !installed.contains_key(b[0].slug) && requested is None ==> wanted(
            installed,
            requested,
            b,
        ) == b,
    decreases b.len(),
{
    let pred = |p: RemotePetModel| is_wanted(installed, requested, p);
    reveal(Seq::filter);
    if b.len() > 0 {
        let init = b.drop_last();
        wanted_in_parts(installed, requested, a, init);
        assert((a + b).drop_last() =~= a + init);
        assert((a + b).last() == b.last());
        assert(b =~= init.push(b.last()));
        if b.len() == 1 {
            assert(init =~= seq![]);
            assert(init.filter(pred) =~= seq![]);
        }
    } else {
        assert(a + b =~= a);
        assert(wanted(installed, requested, b) =~= seq![]);
    }
    assert(wanted(installed, requested, a + b) =~= wanted(installed, requested, a) + wanted(
        installed,
        requested,
        b,
    ));
    if b.len() == 1 && !installed.contains_key(b[0].slug) && requested is None {
        assert(wanted(installed, requested, b) =~= b);
    }
}

/// An installed pet is counted as added with its bytes; one that was there already is counted as
/// skipped; any other is counted as failed, with its reason. Each is counted once, is no longer
/// being installed, and changes nothing else.
pub proof fn outcomes_are_counted_where_they_belong(run: SyncModel, outcome: OutcomeModel)
    requires
        run.has_room_for(outcome),
    ensures
        ({
            let after = run.counted(outcome);
            &&& after.targets == run.targets
            &&& after.waiting == run.waiting
            &&& after.total == run.total
            &&& after.current == run.current + 1
            &&& outcome matches OutcomeModel::Installed { slug, bytes, .. } ==> {
                &&& after.added == run.added.push(slug)
                &&& after.total_bytes == run.total_bytes + bytes
                &&& after.skipped == run.skipped
                &&& after.failed == run.failed
                &&& after.in_flight == run.in_flight.remove(slug)
            }
            &&& outcome matches OutcomeModel::Failed(f) ==> {
                &&& after.added == run.added
                &&& after.total_bytes == run.total_bytes
                &&& f.reason == "already installed"@ ==> after.skipped == run.skipped.push(f.slug)
                    && after.failed == run.failed
                &&& f.reason != "already installed"@ ==> after.failed == run.failed.push(f)
                    && after.skipped == run.skipped
                &&& after.in_flight == run.in_flight.remove(f.slug)
            }
        }),
{
}

/// The first of the waiting pets is the next to be installed, and nothing else changes; where none
/// waits, none is begun.
pub proof fn the_first_waiting_pet_is_next(run: SyncModel)
    ensures
        run.waiting.len() > 0 ==> {
            &&& run.next_pet() == Some(run.waiting[0])
            &&& run.refilled().waiting == run.waiting.drop_first()
            &&& run.refilled().in_flight == run.in_flight.insert(run.waiting[0].slug)
        },
        run.waiting.len() == 0 ==> run.next_pet() is None && run.refilled() == run,
        run.refilled().targets == run.targets,
        run.refilled().total == run.total,
        run.refilled().current == run.current,
        run.refilled().total_bytes == run.total_bytes,
        run.refilled().added == run.added,
        run.refilled().skipped == run.skipped,
        run.refilled().failed == run.failed,
{
}

/// Of an installed pet its progress is told: which of how many it is and how many bytes came so
/// far. Of one that was there already nothing is told, and of one that failed why.
pub proof fn what_is_told_of_an_outcome(run: SyncModel, outcome: OutcomeModel)
    requires
        run.has_room_for(outcome),
    ensures
        outcome matches OutcomeModel::Installed { slug, bytes, .. } ==> (run.notice(outcome) matches
            NoticeModel::Progress { slug: s, current, total, bytes_downloaded } && s == slug
            && current == run.current + 1 && total == run.total && bytes_downloaded
            == run.total_bytes + bytes),
        outcome matches OutcomeModel::Failed(f) ==> {
            &&& f.reason == "already installed"@ ==> run.notice(outcome) is Nothing
            &&& f.reason != "already installed"@ ==> (run.notice(outcome) matches
                NoticeModel::Error { slug, message } && slug == f.slug && message == f.reason)
        },
{
}

/// A run starts with its first four pets under way, or all where there are no more; the others
/// wait in the order in which they are offered, and nothing is counted yet.
pub proof fn a_run_starts_with_four(targets: Seq<RemotePetModel>)
    ensures
        ({
            let run = run_of(targets);
            let n = if targets.len() < 4 {
                targets.len()
            } else {
                4
            };
            &&& run.waiting == targets.skip(n as int)
            &&& run.in_flight == Seq::new(n, |i: int| targets[i].slug).to_multiset()
            &&& run.targets == Seq::new(targets.len(), |i: int| targets[i].slug).to_multiset()
            &&& targets.len() <= u32::MAX ==> run.total == targets.len()
            &&& run.current == 0
            &&& run.total_bytes == 0
            &&& run.added.len() == 0
            &&& run.skipped.len() == 0
            &&& run.failed.len() == 0
            &&& first_count(targets.len()) == n
        }),
{
    let n = first_count(targets.len());
    assert(remote_slugs(targets.take(n as int)) =~= Seq::new(n, |i: int| targets[i].slug));
    assert(remote_slugs(targets) =~= Seq::new(targets.len(), |i: int| targets[i].slug));
}

/// There is room for an outcome exactly when neither the number of outcomes nor the sum of the
/// bytes gets too large.
pub proof fn room_is_a_matter_of_range(run: SyncModel, outcome: OutcomeModel)
    ensures
        run.has_room_for(outcome) <==> {
            &&& run.current + 1 <= u32::MAX
            &&& outcome matches OutcomeModel::Installed { bytes, .. } ==> run.total_bytes + bytes
                <= u64::MAX
        },
{
}

/// After an installed outcome the manifest has its entry under its slug, whether or not that slug
/// was there before, and every other entry as it was; the time is noted. After any other outcome
/// the manifest is what it was.
pub proof fn an_installed_pet_reaches_the_manifest(
    m: LocalManifestModel,
    outcome: OutcomeModel,
    now: Seq<char>,
    other: Seq<char>,
)
    ensures
        ({
            let after = manifest_after(m, outcome, now);
            &&& outcome matches OutcomeModel::Installed { slug, entry, .. } ==> {
                &&& after.pets.contains_key(slug)
                &&& after.pets[slug] == entry
                &&& other != slug ==> after.pets.contains_key(other) == m.pets.contains_key(other)
                &&& other != slug && m.pets.contains_key(other) ==> after.pets[other]
                    == m.pets[other]
                &&& after.last_synced_at == Some(now)
                &&& after.last_remote_manifest_at == m.last_remote_manifest_at
            }
            &&& outcome is Failed ==> after == m
        }),
{
}

/// The report on a refreshed pet lists it as added with its bytes, or as failed with its reason.
pub proof fn a_refresh_is_reported(outcome: OutcomeModel, duration_ms: u64)
    ensures
        ({
            let r = refresh_report(outcome, duration_ms);
            &&& r.duration_ms == duration_ms
            &&& r.skipped.len() == 0
            &&& outcome matches OutcomeModel::Installed { slug, bytes, .. } ==> {
                &&& r.added.len() == 1
                &&& r.added[0] == slug
                &&& r.failed.len() == 0
                &&& r.total_bytes == bytes
            }
            &&& outcome matches OutcomeModel::Failed(f) ==> {
                &&& r.added.len() == 0
                &&& r.failed.len() == 1
                &&& r.failed[0] == f
                &&& r.total_bytes == 0
            }
        }),
{
}

/// An outcome is modelled by what it holds, and so are its slug and its bytes.
pub proof fn outcome_is_modelled_by_what_it_holds(x: Outcome)
    ensures
        match x {
            Outcome::Installed { slug, bytes, entry } => {
                &&& x.deep_view() == (OutcomeModel::Installed {
                    slug: slug@,
                    bytes,
                    entry: entry.deep_view(),
                })
                &&& x.deep_view().slug() == slug@
                &&& x.deep_view().bytes() == bytes
            },
            Outcome::Failed(f) => {
                &&& x.deep_view() == OutcomeModel::Failed(f.deep_view())
                &&& x.deep_view().slug() == f.slug@
                &&& x.deep_view().bytes() == 0
            },
        },
{
}

/// A notice is modelled by what it tells.
pub proof fn notice_is_modelled_by_what_it_tells(x: Notice)
    ensures
        match x {
            Notice::Progress { slug, current, total, bytes_downloaded } => x.deep_view() == (
            NoticeModel::Progress { slug: slug@, current, total, bytes_downloaded }),
            Notice::Error { slug, message } => x.deep_view() == (NoticeModel::Error {
                slug: slug@,
                message: message@,
            }),
            Notice::Nothing => x.deep_view() is Nothing,
        },
{
}

} // verus!
