//! What is asked of the pet service, and how its answers are judged.

use vstd::prelude::*;

use crate::duplicate::Duplicate;
use crate::text::{ascii_lowered, decimal, decimal_text, ends_with_ignoring_ascii_case, join};

verus! {

/// Where the manifest of all pets is.
pub const MANIFEST_URL: &'static str = "https://petdex.crafter.run/api/manifest";

/// Where the bundle of all pets is, for a manifest that names none.
pub const FALLBACK_BUNDLE_URL: &'static str =
    "https://pub-94495283df974cfea5e98d6a9e3fa462.r2.dev/packs/petdex-approved.zip";

/// The name under which requests are made.
pub const USER_AGENT: &'static str = "omniget-pets/1.0";

/// A spritesheet has at least this many bytes.
pub const MIN_SPRITE_BYTES: usize = 10 * 1024;

/// A spritesheet has at most this many bytes.
pub const MAX_SPRITE_BYTES: usize = 5 * 1024 * 1024;

/// A pet description has at most this many bytes.
pub const MAX_PET_JSON_BYTES: usize = 64 * 1024;

/// A bundle has at most this many bytes.
pub const MAX_BUNDLE_BYTES: usize = 200 * 1024 * 1024;

/// How many times a request is made at most.
pub const MAX_ATTEMPTS: u32 = 3;

// ---------------------------------------------------------------------------------------------
// The remote manifest
// ---------------------------------------------------------------------------------------------

/// A pet that can be installed.
#[derive(Debug)]
pub struct RemotePet {
    pub slug: String,
    pub display_name: String,
    pub description: Option<String>,
    pub kind: Option<String>,
    pub vibes: Vec<String>,
    pub tags: Vec<String>,
    pub featured: bool,
    pub spritesheet_url: Option<String>,
    pub pet_json_url: Option<String>,
    pub zip_url: Option<String>,
    pub submitted_by: Option<String>,
}

/// What a [`RemotePet`] stands for.
#[verifier::ext_equal]
pub struct RemotePetModel {
    pub slug: Seq<char>,
    pub display_name: Seq<char>,
    pub description: Option<Seq<char>>,
    pub kind: Option<Seq<char>>,
    pub vibes: Seq<Seq<char>>,
    pub tags: Seq<Seq<char>>,
    pub featured: bool,
    pub spritesheet_url: Option<Seq<char>>,
    pub pet_json_url: Option<Seq<char>>,
    pub zip_url: Option<Seq<char>>,
    pub submitted_by: Option<Seq<char>>,
}

impl DeepView for RemotePet {
    type V = RemotePetModel;

    open spec fn deep_view(&self) -> RemotePetModel {
        RemotePetModel {
            slug: self.slug@,
            display_name: self.display_name@,
            description: self.description.deep_view(),
            kind: self.kind.deep_view(),
            vibes: self.vibes.deep_view(),
            tags: self.tags.deep_view(),
            featured: self.featured,
            spritesheet_url: self.spritesheet_url.deep_view(),
            pet_json_url: self.pet_json_url.deep_view(),
            zip_url: self.zip_url.deep_view(),
            submitted_by: self.submitted_by.deep_view(),
        }
    }
}

impl Duplicate for RemotePet {
    fn duplicate(&self) -> (r: Self) {
        RemotePet {
            slug: self.slug.duplicate(),
            display_name: self.display_name.duplicate(),
            description: self.description.duplicate(),
            kind: self.kind.duplicate(),
            vibes: self.vibes.duplicate(),
            tags: self.tags.duplicate(),
            featured: self.featured,
            spritesheet_url: self.spritesheet_url.duplicate(),
            pet_json_url: self.pet_json_url.duplicate(),
            zip_url: self.zip_url.duplicate(),
            submitted_by: self.submitted_by.duplicate(),
        }
    }
}

impl Clone for RemotePet {
    fn clone(&self) -> (r: Self)
        ensures
            r.deep_view() == self.deep_view(),
    {
        self.duplicate()
    }
}

/// The pets that can be installed.
#[derive(Debug)]
pub struct RemoteManifest {
    pub generated_at: Option<String>,
    pub total: u32,
    pub featured: u32,
    pub all_pets_pack_path: Option<String>,
    pub pets: Vec<RemotePet>,
}

/// What a [`RemoteManifest`] stands for.
#[verifier::ext_equal]
pub struct RemoteManifestModel {
    pub generated_at: Option<Seq<char>>,
    pub total: u32,
    pub featured: u32,
    pub all_pets_pack_path: Option<Seq<char>>,
    pub pets: Seq<RemotePetModel>,
}

impl DeepView for RemoteManifest {
    type V = RemoteManifestModel;

    open spec fn deep_view(&self) -> RemoteManifestModel {
        RemoteManifestModel {
            generated_at: self.generated_at.deep_view(),
            total: self.total,
            featured: self.featured,
            all_pets_pack_path: self.all_pets_pack_path.deep_view(),
            pets: self.pets.deep_view(),
        }
    }
}

impl Duplicate for RemoteManifest {
    fn duplicate(&self) -> (r: Self) {
        RemoteManifest {
            generated_at: self.generated_at.duplicate(),
            total: self.total,
            featured: self.featured,
            all_pets_pack_path: self.all_pets_pack_path.duplicate(),
            pets: self.pets.duplicate(),
        }
    }
}

impl Clone for RemoteManifest {
    fn clone(&self) -> (r: Self)
        ensures
            r.deep_view() == self.deep_view(),
    {
        self.duplicate()
    }
}

// ---------------------------------------------------------------------------------------------
// Requests
// ---------------------------------------------------------------------------------------------

/// A request to be made.
#[derive(Debug)]
pub struct FetchRequest {
    /// What errors call the request.
    pub label: String,
    pub url: String,
    pub timeout_secs: u64,
    /// The largest payload that is accepted, where there is a limit.
    pub max_bytes: Option<usize>,
}

/// What a [`FetchRequest`] stands for.
#[verifier::ext_equal]
pub struct FetchRequestModel {
    pub label: Seq<char>,
    pub url: Seq<char>,
    pub timeout_secs: u64,
    pub max_bytes: Option<usize>,
}

impl DeepView for FetchRequest {
    type V = FetchRequestModel;

    open spec fn deep_view(&self) -> FetchRequestModel {
        FetchRequestModel {
            label: self.label@,
            url: self.url@,
            timeout_secs: self.timeout_secs,
            max_bytes: self.max_bytes,
        }
    }
}

/// A request for bytes, with a limit on their number.
pub open spec fn bytes_asked(
    url: Seq<char>,
    max_bytes: usize,
    timeout_secs: u64,
) -> FetchRequestModel {
    FetchRequestModel { label: "GET "@ + url, url, timeout_secs, max_bytes: Some(max_bytes) }
}

/// The request for the manifest of all pets.
pub fn manifest_request() -> (r: FetchRequest)
    ensures
        r.deep_view() == (FetchRequestModel {
            label: "fetch_manifest"@,
            url: MANIFEST_URL@,
            timeout_secs: 60,
            max_bytes: None,
        }),
{
    FetchRequest {
        label: "fetch_manifest".to_owned(),
        url: MANIFEST_URL.to_owned(),
        timeout_secs: 60,
        max_bytes: None,
    }
}

/// A request for bytes, with a limit on their number.
pub fn bytes_request(url: &str, max_bytes: usize, timeout_secs: u64) -> (r: FetchRequest)
    ensures
        r.deep_view() == bytes_asked(url@, max_bytes, timeout_secs),
{
    FetchRequest {
        label: join("GET ", url),
        url: url.to_owned(),
        timeout_secs,
        max_bytes: Some(max_bytes),
    }
}

/// The request for the description of a pet.
pub fn pet_json_request(url: &str) -> (r: FetchRequest)
    ensures
        r.deep_view() == bytes_asked(url@, MAX_PET_JSON_BYTES, 60),
{
    bytes_request(url, MAX_PET_JSON_BYTES, 60)
}

/// The request for the spritesheet of a pet.
pub fn spritesheet_request(url: &str) -> (r: FetchRequest)
    ensures
        r.deep_view() == bytes_asked(url@, MAX_SPRITE_BYTES, 60),
{
    bytes_request(url, MAX_SPRITE_BYTES, 60)
}

/// The request for the bundle of all pets.
pub fn bundle_request(url: &str) -> (r: FetchRequest)
    ensures
        r.deep_view() == bytes_asked(url@, MAX_BUNDLE_BYTES, 600),
{
    bytes_request(url, MAX_BUNDLE_BYTES, 600)
}

/// Where the bundle of all pets is, for a manifest that names none.
pub fn fallback_bundle_url() -> (r: &'static str)
    ensures
        r@ == FALLBACK_BUNDLE_URL@,
        r@ == "https://pub-94495283df974cfea5e98d6a9e3fa462.r2.dev/packs/petdex-approved.zip"@,
{
    FALLBACK_BUNDLE_URL
}

/// Where the bundle of all pets is.
pub fn bundle_url(remote: &RemoteManifest) -> (r: String)
    ensures
        r@ == match remote.deep_view().all_pets_pack_path {
            Some(url) => url,
            None => FALLBACK_BUNDLE_URL@,
        },
{
    match &remote.all_pets_pack_path {
        Some(url) => url.duplicate(),
        None => fallback_bundle_url().to_owned(),
    }
}

// ---------------------------------------------------------------------------------------------
// Answers
// ---------------------------------------------------------------------------------------------

/// Why an attempt failed, and whether another one may help.
#[derive(Debug)]
pub struct RetryError {
    pub message: String,
    pub retryable: bool,
}

/// What a [`RetryError`] stands for.
#[verifier::ext_equal]
pub struct RetryErrorModel {
    pub message: Seq<char>,
    pub retryable: bool,
}

impl DeepView for RetryError {
    type V = RetryErrorModel;

    open spec fn deep_view(&self) -> RetryErrorModel {
        RetryErrorModel { message: self.message@, retryable: self.retryable }
    }
}

/// Whether another attempt may help after an answer with this status, or after no answer.
pub open spec fn may_retry(status: Option<u16>) -> bool {
    match status {
        Some(s) => s >= 500 || s == 408 || s == 429,
        None => true,
    }
}

/// Whether another attempt may help after an answer with this status, or after no answer: on
/// the server's own errors, on a timeout and on too many requests.
pub fn is_retryable(status: Option<u16>) -> (r: bool)
    ensures
        r == may_retry(status),
{
    match status {
        Some(s) => s >= 500 || s == 408 || s == 429,
        None => true,
    }
}

/// The failure of an attempt that got no usable answer.
pub fn transport_error(text: &str) -> (r: RetryError)
    ensures
        r.deep_view() == (RetryErrorModel { message: text@, retryable: true }),
{
    RetryError { message: text.to_owned(), retryable: true }
}

/// The failure of an attempt whose answer makes no sense.
pub fn parse_error(text: &str) -> (r: RetryError)
    ensures
        r.deep_view() == (RetryErrorModel { message: "parse: "@ + text@, retryable: false }),
{
    RetryError { message: join("parse: ", text), retryable: false }
}

/// Whether a status means success.
pub open spec fn is_success(status: u16) -> bool {
    200 <= status < 300
}

/// How a status reads: what the `Display` of `reqwest::StatusCode` gives.
pub uninterp spec fn status_line(status: u16) -> Seq<char>;

/// `reqwest::StatusCode`'s `Display`: the number, a space and the standard reason. It depends
/// on the number alone.
#[verifier::external_body]
fn status_text(status: u16) -> (r: String)
    requires
        100 <= status <= 999,
    ensures
        r@ == status_line(status),
        (decimal_text(status as nat) + " "@).is_prefix_of(r@),
{
    reqwest::StatusCode::from_u16(status).unwrap().to_string()
}

/// What is made of the status of an answer.
pub open spec fn status_verdict(status: u16, line: Seq<char>) -> Result<(), RetryErrorModel> {
    if is_success(status) {
        Ok(())
    } else {
        Err(RetryErrorModel { message: "status "@ + line, retryable: may_retry(Some(status)) })
    }
}

/// The model of a verdict.
pub open spec fn verdict_model(r: Result<(), RetryError>) -> Result<(), RetryErrorModel> {
    match r {
        Ok(()) => Ok(()),
        Err(e) => Err(e.deep_view()),
    }
}

/// Judges the status of an answer; `line` is how the status reads.
pub fn judge_status(status: u16, line: &str) -> (r: Result<(), RetryError>)
    ensures
        verdict_model(r) == status_verdict(status, line@),
{
    if 200 <= status && status < 300 {
        Ok(())
    } else {
        Err(
            RetryError { message: join("status ", line), retryable: is_retryable(Some(status)) },
        )
    }
}

/// Judges the status of an answer.
pub fn check_status(status: u16) -> (r: Result<(), RetryError>)
    requires
        100 <= status <= 999,
    ensures
        verdict_model(r) == status_verdict(status, status_line(status)),
        r matches Err(e) ==> ("status "@ + decimal_text(status as nat) + " "@).is_prefix_of(
            e.message@,
        ),
{
    let line = status_text(status);
    proof {
        let number = decimal_text(status as nat) + " "@;
        assert("status "@ + decimal_text(status as nat) + " "@ =~= "status "@ + number);
        assert(("status "@ + number).is_prefix_of("status "@ + line@));
    }
    judge_status(status, line.as_str())
}

/// Judges the size of a payload.
pub fn check_payload(len: usize, max_bytes: usize) -> (r: Result<(), RetryError>)
    ensures
        verdict_model(r) == (if len <= max_bytes {
            Ok::<(), RetryErrorModel>(())
        } else {
            Err(
                RetryErrorModel {
                    message: "payload "@ + decimal_text(len as nat) + " > limit "@ + decimal_text(
                        max_bytes as nat,
                    ),
                    retryable: false,
                },
            )
        }),
{
    if len > max_bytes {
        let found = decimal(len as u64);
        let limit = decimal(max_bytes as u64);
        let message = join("payload ", found.as_str());
        let message = join(message.as_str(), " > limit ");
        let message = join(message.as_str(), limit.as_str());
        Err(RetryError { message, retryable: false })
    } else {
        Ok(())
    }
}

// ---------------------------------------------------------------------------------------------
// Trying again
// ---------------------------------------------------------------------------------------------

/// How far a request has got: how many attempts failed.
pub struct RetryState {
    failed: u32,
}

/// How long to wait after that many failed attempts, in milliseconds: a second, and twice as
/// long each time.
pub open spec fn backoff_after(failed: nat) -> nat
    decreases failed,
{
    if failed == 0 {
        1000
    } else {
        2 * backoff_after((failed - 1) as nat)
    }
}

impl RetryState {
    #[verifier::type_invariant]
    spec fn in_step(self) -> bool {
        self.failed < MAX_ATTEMPTS
    }
}

impl DeepView for RetryState {
    type V = nat;

    closed spec fn deep_view(&self) -> nat {
        self.failed as nat
    }
}

/// What to do after a failed attempt.
pub enum RetryStep {
    /// Wait this many milliseconds, and make the request again.
    Again { wait_ms: u64, state: RetryState },
    /// Fail with this message.
    GiveUp { message: String },
}

/// What a [`RetryStep`] stands for.
#[verifier::ext_equal]
pub enum RetryStepModel {
    Again { wait_ms: nat, failed: nat },
    GiveUp { message: Seq<char> },
}

impl DeepView for RetryStep {
    type V = RetryStepModel;

    open spec fn deep_view(&self) -> RetryStepModel {
        match self {
            RetryStep::Again { wait_ms, state } => RetryStepModel::Again {
                wait_ms: *wait_ms as nat,
                failed: state.deep_view(),
            },
            RetryStep::GiveUp { message } => RetryStepModel::GiveUp { message: message@ },
        }
    }
}

/// What to do when, after `failed` failed attempts, one more fails.
pub open spec fn retry_step(
    failed: nat,
    label: Seq<char>,
    error: RetryErrorModel,
) -> RetryStepModel {
    if failed + 1 >= MAX_ATTEMPTS || !error.retryable {
        RetryStepModel::GiveUp { message: label + ": "@ + error.message }
    } else {
        RetryStepModel::Again { wait_ms: backoff_after(failed), failed: failed + 1 }
    }
}

/// Before the first attempt.
pub fn retry_start() -> (r: RetryState)
    ensures
        r.deep_view() == 0,
{
    RetryState { failed: 0 }
}

/// How long to wait after that many failed attempts, in milliseconds.
fn backoff_ms(failed: u32) -> (r: u64)
    requires
        failed < MAX_ATTEMPTS,
    ensures
        r == backoff_after(failed as nat),
{
    let mut ms: u64 = 1000;
    let mut i: u32 = 0;
    while i < failed
        invariant
            i <= failed < MAX_ATTEMPTS,
            ms == backoff_after(i as nat),
        decreases failed - i,
    {
        proof {
            reveal_with_fuel(backoff_after, 3);
        }
        ms = ms * 2;
        i += 1;
    }
    ms
}

/// Decides what to do after a failed attempt.
pub fn after_failure(state: RetryState, label: &str, error: &RetryError) -> (r: RetryStep)
    ensures
        state.deep_view() < MAX_ATTEMPTS,
        r.deep_view() == retry_step(state.deep_view(), label@, error.deep_view()),
{
    proof {
        use_type_invariant(&state);
    }
    if state.failed == MAX_ATTEMPTS - 1 || !error.retryable {
        let head = join(label, ": ");
        RetryStep::GiveUp { message: join(head.as_str(), error.message.as_str()) }
    } else {
        RetryStep::Again {
            wait_ms: backoff_ms(state.failed),
            state: RetryState { failed: state.failed + 1 },
        }
    }
}

// ---------------------------------------------------------------------------------------------
// Spritesheets
// ---------------------------------------------------------------------------------------------

/// The bytes are those of a WebP or PNG image, as far as their beginning tells.
pub open spec fn looks_like_image(b: Seq<u8>) -> bool {
    &&& b.len() >= 12
    &&& {
        ||| b.subrange(0, 4) == seq![0x52u8, 0x49, 0x46, 0x46] && b.subrange(8, 12)
            == seq![0x57u8, 0x45, 0x42, 0x50]
        ||| b.subrange(0, 8) == seq![0x89u8, 0x50, 0x4E, 0x47, 0x0D, 0x0A, 0x1A, 0x0A]
    }
}

/// Whether the bytes begin as a WebP image (`RIFF`, four bytes, `WEBP`) or a PNG image does.
pub fn is_webp_or_png(b: &[u8]) -> (r: bool)
    ensures
        r == looks_like_image(b@),
{
    if b.len() < 12 {
        return false;
    }
    let webp = b[0] == 0x52 && b[1] == 0x49 && b[2] == 0x46 && b[3] == 0x46 && b[8] == 0x57 && b[9]
        == 0x45 && b[10] == 0x42 && b[11] == 0x50;
    let png = b[0] == 0x89 && b[1] == 0x50 && b[2] == 0x4E && b[3] == 0x47 && b[4] == 0x0D && b[5]
        == 0x0A && b[6] == 0x1A && b[7] == 0x0A;
    proof {
        let riff = b@.subrange(0, 4);
        let name = b@.subrange(8, 12);
        let head = b@.subrange(0, 8);
        assert(riff =~= seq![b@[0], b@[1], b@[2], b@[3]]);
        assert(name =~= seq![b@[8], b@[9], b@[10], b@[11]]);
        assert(head =~= seq![b@[0], b@[1], b@[2], b@[3], b@[4], b@[5], b@[6], b@[7]]);
        if riff == seq![0x52u8, 0x49, 0x46, 0x46] && name == seq![0x57u8, 0x45, 0x42, 0x50] {
            assert(riff[0] == 0x52 && riff[1] == 0x49 && riff[2] == 0x46 && riff[3] == 0x46);
            assert(name[0] == 0x57 && name[1] == 0x45 && name[2] == 0x42 && name[3] == 0x50);
        }
        if head == seq![0x89u8, 0x50, 0x4E, 0x47, 0x0D, 0x0A, 0x1A, 0x0A] {
            assert(head[0] == 0x89 && head[1] == 0x50 && head[2] == 0x4E && head[3] == 0x47);
            assert(head[4] == 0x0D && head[5] == 0x0A && head[6] == 0x1A && head[7] == 0x0A);
        }
    }
    webp || png
}

/// Why bytes are not accepted as a spritesheet, if they are not.
pub open spec fn spritesheet_fault(b: Seq<u8>) -> Option<Seq<char>> {
    if b.len() < MIN_SPRITE_BYTES {
        Some("spritesheet too small ("@ + decimal_text(b.len()) + " bytes)"@)
    } else if !looks_like_image(b) {
        Some("spritesheet is not webp or png"@)
    } else {
        None
    }
}

/// Judges the bytes of a spritesheet.
pub fn check_spritesheet(bytes: &[u8]) -> (r: Result<(), String>)
    ensures
        match r {
            Ok(()) => spritesheet_fault(bytes@) is None,
            Err(e) => spritesheet_fault(bytes@) == Some(e@),
        },
{
    if bytes.len() < MIN_SPRITE_BYTES {
        let found = decimal(bytes.len() as u64);
        let message = join("spritesheet too small (", found.as_str());
        return Err(join(message.as_str(), " bytes)"));
    }
    if !is_webp_or_png(bytes) {
        return Err("spritesheet is not webp or png".to_owned());
    }
    Ok(())
}

/// The file extension that the address of a spritesheet gives it.
pub open spec fn sprite_extension(url: Seq<char>) -> Seq<char> {
    if ".png"@.is_suffix_of(ascii_lowered(url)) {
        "png"@
    } else {
        "webp"@
    }
}

/// The file extension that the address of a spritesheet gives it: `png` where the address ends
/// so, in whatever case, and `webp` otherwise.
pub fn extract_ext_from_url(url: &str) -> (r: &'static str)
    ensures
        r@ == sprite_extension(url@),
{
    if ends_with_ignoring_ascii_case(url, ".png") {
        "png"
    } else {
        "webp"
    }
}

// ---------------------------------------------------------------------------------------------
// Laws
// ---------------------------------------------------------------------------------------------

/// A request is made three times at most: with one second and then two seconds in between where
/// every attempt fails in a way that another may help, after which it fails with the last
/// message.
pub proof fn three_attempts_at_most(
    label: Seq<char>,
    first: RetryErrorModel,
    second: RetryErrorModel,
    third: RetryErrorModel,
)
    ensures
        first.retryable ==> retry_step(0, label, first) == (RetryStepModel::Again {
            wait_ms: 1000,
            failed: 1,
        }),
        second.retryable ==> retry_step(1, label, second) == (RetryStepModel::Again {
            wait_ms: 2000,
            failed: 2,
        }),
        retry_step(2, label, third) == (RetryStepModel::GiveUp {
            message: label + ": "@ + third.message,
        }),
{
    reveal_with_fuel(backoff_after, 3);
}

/// How many attempts are made when they fail, in turn, with these errors.
pub open spec fn attempts_made(failed: nat, label: Seq<char>, errors: Seq<RetryErrorModel>) -> nat
    decreases errors.len(),
{
    if errors.len() == 0 {
        0
    } else {
        match retry_step(failed, label, errors[0]) {
            RetryStepModel::GiveUp { .. } => 1,
            RetryStepModel::Again { failed: next, .. } => 1 + attempts_made(
                next,
                label,
                errors.drop_first(),
            ),
        }
    }
}

/// Whatever the errors are, no more than three attempts are made.
pub proof fn attempts_are_bounded(label: Seq<char>, errors: Seq<RetryErrorModel>)
    ensures
        attempts_made(0, label, errors) <= MAX_ATTEMPTS,
{
    reveal_with_fuel(attempts_made, 4);
}

/// A failure that another attempt cannot mend is final.
pub proof fn hopeless_failure_is_final(failed: nat, label: Seq<char>, error: RetryErrorModel)
    requires
        !error.retryable,
    ensures
        retry_step(failed, label, error) is GiveUp,
{
}

/// Of the errors that are the client's own, only a timeout and too many requests are tried again:
/// every other one is final.
pub proof fn client_errors_are_final(status: u16, line: Seq<char>)
    requires
        400 <= status < 500,
        status != 408,
        status != 429,
    ensures
        status_verdict(status, line) matches Err(e) && !e.retryable,
{
}

/// A spritesheet that is accepted is not too small and begins as an image does.
pub proof fn accepted_spritesheet_is_image(b: Seq<u8>)
    requires
        spritesheet_fault(b) is None,
    ensures
        b.len() >= MIN_SPRITE_BYTES,
        looks_like_image(b),
{
}

/// A model of an offered pet has its fields, each as it is.
pub proof fn remote_pet_is_modelled_by_its_fields(x: RemotePet)
    ensures
        x.deep_view().slug == x.slug@,
        x.deep_view().display_name == x.display_name@,
        x.deep_view().description == x.description.deep_view(),
        x.deep_view().kind == x.kind.deep_view(),
        x.deep_view().vibes == x.vibes.deep_view(),
        x.deep_view().tags == x.tags.deep_view(),
        x.deep_view().featured == x.featured,
        x.deep_view().spritesheet_url == x.spritesheet_url.deep_view(),
        x.deep_view().pet_json_url == x.pet_json_url.deep_view(),
        x.deep_view().zip_url == x.zip_url.deep_view(),
        x.deep_view().submitted_by == x.submitted_by.deep_view(),
{
}

/// A model of a remote manifest has its fields, each as it is.
pub proof fn remote_manifest_is_modelled_by_its_fields(x: RemoteManifest)
    ensures
        x.deep_view().generated_at == x.generated_at.deep_view(),
        x.deep_view().total == x.total,
        x.deep_view().featured == x.featured,
        x.deep_view().all_pets_pack_path == x.all_pets_pack_path.deep_view(),
        x.deep_view().pets == x.pets.deep_view(),
{
}

/// A model of a request has its fields, each as it is.
pub proof fn fetch_request_is_modelled_by_its_fields(x: FetchRequest)
    ensures
        x.deep_view().label == x.label@,
        x.deep_view().url == x.url@,
        x.deep_view().timeout_secs == x.timeout_secs,
        x.deep_view().max_bytes == x.max_bytes,
{
}

/// A model of a failed attempt has its fields, each as it is.
pub proof fn retry_error_is_modelled_by_its_fields(x: RetryError)
    ensures
        x.deep_view().message == x.message@,
        x.deep_view().retryable == x.retryable,
{
}

/// Bytes are an image exactly when there are at least twelve of them, and the first four are
/// `RIFF` and the ninth to the twelfth `WEBP`, or the first eight are the signature of a PNG. No
/// other byte matters.
pub proof fn images_are_told_by_these_bytes_alone(b: Seq<u8>)
    ensures
        looks_like_image(b) <==> b.len() >= 12 && (({
            &&& b[0] == 0x52 && b[1] == 0x49 && b[2] == 0x46 && b[3] == 0x46
            &&& b[8] == 0x57 && b[9] == 0x45 && b[10] == 0x42 && b[11] == 0x50
        }) || ({
            &&& b[0] == 0x89 && b[1] == 0x50 && b[2] == 0x4E && b[3] == 0x47
            &&& b[4] == 0x0D && b[5] == 0x0A && b[6] == 0x1A && b[7] == 0x0A
        })),
{
    if b.len() >= 12 {
        let riff = b.subrange(0, 4);
        let name = b.subrange(8, 12);
        let head = b.subrange(0, 8);
        let r = seq![0x52u8, 0x49, 0x46, 0x46];
        let w = seq![0x57u8, 0x45, 0x42, 0x50];
        let p = seq![0x89u8, 0x50, 0x4E, 0x47, 0x0D, 0x0A, 0x1A, 0x0A];
        if riff == r && name == w {
            assert(riff[0] == r[0] && riff[1] == r[1] && riff[2] == r[2] && riff[3] == r[3]);
            assert(name[0] == w[0] && name[1] == w[1] && name[2] == w[2] && name[3] == w[3]);
        }
        if head == p {
            assert(head[0] == p[0] && head[1] == p[1] && head[2] == p[2] && head[3] == p[3]);
            assert(head[4] == p[4] && head[5] == p[5] && head[6] == p[6] && head[7] == p[7]);
        }
        if b[0] == 0x52 && b[1] == 0x49 && b[2] == 0x46 && b[3] == 0x46 && b[8] == 0x57 && b[9]
            == 0x45 && b[10] == 0x42 && b[11] == 0x50 {
            assert(riff =~= r);
            assert(name =~= w);
        }
        if b[0] == 0x89 && b[1] == 0x50 && b[2] == 0x4E && b[3] == 0x47 && b[4] == 0x0D && b[5]
            == 0x0A && b[6] == 0x1A && b[7] == 0x0A {
            assert(head =~= p);
        }
    }
}

/// What follows the first twelve bytes, and the four in the middle of a WebP file, make no
/// difference to whether bytes are an image.
pub proof fn other_bytes_do_not_matter(a: Seq<u8>, b: Seq<u8>)
    requires
        a.len() >= 12,
        b.len() >= 12,
        forall|i: int| 0 <= i < 4 || 8 <= i < 12 ==> #[trigger] a[i] == b[i],
        a[0] == 0x52,
    ensures
        looks_like_image(a) == looks_like_image(b),
{
    images_are_told_by_these_bytes_alone(a);
    images_are_told_by_these_bytes_alone(b);
    assert(b[0] == a[0]);
    assert(a[1] == b[1] && a[2] == b[2] && a[3] == b[3]);
    assert(a[8] == b[8] && a[9] == b[9] && a[10] == b[10] && a[11] == b[11]);
}

/// A spritesheet of at least ten kibibytes that begins as an image is accepted; one that is
/// smaller is refused with its size, whatever it is; and one that is no image is refused as such.
pub proof fn spritesheets_are_judged_by_size_and_beginning(b: Seq<u8>)
    ensures
        b.len() >= 10240 && looks_like_image(b) ==> spritesheet_fault(b) is None,
        b.len() < 10240 ==> spritesheet_fault(b) == Some(
            "spritesheet too small ("@ + decimal_text(b.len()) + " bytes)"@,
        ),
        b.len() >= 10240 && !looks_like_image(b) ==> spritesheet_fault(b) == Some(
            "spritesheet is not webp or png"@,
        ),
{
}

/// The extension is `png` exactly for an address whose last four characters are a dot and the
/// letters p, n, g in either case, and `webp` for every other.
pub proof fn extension_is_told_by_four_characters(url: Seq<char>)
    ensures
        ({
            let n = url.len() as int;
            let png = n >= 4 && url[n - 4] == '.' && (url[n - 3] == 'p' || url[n - 3] == 'P') && (
            url[n - 2] == 'n' || url[n - 2] == 'N') && (url[n - 1] == 'g' || url[n - 1] == 'G');
            sprite_extension(url) == if png {
                "png"@
            } else {
                "webp"@
            }
        }),
{
    reveal_strlit(".png");
    let n = url.len() as int;
    let low = ascii_lowered(url);
    let tail = ".png"@;
    assert(tail.len() == 4 && tail[0] == '.' && tail[1] == 'p' && tail[2] == 'n' && tail[3] == 'g');
    if n >= 4 {
        assert(low.subrange(n - 4, n).len() == 4);
        if tail.is_suffix_of(low) {
            assert(tail[0] == low[n - 4] && tail[1] == low[n - 3]);
            assert(tail[2] == low[n - 2] && tail[3] == low[n - 1]);
        }
        if low[n - 4] == '.' && low[n - 3] == 'p' && low[n - 2] == 'n' && low[n - 1] == 'g' {
            assert(tail =~= low.subrange(n - 4, n));
            assert(tail.is_suffix_of(low));
        }
    }
}

/// Another attempt may help without an answer, after a status of five hundred or more, after a
/// timeout and after too many requests, and in no other case.
pub proof fn what_may_help(status: u16)
    ensures
        may_retry(None),
        may_retry(Some(status)) <==> status >= 500 || status == 408 || status == 429,
{
}

/// A status from two hundred to two hundred and ninety-nine is a success; any other is an error
/// that tells the status and whether another attempt may help.
pub proof fn statuses_are_judged_by_number(status: u16, line: Seq<char>)
    ensures
        200 <= status <= 299 ==> status_verdict(status, line) is Ok,
        !(200 <= status <= 299) ==> (status_verdict(status, line) matches Err(e) && {
            &&& e.message == "status "@ + line
            &&& e.retryable <==> status >= 500 || status == 408 || status == 429
        }),
{
}

/// A failed attempt is followed by another exactly when it is the first or the second and another
/// may help; otherwise the request fails with its label and the message of the attempt.
pub proof fn giving_up_tells_why(failed: nat, label: Seq<char>, error: RetryErrorModel)
    ensures
        failed < 2 && error.retryable ==> (retry_step(failed, label, error) matches
            RetryStepModel::Again { failed: next, wait_ms } && next == failed + 1 && wait_ms
            == 1000 * (failed + 1)),
        failed >= 2 || !error.retryable ==> retry_step(failed, label, error) == (
        RetryStepModel::GiveUp { message: label + ": "@ + error.message }),
{
    reveal_with_fuel(backoff_after, 3);
}

/// A request for bytes asks for what it was told to ask for, and is called by its address.
pub proof fn bytes_are_asked_as_told(url: Seq<char>, max_bytes: usize, timeout_secs: u64)
    ensures
        bytes_asked(url, max_bytes, timeout_secs).label == "GET "@ + url,
        bytes_asked(url, max_bytes, timeout_secs).url == url,
        bytes_asked(url, max_bytes, timeout_secs).timeout_secs == timeout_secs,
        bytes_asked(url, max_bytes, timeout_secs).max_bytes == Some(max_bytes),
{
}

/// A verdict is modelled by what it holds.
pub proof fn verdict_is_modelled_by_what_it_holds(r: Result<(), RetryError>)
    ensures
        match r {
            Ok(()) => verdict_model(r) is Ok,
            Err(e) => verdict_model(r) == Err::<(), RetryErrorModel>(e.deep_view()),
        },
{
}

/// A step is modelled by what it holds.
pub proof fn step_is_modelled_by_what_it_holds(x: RetryStep)
    ensures
        match x {
            RetryStep::Again { wait_ms, state } => x.deep_view() == (RetryStepModel::Again {
                wait_ms: wait_ms as nat,
                failed: state.deep_view(),
            }),
            RetryStep::GiveUp { message } => x.deep_view() == (RetryStepModel::GiveUp {
                message: message@,
            }),
        },
{
}

} // verus!
