use omniget::json::JsonField;
use omniget::pets::download::{RemoteManifest, RemotePet};
use omniget::pets::install::{diff, refresh_index, uninstall, FailedInstall};
use omniget::pets::job::{advance, advance_with, metadata_bytes, metadata_document};
use omniget::pets::job::{sizes_fit, sprite_file_name, start_install, InstallEvent};
use omniget::pets::job::InstallStage;
use omniget::pets::manifest::{LocalManifest, LocalPetEntry};
use omniget::pets::state::{cached_remote, pets_diff, pets_fetch_remote_manifest};
use omniget::pets::state::{pets_get_active, pets_get_display_prefs, pets_resolve_path};
use omniget::pets::state::{pets_set_active, pets_set_display_prefs, prefs_or_default};
use omniget::pets::state::{read_active, temp_extension, write_active, ActivePref};
use omniget::pets::state::{DisplayPrefs, PetsState, ACTIVE_FILE, DISPLAY_PREFS_FILE};
use omniget::pets::sync::{awaits, begin_sync, find_pet, finish_refresh, finish_sync, has_room};
use omniget::pets::sync::{is_finished, missing_pets, record_outcome, unknown_pet_notice};
use omniget::pets::sync::{unknown_pet_report, Notice, Outcome};
use omniget::strmap::StrMap;

fn texts(list: &[&str]) -> Vec<String> {
    list.iter().map(|s| s.to_string()).collect()
}

fn pet(slug: &str) -> RemotePet {
    RemotePet {
        slug: slug.to_string(),
        display_name: format!("The {}", slug),
        description: None,
        kind: None,
        vibes: texts(&["calm"]),
        tags: texts(&["cat", "grey"]),
        featured: true,
        spritesheet_url: Some(format!("https://x.test/{}.PNG", slug)),
        pet_json_url: Some(format!("https://x.test/{}.json", slug)),
        zip_url: None,
        submitted_by: None,
    }
}

fn remote(slugs: &[&str]) -> RemoteManifest {
    RemoteManifest {
        generated_at: Some("then".to_string()),
        total: 77,
        featured: 0,
        all_pets_pack_path: None,
        pets: slugs.iter().map(|s| pet(s)).collect(),
    }
}

fn entry(slug: &str, name: &str) -> LocalPetEntry {
    LocalPetEntry {
        slug: slug.to_string(),
        display_name: name.to_string(),
        source: "manifest".to_string(),
        installed_at: "t".to_string(),
        vibes: vec![],
        tags: vec![],
        kind: None,
        sprite_ext: "webp".to_string(),
        file_sizes: StrMap::new(),
        remote_checked_at: None,
    }
}

fn manifest(pets: &[(&str, &str)]) -> LocalManifest {
    let mut m = LocalManifest::empty();
    for (slug, name) in pets {
        m.put_pet(slug.to_string(), entry(slug, name), "now");
    }
    m
}

// The index and the difference

#[test]
fn the_index_is_sorted_by_name_without_regard_to_case() {
    let m = manifest(&[("z", "alpha"), ("b", "Beta"), ("a", "ALPHA"), ("c", "\u{c9}")]);
    let index = refresh_index(&m);
    let slugs: Vec<String> = index.pets.iter().map(|p| p.slug.clone()).collect();
    assert_eq!(slugs, texts(&["a", "z", "b", "c"]));
    assert_eq!(index.total, 4);
    assert_eq!(index.last_synced_at, Some("now".to_string()));
    let again = refresh_index(&m);
    assert_eq!(again.pets[1].display_name, "alpha");
}

#[test]
fn lower_case_follows_unicode() {
    let index = refresh_index(&manifest(&[("a", "\u{c9}z"), ("b", "\u{e9}a")]));
    assert_eq!(index.pets[0].slug, "b");
}

#[test]
fn an_empty_index() {
    let index = refresh_index(&LocalManifest::empty());
    assert!(index.pets.is_empty());
    assert_eq!(index.total, 0);
    assert_eq!(index.last_synced_at, None);
}

#[test]
fn the_difference_divides_the_offer() {
    let index = refresh_index(&manifest(&[("b", "B"), ("x", "X"), ("a", "A")]));
    let d = diff(&index, &remote(&["d", "b", "c", "c", "a"]));
    assert_eq!(d.new_remote, texts(&["c", "c", "d"]));
    assert_eq!(d.in_both, texts(&["a", "b"]));
    assert_eq!(d.only_local, texts(&["x"]));
    assert_eq!(d.total_remote, 77);
    assert_eq!(d.total_local, 3);
}

#[test]
fn nothing_is_new_once_all_is_installed() {
    let index = refresh_index(&manifest(&[("a", "A"), ("b", "B")]));
    let d = diff(&index, &remote(&["b", "a"]));
    assert!(d.new_remote.is_empty());
    assert!(d.only_local.is_empty());
    assert_eq!(d.clone().in_both, texts(&["a", "b"]));
}

#[test]
fn uninstalling_takes_one_pet_out() {
    let mut m = manifest(&[("a", "A"), ("b", "B")]);
    uninstall(&mut m, "a");
    assert!(!m.pets.contains("a"));
    assert!(m.pets.contains("b"));
    uninstall(&mut m, "none");
    assert_eq!(m.pets.len(), 1);
}

// One pet

fn failure(stage: InstallStage) -> FailedInstall {
    match stage {
        InstallStage::Failed(f) => f,
        _ => panic!("not failed"),
    }
}

fn fault(pet: &RemotePet, stage: InstallStage) -> String {
    let f = failure(advance(pet, stage, InstallEvent::Fault("x".to_string())));
    assert_eq!(f.slug, pet.slug);
    f.reason
}

fn at_directory(p: &RemotePet) -> InstallStage {
    let s = start_install(p, false, false);
    let s = advance(p, s, InstallEvent::Fetched(b"{}".to_vec()));
    advance(p, s, InstallEvent::Fetched(vec![7; 3]))
}

#[test]
fn a_pet_that_is_there_is_not_installed_again() {
    let p = pet("a");
    assert_eq!(failure(start_install(&p, true, false)).reason, "already installed");
    assert!(matches!(
        start_install(&p, true, true),
        InstallStage::FetchPetJson { .. }
    ));
}

#[test]
fn a_pet_needs_its_addresses() {
    let mut p = pet("a");
    p.pet_json_url = None;
    assert_eq!(failure(start_install(&p, false, false)).reason, "missing pet.json url");
    p.spritesheet_url = None;
    assert_eq!(
        failure(start_install(&p, false, false)).reason,
        "missing spritesheet url"
    );
}

#[test]
fn the_description_has_to_be_json() {
    let p = pet("a");
    let s = start_install(&p, false, false);
    let s = advance(&p, s, InstallEvent::Fetched(b"{]".to_vec()));
    assert_eq!(failure(s).reason, "pet.json invalid");
    let s = start_install(&p, false, false);
    let s = advance_with(&p, s, InstallEvent::Fetched(b"{]".to_vec()), true);
    assert!(matches!(s, InstallStage::FetchSprite { .. }));
}

#[test]
fn each_stage_can_fail() {
    let p = pet("a");
    assert_eq!(fault(&p, start_install(&p, false, false)), "pet.json: x");
    let s = advance(
        &p,
        start_install(&p, false, false),
        InstallEvent::Fetched(b"1".to_vec()),
    );
    assert_eq!(fault(&p, s), "sprite: x");
    assert_eq!(fault(&p, at_directory(&p)), "mkdir: x");
    let s = advance(&p, at_directory(&p), InstallEvent::Done);
    assert_eq!(fault(&p, s), "sprite write: x");
    let s = advance(&p, at_directory(&p), InstallEvent::Done);
    let s = advance(&p, s, InstallEvent::Done);
    assert_eq!(fault(&p, s), "pet.json write: x");
}

#[test]
fn six_good_answers_install_a_pet() {
    let p = pet("a");
    let mut s = at_directory(&p);
    for _ in 0..3 {
        s = advance(&p, s, InstallEvent::Done);
    }
    assert!(sizes_fit(&s));
    match &s {
        InstallStage::WriteMetadata(d) => {
            assert_eq!(d.pet_json, b"{}".to_vec());
            assert_eq!(d.sprite, vec![7; 3]);
            assert_eq!(d.sprite_ext, "png");
        }
        _ => panic!("no metadata"),
    }
    let s = advance(
        &p,
        s,
        InstallEvent::Recorded {
            installed_at: "t1".to_string(),
            checked_at: "t2".to_string(),
        },
    );
    let s = advance(&p, s, InstallEvent::Fault("late".to_string()));
    match s {
        InstallStage::Installed { bytes, entry } => {
            assert_eq!(bytes, 5);
            assert_eq!(entry.slug, "a");
            assert_eq!(entry.display_name, "The a");
            assert_eq!(entry.source, "manifest");
            assert_eq!(entry.installed_at, "t1");
            assert_eq!(entry.remote_checked_at, Some("t2".to_string()));
            assert_eq!(entry.vibes, texts(&["calm"]));
            assert_eq!(entry.tags, texts(&["cat", "grey"]));
            assert_eq!(entry.kind, None);
            assert_eq!(entry.sprite_ext, "png");
            assert_eq!(entry.file_sizes.get("spritesheet"), Some(&3));
            assert_eq!(entry.file_sizes.get("pet.json"), Some(&2));
            assert_eq!(entry.file_sizes.len(), 2);
        }
        _ => panic!("not installed"),
    }
}

#[test]
fn an_event_that_answers_nothing_changes_nothing() {
    let p = pet("a");
    let s = advance(&p, start_install(&p, false, false), InstallEvent::Done);
    assert!(matches!(s, InstallStage::FetchPetJson { .. }));
    let s = advance(&p, at_directory(&p), InstallEvent::Fetched(vec![1]));
    assert!(matches!(s, InstallStage::MakeDir(_)));
}

#[test]
fn the_metadata_document() {
    let fields = metadata_document(&pet("a"), "png", "t");
    let keys: Vec<&str> = fields.iter().map(|f| f.0.as_str()).collect();
    assert_eq!(
        keys,
        vec![
            "id",
            "slug",
            "displayName",
            "description",
            "spritesheetPath",
            "petJsonPath",
            "kind",
            "vibes",
            "tags",
            "featured",
            "submittedBy",
            "importedAt"
        ]
    );
    assert!(matches!(&fields[4].1, JsonField::Text(s) if s == "/pets/a/spritesheet.png"));
    assert!(matches!(&fields[5].1, JsonField::Text(s) if s == "/pets/a/pet.json"));
    assert!(matches!(&fields[6].1, JsonField::Text(s) if s.is_empty()));
    assert!(matches!(&fields[9].1, JsonField::Flag(true)));
    assert!(matches!(&fields[10].1, JsonField::MaybeText(None)));
    assert_eq!(sprite_file_name("webp"), "spritesheet.webp");
}

#[test]
fn the_metadata_document_is_json() {
    let mut p = pet("a");
    p.kind = Some("cat".to_string());
    p.submitted_by = Some("me".to_string());
    let bytes = metadata_bytes(&p, "png", "t");
    let v: serde_json::Value = serde_json::from_slice(&bytes).unwrap();
    assert_eq!(v.get("displayName").unwrap().as_str(), Some("The a"));
    assert_eq!(v.get("kind").unwrap().as_str(), Some("cat"));
    assert_eq!(v.get("submittedBy").unwrap().as_str(), Some("me"));
    assert_eq!(v.get("featured").unwrap().as_bool(), Some(true));
    assert_eq!(v.get("tags").unwrap().as_array().unwrap().len(), 2);
    assert_eq!(v.get("importedAt").unwrap().as_str(), Some("t"));
    assert_eq!(v.as_object().unwrap().len(), 12);
    let text = String::from_utf8(bytes).unwrap();
    assert!(text.starts_with("{\n  \""));
}

// Many pets

fn installed(slug: &str, bytes: u64) -> Outcome {
    Outcome::Installed {
        slug: slug.to_string(),
        bytes,
        entry: entry(slug, slug),
    }
}

fn failed(slug: &str, reason: &str) -> Outcome {
    Outcome::Failed(FailedInstall {
        slug: slug.to_string(),
        reason: reason.to_string(),
    })
}

#[test]
fn what_is_missing() {
    let m = manifest(&[("b", "B")]);
    let offer = remote(&["a", "b", "c", "d"]);
    let all: Vec<String> = missing_pets(&m, &offer, &None).into_iter().map(|p| p.slug).collect();
    assert_eq!(all, texts(&["a", "c", "d"]));
    let some = missing_pets(&m, &offer, &Some(texts(&["d", "b", "z", "a"])));
    let some: Vec<String> = some.into_iter().map(|p| p.slug).collect();
    assert_eq!(some, texts(&["a", "d"]));
    assert!(missing_pets(&m, &offer, &Some(vec![])).is_empty());
}

#[test]
fn a_run_of_many_pets() {
    let mut m = LocalManifest::empty();
    let offer = remote(&["a", "b", "c", "d", "e", "f"]);
    let (run, begun, started) = begin_sync(missing_pets(&m, &offer, &None));
    assert_eq!(begun.len(), 4);
    assert_eq!(begun[3].slug, "d");
    assert_eq!(started.kind, "incremental");
    assert_eq!(started.expected, 6);

    assert!(has_room(&run, &installed("a", 10)));
    assert!(awaits(&run, &installed("a", 10)));
    assert!(awaits(&run, &failed("d", "mkdir: x")));
    assert!(!awaits(&run, &installed("e", 10)));
    assert_eq!(failed("d", "mkdir: x").slug(), "d");
    let (run, notice, next) = record_outcome(run, &mut m, installed("b", 10), "t1");
    assert_eq!(next.unwrap().slug, "e");
    assert!(awaits(&run, &installed("e", 10)));
    assert!(!awaits(&run, &installed("b", 10)));
    let event = notice.progress_event().unwrap();
    assert_eq!(event.slug, "b");
    assert_eq!(event.current, 1);
    assert_eq!(event.total, 6);
    assert_eq!(event.bytes_downloaded, 10);
    assert_eq!(event.bytes_total, 0);
    assert!(m.pets.contains("b"));
    assert_eq!(m.last_synced_at, Some("t1".to_string()));
    assert!(!has_room(&run, &installed("z", u64::MAX - 9)));
    assert!(has_room(&run, &installed("z", u64::MAX - 10)));

    let (run, notice, next) = record_outcome(run, &mut m, failed("a", "sprite: x"), "t2");
    assert_eq!(next.unwrap().slug, "f");
    assert!(notice.progress_event().is_none());
    match notice {
        Notice::Error { slug, message } => {
            assert_eq!(slug, "a");
            assert_eq!(message, "sprite: x");
        }
        _ => panic!("no error"),
    }
    let (run, notice, next) = record_outcome(run, &mut m, failed("c", "already installed"), "t3");
    assert!(next.is_none());
    assert!(matches!(notice, Notice::Nothing));
    let (run, _, _) = record_outcome(run, &mut m, installed("d", 1), "t4");
    let (run, _, _) = record_outcome(run, &mut m, installed("e", 1), "t5");
    assert!(!is_finished(&run));
    let (run, notice, next) = record_outcome(run, &mut m, installed("f", 1), "t6");
    assert!(next.is_none());
    assert!(is_finished(&run));
    assert_eq!(notice.progress_event().unwrap().current, 6);

    let report = finish_sync(run, &mut m, &offer.generated_at, "end", 5);
    assert_eq!(report.added, texts(&["b", "d", "e", "f"]));
    assert_eq!(report.skipped, texts(&["c"]));
    assert_eq!(report.failed.len(), 1);
    assert_eq!(report.total_bytes, 13);
    assert_eq!(report.duration_ms, 5);
    assert_eq!(m.last_synced_at, Some("end".to_string()));
    assert_eq!(m.last_remote_manifest_at, Some("then".to_string()));
    let left: Vec<String> = missing_pets(&m, &offer, &None).into_iter().map(|p| p.slug).collect();
    assert_eq!(left, texts(&["a", "c"]));
}

#[test]
fn one_slug_may_be_offered_twice() {
    let mut m = LocalManifest::empty();
    let offer = remote(&["a", "a"]);
    let (run, begun, _) = begin_sync(missing_pets(&m, &offer, &None));
    assert_eq!(begun.len(), 2);
    let (run, _, _) = record_outcome(run, &mut m, installed("a", 3), "t1");
    assert!(awaits(&run, &installed("a", 3)));
    let (run, _, _) = record_outcome(run, &mut m, failed("a", "already installed"), "t2");
    assert!(!awaits(&run, &installed("a", 3)));
    assert!(is_finished(&run));
    let report = finish_sync(run, &mut m, &None, "end", 1);
    assert_eq!(report.added, texts(&["a"]));
    assert_eq!(report.skipped, texts(&["a"]));
    assert_eq!(report.total_bytes, 3);
}

#[test]
fn a_run_of_no_pets() {
    let (run, begun, started) = begin_sync(vec![]);
    assert!(begun.is_empty());
    assert_eq!(started.expected, 0);
    assert!(is_finished(&run));
}

#[test]
fn one_pet_again() {
    let offer = remote(&["a", "b"]);
    assert_eq!(find_pet(&offer, "b").unwrap().display_name, "The b");
    assert!(find_pet(&offer, "c").is_none());
    let mut twice = remote(&["a", "a"]);
    twice.pets[0].display_name = "first".to_string();
    assert_eq!(find_pet(&twice, "a").unwrap().display_name, "first");
    match unknown_pet_notice("c") {
        Notice::Error { slug, message } => {
            assert_eq!(slug, "c");
            assert_eq!(message, "slug not in remote manifest");
        }
        _ => panic!("no error"),
    }
    let report = unknown_pet_report("c".to_string(), 9);
    assert_eq!(report.failed[0].slug, "c");
    assert_eq!(report.failed[0].reason, "not in remote manifest");
    assert_eq!(report.duration_ms, 9);

    let mut m = LocalManifest::empty();
    let report = finish_refresh(&mut m, installed("a", 4), "t", 1);
    assert_eq!(report.added, texts(&["a"]));
    assert_eq!(report.total_bytes, 4);
    assert!(m.pets.contains("a"));
    assert_eq!(m.last_synced_at, Some("t".to_string()));
    let report = finish_refresh(&mut m, failed("b", "mkdir: x"), "u", 1);
    assert!(report.added.is_empty());
    assert_eq!(report.failed[0].reason, "mkdir: x");
    assert_eq!(m.last_synced_at, Some("t".to_string()));
}

// What is remembered

#[test]
fn the_active_pet_is_stored_and_read() {
    let pref = ActivePref {
        slug: "caf\u{e9} \"x\"".to_string(),
    };
    let raw = String::from_utf8(write_active(&pref)).unwrap();
    assert_eq!(read_active(&Some(raw.clone())), Some(pref.slug.clone()));
    let mut state = PetsState::default();
    assert_eq!(pets_get_active(&mut state, &Some(raw)), Some(pref.slug));
    assert_eq!(read_active(&None), None);
    assert_eq!(read_active(&Some("{\"slug\": 3}".to_string())), None);
    assert_eq!(read_active(&Some("[]".to_string())), None);
    assert_eq!(read_active(&Some("{".to_string())), None);
    assert_eq!(ACTIVE_FILE, "active.json");
}

#[test]
fn the_chosen_pet_stays_active() {
    let stored = Some("{\"slug\": \"old\"}".to_string());
    let mut state = PetsState::default();
    assert_eq!(pets_get_active(&mut state, &None), None);
    assert_eq!(pets_get_active(&mut state, &stored), Some("old".to_string()));
    assert_eq!(pets_get_active(&mut state, &None), Some("old".to_string()));
    pets_set_active(&mut state, "new".to_string());
    assert_eq!(pets_get_active(&mut state, &stored), Some("new".to_string()));
    assert!(state.remote_cache.is_none());
}

#[test]
fn the_default_display() {
    let prefs = prefs_or_default(None);
    assert!(prefs.enabled);
    assert!(prefs.motion_enabled);
    assert_eq!(prefs.default_state, "idle");
    assert!(prefs.event_overrides.is_empty());
    assert_eq!(DISPLAY_PREFS_FILE, "display_prefs.json");
}

#[test]
fn the_chosen_display_stays() {
    let mut state = PetsState::default();
    let mut chosen = DisplayPrefs::default();
    chosen.default_state = "wave".to_string();
    chosen
        .event_overrides
        .insert("done".to_string(), serde_json::Value::from("jump"));
    let shown = pets_get_display_prefs(&mut state, Some(chosen));
    assert_eq!(shown.default_state, "wave");
    assert_eq!(shown.event_overrides.get("done").unwrap().as_str(), Some("jump"));
    let shown = pets_get_display_prefs(&mut state, None);
    assert_eq!(shown.default_state, "wave");
    assert_eq!(shown.event_overrides.len(), 1);
    let mut other = shown.clone();
    other.enabled = false;
    let shown = pets_set_display_prefs(&mut state, other);
    assert!(!shown.enabled);
    assert_eq!(shown.event_overrides.get("done").unwrap().as_str(), Some("jump"));
    assert!(!pets_get_display_prefs(&mut state, None).enabled);
    assert!(!state.display_prefs_cache.unwrap().enabled);
    let mut fresh = PetsState::default();
    assert_eq!(pets_get_display_prefs(&mut fresh, None).default_state, "idle");
    assert_eq!(fresh.display_prefs_cache.unwrap().default_state, "idle");
}

#[test]
fn the_remote_manifest_is_remembered() {
    let mut state = PetsState::default();
    assert!(cached_remote(&state).is_none());
    let fetched = pets_fetch_remote_manifest(&mut state, remote(&["a"]));
    assert_eq!(fetched.pets[0].slug, "a");
    assert_eq!(cached_remote(&state).unwrap().pets[0].slug, "a");
    let mut m = manifest(&[("a", "A")]);
    let index = refresh_index(&m);
    let d = pets_diff(&mut state, &index, &mut m, remote(&["b", "a"]));
    assert_eq!(d.new_remote, texts(&["b"]));
    assert_eq!(d.in_both, texts(&["a"]));
    assert_eq!(cached_remote(&state).unwrap().pets.len(), 2);
    assert_eq!(m.last_remote_manifest_at, Some("then".to_string()));
    assert_eq!(m.last_synced_at, Some("now".to_string()));
}

#[test]
fn which_spritesheet_is_shown() {
    assert_eq!(pets_resolve_path("a", true, true), Ok("spritesheet.webp"));
    assert_eq!(pets_resolve_path("a", true, false), Ok("spritesheet.webp"));
    assert_eq!(pets_resolve_path("a", false, true), Ok("spritesheet.png"));
    assert_eq!(
        pets_resolve_path("a", false, false),
        Err("no spritesheet for slug 'a'".to_string())
    );
}

#[test]
fn names_of_temporary_files() {
    assert_eq!(temp_extension(Some("json")), "json.tmp");
    assert_eq!(temp_extension(None), "dat.tmp");
}
