use std::io::{Cursor, Write};

use omniget::pets::archive::{group_files, place_entry, read_bundle, BundleFile, EntryHead};
use omniget::pets::bundle::{add_sizes, bundle_started, current_pet, describe_pet, file_kind};
use omniget::pets::bundle::{finish_bundle, has_room, kind_of_lowered, no_bundle_report};
use omniget::pets::bundle::{note_file, open_bundle, read_document, record_no_dir};
use omniget::pets::bundle::{record_written, start_bundle, BundleRun, FileKind, PetDocument};
use omniget::pets::download::RemotePet;
use omniget::pets::job::metadata_bytes;
use omniget::pets::manifest::{LocalManifest, LocalPetEntry};
use omniget::pets::sync::Notice;
use omniget::strmap::StrMap;

fn texts(list: &[&str]) -> Vec<String> {
    list.iter().map(|s| s.to_string()).collect()
}

fn zipped(files: &[(&str, &[u8])]) -> Vec<u8> {
    let mut w = zip::ZipWriter::new(Cursor::new(Vec::new()));
    let options = zip::write::SimpleFileOptions::default();
    for (name, bytes) in files {
        if name.ends_with('/') {
            w.add_directory(*name, options).unwrap();
        } else {
            w.start_file(*name, options).unwrap();
            w.write_all(bytes).unwrap();
        }
    }
    w.finish().unwrap().into_inner()
}

fn head(is_file: bool, parts: &[&str]) -> EntryHead {
    EntryHead {
        name: parts.join("/"),
        is_file,
        path: Some(parts.iter().map(|p| Some(p.to_string())).collect()),
    }
}

fn file(slug: &str, name: &str, bytes: &[u8]) -> BundleFile {
    BundleFile {
        slug: slug.to_string(),
        name: name.to_string(),
        bytes: bytes.to_vec(),
    }
}

fn pair(name: &str, bytes: &[u8]) -> (String, Vec<u8>) {
    (name.to_string(), bytes.to_vec())
}

fn entry(slug: &str) -> LocalPetEntry {
    LocalPetEntry {
        slug: slug.to_string(),
        display_name: "kept".to_string(),
        source: "manifest".to_string(),
        installed_at: "t".to_string(),
        vibes: vec![],
        tags: vec![],
        kind: None,
        sprite_ext: "webp".to_string(),
        file_sizes: StrMap::new(),
        remote_checked_at: None,
    }
}

fn written(run: BundleRun, m: &mut LocalManifest, flags: &[bool]) -> (BundleRun, Notice) {
    assert!(has_room(&run));
    record_written(run, m, &flags.to_vec(), "t1", "t2")
}

#[test]
fn an_entry_is_placed_by_its_last_two_parts() {
    let placed = |h: EntryHead| place_entry(&h);
    let expected = Some(("cat".to_string(), "pet.json".to_string()));
    assert_eq!(placed(head(true, &["cat", "pet.json"])), expected);
    assert_eq!(placed(head(true, &["a", "b", "cat", "pet.json"])), expected);
    assert_eq!(placed(head(true, &["pet.json"])), None);
    assert_eq!(placed(head(true, &[])), None);
    assert_eq!(placed(head(false, &["cat", "pet.json"])), None);
    assert_eq!(
        placed(EntryHead {
            name: "/cat/pet.json".to_string(),
            is_file: true,
            path: None
        }),
        None
    );
    let gap = EntryHead {
        name: String::new(),
        is_file: true,
        path: Some(vec![
            Some("cat".to_string()),
            None,
            Some("pet.json".to_string()),
        ]),
    };
    assert_eq!(placed(gap), expected);
}

#[test]
fn a_bundle_is_read_in_order() {
    let bytes = zipped(&[
        ("readme.txt", b"skip"),
        ("pack/", b""),
        ("pack/dog/pet.json", b"{}"),
        ("cat/spritesheet.webp", b"sheet"),
        ("../out/pet.json", b"outside"),
        ("pack/dog/spritesheet.png", b"png"),
    ]);
    let files = read_bundle(bytes).unwrap();
    let found: Vec<(String, String, Vec<u8>)> =
        files.into_iter().map(|f| (f.slug, f.name, f.bytes)).collect();
    assert_eq!(
        found,
        vec![
            ("dog".to_string(), "pet.json".to_string(), b"{}".to_vec()),
            ("cat".to_string(), "spritesheet.webp".to_string(), b"sheet".to_vec()),
            ("dog".to_string(), "spritesheet.png".to_string(), b"png".to_vec()),
        ]
    );
}

#[test]
fn names_are_read_part_by_part() {
    let bytes = zipped(&[
        ("./owl/pet.json", b"1"),
        ("./pet.json", b"2"),
        ("a//cat/./pet.json", b"3"),
        ("a/../dog/pet.json", b"4"),
        ("a/..", b"5"),
        ("fox:red/b:c", b"6"),
        ("/abs/cat/pet.json", b"out"),
        ("a/../../evil/pet.json", b"out"),
        ("no\0/cat/pet.json", b"out"),
        ("pet.json", b"out"),
    ]);
    let found: Vec<(String, String, Vec<u8>)> = read_bundle(bytes)
        .unwrap()
        .into_iter()
        .map(|f| (f.slug, f.name, f.bytes))
        .collect();
    let file = |slug: &str, name: &str, bytes: &[u8]| {
        (slug.to_string(), name.to_string(), bytes.to_vec())
    };
    assert_eq!(
        found,
        vec![
            file("owl", "pet.json", b"1"),
            file(".", "pet.json", b"2"),
            file("cat", "pet.json", b"3"),
            file("dog", "pet.json", b"4"),
            file("a", "..", b"5"),
            file("fox:red", "b:c", b"6"),
        ]
    );
}

#[test]
fn what_is_no_archive_cannot_be_read() {
    assert!(read_bundle(b"not a zip".to_vec()).is_err());
    assert!(read_bundle(zipped(&[])).unwrap().is_empty());
}

#[test]
fn a_damaged_entry_ends_the_reading() {
    let content = [9u8; 64];
    let mut bytes = zipped(&[("cat/a", b"a"), ("cat/b", &content)]);
    let at = bytes
        .windows(5)
        .position(|w| w == b"cat/b")
        .unwrap();
    bytes[at + 5] ^= 0xff;
    assert!(read_bundle(bytes).is_err());
}

#[test]
fn files_are_grouped_by_pet() {
    let groups = group_files(vec![
        file("b", "1", b"x"),
        file("a", "2", b"y"),
        file("b", "1", b"z"),
    ]);
    assert_eq!(groups.len(), 2);
    assert_eq!(groups.get("b"), Some(&vec![pair("1", b"x"), pair("1", b"z")]));
    assert_eq!(groups.get("a"), Some(&vec![pair("2", b"y")]));
    assert_eq!(groups.get("c"), None);
}

#[test]
fn kinds_of_files() {
    assert_eq!(file_kind("SpriteSheet.WEBP"), FileKind::WebpSheet);
    assert_eq!(file_kind("spritesheet.png"), FileKind::PngSheet);
    assert_eq!(file_kind("Pet.JSON"), FileKind::PetJson);
    assert_eq!(file_kind("METADATA.json"), FileKind::Metadata);
    assert_eq!(file_kind("spritesheet.gif"), FileKind::Other);
    assert_eq!(kind_of_lowered("Pet.json"), FileKind::Other);
}

#[test]
fn what_a_document_tells() {
    let doc = read_document(
        b"{\"displayName\": \"N\", \"vibes\": [\"a\", 1, \"b\"], \"tags\": {}, \"kind\": \"k\"}",
    );
    assert_eq!(doc.display_name, Some("N".to_string()));
    assert_eq!(doc.vibes, Some(texts(&["a", "b"])));
    assert_eq!(doc.tags, None);
    assert_eq!(doc.kind, Some("k".to_string()));
    let none = read_document(b"{]");
    assert_eq!(none.display_name, None);
    assert_eq!(none.vibes, None);
}

#[test]
fn what_files_tell_of_a_pet() {
    let files = vec![
        pair("spritesheet.png", b"12345"),
        pair("pet.json", b"{\"displayName\": \"P\", \"vibes\": [\"no\"]}"),
        pair("notes.txt", b"n"),
        pair("metadata.json", b"{\"tags\": [\"t\"], \"kind\": \"k\"}"),
    ];
    let facts = describe_pet("cat", &files, &vec![true; 4]);
    assert_eq!(facts.display_name, "P");
    assert!(facts.vibes.is_empty());
    assert_eq!(facts.tags, texts(&["t"]));
    assert_eq!(facts.kind, Some("k".to_string()));
    assert_eq!(facts.sprite_ext, "png");
    assert!(facts.has_sprite);
    assert_eq!(facts.file_sizes.get("spritesheet"), Some(&5));
    assert_eq!(facts.file_sizes.get("pet.json"), Some(&37));
    assert_eq!(facts.file_sizes.len(), 2);
}

#[test]
fn what_is_not_written_does_not_count() {
    let files = vec![
        pair("spritesheet.png", b"12345"),
        pair("pet.json", b"{\"displayName\": \"P\"}"),
    ];
    let facts = describe_pet("cat", &files, &vec![false; 2]);
    assert_eq!(facts.display_name, "cat");
    assert_eq!(facts.sprite_ext, "png");
    assert!(!facts.has_sprite);
    assert_eq!(facts.file_sizes.len(), 0);
}

#[test]
fn the_later_file_counts() {
    let files = vec![
        pair("spritesheet.png", b"1"),
        pair("SPRITESHEET.webp", b"22"),
        pair("metadata.json", b"{\"displayName\": \"M\"}"),
        pair("pet.json", b"{\"displayName\": \"P\"}"),
    ];
    let facts = describe_pet("cat", &files, &vec![true; 4]);
    assert_eq!(facts.sprite_ext, "webp");
    assert_eq!(facts.file_sizes.get("spritesheet"), Some(&2));
    assert_eq!(facts.display_name, "P");
}

#[test]
fn a_document_is_noted_by_the_kind_of_its_file() {
    let doc = || PetDocument {
        display_name: Some("N".to_string()),
        vibes: Some(texts(&["v"])),
        tags: None,
        kind: Some("k".to_string()),
    };
    let facts = describe_pet("cat", &vec![], &vec![]);
    let facts = note_file(facts, FileKind::Other, 1, doc(), true);
    assert_eq!(facts.display_name, "cat");
    let facts = note_file(facts, FileKind::Metadata, 1, doc(), false);
    assert_eq!(facts.kind, None);
    let facts = note_file(facts, FileKind::PetJson, 9, doc(), true);
    assert_eq!(facts.display_name, "N");
    assert_eq!(facts.kind, None);
    assert_eq!(facts.file_sizes.get("pet.json"), Some(&9));
    let facts = note_file(facts, FileKind::Metadata, 1, doc(), true);
    assert_eq!(facts.kind, Some("k".to_string()));
    assert_eq!(facts.vibes, texts(&["v"]));
}

#[test]
fn metadata_goes_through_a_bundle() {
    let offered = RemotePet {
        slug: "cat".to_string(),
        display_name: "The \"cat\" \u{1f431}".to_string(),
        description: None,
        kind: None,
        vibes: texts(&["calm", ""]),
        tags: texts(&["grey"]),
        featured: false,
        spritesheet_url: None,
        pet_json_url: None,
        zip_url: None,
        submitted_by: None,
    };
    let files = vec![pair("metadata.json", &metadata_bytes(&offered, "webp", "t"))];
    let facts = describe_pet("other", &files, &vec![true]);
    assert_eq!(facts.display_name, offered.display_name);
    assert_eq!(facts.vibes, offered.vibes);
    assert_eq!(facts.tags, offered.tags);
    assert_eq!(facts.kind, Some(String::new()));
}

#[test]
fn sizes_add_up() {
    let files = vec![pair("a", b"123"), pair("b", b"4")];
    assert_eq!(add_sizes(10, &files), Some(14));
    assert_eq!(add_sizes(u64::MAX - 4, &files), Some(u64::MAX));
    assert_eq!(add_sizes(u64::MAX - 3, &files), None);
}

#[test]
fn a_bundle_is_installed() {
    let mut m = LocalManifest::empty();
    m.put_pet("dog".to_string(), entry("dog"), "before");
    let bytes = zipped(&[
        ("p/owl/pet.json", b"{}"),
        ("p/dog/spritesheet.webp", b"dog"),
        ("p/cat/spritesheet.webp", b"12345"),
        ("p/cat/pet.json", b"{\"displayName\": \"Cat\"}"),
        ("p/ant/spritesheet.webp", b"1"),
    ]);
    let run = open_bundle(&m, 40, bytes);
    assert_eq!(current_pet(&run).unwrap().0, "ant");
    let run = record_no_dir(run, "full");
    let next = current_pet(&run).unwrap();
    assert_eq!(next.0, "cat");
    assert_eq!(next.1[0].0, "spritesheet.webp");
    let (run, notice) = written(run, &mut m, &[true, true]);
    let event = notice.progress_event().unwrap();
    assert_eq!(event.slug, "cat");
    assert_eq!(event.current, 1);
    assert_eq!(event.total, 40);
    assert_eq!(event.bytes_downloaded, 27);
    assert_eq!(m.last_synced_at, Some("before".to_string()));
    assert_eq!(current_pet(&run).unwrap().0, "owl");
    let (run, notice) = written(run, &mut m, &[true]);
    assert!(matches!(notice, Notice::Nothing));
    assert!(current_pet(&run).is_none());
    let report = finish_bundle(run, &mut m, &Some("gen".to_string()), "end", 3);
    assert_eq!(report.added, texts(&["cat"]));
    assert_eq!(report.skipped, texts(&["dog"]));
    assert_eq!(report.failed.len(), 2);
    assert_eq!(report.failed[0].slug, "ant");
    assert_eq!(report.failed[0].reason, "mkdir: full");
    assert_eq!(report.failed[1].slug, "owl");
    assert_eq!(report.failed[1].reason, "no spritesheet in bundle entry");
    assert_eq!(report.total_bytes, 29);
    assert_eq!(report.duration_ms, 3);
    assert_eq!(m.last_synced_at, Some("end".to_string()));
    assert_eq!(m.last_remote_manifest_at, Some("gen".to_string()));
    let cat = m.pets.get("cat").unwrap();
    assert_eq!(cat.display_name, "Cat");
    assert_eq!(cat.source, "bundle");
    assert_eq!(cat.installed_at, "t1");
    assert_eq!(cat.remote_checked_at, Some("t2".to_string()));
    assert_eq!(m.pets.get("dog").unwrap().display_name, "kept");
    assert!(!m.pets.contains("owl"));
}

#[test]
fn an_unreadable_bundle_is_reported() {
    let mut m = LocalManifest::empty();
    let run = start_bundle(&m, 4, Err("broken".to_string()));
    assert!(current_pet(&run).is_none());
    let report = finish_bundle(run, &mut m, &None, "end", 3);
    assert_eq!(report.failed.len(), 1);
    assert_eq!(report.failed[0].slug, "bundle");
    assert_eq!(report.failed[0].reason, "zip: broken");
    let run = open_bundle(&m, 4, b"junk".to_vec());
    let report = finish_bundle(run, &mut m, &None, "end", 3);
    assert!(report.failed[0].reason.starts_with("zip: "));
    assert!(report.failed[0].reason.len() > 5);
}

#[test]
fn a_bundle_that_does_not_come() {
    let report = no_bundle_report("GET u: slow", 8);
    assert_eq!(report.failed[0].slug, "bundle");
    assert_eq!(report.failed[0].reason, "bundle download: GET u: slow");
    assert!(report.added.is_empty());
    assert_eq!(report.total_bytes, 0);
    assert_eq!(report.duration_ms, 8);
}

#[test]
fn a_bundle_is_announced() {
    let started = bundle_started(12);
    assert_eq!(started.kind, "bundle");
    assert_eq!(started.expected, 12);
}
