use omniget::pets::download::{after_failure, bundle_request, bundle_url, bytes_request};
use omniget::pets::download::{check_payload, check_spritesheet, check_status};
use omniget::pets::download::{extract_ext_from_url, fallback_bundle_url, is_retryable};
use omniget::pets::download::{is_webp_or_png, judge_status, manifest_request, parse_error};
use omniget::pets::download::{pet_json_request, retry_start, spritesheet_request};
use omniget::pets::download::{transport_error, RemoteManifest, RetryError, RetryStep};
use omniget::pets::download::USER_AGENT;

fn manifest(path: Option<&str>) -> RemoteManifest {
    RemoteManifest {
        generated_at: None,
        total: 0,
        featured: 0,
        all_pets_pack_path: path.map(|p| p.to_string()),
        pets: vec![],
    }
}

fn webp(len: usize) -> Vec<u8> {
    let mut b = b"RIFF\0\0\0\0WEBP".to_vec();
    b.resize(len, 0);
    b
}

fn failure(message: &str, retryable: bool) -> RetryError {
    RetryError {
        message: message.to_string(),
        retryable,
    }
}

#[test]
fn requests() {
    let r = manifest_request();
    assert_eq!(r.label, "fetch_manifest");
    assert_eq!(r.url, "https://petdex.crafter.run/api/manifest");
    assert_eq!(r.timeout_secs, 60);
    assert_eq!(r.max_bytes, None);
    let r = bytes_request("u", 7, 9);
    assert_eq!(r.label, "GET u");
    assert_eq!(r.url, "u");
    assert_eq!(r.timeout_secs, 9);
    assert_eq!(r.max_bytes, Some(7));
    assert_eq!(pet_json_request("u").max_bytes, Some(65536));
    assert_eq!(spritesheet_request("u").max_bytes, Some(5242880));
    assert_eq!(bundle_request("u").max_bytes, Some(209715200));
    assert_eq!(bundle_request("u").timeout_secs, 600);
    assert_eq!(USER_AGENT, "omniget-pets/1.0");
}

#[test]
fn where_the_bundle_is() {
    assert_eq!(bundle_url(&manifest(Some("p"))), "p");
    assert_eq!(bundle_url(&manifest(None)), fallback_bundle_url());
    assert!(fallback_bundle_url().ends_with("/packs/petdex-approved.zip"));
}

#[test]
fn what_may_be_tried_again() {
    assert!(is_retryable(None));
    assert!(is_retryable(Some(500)));
    assert!(is_retryable(Some(503)));
    assert!(is_retryable(Some(408)));
    assert!(is_retryable(Some(429)));
    assert!(!is_retryable(Some(404)));
    assert!(!is_retryable(Some(499)));
    assert!(!is_retryable(Some(301)));
}

#[test]
fn statuses_are_judged() {
    assert!(check_status(200).is_ok());
    assert!(check_status(299).is_ok());
    let e = check_status(404).unwrap_err();
    assert_eq!(e.message, "status 404 Not Found");
    assert!(!e.retryable);
    let e = check_status(503).unwrap_err();
    assert_eq!(e.message, "status 503 Service Unavailable");
    assert!(e.retryable);
    let e = check_status(300).unwrap_err();
    assert_eq!(e.message, "status 300 Multiple Choices");
    let e = judge_status(418, "a teapot").unwrap_err();
    assert_eq!(e.message, "status a teapot");
}

#[test]
fn payloads_are_limited() {
    assert!(check_payload(10, 10).is_ok());
    let e = check_payload(11, 10).unwrap_err();
    assert_eq!(e.message, "payload 11 > limit 10");
    assert!(!e.retryable);
}

#[test]
fn failures_of_an_attempt() {
    let e = transport_error("no route");
    assert_eq!(e.message, "no route");
    assert!(e.retryable);
    let e = parse_error("eof");
    assert_eq!(e.message, "parse: eof");
    assert!(!e.retryable);
}

#[test]
fn three_attempts_are_made() {
    let mut waits = vec![];
    let mut state = retry_start();
    let mut attempts = 0;
    let message = loop {
        attempts += 1;
        match after_failure(state, "GET u", &failure("slow", true)) {
            RetryStep::Again { wait_ms, state: next } => {
                waits.push(wait_ms);
                state = next;
            }
            RetryStep::GiveUp { message } => break message,
        }
    };
    assert_eq!(attempts, 3);
    assert_eq!(waits, vec![1000, 2000]);
    assert_eq!(message, "GET u: slow");
}

#[test]
fn a_hopeless_failure_is_final() {
    match after_failure(retry_start(), "l", &failure("gone", false)) {
        RetryStep::GiveUp { message } => assert_eq!(message, "l: gone"),
        RetryStep::Again { .. } => panic!("tried again"),
    }
}

#[test]
fn images_are_told_by_their_beginning() {
    assert!(is_webp_or_png(&webp(12)));
    assert!(!is_webp_or_png(&webp(12)[..11]));
    let mut png = vec![0x89, 0x50, 0x4E, 0x47, 0x0D, 0x0A, 0x1A, 0x0A];
    assert!(!is_webp_or_png(&png));
    png.extend([0, 0, 0, 0]);
    assert!(is_webp_or_png(&png));
    png[7] = 0;
    assert!(!is_webp_or_png(&png));
    assert!(!is_webp_or_png(b"RIFF\0\0\0\0WAVE"));
    assert!(!is_webp_or_png(b""));
}

#[test]
fn spritesheets_are_judged() {
    assert!(check_spritesheet(&webp(10240)).is_ok());
    assert_eq!(
        check_spritesheet(&webp(10239)).unwrap_err(),
        "spritesheet too small (10239 bytes)"
    );
    assert_eq!(
        check_spritesheet(&vec![0; 10240]).unwrap_err(),
        "spritesheet is not webp or png"
    );
}

#[test]
fn extensions_of_spritesheets() {
    assert_eq!(extract_ext_from_url("https://x.test/s.PNG"), "png");
    assert_eq!(extract_ext_from_url("https://x.test/s.webp"), "webp");
    assert_eq!(extract_ext_from_url("https://x.test/s.png?v=1"), "webp");
    assert_eq!(extract_ext_from_url(""), "webp");
}
