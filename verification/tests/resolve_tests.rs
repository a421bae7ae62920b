use media_proxy_core::json::JsonVal;
use media_proxy_core::resolve::{cover_url_from_info, key_from_info, stream_url_from_info};
use media_proxy_core::ProxyError;

fn s(text: &str) -> String {
    text.to_string()
}

fn thumb(url: &str, preference: i64) -> JsonVal {
    JsonVal::Obj(vec![
        (s("url"), JsonVal::Str(s(url))),
        (s("preference"), JsonVal::Int(preference)),
    ])
}

fn record_with_thumbs(thumbs: Vec<JsonVal>) -> JsonVal {
    JsonVal::Obj(vec![
        (s("original_url"), JsonVal::Str(s("https://example.com/item"))),
        (s("url"), JsonVal::Str(s("https://cdn.example.com/stream"))),
        (s("thumbnails"), JsonVal::Arr(thumbs)),
    ])
}

fn sample_thumbs() -> Vec<JsonVal> {
    vec![thumb("a.jpg", 1), thumb("b.jpg", 5), thumb("c.png", 9)]
}

#[test]
fn key_is_the_original_url() {
    let info = record_with_thumbs(vec![]);
    assert_eq!(key_from_info(&info).unwrap(), "https://example.com/item");
}

#[test]
fn key_missing_is_field_missing() {
    let info = JsonVal::Obj(vec![(s("url"), JsonVal::Str(s("x")))]);
    match key_from_info(&info) {
        Err(ProxyError::FieldMissing(f)) => assert_eq!(f, "original_url"),
        other => panic!("unexpected result: {other:?}"),
    }
}

#[test]
fn key_of_wrong_type_is_field_missing() {
    let info = JsonVal::Obj(vec![(s("original_url"), JsonVal::Int(3))]);
    assert!(matches!(key_from_info(&info), Err(ProxyError::FieldMissing(_))));
}

#[test]
fn stream_url_is_the_url_field() {
    let info = record_with_thumbs(vec![]);
    assert_eq!(stream_url_from_info(&info).unwrap(), "https://cdn.example.com/stream");
}

#[test]
fn stream_url_missing_is_field_missing() {
    let info = JsonVal::Obj(vec![(s("original_url"), JsonVal::Str(s("x")))]);
    match stream_url_from_info(&info) {
        Err(ProxyError::FieldMissing(f)) => assert_eq!(f, "url"),
        other => panic!("unexpected result: {other:?}"),
    }
}

#[test]
fn best_matching_thumbnail_wins() {
    let info = record_with_thumbs(sample_thumbs());
    assert_eq!(cover_url_from_info(&info, "jpg").unwrap(), "b.jpg");
}

#[test]
fn png_request_picks_the_png() {
    let info = record_with_thumbs(sample_thumbs());
    assert_eq!(cover_url_from_info(&info, "png").unwrap(), "c.png");
}

#[test]
fn equal_preference_later_candidate_wins() {
    let info = record_with_thumbs(vec![thumb("first.jpg", 5), thumb("second.jpg", 5)]);
    assert_eq!(cover_url_from_info(&info, "jpg").unwrap(), "second.jpg");
}

#[test]
fn no_matching_extension_fails() {
    let info = record_with_thumbs(sample_thumbs());
    match cover_url_from_info(&info, "webp") {
        Err(ProxyError::NoMatchingThumbnail(ext)) => assert_eq!(ext, "webp"),
        other => panic!("unexpected result: {other:?}"),
    }
}

#[test]
fn thumbnails_missing_is_field_missing() {
    let info = JsonVal::Obj(vec![(s("url"), JsonVal::Str(s("x")))]);
    match cover_url_from_info(&info, "jpg") {
        Err(ProxyError::FieldMissing(f)) => assert_eq!(f, "thumbnails"),
        other => panic!("unexpected result: {other:?}"),
    }
}

#[test]
fn thumbnails_of_wrong_type_is_field_missing() {
    let info = JsonVal::Obj(vec![(s("thumbnails"), JsonVal::Str(s("nope")))]);
    assert!(matches!(cover_url_from_info(&info, "jpg"), Err(ProxyError::FieldMissing(_))));
}

#[test]
fn unusable_candidates_are_skipped() {
    let no_pref = JsonVal::Obj(vec![(s("url"), JsonVal::Str(s("best.jpg")))]);
    let no_url = JsonVal::Obj(vec![(s("preference"), JsonVal::Int(100))]);
    let bad_pref = JsonVal::Obj(vec![
        (s("url"), JsonVal::Str(s("big.jpg"))),
        (s("preference"), JsonVal::BigNum),
    ]);
    let info = record_with_thumbs(vec![no_pref, no_url, bad_pref, thumb("ok.jpg", -3)]);
    assert_eq!(cover_url_from_info(&info, "jpg").unwrap(), "ok.jpg");
}

#[test]
fn non_object_record_has_no_fields() {
    let info = JsonVal::Str(s("not an object"));
    assert!(matches!(key_from_info(&info), Err(ProxyError::FieldMissing(_))));
    assert!(matches!(stream_url_from_info(&info), Err(ProxyError::FieldMissing(_))));
    assert!(matches!(cover_url_from_info(&info, "jpg"), Err(ProxyError::FieldMissing(_))));
}
