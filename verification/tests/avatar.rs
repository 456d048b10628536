use vesktop_voice_overlay::avatar::{
    append_chunk, content_length_acceptable, decode_rgba, is_allowed_avatar_url, AvatarCache,
    AvatarState, LoadStatus, MAX_AVATAR_DIMENSION, MAX_AVATAR_RESPONSE_BYTES,
};

#[test]
fn empty_avatar_stays_placeholder_without_a_request() {
    let mut state = AvatarState::new("");
    assert_eq!(state.status, LoadStatus::Placeholder);
    assert_eq!(state.loading_generation(), None);
    assert_eq!(state.request(""), None);
}

#[test]
fn same_url_is_suppressed_while_loading_and_after_success() {
    let mut state = AvatarState::new("https://cdn.discordapp.com/avatars/1/a.png");
    let generation = state.loading_generation().expect("initial request");
    assert_eq!(state.request(&state.url.clone()), None);

    assert!(state.finish(generation, true));
    assert_eq!(state.status, LoadStatus::Loaded);
    assert_eq!(state.request(&state.url.clone()), None);
}

#[test]
fn url_replacement_invalidates_every_older_completion() {
    let mut state = AvatarState::new("A");
    let first_a = state.loading_generation().expect("first A request");
    let b = state.request("B").expect("B request");
    let second_a = state.request("A").expect("second A request");

    assert!(!state.finish(first_a, true), "stale A must not win");
    assert!(!state.finish(b, true), "stale B must not win");
    assert_eq!(state.status, LoadStatus::Loading);
    assert!(state.finish(second_a, true));
    assert_eq!(state.status, LoadStatus::Loaded);
}

#[test]
fn clearing_url_invalidates_an_in_flight_load() {
    let mut state = AvatarState::new("A");
    let a = state.loading_generation().expect("A request");

    assert_eq!(state.request(""), None);
    assert_eq!(state.status, LoadStatus::Placeholder);
    assert!(!state.finish(a, true));
    assert_eq!(state.status, LoadStatus::Placeholder);
}

#[test]
fn failed_current_load_can_retry_without_duplicate_requests() {
    let mut state = AvatarState::new("A");
    let first = state.loading_generation().expect("first request");
    assert_eq!(state.request("A"), None, "in-flight load is deduplicated");

    assert!(state.finish(first, false));
    assert_eq!(state.status, LoadStatus::Failed);
    let retry = state.request("A").expect("failed load is retryable");
    assert_ne!(retry, first);
    assert_eq!(state.request("A"), None, "retry is also deduplicated");
    assert!(state.finish(retry, true));
    assert_eq!(state.status, LoadStatus::Loaded);
}

#[test]
fn generations_count_up_from_one() {
    let mut state = AvatarState::new("A");
    assert_eq!(state.generation, 1);
    assert_eq!(state.request("B"), Some(2));
    assert_eq!(state.request(""), None);
    assert_eq!(state.generation, 3);
    assert_eq!(state.url, "");
}

#[test]
fn generation_wraps_at_the_end_of_its_range() {
    let mut state = AvatarState::new("A");
    state.generation = u64::MAX;
    assert_eq!(state.request("B"), Some(0));
}

#[test]
fn cache_evicts_oldest_beyond_capacity() {
    let mut cache: AvatarCache<u32> = AvatarCache::new(2);
    cache.put("a".into(), 1);
    cache.put("b".into(), 2);
    assert_eq!(cache.len(), 2);

    cache.put("c".into(), 3);
    assert_eq!(cache.len(), 2);
    assert!(cache.get("a").is_none(), "oldest entry must be evicted");
    assert_eq!(cache.get("b"), Some(&2));
    assert_eq!(cache.get("c"), Some(&3));

    cache.put("c".into(), 30);
    cache.put("d".into(), 4);
    assert_eq!(cache.get("c"), Some(&30), "refreshed key stays");
    assert_eq!(cache.len(), 2);
}

#[test]
fn cache_with_zero_capacity_keeps_the_latest_entry() {
    let mut cache: AvatarCache<u32> = AvatarCache::new(0);
    cache.put("a".into(), 1);
    cache.put("b".into(), 2);
    assert_eq!(cache.len(), 1);
    assert_eq!(cache.get("a"), None);
    assert_eq!(cache.get("b"), Some(&2));
}

fn png_bytes(width: u32, height: u32) -> Vec<u8> {
    let img = image::RgbaImage::from_pixel(width, height, image::Rgba([10u8, 20, 30, 255]));
    let mut png_bytes = Vec::new();
    image::DynamicImage::ImageRgba8(img)
        .write_to(
            &mut std::io::Cursor::new(&mut png_bytes),
            image::ImageFormat::Png,
        )
        .expect("png encodes");
    png_bytes
}

#[test]
fn decode_rejects_invalid_bytes() {
    assert!(decode_rgba(b"not an image").is_err());
}

#[test]
fn decode_round_trips_dimensions_and_pixels() {
    let decoded = decode_rgba(&png_bytes(2, 3)).expect("decodes");
    assert_eq!((decoded.width, decoded.height), (2, 3));
    assert_eq!(decoded.rgba.len(), 2 * 3 * 4);
    assert_eq!(&decoded.rgba[..4], &[10, 20, 30, 255]);
}

#[test]
fn decode_rejects_images_over_dimension_limit() {
    assert!(decode_rgba(&png_bytes(MAX_AVATAR_DIMENSION + 1, 1)).is_err());
}

#[test]
fn decode_accepts_images_at_dimension_limit() {
    let decoded = decode_rgba(&png_bytes(MAX_AVATAR_DIMENSION, 1)).expect("decodes");
    assert_eq!(decoded.width, 256);
}

#[test]
fn avatar_urls_are_restricted_to_discord_https_cdn() {
    assert!(is_allowed_avatar_url(
        "https://cdn.discordapp.com/avatars/1/hash.png?size=128"
    ));
    assert!(!is_allowed_avatar_url(
        "http://cdn.discordapp.com/avatars/1/hash.png"
    ));
    assert!(!is_allowed_avatar_url("https://example.com/avatar.png"));
    assert!(!is_allowed_avatar_url("file:///etc/passwd"));
    assert!(!is_allowed_avatar_url("not a URL"));
}

#[test]
fn avatar_urls_with_credentials_are_refused() {
    assert!(!is_allowed_avatar_url("https://user@cdn.discordapp.com/a.png"));
    assert!(!is_allowed_avatar_url("https://:secret@cdn.discordapp.com/a.png"));
    assert!(is_allowed_avatar_url("HTTPS://CDN.DISCORDAPP.COM/a.png"));
}

#[test]
fn response_size_limits() {
    assert!(content_length_acceptable(None));
    assert!(content_length_acceptable(Some(MAX_AVATAR_RESPONSE_BYTES as u64)));
    assert!(!content_length_acceptable(Some(MAX_AVATAR_RESPONSE_BYTES as u64 + 1)));

    let mut body = vec![1u8; MAX_AVATAR_RESPONSE_BYTES - 2];
    assert!(append_chunk(&mut body, &[2, 3]));
    assert_eq!(body.len(), MAX_AVATAR_RESPONSE_BYTES);
    assert_eq!(&body[body.len() - 2..], &[2, 3]);
    assert!(!append_chunk(&mut body, &[4]));
    assert_eq!(body.len(), MAX_AVATAR_RESPONSE_BYTES);
}
