use russd::icon::{IconPlan, cache_key, icon_to_png, plan_icon, select_icon};

const DEFAULT_ICON: &str =
    "https://www.mozilla.org/media/img/favicons/firefox/browser/favicon.f093404c0135.ico";

#[test]
fn no_favicon_candidate_falls_back_to_default() {
    let cands = vec![String::from("https://site.example/logo.png"), String::from(
        "https://site.example/banner.jpg",
    )];
    assert_eq!(select_icon(&cands).as_str(), DEFAULT_ICON);
}

#[test]
fn empty_candidates_fall_back_to_default() {
    let cands: Vec<String> = Vec::new();
    assert_eq!(select_icon(&cands).as_str(), DEFAULT_ICON);
}

#[test]
fn first_favicon_candidate_wins() {
    let cands = vec![
        String::from("https://site.example/logo.png"),
        String::from("https://site.example/favicon.ico"),
        String::from("https://cdn.example/favicon.png"),
    ];
    assert_eq!(select_icon(&cands).as_str(), "https://site.example/favicon.ico");
}

#[test]
fn cache_key_strips_scheme_and_slashes() {
    assert_eq!(
        cache_key("https://example.com/favicon.ico").as_str(),
        "s:__example.com_favicon.ico"
    );
}

#[test]
fn cache_key_removes_every_http() {
    assert_eq!(cache_key("httphttp").as_str(), "");
    assert_eq!(cache_key("ahttpb/http").as_str(), "ab_");
}

#[test]
fn cache_hit_never_downloads() {
    let cands = vec![String::from("https://site.example/favicon.ico")];
    match plan_icon(&cands, true) {
        IconPlan::Cached { key } => {
            assert_eq!(key, cache_key("https://site.example/favicon.ico"));
        }
        IconPlan::Download { .. } => panic!("a cache hit must not download"),
    }
}

#[test]
fn cache_miss_downloads_to_the_checked_key() {
    let cands = vec![String::from("https://site.example/favicon.ico")];
    match plan_icon(&cands, false) {
        IconPlan::Download { url, key } => {
            assert_eq!(url.as_str(), "https://site.example/favicon.ico");
            assert_eq!(key, cache_key(url.as_str()));
        }
        IconPlan::Cached { .. } => panic!("a cache miss must download"),
    }
}

#[test]
fn second_resolution_hits_the_cache() {
    // The filesystem stands in as a set of cache keys: the first resolution
    // misses and downloads; once its key is stored, the second resolution
    // of the same link is a hit and asks for no further download.
    let cands = vec![String::from("https://site.example/favicon.ico")];
    let mut written: Vec<String> = Vec::new();
    let first_key = match plan_icon(&cands, false) {
        IconPlan::Download { url: _, key } => {
            written.push(key.clone());
            key
        }
        IconPlan::Cached { .. } => panic!("first resolution must download"),
    };
    let hit = written.contains(&cache_key(select_icon(&cands).as_str()));
    assert!(hit);
    match plan_icon(&cands, hit) {
        IconPlan::Cached { key } => assert_eq!(key, first_key),
        IconPlan::Download { .. } => panic!("second resolution must not download"),
    }
}

#[test]
fn icon_container_converts_to_png() {
    let image = ico::IconImage::from_rgba_data(16, 16, vec![0xff; 16 * 16 * 4]);
    let mut dir = ico::IconDir::new(ico::ResourceType::Icon);
    dir.add_entry(ico::IconDirEntry::encode(&image).expect("encodable"));
    let mut bytes: Vec<u8> = Vec::new();
    dir.write(&mut bytes).expect("writable");
    let png = icon_to_png(&bytes).expect("decodable");
    assert_eq!(&png[0..4], &[0x89, b'P', b'N', b'G']);
    assert_ne!(png, bytes);
}

#[test]
fn unreadable_bytes_give_no_icon() {
    assert!(icon_to_png(&vec![1, 2, 3]).is_none());
}

#[test]
fn oversized_bmp_dimensions_give_no_icon() {
    // A container whose directory passes but whose BMP header claims
    // 65536 x 65536 pixels: the 32-bit pixel arithmetic of the decoder
    // would wrap on it, so the library must refuse it rather than decode.
    let mut bytes: Vec<u8> = Vec::new();
    bytes.extend_from_slice(&[0, 0, 1, 0, 1, 0]); // reserved, type icon, one entry
    bytes.extend_from_slice(&[0, 0, 0, 0]); // entry: width, height, colors, reserved
    bytes.extend_from_slice(&[1, 0, 1, 0]); // planes, bits per pixel
    bytes.extend_from_slice(&[48, 0, 0, 0]); // data size
    bytes.extend_from_slice(&[22, 0, 0, 0]); // data offset
    bytes.extend_from_slice(&[40, 0, 0, 0]); // BMP header length
    bytes.extend_from_slice(&[0, 0, 1, 0]); // width 65536
    bytes.extend_from_slice(&[0, 0, 2, 0]); // stored height 131072 (doubled)
    bytes.extend_from_slice(&[1, 0, 1, 0]); // planes, bits per pixel
    bytes.extend_from_slice(&[0; 24]); // compression, sizes, resolutions, colors
    bytes.extend_from_slice(&[0; 8]); // two-colour table
    assert_eq!(bytes.len(), 70);
    assert!(icon_to_png(&bytes).is_none());
}
