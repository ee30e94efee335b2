use worstbird::scrape::{get_iframe_size, get_image_size, get_text_size, image_url, text_size_url};

/// The first bytes of a PNG file: signature, then the IHDR chunk with the
/// given width and height.
fn png_header(width: u32, height: u32) -> Vec<u8> {
    let mut v = vec![0x89, 0x50, 0x4E, 0x47, 0x0D, 0x0A, 0x1A, 0x0A];
    v.extend_from_slice(&[0x00, 0x00, 0x00, 0x0D, 0x49, 0x48, 0x44, 0x52]);
    v.extend_from_slice(&width.to_be_bytes());
    v.extend_from_slice(&height.to_be_bytes());
    v.extend_from_slice(&[0x08, 0x06, 0x00, 0x00, 0x00, 0x9A, 0x38, 0xC4]);
    v
}

/// An embedded player page with the four caption spans.
fn player(heading: &str, scientific: &str, author: &str, location: &str) -> String {
    format!(
        "<div><span class=\"Heading\">{}</span> <span>{}</span>\
<span class=\"Author\">{}</span><span class=\"Location\">{}</span></div>",
        heading, scientific, author, location
    )
}

/// The player page and photo that the asset `embed_id` stands for here.
fn fixture(embed_id: &str) -> (String, Vec<u8>) {
    match embed_id {
        "120288421" => (
            player("Common Loon", "Gavia immer", "Jane Doe", "Lake Superior, Ontario, Canada"),
            png_header(320, 213),
        ),
        "216006931" => (
            player(
                "Northern Rough-winged Swallow",
                "Stelgidopteryx serripennis",
                "Jane Doe",
                "Point Pelee National Park, Leamington, Ontario, Canada",
            ),
            png_header(320, 240),
        ),
        "188044411" => (
            player(
                "Plongeon huard",
                "Gavia immer — Québec",
                "Élise Côté",
                "Réserve faunique des Laurentides, Québec",
            ),
            png_header(270, 180),
        ),
        "104239521" => (
            player("Snowy Owl", "Bubo scandiacus", "", "Boundary Bay Regional Park, Delta, Canada"),
            png_header(320, 427),
        ),
        _ => panic!("no fixture for {}", embed_id),
    }
}

fn iframe_of(embed_id: &str) -> (usize, usize) {
    println!("{}", text_size_url(embed_id));
    println!("{}", image_url(embed_id));
    let (page, photo) = fixture(embed_id);
    let image = get_image_size(&photo).unwrap();
    let lines = get_text_size(&page).unwrap();
    get_iframe_size(image, lines)
}

#[test]
fn check_character_size() {
    assert_eq!(text_size_url("120288421"), "https://macaulaylibrary.org/asset/120288421/embed/320");
    assert_eq!(
        image_url("120288421"),
        "https://cdn.download.ams.birds.cornell.edu/api/v1/asset/120288421/320"
    );
    println!("{:?}", iframe_of("120288421"));
    // caption 22 bytes: 1 line (21); author 8: 1 line (20); location 30: 1 line (24)
    // 213 + 65 + 32 + 21
    assert_eq!(iframe_of("120288421"), (320, 331));
}

#[test]
fn check_character_size2() {
    assert_eq!(text_size_url("216006931"), "https://macaulaylibrary.org/asset/216006931/embed/320");
    println!("{:?}", iframe_of("216006931"));
    // caption 55 bytes: 2 lines (42); author 8: 1 line (20); location 54: 2 lines (48)
    // 240 + 110 + 32 + 21
    assert_eq!(iframe_of("216006931"), (320, 403));
}

#[test]
fn check_character_size3() {
    assert_eq!(
        image_url("188044411"),
        "https://cdn.download.ams.birds.cornell.edu/api/v1/asset/188044411/320"
    );
    println!("{:?}", iframe_of("188044411"));
    // lengths are counted in UTF-8 bytes: caption 37: 1 line (21);
    // author 13: 1 line (20); location 42 (39 characters): 2 lines (48)
    // 180 + 89 + 32 + 21
    assert_eq!(iframe_of("188044411"), (270, 322));
}

#[test]
fn check_character_size4() {
    assert_eq!(text_size_url("104239521"), "https://macaulaylibrary.org/asset/104239521/embed/320");
    println!("{:?}", iframe_of("104239521"));
    // caption 24 bytes: 1 line (21); empty author: no line; location 41: 2 lines (48)
    // 427 + 69 + 32 + 21
    assert_eq!(iframe_of("104239521"), (320, 549));
}
