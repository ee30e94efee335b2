use worstbird::scrape::{
    calculate_lines_to_add, get_bird_name, get_description, get_embbed, get_iframe_size,
    get_image_size, get_text_size, image_size_from, text_size_fits_exec, text_size_of_page, image_url, new_bird_entry, parse_bird_page,
    text_size_url, ScrapeError,
};

const PNG_123_321: [u8; 32] = [
    0x89, 0x50, 0x4E, 0x47, 0x0D, 0x0A, 0x1A, 0x0A, 0x00, 0x00, 0x00, 0x0D, 0x49, 0x48, 0x44,
    0x52, 0x00, 0x00, 0x00, 0x7B, 0x00, 0x00, 0x01, 0x41, 0x08, 0x06, 0x00, 0x00, 0x00, 0x9A,
    0x38, 0xC4,
];

fn player_page(caption: &str, title: &str, author: &str, location: &str) -> String {
    format!(
        "<html><body><div><span class=\"Heading\">{}</span> <span>{}</span><span class=\"a\">{}</span><span>{}</span></div></body></html>",
        caption, title, author, location
    )
}

const SPECIES_PAGE: &str = "<html><h1 class=\"Media--hero-title\">Common Loon</h1>\
<p class=\"u-stack-sm\">\n   A large diving bird with a dagger bill.\n  </p>\
<script>var photoAssetsJson = [{\"assetId\" : 1, \"citationUrl\" : \"https://macaulaylibrary.org/asset/39765651\", \"rest\" : 2}];</script></html>";

#[test]
fn bird_name_is_read_up_to_the_next_tag() {
    assert_eq!(get_bird_name(SPECIES_PAGE), Ok("Common Loon".to_string()));
}

#[test]
fn bird_name_stops_at_the_next_marker() {
    let page = "xMedia--hero-title\">AB Media--hero-title\">CD<";
    assert_eq!(get_bird_name(page), Ok("AB ".to_string()));
}

#[test]
fn bird_name_missing() {
    assert_eq!(get_bird_name("<h1>Loon</h1>"), Err(ScrapeError::NoBirdName));
    assert_eq!(ScrapeError::NoBirdName.message(), "no bird name");
}

#[test]
fn description_is_trimmed() {
    assert_eq!(
        get_description(SPECIES_PAGE),
        Ok("A large diving bird with a dagger bill.".to_string())
    );
}

#[test]
fn description_missing() {
    assert_eq!(get_description("<p>none</p>"), Err(ScrapeError::DescriptionNotFound));
}

#[test]
fn embed_id_is_the_last_part_of_the_citation_url() {
    assert_eq!(get_embbed(SPECIES_PAGE), Ok("39765651".to_string()));
}

#[test]
fn embed_id_errors() {
    assert_eq!(get_embbed("no script here"), Err(ScrapeError::NoPhotoAssets));
    assert_eq!(
        get_embbed("var photoAssetsJson = [{\"assetId\" : 1}]"),
        Err(ScrapeError::NoCitationUrl)
    );
}

#[test]
fn embed_id_without_slash_or_comma() {
    assert_eq!(
        get_embbed("var photoAssetsJson citationUrl\" : \"777\"\""),
        Ok("\"777".to_string())
    );
}

#[test]
fn lines_to_add_rounds_up() {
    assert_eq!(calculate_lines_to_add(0, 50), 0);
    assert_eq!(calculate_lines_to_add(1, 50), 1);
    assert_eq!(calculate_lines_to_add(50, 50), 1);
    assert_eq!(calculate_lines_to_add(51, 50), 2);
    assert_eq!(calculate_lines_to_add(100, 40), 3);
    assert_eq!(calculate_lines_to_add(-1, 50), 1);
    assert_eq!(calculate_lines_to_add(-51, 50), 0);
}

#[test]
fn text_size_of_short_spans() {
    let page = player_page("Hello", "World", "Author Name", "Somewhere");
    assert_eq!(get_text_size(&page), Ok(65));
}

#[test]
fn text_size_of_long_caption() {
    let caption = "a".repeat(45);
    let title = "b".repeat(15);
    let location = "c".repeat(81);
    let page = player_page(&caption, &title, "Me", &location);
    // caption 60 bytes: 2 lines; author: 1 line; location 81 bytes: 3 lines
    assert_eq!(get_text_size(&page), Ok(2 * 21 + 20 + 3 * 24));
}

#[test]
fn text_size_counts_bytes() {
    let caption = "é".repeat(25);
    let page = player_page(&caption, "", "", "");
    // 50 bytes of caption: one line; empty spans take no line
    assert_eq!(get_text_size(&page), Ok(21));
}

#[test]
fn text_size_missing_spans() {
    assert_eq!(get_text_size("<div>no spans</div>"), Err(ScrapeError::MissingSpan1));
    assert_eq!(get_text_size("<span>a</span>"), Err(ScrapeError::MissingSpan2));
    assert_eq!(get_text_size("<span>a<span>b"), Err(ScrapeError::MissingAuthorSpan));
    assert_eq!(
        get_text_size("<span>a<span>b<span>c"),
        Err(ScrapeError::MissingLocationSpan)
    );
}

#[test]
fn image_size_of_png_header() {
    assert_eq!(get_image_size(&PNG_123_321), Ok((123, 321)));
}

#[test]
fn image_size_of_short_or_unknown_data() {
    assert_eq!(get_image_size(&PNG_123_321[..8]), Err(ScrapeError::NoImageDimensions));
    assert_eq!(image_size_from(None), Err(ScrapeError::NoImageDimensions));
    assert_eq!(image_size_from(Some((1, 2))), Ok((1, 2)));
}

#[test]
fn iframe_adds_text_and_margins() {
    assert_eq!(get_iframe_size((320, 213), 65), (320, 331));
    assert_eq!(get_iframe_size((0, 0), 0), (0, 53));
}

#[test]
fn urls_of_an_embed_id() {
    assert_eq!(text_size_url("42"), "https://macaulaylibrary.org/asset/42/embed/320");
    assert_eq!(image_url("42"), "https://cdn.download.ams.birds.cornell.edu/api/v1/asset/42/320");
}

#[test]
fn bird_page_parses_or_misses_entries() {
    let (name, description, embed) = parse_bird_page(SPECIES_PAGE).ok().unwrap();
    assert_eq!(name, "Common Loon");
    assert_eq!(description, "A large diving bird with a dagger bill.");
    assert_eq!(embed, "39765651");
    assert!(matches!(parse_bird_page("<h1>x</h1>"), Err(ScrapeError::MissingEntries)));
}

#[test]
fn new_bird_entry_needs_image_size() {
    let entry = new_bird_entry(
        "https://ebird.org/species/comloo".to_string(),
        "Common Loon".to_string(),
        "d".to_string(),
        "39765651".to_string(),
        Ok((320, 213)),
    )
    .ok()
    .unwrap();
    assert_eq!(entry.width, 320);
    assert_eq!(entry.height, 213);
    assert_eq!(entry.assetid, "39765651");
    let err = new_bird_entry(
        String::new(),
        String::new(),
        String::new(),
        String::new(),
        Err(ScrapeError::NoImageDimensions),
    );
    assert!(matches!(err, Err(ScrapeError::NoImageSize)));
    assert_eq!(ScrapeError::NoImageSize.message(), "Could not get image size");
}

#[test]
fn text_size_of_a_short_page() {
    let page = player_page("Hello", "World", "Author Name", "Somewhere");
    assert_eq!(text_size_of_page(&page), Some(Ok(65)));
    assert_eq!(text_size_of_page("none"), Some(Err(ScrapeError::MissingSpan1)));
}

#[test]
fn text_size_fits_on_ordinary_pages() {
    let page = player_page("Hello", "World", "Author Name", "Somewhere");
    assert!(text_size_fits_exec(&page));
    assert!(text_size_fits_exec("none"));
    assert!(text_size_fits_exec(""));
}

#[test]
fn bird_name_of_a_constructed_page() {
    let marker = "Media--hero-title\">";
    for (pfx, name, rest) in [
        ("<html><h1 class=\"", "Snowy Owl", "/h1></html>"),
        ("", "", ""),
        ("Media--hero-title", "Grand-duc d'Amérique", "Media--hero-title\">x<"),
    ] {
        let page = format!("{}{}{}<{}", pfx, marker, name, rest);
        assert_eq!(get_bird_name(&page), Ok(name.to_string()));
    }
}

#[test]
fn description_of_a_constructed_page() {
    let marker = "<p class=\"u-stack-sm\">";
    for (pfx, ws1, description, ws2, rest) in [
        ("<html>", "\n   ", "A white owl of the tundra.", " \t\n", "/p>"),
        ("", "", "", "", ""),
        ("<p>", "\u{2003}", "Chouette harfang", "\r\n", "<p class=\"u-stack-sm\">x</p>"),
    ] {
        let page = format!("{}{}{}{}{}<{}", pfx, marker, ws1, description, ws2, rest);
        assert_eq!(get_description(&page), Ok(description.to_string()));
    }
}
