use mangadex_dl::manga::MangaMetadata;
use mangadex_dl::metadata::{Metadata, MetadataOutputFormat};
use mangadex_dl::types::{
    MangaData, MangaDataAttributes, MangaDataResponse, TagData, TagDataAttributes,
};

fn response() -> MangaDataResponse {
    MangaDataResponse {
        data: MangaData {
            attributes: MangaDataAttributes {
                title: vec![
                    ("en".to_string(), "The Title".to_string()),
                    ("ja".to_string(), "Taitoru".to_string()),
                ],
                alt_titles: vec![
                    vec![
                        ("en".to_string(), "Alt X".to_string()),
                        ("ja".to_string(), "Alt Y".to_string()),
                    ],
                    vec![("en".to_string(), "Alt Z".to_string())],
                ],
                available_languages: vec![
                    Some("en".to_string()),
                    None,
                    Some("ja".to_string()),
                ],
                description: vec![("en".to_string(), "A story.".to_string())],
                tags: vec![
                    TagData {
                        attributes: TagDataAttributes {
                            name: vec![
                                ("en".to_string(), "Action".to_string()),
                                ("ja".to_string(), "Akushon".to_string()),
                            ],
                        },
                    },
                    TagData {
                        attributes: TagDataAttributes {
                            name: vec![("ja".to_string(), "Nazo".to_string())],
                        },
                    },
                ],
            },
        },
    }
}

#[test]
fn conversion_groups_alternative_titles_by_language() {
    let m = MangaMetadata::from_response("id1".to_string(), response());
    assert_eq!(m.id, "id1");
    assert_eq!(m.titles.len(), 2);
    assert_eq!(m.languages, vec!["en".to_string(), "ja".to_string()]);
    assert_eq!(m.alt_titles.len(), 2);
    assert_eq!(m.alt_titles[0].0, "en");
    assert_eq!(m.alt_titles[0].1, vec!["Alt X".to_string(), "Alt Z".to_string()]);
    assert_eq!(m.alt_titles[1].0, "ja");
    assert_eq!(m.alt_titles[1].1, vec!["Alt Y".to_string()]);
    assert_eq!(m.tags.len(), 2);
    assert_eq!(m.tags[0][0].1, "Action");
}

#[test]
fn title_lookup_prefers_the_language_then_falls_back() {
    let m = MangaMetadata::from_response("id1".to_string(), response());
    assert_eq!(m.get_title("ja").as_deref(), Some("Taitoru"));
    assert_eq!(m.get_title("fr").as_deref(), Some("The Title"));
    assert_eq!(m.get_description("en").as_deref(), Some("A story."));
    assert_eq!(m.get_description("fr").as_deref(), Some("A story."));

    let empty = MangaMetadata {
        id: "x".to_string(),
        titles: vec![],
        alt_titles: vec![],
        languages: vec![],
        descriptions: vec![],
        tags: vec![],
    };
    assert_eq!(empty.get_title("en"), None);
    assert_eq!(empty.get_description("en"), None);
}

#[test]
fn metadata_file_selects_listed_languages() {
    let m = MangaMetadata::from_response("id1".to_string(), response());
    let md = Metadata::new(&m, "en", &["ja".to_string()]);
    assert_eq!(md.title, "The Title");
    assert_eq!(md.description, "A story.");
    assert_eq!(md.alt_titles, vec!["Alt Y".to_string()]);
    assert_eq!(md.tags, vec!["Action".to_string()]);
}

#[test]
fn metadata_file_takes_every_language_on_all() {
    let m = MangaMetadata::from_response("id1".to_string(), response());
    let md = Metadata::new(&m, "ja", &["all".to_string()]);
    assert_eq!(md.title, "Taitoru");
    // The grouped order: both English titles first, then the Japanese one.
    assert_eq!(
        md.alt_titles,
        vec!["Alt X".to_string(), "Alt Z".to_string(), "Alt Y".to_string()]
    );
    assert_eq!(md.tags, vec!["Akushon".to_string(), "Nazo".to_string()]);
    // No description in Japanese: the first known one stands in.
    assert_eq!(md.description, "A story.");
}

#[test]
fn file_formats_name_their_extension() {
    assert_eq!(MetadataOutputFormat::TOML.file_format(), "toml");
    assert_eq!(MetadataOutputFormat::JSON.file_format(), "json");
}
