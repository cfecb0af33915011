use mangadex_dl::api::Paginator;
use mangadex_dl::chapter::{ChapterMetadata, ChapterMetadataSeries};
use mangadex_dl::types::{
    ChapterAttributes, ChapterData, RawChapterRelationship, RawChapterRelationshipAttributes,
};

fn record(id: &str, vol: &str, ch: &str, lang: &str, group: &str) -> ChapterData {
    ChapterData {
        id: id.to_string(),
        attributes: ChapterAttributes {
            volume: Some(vol.to_string()),
            chapter: Some(ch.to_string()),
            language: Some(lang.to_string()),
        },
        relationships: vec![RawChapterRelationship {
            id: "scanlation_group".to_string(),
            attributes: Some(RawChapterRelationshipAttributes {
                name: Some(group.to_string()),
            }),
        }],
    }
}

fn count_of(series: &ChapterMetadataSeries, group: &str) -> Option<u64> {
    series
        .tl_group_counts
        .iter()
        .find(|(g, _)| g == group)
        .map(|(_, n)| *n)
}

#[test]
fn record_without_language_is_dropped() {
    let mut r = record("c1", "1", "1", "en", "G");
    r.attributes.language = None;
    assert!(ChapterMetadata::from_chapter_data(r).is_none());
}

#[test]
fn group_comes_from_the_first_named_attribution() {
    let mut r = record("c1", "1", "1", "en", "Group B");
    r.relationships.insert(
        0,
        RawChapterRelationship {
            id: "author".to_string(),
            attributes: Some(RawChapterRelationshipAttributes {
                name: Some("Someone".to_string()),
            }),
        },
    );
    r.relationships.insert(
        1,
        RawChapterRelationship {
            id: "scanlation_group".to_string(),
            attributes: None,
        },
    );
    let m = ChapterMetadata::from_chapter_data(r).unwrap();
    assert_eq!(m.group, "Group B");
}

#[test]
fn absent_labels_become_empty() {
    let mut r = record("c1", "1", "1", "en", "G");
    r.attributes.volume = None;
    r.attributes.chapter = None;
    let m = ChapterMetadata::from_chapter_data(r).unwrap();
    assert_eq!(m.volume, "");
    assert_eq!(m.chapter, "");
    assert_eq!(m.language, "en");
}

#[test]
fn dominant_group_needs_a_strictly_greater_count() {
    // Counts fed across pages: A three times, B five times, A once more.
    let page1 = vec![
        record("c1", "1", "1", "en", "A"),
        record("c2", "1", "2", "en", "A"),
        record("c3", "1", "3", "en", "A"),
    ];
    let page2 = vec![
        record("c4", "1", "4", "en", "B"),
        record("c5", "1", "5", "en", "B"),
        record("c6", "1", "6", "en", "B"),
        record("c7", "1", "7", "en", "B"),
        record("c8", "1", "8", "en", "B"),
    ];
    let page3 = vec![record("c9", "1", "9", "en", "A")];
    let mut series = ChapterMetadataSeries::new(page1);
    series.add_metadata(page2);
    series.add_metadata(page3);
    assert_eq!(series.max_tl, "B");
    assert_eq!(series.max_tl_count, 5);
    assert_eq!(count_of(&series, "A"), Some(4));
    assert_eq!(count_of(&series, "B"), Some(5));
    assert_eq!(series.chapters.len(), 9);
}

#[test]
fn tie_keeps_the_earlier_dominant_group() {
    let page1 = vec![
        record("c1", "1", "1", "en", "A"),
        record("c2", "1", "2", "en", "A"),
    ];
    let page2 = vec![
        record("c3", "1", "3", "en", "B"),
        record("c4", "1", "4", "en", "B"),
    ];
    let mut series = ChapterMetadataSeries::new(page1);
    series.add_metadata(page2);
    assert_eq!(series.max_tl, "A");
    assert_eq!(series.max_tl_count, 2);
}

#[test]
fn aggregate_count_equals_the_total_of_full_pages() {
    // Pages of 3, 5 and 2 items: a total of 10, all convertible.
    let mut series = ChapterMetadataSeries::new(
        (0..3).map(|i| record(&format!("a{}", i), "1", &format!("{}", i), "en", "G")).collect(),
    );
    series.add_metadata(
        (0..5).map(|i| record(&format!("b{}", i), "1", &format!("{}", i + 3), "en", "G")).collect(),
    );
    series.add_metadata(
        (0..2).map(|i| record(&format!("c{}", i), "1", &format!("{}", i + 8), "en", "G")).collect(),
    );
    assert_eq!(series.chapters.len(), 10);
}

#[test]
fn paginator_issues_exactly_the_ceiling_of_total_over_limit() {
    // Evenly divisible: 100 items in pages of 25 need 4 requests.
    let mut p = Paginator::from_first_page(0, 25, 100);
    while p.has_more() {
        p.record_page(25);
    }
    assert_eq!(p.requests, 4);

    // Not divisible: 10 items in pages of 3 need 4 requests.
    let mut q = Paginator::from_first_page(0, 3, 10);
    while q.has_more() {
        q.record_page(3);
    }
    assert_eq!(q.requests, 4);

    // The first page already covers everything.
    let r = Paginator::from_first_page(0, 100, 40);
    assert!(!r.has_more());
    assert_eq!(r.requests, 1);

    // An empty listing takes the one request already made.
    let s = Paginator::from_first_page(0, 25, 0);
    assert!(!s.has_more());
    assert_eq!(s.requests, 1);
}

#[test]
fn selection_prefers_the_named_group() {
    let pages = vec![
        record("c1", "1", "1", "en", "A"),
        record("c2", "1", "1", "en", "B"),
        record("c3", "1", "2", "en", "B"),
        record("c4", "2", "1", "fr", "A"),
    ];
    let series = ChapterMetadataSeries::new(pages);
    let chosen = series.get_download_metadata("en", &Some("B".to_string()));
    assert_eq!(chosen.len(), 2);
    assert_eq!(chosen[0].id, "c2");
    assert_eq!(chosen[1].id, "c3");
}

#[test]
fn selection_falls_back_to_the_dominant_group() {
    // B is dominant (two sightings against one).
    let pages = vec![
        record("c1", "1", "1", "en", "A"),
        record("c2", "1", "1", "en", "B"),
        record("c3", "1", "2", "en", "B"),
    ];
    let series = ChapterMetadataSeries::new(pages);
    let chosen = series.get_download_metadata("en", &None);
    assert_eq!(chosen.len(), 2);
    assert_eq!(chosen[0].id, "c2");
    assert_eq!(chosen[1].id, "c3");
}

#[test]
fn selection_falls_back_to_the_first_candidate() {
    // Nobody published under the preferred group for this key.
    let pages = vec![
        record("c1", "1", "1", "en", "A"),
        record("c2", "1", "1", "en", "B"),
    ];
    let series = ChapterMetadataSeries::new(pages);
    let chosen = series.get_download_metadata("en", &Some("Z".to_string()));
    assert_eq!(chosen.len(), 1);
    assert_eq!(chosen[0].id, "c1");
}

#[test]
fn selection_keeps_a_lone_candidate_whatever_its_group() {
    let pages = vec![record("c1", "1", "1", "en", "A")];
    let series = ChapterMetadataSeries::new(pages);
    let chosen = series.get_download_metadata("en", &Some("B".to_string()));
    assert_eq!(chosen.len(), 1);
    assert_eq!(chosen[0].id, "c1");
}
