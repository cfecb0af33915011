use sha2::Digest;

use mangadex_dl::chapter::{Chapter, ChapterError, ChapterMetadata, ImageDownloadError};
use mangadex_dl::coverart::CoverArt;
use mangadex_dl::image::Image;
use mangadex_dl::types::{
    ChapterImageData, ChapterImageResponse, CoverArtAttributes, CoverArtData,
};

fn digest_hex(body: &[u8]) -> String {
    hex::encode(sha2::Sha256::digest(body))
}

fn meta(id: &str, vol: &str, ch: &str) -> ChapterMetadata {
    ChapterMetadata {
        id: id.to_string(),
        volume: vol.to_string(),
        chapter: ch.to_string(),
        language: "en".to_string(),
        group: "G".to_string(),
    }
}

fn chapter_with_images(count: usize, body: &[u8]) -> Chapter {
    let filename = format!("{}.png", digest_hex(body));
    let res = ChapterImageResponse {
        base_url: "https://cdn.example".to_string(),
        chapter: ChapterImageData {
            hash: "seg".to_string(),
            data: (0..count).map(|_| filename.clone()).collect(),
        },
    };
    Chapter::new(&meta("c1", "2", "4.5"), res).unwrap()
}

#[test]
fn image_extracts_the_embedded_hash() {
    let body = b"hello world".to_vec();
    let hexhash = digest_hex(&body);
    let filename = format!("{}.png", hexhash);
    let img = Image::new("seg", &filename).unwrap();
    assert_eq!(img.url(), format!("/data/seg/{}", filename));
    assert_eq!(img.hash, hex::decode(&hexhash).unwrap());
}

#[test]
fn image_without_a_hash_is_refused() {
    assert_eq!(
        Image::new("seg", "plain.png").unwrap_err(),
        ChapterError::HashNotFound
    );
    // 63 hexadecimal characters are one too few.
    let short = "a".repeat(63);
    assert_eq!(
        Image::new("seg", &short).unwrap_err(),
        ChapterError::HashNotFound
    );
}

#[test]
fn verification_accepts_the_matching_payload_only() {
    let body = b"payload bytes".to_vec();
    let filename = format!("{}.png", digest_hex(&body));
    let img = Image::new("seg", &filename).unwrap();
    assert!(img.verify(&body));
    let mut tampered = body.clone();
    tampered[0] ^= 1;
    assert!(!img.verify(&tampered));
}

#[test]
fn chapter_build_requires_a_hash_in_every_filename() {
    let body = b"x".to_vec();
    let good = format!("{}.png", digest_hex(&body));
    let res = ChapterImageResponse {
        base_url: "https://cdn.example".to_string(),
        chapter: ChapterImageData {
            hash: "seg".to_string(),
            data: vec![good, "bad.png".to_string()],
        },
    };
    assert_eq!(
        Chapter::new(&meta("c1", "1", "1"), res).unwrap_err(),
        ChapterError::HashNotFound
    );
}

#[test]
fn matching_download_is_accepted_and_named() {
    let body = b"image data".to_vec();
    let chapter = chapter_with_images(12, &body);
    let ct = b"image/png".to_vec();
    let name = chapter.plan_image_file(0, Some(&ct), &body).unwrap();
    assert_eq!(name, "01.png");
}

#[test]
fn mismatching_download_fails_with_a_hash_mismatch() {
    let body = b"image data".to_vec();
    let chapter = chapter_with_images(12, &body);
    let ct = b"image/png".to_vec();
    let mut tampered = body.clone();
    tampered[3] ^= 1;
    assert_eq!(
        chapter.plan_image_file(0, Some(&ct), &tampered).unwrap_err(),
        ImageDownloadError::HashMismatch
    );
}

#[test]
fn twelve_images_are_numbered_with_two_digits() {
    let body = b"image data".to_vec();
    let chapter = chapter_with_images(12, &body);
    let ct = b"image/png".to_vec();
    assert_eq!(chapter.plan_image_file(0, Some(&ct), &body).unwrap(), "01.png");
    assert_eq!(chapter.plan_image_file(8, Some(&ct), &body).unwrap(), "09.png");
    assert_eq!(chapter.plan_image_file(11, Some(&ct), &body).unwrap(), "12.png");
}

#[test]
fn a_hundred_images_are_numbered_with_three_digits() {
    let body = b"image data".to_vec();
    let chapter = chapter_with_images(100, &body);
    let ct = b"image/png".to_vec();
    assert_eq!(chapter.plan_image_file(0, Some(&ct), &body).unwrap(), "001.png");
    assert_eq!(chapter.plan_image_file(99, Some(&ct), &body).unwrap(), "100.png");
}

#[test]
fn content_type_failures_are_told_apart() {
    let body = b"image data".to_vec();
    let chapter = chapter_with_images(2, &body);
    assert_eq!(
        chapter.plan_image_file(0, None, &body).unwrap_err(),
        ImageDownloadError::NoContentType
    );
    let unknown = b"image/doesnotexist".to_vec();
    assert_eq!(
        chapter.plan_image_file(0, Some(&unknown), &body).unwrap_err(),
        ImageDownloadError::Mime
    );
    let illegible = vec![0xFFu8, 0xFE];
    assert_eq!(
        chapter.plan_image_file(0, Some(&illegible), &body).unwrap_err(),
        ImageDownloadError::IllegibleMime
    );
}

#[test]
fn chapter_display_names_normalize_numeric_labels() {
    let body = b"image data".to_vec();
    let chapter = chapter_with_images(1, &body);
    assert_eq!(chapter.get_volume(), "Volume 2");
    assert_eq!(chapter.get_chapter(), "Chapter 4.5");
    assert_eq!(chapter.assemble_folder_name(), "Volume 2/Chapter 4.5");
}

#[test]
fn folder_names_cover_missing_labels() {
    let mk = |vol: &str, ch: &str| {
        let body = b"z".to_vec();
        let filename = format!("{}.png", digest_hex(&body));
        let res = ChapterImageResponse {
            base_url: "https://cdn.example".to_string(),
            chapter: ChapterImageData {
                hash: "seg".to_string(),
                data: vec![filename],
            },
        };
        Chapter::new(&meta("c1", vol, ch), res).unwrap()
    };
    assert_eq!(mk("", "").assemble_folder_name(), "Oneshot");
    assert_eq!(mk("", "3").assemble_folder_name(), "Chapter 3");
    assert_eq!(mk("07", "").assemble_folder_name(), "Volume 7");
    assert_eq!(mk("a/b", "").assemble_folder_name(), "ab");
}

#[test]
fn cover_conversion_keeps_records_with_a_volume() {
    let data = vec![
        CoverArtData {
            attributes: CoverArtAttributes {
                volume: Some("1".to_string()),
                file_name: "one.jpg".to_string(),
            },
        },
        CoverArtData {
            attributes: CoverArtAttributes {
                volume: None,
                file_name: "ignored.jpg".to_string(),
            },
        },
        CoverArtData {
            attributes: CoverArtAttributes {
                volume: Some("2".to_string()),
                file_name: "two.jpg".to_string(),
            },
        },
    ];
    let covers = CoverArt::from_response("work1", data);
    assert_eq!(covers.len(), 2);
    assert_eq!(covers[0].volume, "1");
    assert_eq!(covers[0].url, "work1/one.jpg");
    assert_eq!(covers[1].url, "work1/two.jpg");
    assert_eq!(covers[0].get_volume(), "Volume 1");
}

#[test]
fn cover_file_is_named_by_its_content_type() {
    let cover = CoverArt {
        volume: "1".to_string(),
        url: "work1/one.png".to_string(),
    };
    let ct = b"image/png".to_vec();
    assert_eq!(cover.plan_cover_file(Some(&ct)).unwrap(), "cover.png");
    assert_eq!(
        cover.plan_cover_file(None).unwrap_err(),
        ImageDownloadError::NoContentType
    );
    let unknown = b"image/doesnotexist".to_vec();
    assert_eq!(
        cover.plan_cover_file(Some(&unknown)).unwrap_err(),
        ImageDownloadError::Mime
    );
}
