use mangadex_dl::api::{at_home_path, cover_list_path, covers_path, feed_path, manga_path};

#[test]
fn request_paths_are_assembled_exactly() {
    assert_eq!(manga_path("abc"), "/manga/abc");
    assert_eq!(
        feed_path("abc", 0),
        "/manga/abc/feed?offset=0&includes[]=scanlation_group"
    );
    assert_eq!(
        feed_path("abc", 500),
        "/manga/abc/feed?offset=500&includes[]=scanlation_group"
    );
    assert_eq!(cover_list_path("abc", 20), "/cover?manga[]=abc&offset=20");
    assert_eq!(at_home_path("ch1"), "/at-home/server/ch1");
    assert_eq!(covers_path("work1/one.png"), "/covers/work1/one.png");
}
