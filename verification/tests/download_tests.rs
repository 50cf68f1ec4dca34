use ops_plagiary::{
    download_file_name, extension_from, failed_meta_paths, img_file_path, meta_file_path,
    nft_dir_names, NftAction, NftDownload, NftEvent, TaskQueue, MAX_DOWNLOAD_FAILURES,
};

#[test]
fn folders_under_the_trimmed_root() {
    let (root, meta, img) = nft_dir_names(" doodles\n");
    assert_eq!(root, "doodles");
    assert_eq!(meta, "doodles/meta");
    assert_eq!(img, "doodles/img");
}

#[test]
fn file_paths_by_token_number() {
    assert_eq!(meta_file_path("doodles", 42), "doodles/meta/42");
    assert_eq!(img_file_path("doodles", 0), "doodles/img/0");
}

#[test]
fn cleanup_paths_of_failed_tokens() {
    assert_eq!(
        failed_meta_paths("d", &vec![3, 10]),
        vec!["d/meta/3".to_string(), "d/meta/10".to_string()]
    );
}

#[test]
fn content_type_decides_extension() {
    assert_eq!(extension_from("image/png", Some("gif")), ".png");
    assert_eq!(extension_from("image/jpeg", None), ".jpg");
    assert_eq!(extension_from("image/img", None), ".img");
    assert_eq!(extension_from("image/webp", None), ".webp");
    assert_eq!(extension_from("application/json; charset=utf-8", Some("json")), "");
}

#[test]
fn other_content_types_use_the_link_extension() {
    assert_eq!(extension_from("text/plain", Some("gif")), ".gif");
    assert_eq!(extension_from("", None), "");
    assert_eq!(extension_from("image/PNG", Some("")), ".");
}

#[test]
fn file_name_from_link() {
    assert_eq!(download_file_name("d/img/1", "image/webp", "https://x/a.png"), "d/img/1.webp");
    assert_eq!(download_file_name("d/img/1", "", "https://x/dir/pic.gif"), "d/img/1.gif");
    assert_eq!(download_file_name("d/meta/1", "", "https://ipfs.io/ipfs/Qm/1"), "d/meta/1");
}

#[test]
fn fetch_runs_through_metadata_and_image() {
    let (mut job, a) = NftDownload::start(1, "ipfs://QmRoot/1", "d");
    assert_eq!(a, NftAction::DownloadMeta);
    assert_eq!(job.current_url(), "https://ipfs.io/ipfs/QmRoot/1");
    assert_eq!(job.meta_path(), "d/meta/1");
    assert_eq!(job.on_event(NftEvent::Downloaded), NftAction::ReadMeta);
    assert_eq!(
        job.on_event(NftEvent::MetaImage(Some("ipfs://QmImg/1.png".to_string()))),
        NftAction::DownloadImage
    );
    assert_eq!(job.current_url(), "https://ipfs.io/ipfs/QmImg/1.png");
    assert_eq!(job.img_path(), "d/img/1");
    assert_eq!(job.on_event(NftEvent::Downloaded), NftAction::Finished);
    assert!(!job.is_active());
}

#[test]
fn bad_metadata_link_ends_at_once() {
    let (job, a) = NftDownload::start(3, "ar://abc", "d");
    assert_eq!(a, NftAction::BadUrl);
    assert!(!job.is_active());
}

#[test]
fn metadata_without_image_ends() {
    let (mut job, _) = NftDownload::start(2, "https://x/2", "d");
    job.on_event(NftEvent::Downloaded);
    assert_eq!(job.on_event(NftEvent::MetaImage(None)), NftAction::NoImageUrl);
    assert!(!job.is_active());
}

#[test]
fn bad_image_link_ends() {
    let (mut job, _) = NftDownload::start(2, "https://x/2", "d");
    job.on_event(NftEvent::Downloaded);
    assert_eq!(job.on_event(NftEvent::MetaImage(Some("data:abc".to_string()))), NftAction::BadUrl);
}

#[test]
fn gives_up_after_one_hundred_failures() {
    let (mut job, _) = NftDownload::start(5, "https://x/5", "d");
    for _ in 1..MAX_DOWNLOAD_FAILURES {
        assert_eq!(job.on_event(NftEvent::DownloadFailed), NftAction::DownloadMeta);
    }
    assert_eq!(job.on_event(NftEvent::DownloadFailed), NftAction::GiveUp);
    assert!(!job.is_active());
}

#[test]
fn failures_count_again_for_the_image() {
    let (mut job, _) = NftDownload::start(5, "https://x/5", "d");
    for _ in 1..MAX_DOWNLOAD_FAILURES {
        job.on_event(NftEvent::DownloadFailed);
    }
    assert_eq!(job.on_event(NftEvent::Downloaded), NftAction::ReadMeta);
    job.on_event(NftEvent::MetaImage(Some("https://x/5.png".to_string())));
    for _ in 1..MAX_DOWNLOAD_FAILURES {
        assert_eq!(job.on_event(NftEvent::DownloadFailed), NftAction::DownloadImage);
    }
    assert_eq!(job.on_event(NftEvent::DownloadFailed), NftAction::GiveUp);
}

#[test]
fn events_that_do_not_fit_are_ignored() {
    let (mut job, _) = NftDownload::start(5, "https://x/5", "d");
    assert_eq!(job.on_event(NftEvent::MetaImage(None)), NftAction::DownloadMeta);
    job.on_event(NftEvent::Downloaded);
    assert_eq!(job.on_event(NftEvent::Downloaded), NftAction::ReadMeta);
}

#[test]
fn queue_hands_out_tokens_in_order_from_one() {
    let mut q = TaskQueue::new(vec!["a".to_string(), "b".to_string()]);
    assert_eq!(q.take(), Some((1, "a".to_string())));
    assert_eq!(q.take(), Some((2, "b".to_string())));
    assert_eq!(q.take(), None);
    assert_eq!(q.take(), None);
}

#[test]
fn different_tokens_have_different_files() {
    assert_ne!(meta_file_path("d", 1), meta_file_path("d", 10));
    assert_ne!(img_file_path("d", 12), img_file_path("d", 1));
}

#[test]
fn link_extension_follows_the_last_dot_of_the_last_segment() {
    assert_eq!(download_file_name("d/img/1", "", "https://x/a.b.c/"), "d/img/1.c");
    assert_eq!(download_file_name("d/img/1", "", "https://x/pic.png/."), "d/img/1.png");
    assert_eq!(download_file_name("d/img/1", "", "https://x/pic.png?v=2"), "d/img/1.png?v=2");
    assert_eq!(download_file_name("d/img/1", "", "https://x/name."), "d/img/1.");
}

#[test]
fn link_without_extension_adds_none() {
    assert_eq!(download_file_name("d/img/1", "", "https://x/.hidden"), "d/img/1");
    assert_eq!(download_file_name("d/img/1", "", "https://x/a.b/.."), "d/img/1");
    assert_eq!(download_file_name("d/img/1", "", "https://x.com"), "d/img/1.com");
}
