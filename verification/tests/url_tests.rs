use ops_plagiary::{convert_to_https, count_from_input, https_meta_urls, trim_input, url_type_from_choice, UrlType};

#[test]
fn menu_choice_one_is_https() {
    assert_eq!(url_type_from_choice("1\n"), Some(UrlType::Https));
    assert_eq!(url_type_from_choice("  1  "), Some(UrlType::Https));
}

#[test]
fn menu_choice_two_is_ar() {
    assert_eq!(url_type_from_choice("2\r\n"), Some(UrlType::Ar));
}

#[test]
fn menu_choice_unicode_whitespace_is_trimmed() {
    assert_eq!(url_type_from_choice("\u{3000}1\u{a0}"), Some(UrlType::Https));
}

#[test]
fn menu_choice_other_answers_are_refused() {
    assert_eq!(url_type_from_choice("3"), None);
    assert_eq!(url_type_from_choice("12"), None);
    assert_eq!(url_type_from_choice(""), None);
    assert_eq!(url_type_from_choice("1 2"), None);
}

#[test]
fn count_reads_decimal_numbers() {
    assert_eq!(count_from_input("25\n"), Some(25));
    assert_eq!(count_from_input(" +9999 "), Some(9999));
    assert_eq!(count_from_input("007"), Some(7));
}

#[test]
fn count_refuses_other_text() {
    assert_eq!(count_from_input("25a"), None);
    assert_eq!(count_from_input("-1"), None);
    assert_eq!(count_from_input("+"), None);
    assert_eq!(count_from_input(""), None);
    assert_eq!(count_from_input("1 0"), None);
}

#[test]
fn count_refuses_overflow() {
    let too_big = format!("{}0", usize::MAX);
    assert_eq!(count_from_input(&too_big), None);
    assert_eq!(count_from_input(&format!("{}", usize::MAX)), Some(usize::MAX));
}

#[test]
fn convert_keeps_https_and_http_links() {
    assert_eq!(
        convert_to_https("https://be.undeadblocks.com/api/metadata/123"),
        Some("https://be.undeadblocks.com/api/metadata/123".to_string())
    );
    assert_eq!(convert_to_https("http://example.com/1"), Some("http://example.com/1".to_string()));
}

#[test]
fn convert_sends_ipfs_through_gateway() {
    assert_eq!(
        convert_to_https("ipfs://QmboCxEoxbJDwkq5RgFJsAHXFHYQUjUsSLxSaKtdsqgRbb/123"),
        Some("https://ipfs.io/ipfs/QmboCxEoxbJDwkq5RgFJsAHXFHYQUjUsSLxSaKtdsqgRbb/123".to_string())
    );
    assert_eq!(convert_to_https("ipfs://"), Some("https://ipfs.io/ipfs/".to_string()));
}

#[test]
fn convert_refuses_other_schemes() {
    assert_eq!(convert_to_https("ar://abc"), None);
    assert_eq!(convert_to_https("HTTPS://x"), None);
    assert_eq!(convert_to_https(""), None);
    assert_eq!(convert_to_https("ipfs:/x"), None);
}

#[test]
fn convert_twice_is_convert_once() {
    for link in ["ipfs://Qm/1", "https://a/b", "http://c"] {
        let once = convert_to_https(link).unwrap();
        assert_eq!(convert_to_https(&once), Some(once.clone()));
    }
}

#[test]
fn regular_collection_links_start_at_token_one() {
    let urls = https_meta_urls("ipfs://QmPMc4tcBsMqLRuCQtPmPe84bpSjrC3Ky7t3JWuHXYB4aS/\n", 3).unwrap();
    assert_eq!(
        urls,
        vec![
            "https://ipfs.io/ipfs/QmPMc4tcBsMqLRuCQtPmPe84bpSjrC3Ky7t3JWuHXYB4aS/1".to_string(),
            "https://ipfs.io/ipfs/QmPMc4tcBsMqLRuCQtPmPe84bpSjrC3Ky7t3JWuHXYB4aS/2".to_string(),
            "https://ipfs.io/ipfs/QmPMc4tcBsMqLRuCQtPmPe84bpSjrC3Ky7t3JWuHXYB4aS/3".to_string(),
        ]
    );
}

#[test]
fn regular_collection_links_https_root() {
    let urls = https_meta_urls("https://api.hello/meta/", 12).unwrap();
    assert_eq!(urls.len(), 12);
    assert_eq!(urls[9], "https://api.hello/meta/10");
    assert_eq!(urls[11], "https://api.hello/meta/12");
}

#[test]
fn regular_collection_empty_and_bad_root() {
    assert_eq!(https_meta_urls("https://api.hello/meta/", 0), Some(vec![]));
    assert_eq!(https_meta_urls("ftp://x/", 5), None);
}

#[test]
fn built_links_are_download_links_already() {
    for url in https_meta_urls("ipfs://QmRoot/", 20).unwrap() {
        assert_eq!(convert_to_https(&url), Some(url.clone()));
    }
}

#[test]
fn typed_lines_lose_surrounding_whitespace() {
    assert_eq!(trim_input("  0x960b7a6bcd451c9968473f7bbfd9be826efd549a\r\n"), "0x960b7a6bcd451c9968473f7bbfd9be826efd549a");
    assert_eq!(trim_input("\u{2003}a b\u{2028}"), "a b");
    assert_eq!(trim_input(" \t\n"), "");
}
