use mangadl::extract::extract_image_urls;

const PAGE: &str = "https://w65.readvagabond.com/manga/vagabond-chapter-326-samurai/";

#[test]
fn foo4() {
    let html = "<img src=\"data:image/svg+xml,%3Csvg%20xmlns=%22http://www.w3.org/2000/svg%22%20viewBox=%220%200%20210%20140%22%3E%3C/svg%3E\" data-src=\"https://cdn.readkakegurui.com/file/mangaifenzi22/vagabond/vol-37-chapter-326-to-be-a-samurai/23.jpg\">";
    let urls = extract_image_urls(
        PAGE.as_bytes(),
        html.as_bytes(),
        "img".as_bytes(),
        "data-src".as_bytes(),
        "cdn.readkakegurui.com".as_bytes(),
    )
    .unwrap();
    assert_eq!(urls.len(), 1);
    assert_eq!(urls[0].ordinal_index, 0);
    assert_eq!(
        String::from_utf8(urls[0].absolute_url.clone()).unwrap(),
        "https://cdn.readkakegurui.com/file/mangaifenzi22/vagabond/vol-37-chapter-326-to-be-a-samurai/23.jpg"
    );
}

#[test]
fn extraction_keeps_document_order_and_indices() {
    let html = "<div>\
        <img data-src=\"https://cdn.example/a.jpg\">\
        <img src=\"placeholder.png\">\
        <img data-src=\"http://cdn.example/insecure.jpg\">\
        <img data-src=\"https://ads.example/ad.jpg\">\
        <img data-src=\"https://cdn.example/b.jpg\">\
        </div>";
    let urls = extract_image_urls(
        "https://site.example/manga/c-1/".as_bytes(),
        html.as_bytes(),
        "img".as_bytes(),
        "data-src".as_bytes(),
        "cdn.example".as_bytes(),
    )
    .unwrap();
    // Four elements carry the attribute; the insecure and foreign ones are
    // rejected but still consume their ordinal indices.
    assert_eq!(urls.len(), 2);
    assert_eq!(urls[0].ordinal_index, 0);
    assert_eq!(urls[0].absolute_url, "https://cdn.example/a.jpg".as_bytes().to_vec());
    assert_eq!(urls[1].ordinal_index, 3);
    assert_eq!(urls[1].absolute_url, "https://cdn.example/b.jpg".as_bytes().to_vec());
}

#[test]
fn idempotent_extraction() {
    let html = "<img data-src=\"https://cdn.example/a.jpg\"><img data-src=\"https://cdn.example/b.jpg\">";
    let first = extract_image_urls(
        "https://site.example/manga/c-1/".as_bytes(),
        html.as_bytes(),
        "img".as_bytes(),
        "data-src".as_bytes(),
        "cdn.example".as_bytes(),
    )
    .unwrap();
    let second = extract_image_urls(
        "https://site.example/manga/c-1/".as_bytes(),
        html.as_bytes(),
        "img".as_bytes(),
        "data-src".as_bytes(),
        "cdn.example".as_bytes(),
    )
    .unwrap();
    assert_eq!(first.len(), second.len());
    for (a, b) in first.iter().zip(second.iter()) {
        assert_eq!(a.ordinal_index, b.ordinal_index);
        assert_eq!(a.absolute_url, b.absolute_url);
    }
}

#[test]
fn empty_document_extracts_nothing() {
    let urls = extract_image_urls(
        PAGE.as_bytes(),
        "".as_bytes(),
        "img".as_bytes(),
        "data-src".as_bytes(),
        "cdn.readkakegurui.com".as_bytes(),
    )
    .unwrap();
    assert!(urls.is_empty());
}

#[test]
fn invalid_selector_yields_none() {
    let r = extract_image_urls(
        PAGE.as_bytes(),
        "<img data-src=\"https://cdn.example/a.jpg\">".as_bytes(),
        "!!not a selector!!".as_bytes(),
        "data-src".as_bytes(),
        "cdn.example".as_bytes(),
    );
    assert!(r.is_none());
}
