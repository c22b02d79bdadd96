use mangadl::resolve::{assemble_relative, resolve};
use std::cmp::Ordering;

#[test]
fn foo() {
    let content_url = "https://www.firepunchmangafree.com/manga/firepunch-chapter-1/index.html";
    let x = "../../sun9-68.userapi.com/impg/9S4KGO552So7NlP0BWEBLk2fzkU4oE8BP1XwTg/m6_h-tJ8CEU9125.jpg?size=827x1300&quality=95&sign=dffb83ea574efeef211aa2d1898dc9d5&type=album";
    let parsed_url = url::Url::parse(x);
    assert!(parsed_url.is_err());
    let resolved_bytes = assemble_relative(content_url.as_bytes(), x.as_bytes()).unwrap();
    let resolved = String::from_utf8(resolved_bytes).unwrap();
    let expected = String::from("https://www.firepunchmangafree.com/sun9-68.userapi.com/impg/9S4KGO552So7NlP0BWEBLk2fzkU4oE8BP1XwTg/m6_h-tJ8CEU9125.jpg?size=827x1300&quality=95&sign=dffb83ea574efeef211aa2d1898dc9d5&type=album");
    assert_eq!(String::cmp(&resolved, &expected), Ordering::Equal);
}

#[test]
fn foo2() {
    let url = "data:image/svg+xml,%3Csvg%20xmlns=%22http://www.w3.org/2000/svg%22%20viewBox=%220%200%20340%20484%22%3E%3C/svg%3E";
    let res = url::Url::parse(url);
    assert!(res.is_ok());
}

#[test]
fn foo3() {
    let url = "https://w65.readvagabond.com/manga/#content";
    let res = url::Url::parse(url);
    assert!(res.is_ok());
    assert_eq!(res.unwrap().host_str().unwrap(), "w65.readvagabond.com");
}

#[test]
fn resolver_round_trip() {
    let page = "https://site.example/manga/x-1/index.html";
    let raw = "../../cdn.example/a/b.jpg";
    let resolved = resolve(page.as_bytes(), raw.as_bytes(), "site.example".as_bytes()).unwrap();
    assert_eq!(
        String::from_utf8(resolved).unwrap(),
        "https://site.example/cdn.example/a/b.jpg"
    );
    // The reassembled URL's host is the page's own, so any other allowed host
    // rejects the reference.
    assert!(resolve(page.as_bytes(), raw.as_bytes(), "other.example".as_bytes()).is_none());
}

#[test]
fn absolute_filter_insecure_scheme_rejected() {
    let page = "https://site.example/manga/x-1/index.html";
    let raw = "http://cdn.example/img.jpg";
    assert!(resolve(page.as_bytes(), raw.as_bytes(), "cdn.example".as_bytes()).is_none());
}

#[test]
fn absolute_filter_foreign_host_rejected() {
    let page = "https://site.example/manga/x-1/index.html";
    let raw = "https://otherhost.example/img.jpg";
    assert!(resolve(page.as_bytes(), raw.as_bytes(), "cdn.example".as_bytes()).is_none());
}

#[test]
fn absolute_filter_allowed_accepted_unchanged() {
    let page = "https://site.example/manga/x-1/index.html";
    let raw = "https://cdn.example/img.jpg";
    let resolved = resolve(page.as_bytes(), raw.as_bytes(), "cdn.example".as_bytes()).unwrap();
    assert_eq!(resolved, raw.as_bytes().to_vec());
}

#[test]
fn data_uri_rejected() {
    let page = "https://site.example/manga/x-1/index.html";
    let raw = "data:image/svg+xml,%3Csvg%20xmlns=%22http://www.w3.org/2000/svg%22%20viewBox=%220%200%20340%20484%22%3E%3C/svg%3E";
    assert!(resolve(page.as_bytes(), raw.as_bytes(), "cdn.example".as_bytes()).is_none());
}

#[test]
fn relative_with_zero_markers_drops_page_segment() {
    let page = "https://site.example/manga/x-1/index.html";
    let raw = "images/01.jpg";
    let resolved = resolve(page.as_bytes(), raw.as_bytes(), "site.example".as_bytes()).unwrap();
    assert_eq!(
        String::from_utf8(resolved).unwrap(),
        "https://site.example/manga/x-1/images/01.jpg"
    );
}

#[test]
fn relative_on_insecure_page_rejected() {
    // The reassembled URL inherits the page's scheme; an insecure page
    // cannot yield an accepted image URL.
    let page = "http://site.example/manga/x-1/index.html";
    let raw = "images/01.jpg";
    assert!(resolve(page.as_bytes(), raw.as_bytes(), "site.example".as_bytes()).is_none());
}

#[test]
fn relative_with_too_many_markers_rejected() {
    let page = "https://site.example/a";
    let raw = "../../../../../../x.jpg";
    assert!(resolve(page.as_bytes(), raw.as_bytes(), "site.example".as_bytes()).is_none());
    assert!(assemble_relative(page.as_bytes(), raw.as_bytes()).is_none());
}

#[test]
fn relative_assembly_not_a_url_rejected() {
    // After reassembly the candidate still has no scheme, so it does not
    // parse and is rejected.
    let page = "not a url at all";
    let raw = "img.jpg";
    assert!(resolve(page.as_bytes(), raw.as_bytes(), "site.example".as_bytes()).is_none());
}
