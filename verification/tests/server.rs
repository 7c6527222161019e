use valhalla_size_viz::{healthz, serve_index_html, worker_threads, PageRead, WEB_DIR};

#[test]
fn serve_index_html_returns_not_found_for_missing_file() {
    let (status, text) = serve_index_html("web/index.html", PageRead::NotFound).unwrap_err();
    assert_eq!(status, 404);
    assert_eq!(text, "web/index.html: not found");
}

#[test]
fn serve_index_html_reads_file_contents() {
    let page = "<html><body>hello</body></html>".to_string();
    let body = serve_index_html("index.html", PageRead::Contents(page)).unwrap();
    assert_eq!(body, "<html><body>hello</body></html>");
}

#[test]
fn serve_index_html_reports_other_failures() {
    let denied = PageRead::OpenFailed("permission denied".to_string());
    assert_eq!(
        serve_index_html("a.html", denied),
        Err((500, "failed to open a.html: permission denied".to_string()))
    );
    let garbled = PageRead::ReadFailed("not UTF-8".to_string());
    assert_eq!(
        serve_index_html("a.html", garbled),
        Err((500, "failed to read a.html: not UTF-8".to_string()))
    );
}

#[test]
fn healthz_returns_ok() {
    assert_eq!(healthz(), "OK");
}

#[test]
fn worker_threads_are_capped() {
    assert_eq!(worker_threads(Some(1)), 1);
    assert_eq!(worker_threads(Some(3)), 3);
    assert_eq!(worker_threads(Some(4)), 4);
    assert_eq!(worker_threads(Some(64)), 4);
    assert_eq!(worker_threads(None), 4);
}

#[test]
fn page_lies_in_the_web_directory() {
    assert_eq!(WEB_DIR, "web");
}
