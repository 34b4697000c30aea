use file_exchange::handlers::{
    delete, delete_reply, expects_continue, file_head, files_page, get, gone_reply, holds_byte,
    join, public_host, put, put_reply, stored_reply, strip_slash, text_bytes, DeletePlan,
    FilesPage, GetPlan, PutPlan, Stored, Upload, CONTINUE, FORBIDDEN, OK_HEAD, PAGE_HEAD,
};
use file_exchange::headers::parse_headers;
use file_exchange::storage::check_upload_id;

const FORBIDDEN_NAMES: [&str; 9] =
    ["..", "../x", "a/../b", "a/..", "/etc/passwd", "\\x", "~", "a~b", "a*"];

#[test]
fn upload_is_planned_below_the_root() {
    match put(b"/report.txt", b"/srv/files", 1_700_000_000_000_000_000) {
        PutPlan::Store(upload) => {
            assert_eq!(upload.name, b"report.txt".to_vec());
            assert!(check_upload_id(&upload.id));
            let mut directory = b"/srv/files/".to_vec();
            directory.extend_from_slice(&upload.id);
            assert_eq!(upload.directory, directory);
            let mut file = directory.clone();
            file.extend_from_slice(b"/report.txt");
            assert_eq!(upload.file, file);
        }
        PutPlan::Forbidden => panic!("a plain name was refused"),
    }
}

#[test]
fn upload_may_name_nested_directories() {
    match put(b"/a/b/c.txt", b"files", 7) {
        PutPlan::Store(upload) => {
            assert_eq!(upload.name, b"a/b/c.txt".to_vec());
            assert!(upload.file.ends_with(b"/a/b/c.txt"));
        }
        PutPlan::Forbidden => panic!("a nested name was refused"),
    }
}

#[test]
fn upload_to_a_forbidden_name_is_refused() {
    for name in FORBIDDEN_NAMES {
        let path = format!("/{name}");
        assert_eq!(put(path.as_bytes(), b"files", 7), PutPlan::Forbidden);
    }
}

#[test]
fn download_of_a_forbidden_name_is_refused() {
    for name in FORBIDDEN_NAMES {
        let direct = format!("/{name}");
        assert_eq!(get(direct.as_bytes(), b"files", b"site"), GetPlan::Forbidden);
        let full = format!("/files/{name}");
        assert_eq!(get(full.as_bytes(), b"files", b"site"), GetPlan::Forbidden);
        let nested = format!("/files/ab12cd/{name}");
        if !name.starts_with('/') && !name.starts_with('\\') {
            assert_eq!(get(nested.as_bytes(), b"files", b"site"), GetPlan::Forbidden);
        }
    }
}

#[test]
fn deletion_of_a_forbidden_name_is_refused() {
    for name in FORBIDDEN_NAMES {
        let path = format!("/{name}");
        assert_eq!(delete(path.as_bytes(), b"files"), DeletePlan::Forbidden);
    }
    assert_eq!(delete(b"/ab12cd/../../x", b"files"), DeletePlan::Forbidden);
}

#[test]
fn first_byte_of_a_path_is_dropped() {
    assert_eq!(strip_slash(b"/report.txt"), b"report.txt".to_vec());
    assert_eq!(strip_slash(b"report.txt"), b"eport.txt".to_vec());
    assert_eq!(strip_slash(b"/"), b"".to_vec());
    assert_eq!(strip_slash(b""), b"".to_vec());
}

#[test]
fn empty_path_is_the_home_page() {
    assert_eq!(get(b"/", b"files", b"site"), GetPlan::Page(b"site/index.html".to_vec()));
    assert_eq!(get(b"", b"files", b"site"), GetPlan::Page(b"site/index.html".to_vec()));
}

#[test]
fn bare_names_are_pages_of_the_site() {
    assert_eq!(get(b"/style.css", b"files", b"site"), GetPlan::Page(b"site/style.css".to_vec()));
    assert_eq!(get(b"/favicon.ico", b"files", b"/s"), GetPlan::Page(b"/s/favicon.ico".to_vec()));
    assert_eq!(get(b"/files.html", b"files", b"site"), GetPlan::Page(b"site/files.html".to_vec()));
}

#[test]
fn files_path_asks_for_the_usage() {
    assert_eq!(get(b"/files", b"files", b"site"), GetPlan::Usage);
}

#[test]
fn stored_files_are_had_in_both_forms_of_their_path() {
    assert_eq!(
        get(b"/files/ab12cd/report.txt", b"/srv/files", b"site"),
        GetPlan::Upload(b"/srv/files/ab12cd/report.txt".to_vec())
    );
    assert_eq!(
        get(b"/ab12cd/report.txt", b"/srv/files", b"site"),
        GetPlan::Upload(b"/srv/files/ab12cd/report.txt".to_vec())
    );
    assert_eq!(get(b"/files/", b"r", b"site"), GetPlan::Upload(b"r/".to_vec()));
}

#[test]
fn doubled_slash_after_files_is_refused() {
    assert_eq!(get(b"/files//etc/passwd", b"files", b"site"), GetPlan::Forbidden);
}

#[test]
fn deletion_removes_the_whole_directory_of_the_upload() {
    assert_eq!(
        delete(b"/ab12cd/report.txt", b"/srv/files"),
        DeletePlan::Remove(b"/srv/files/ab12cd".to_vec())
    );
    assert_eq!(delete(b"/ab12cd/a/b.txt", b"files"), DeletePlan::Remove(b"files/ab12cd".to_vec()));
    assert_eq!(delete(b"/ab12cd/", b"files"), DeletePlan::Remove(b"files/ab12cd".to_vec()));
}

#[test]
fn deletion_of_what_is_no_upload_finds_nothing() {
    assert_eq!(delete(b"/ab12cd", b"files"), DeletePlan::Missing);
    assert_eq!(delete(b"/static/email", b"files"), DeletePlan::Missing);
    assert_eq!(delete(b"/files/ab12cd/x", b"files"), DeletePlan::Missing);
    assert_eq!(delete(b"/AB12CD/x", b"files"), DeletePlan::Missing);
    assert_eq!(delete(b"/ab12c/x", b"files"), DeletePlan::Missing);
    assert_eq!(delete(b"/", b"files"), DeletePlan::Missing);
    assert_eq!(delete(b"", b"files"), DeletePlan::Missing);
}

#[test]
fn interim_reply_is_asked_for_by_the_expect_header() {
    let headers = parse_headers(b"Expect: 100-continue\r\n\r\n").unwrap();
    assert!(expects_continue(&headers));
    let headers = parse_headers(b"Expect: 100-Continue\r\n\r\n").unwrap();
    assert!(!expects_continue(&headers));
    let headers = parse_headers(b"expect: 100-continue\r\n\r\n").unwrap();
    assert!(!expects_continue(&headers));
    let headers = parse_headers(b"Host: h\r\n\r\n").unwrap();
    assert!(!expects_continue(&headers));
    let headers = parse_headers(b"Expect: 100-continue\r\nExpect: no\r\n\r\n").unwrap();
    assert!(!expects_continue(&headers));
    assert_eq!(CONTINUE, "HTTP/1.1 100 Continue\r\n\r\n");
}

#[test]
fn host_is_taken_from_the_header_or_the_socket() {
    let headers = parse_headers(b"Host: example.org\r\n\r\n").unwrap();
    assert_eq!(public_host(Some(&headers), b"0.0.0.0:80"), b"example.org".to_vec());
    let headers = parse_headers(b"Accept: */*\r\n\r\n").unwrap();
    assert_eq!(public_host(Some(&headers), b"0.0.0.0:80"), b"0.0.0.0:80".to_vec());
    assert_eq!(public_host(None, b"10.0.0.1:8080"), b"10.0.0.1:8080".to_vec());
}

#[test]
fn reply_to_a_stored_upload_names_its_address() {
    assert_eq!(
        stored_reply(b"example.org", b"ab12cd", b"report.txt"),
        b"HTTP/1.1 200 Ok\r\n\r\nhttp://example.org/ab12cd/report.txt\r\n".to_vec()
    );
}

#[test]
fn reply_follows_the_outcome_of_storing() {
    let upload = Upload {
        id: b"ab12cd".to_vec(),
        name: b"report.txt".to_vec(),
        directory: b"files/ab12cd".to_vec(),
        file: b"files/ab12cd/report.txt".to_vec(),
    };
    assert_eq!(
        put_reply(Stored::Done, b"h:80", &upload),
        Some(b"HTTP/1.1 200 Ok\r\n\r\nhttp://h:80/ab12cd/report.txt\r\n".to_vec())
    );
    assert_eq!(put_reply(Stored::NoDirectory, b"h:80", &upload), None);
    assert_eq!(put_reply(Stored::NoFile, b"h:80", &upload), None);
    assert_eq!(put_reply(Stored::BodyFailed, b"h:80", &upload), None);
}

#[test]
fn head_of_a_download_gives_its_length() {
    assert_eq!(file_head(5), b"HTTP/1.1 200 Ok\r\nContent-length: 5\r\n\r\n".to_vec());
    assert_eq!(file_head(0), b"HTTP/1.1 200 Ok\r\nContent-length: 0\r\n\r\n".to_vec());
    assert_eq!(
        file_head(1_048_576),
        b"HTTP/1.1 200 Ok\r\nContent-length: 1048576\r\n\r\n".to_vec()
    );
}

#[test]
fn reply_to_a_missing_file() {
    assert_eq!(
        gone_reply(b"files/ab12cd/report.txt"),
        b"HTTP/1.1 410 Gone\r\n\r\nFailed to fetch \"files/ab12cd/report.txt\", this is likely because it doesn't exist.\r\n".to_vec()
    );
}

#[test]
fn replies_to_a_deletion() {
    assert_eq!(
        delete_reply(true, b"ab12cd/report.txt"),
        b"HTTP/1.1 200 Ok\r\n\r\nDeleted \"ab12cd/report.txt\".\r\n".to_vec()
    );
    assert_eq!(
        delete_reply(false, b"ab12cd/report.txt"),
        b"HTTP/1.1 404 File not found\r\n\r\nFailed to delete \"ab12cd/report.txt\", this is likely because it doesn't exist.\r\n".to_vec()
    );
}

#[test]
fn texts_of_the_fixed_replies() {
    assert_eq!(
        text_bytes(FORBIDDEN),
        b"HTTP/1.1 403 Forbidden\r\n\r\nFile names cannot include \"..\", \"~\", \"*\" or start with \"/\" or \"\\\"\r\n".to_vec()
    );
    assert_eq!(text_bytes(OK_HEAD), b"HTTP/1.1 200 Ok\r\n\r\n".to_vec());
    assert_eq!(text_bytes(PAGE_HEAD), b"HTTP/1.1 200 OK\r\n\r\n".to_vec());
    assert_eq!(text_bytes(""), Vec::<u8>::new());
}

#[test]
fn usage_is_sent_as_text_unless_html_is_accepted() {
    let expected = b"HTTP/1.1 200 Ok\r\n\r\nTo upload, type:\r\n$ curl --upload-file <filename> http://example.org\r\n\r\nThen to download, type:\r\n$ curl http://example.org/files/<file_id>/<file_name> --output filename.txt\r\n\r\nIf you would like this output to be in HTML, please add \"text/html\" as an accepted format in your \"Accept\" header.".to_vec();
    let headers = parse_headers(b"Host: example.org\r\nAccept: */*\r\n\r\n").unwrap();
    assert_eq!(files_page(Some(&headers), b"0.0.0.0:80"), FilesPage::Text(expected.clone()));
    let headers = parse_headers(b"Host: example.org\r\n\r\n").unwrap();
    assert_eq!(files_page(Some(&headers), b"0.0.0.0:80"), FilesPage::Text(expected));
    match files_page(None, b"0.0.0.0:80") {
        FilesPage::Text(text) => {
            assert!(text.starts_with(b"HTTP/1.1 200 Ok\r\n\r\nTo upload, type:\r\n$ curl --upload-file <filename> http://0.0.0.0:80\r\n"));
        }
        FilesPage::Html(_) => panic!("a page was sent to a client that accepts none"),
    }
}

#[test]
fn usage_is_sent_as_a_page_where_html_is_accepted() {
    let headers =
        parse_headers(b"Accept: application/xhtml+xml,text/html;q=0.9\r\n\r\n").unwrap();
    assert_eq!(
        files_page(Some(&headers), b"0.0.0.0:80"),
        FilesPage::Html(b"HTTP/1.1 200 OK\r\n\r\n".to_vec())
    );
    let headers = parse_headers(b"Accept: text/HTML\r\n\r\n").unwrap();
    assert!(matches!(files_page(Some(&headers), b"h"), FilesPage::Text(_)));
}

#[test]
fn bytes_are_looked_for_and_paths_joined() {
    assert!(holds_byte(b"a/b", b'/'));
    assert!(!holds_byte(b"ab", b'/'));
    assert!(!holds_byte(b"", b'/'));
    assert_eq!(join(b"site", b"index.html"), b"site/index.html".to_vec());
    assert_eq!(join(b"", b""), b"/".to_vec());
}
