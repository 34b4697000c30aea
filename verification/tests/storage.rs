use file_exchange::storage::{
    allocate, check_upload_id, resolve, sanitize, upload_directory, upload_id, Forbidden,
    ID_LENGTH,
};

#[test]
fn plain_names_are_accepted() {
    assert_eq!(sanitize(b"report.txt"), Ok(()));
    assert_eq!(sanitize(b"a/b/c.txt"), Ok(()));
    assert_eq!(sanitize(b""), Ok(()));
    assert_eq!(sanitize(b"."), Ok(()));
    assert_eq!(sanitize(b"./a"), Ok(()));
    assert_eq!(sanitize(b"name with spaces"), Ok(()));
}

#[test]
fn dots_inside_a_name_are_accepted() {
    assert_eq!(sanitize(b"a..b"), Ok(()));
    assert_eq!(sanitize(b"..."), Ok(()));
    assert_eq!(sanitize(b"..a"), Ok(()));
    assert_eq!(sanitize(b"a.."), Ok(()));
    assert_eq!(sanitize(b"x/..a/y"), Ok(()));
    assert_eq!(sanitize(b"a\\..\\b"), Ok(()));
}

#[test]
fn parent_segments_are_refused() {
    assert_eq!(sanitize(b".."), Err(Forbidden));
    assert_eq!(sanitize(b"../etc/passwd"), Err(Forbidden));
    assert_eq!(sanitize(b"a/../b"), Err(Forbidden));
    assert_eq!(sanitize(b"a/.."), Err(Forbidden));
    assert_eq!(sanitize(b"a//.."), Err(Forbidden));
}

#[test]
fn leading_separators_are_refused() {
    assert_eq!(sanitize(b"/etc/passwd"), Err(Forbidden));
    assert_eq!(sanitize(b"\\share"), Err(Forbidden));
    assert_eq!(sanitize(b"/"), Err(Forbidden));
}

#[test]
fn tilde_and_star_are_refused_anywhere() {
    assert_eq!(sanitize(b"~"), Err(Forbidden));
    assert_eq!(sanitize(b"~root/x"), Err(Forbidden));
    assert_eq!(sanitize(b"a/b~"), Err(Forbidden));
    assert_eq!(sanitize(b"*.txt"), Err(Forbidden));
    assert_eq!(sanitize(b"a/b*c"), Err(Forbidden));
}

#[test]
fn short_hash_is_repeated_to_fill_the_identifier() {
    assert_eq!(upload_id(0x53), b"535353".to_vec());
    assert_eq!(upload_id(0), b"000000".to_vec());
    assert_eq!(upload_id(0xabc), b"abcabc".to_vec());
    assert_eq!(upload_id(0x1234), b"123412".to_vec());
    assert_eq!(upload_id(0x12345), b"123451".to_vec());
}

#[test]
fn long_hash_gives_its_first_digits() {
    assert_eq!(upload_id(0xabcdef123), b"abcdef".to_vec());
    assert_eq!(upload_id(0x10_0000), b"100000".to_vec());
    assert_eq!(upload_id(u64::MAX), b"ffffff".to_vec());
    assert_eq!(upload_id(0x0123_4567_89ab_cdef), b"123456".to_vec());
}

#[test]
fn allocated_identifier_has_the_form_of_one() {
    for nanos in [0u128, 1, 1_700_000_000_000_000_000, u128::MAX] {
        let id = allocate(nanos);
        assert_eq!(id.len(), ID_LENGTH);
        assert!(check_upload_id(&id));
    }
}

#[test]
fn form_of_an_identifier() {
    assert!(check_upload_id(b"0a1b2c"));
    assert!(check_upload_id(b"ffffff"));
    assert!(!check_upload_id(b"0A1B2C"));
    assert!(!check_upload_id(b"abcde"));
    assert!(!check_upload_id(b"abcdef0"));
    assert!(!check_upload_id(b"static"));
    assert!(!check_upload_id(b"abcdeg"));
    assert!(!check_upload_id(b""));
}

#[test]
fn location_joins_root_identifier_and_name() {
    assert_eq!(
        resolve(b"/srv/files", b"ab12cd", b"report.txt"),
        b"/srv/files/ab12cd/report.txt".to_vec()
    );
    assert_eq!(resolve(b"files", b"ab12cd", b"a/b.txt"), b"files/ab12cd/a/b.txt".to_vec());
    assert_eq!(upload_directory(b"/srv/files", b"ab12cd"), b"/srv/files/ab12cd".to_vec());
}

#[test]
fn location_does_not_examine_the_name() {
    assert_eq!(resolve(b"r", b"ab12cd", b"../x"), b"r/ab12cd/../x".to_vec());
}

#[test]
fn uploads_at_one_instant_get_one_identifier() {
    assert_eq!(allocate(1_700_000_000_000_000_000), allocate(1_700_000_000_000_000_000));
    assert_eq!(allocate(0), allocate(0));
}

#[test]
fn identifier_depends_on_the_instant() {
    let first = allocate(0);
    assert!((1u128..64).any(|nanos| allocate(nanos) != first));
}
