//! What each handler decides from a request's path and headers, and the
//! bytes it sends back. Reading the body, and reading and writing stored
//! files, is the caller's part.

use vstd::prelude::*;
use vstd::string::StringSliceAdditionalSpecFns;
use crate::bytes::{
    contains,
    copy_range,
    decimal,
    find,
    first_occurrence,
    lemma_split_once_at,
    matches_at,
    occurs_at,
    push_decimal,
    push_text,
    same_bytes,
    split_at_first,
    split_once,
    starts_with,
};
use crate::headers::Headers;
use crate::storage::{
    allocate,
    allocated,
    check_upload_id,
    directory,
    forbidden,
    has_parent_segment,
    is_hex_digit,
    is_upload_id,
    location,
    parent_segment_at,
    resolve,
    sanitize,
    upload_directory,
    SLASH,
    STAR,
    TILDE,
};

verus! {

/// Sent before the body is read, to a client that waits for it.
pub const CONTINUE: &'static str = "HTTP/1.1 100 Continue\r\n\r\n";

/// Sent back where the path may not be used.
pub const FORBIDDEN: &'static str =
    "HTTP/1.1 403 Forbidden\r\n\r\nFile names cannot include \"..\", \"~\", \"*\" or start with \"/\" or \"\\\"\r\n";

/// The status line of every success, and the blank line after it.
pub const OK_HEAD: &'static str = "HTTP/1.1 200 Ok\r\n\r\n";

/// The page that is served for an empty path.
pub const HOME_PAGE: &'static str = "index.html";

/// The path that asks how the server is used.
pub const USAGE_PATH: &'static str = "/files";

/// What a path begins with, after its first byte, where it names an upload
/// in full.
pub const STORE_PREFIX: &'static str = "files/";

/// What a path holds after its first byte. The first byte is the slash that
/// every path begins with.
pub open spec fn after_slash(path: Seq<u8>) -> Seq<u8> {
    if path.len() > 0 {
        path.skip(1)
    } else {
        path
    }
}

/// A copy of what `path` holds after its first byte.
pub fn strip_slash(path: &[u8]) -> (name: Vec<u8>)
    ensures
        name@ == after_slash(path@),
{
    if path.len() > 0 {
        let name = copy_range(path, 1, path.len());
        assert(path@.subrange(1, path@.len() as int) =~= path@.skip(1));
        name
    } else {
        let name = copy_range(path, 0, 0);
        assert(name@ =~= path@);
        name
    }
}

/// A place for a new upload.
#[derive(Debug, PartialEq, Eq)]
pub struct Upload {
    /// The identifier of the upload.
    pub id: Vec<u8>,
    /// The name of the file, relative to the upload's directory.
    pub name: Vec<u8>,
    /// The directory to create.
    pub directory: Vec<u8>,
    /// The file to write the body to.
    pub file: Vec<u8>,
}

/// What is done with an upload.
#[derive(Debug, PartialEq, Eq)]
pub enum PutPlan {
    /// The name may not be used: `FORBIDDEN` is sent and nothing is stored.
    Forbidden,
    /// The body is stored at this place.
    Store(Upload),
}

/// Plans the upload to `path`, made at `nanos` nanoseconds since the epoch,
/// below the storage root `root`.
pub fn put(path: &[u8], root: &[u8], nanos: u128) -> (plan: PutPlan)
    ensures
        match plan {
            PutPlan::Forbidden => forbidden(after_slash(path@)),
            PutPlan::Store(upload) => {
                &&& !forbidden(after_slash(path@))
                &&& upload.name@ == after_slash(path@)
                &&& upload.id@ == allocated(nanos)
                &&& is_upload_id(upload.id@)
                &&& upload.directory@ == directory(root@, upload.id@)
                &&& upload.file@ == location(root@, upload.id@, upload.name@)
            },
        },
{
    let name = strip_slash(path);
    match sanitize(name.as_slice()) {
        Err(_) => PutPlan::Forbidden,
        Ok(_) => {
            let id = allocate(nanos);
            let directory = upload_directory(root, id.as_slice());
            let file = resolve(root, id.as_slice(), name.as_slice());
            PutPlan::Store(Upload { id, name, directory, file })
        },
    }
}

/// The name of the header by which a client asks for an interim reply.
pub open spec fn expect_name() -> Seq<u8> {
    "Expect".spec_bytes()
}

/// Whether the client waits for `CONTINUE` before it sends the body: it does
/// where the header `Expect` holds `100-continue`.
pub fn expects_continue(headers: &Headers) -> (waits: bool)
    ensures
        waits == (headers@.contains_key(expect_name()) && headers@[expect_name()]
            == "100-continue".spec_bytes()),
{
    match headers.get("Expect".as_bytes()) {
        Some(value) => same_bytes(value.as_slice(), "100-continue".as_bytes()),
        None => false,
    }
}

/// The name of the header that holds the host as the client addressed it.
pub open spec fn host_name() -> Seq<u8> {
    "Host".spec_bytes()
}

/// The host that replies name: the one in the header `Host`, or `local`
/// where there is none.
pub open spec fn public_host_spec(headers: Option<Map<Seq<u8>, Seq<u8>>>, local: Seq<u8>) -> Seq<
    u8,
> {
    match headers {
        Some(map) => if map.contains_key(host_name()) {
            map[host_name()]
        } else {
            local
        },
        None => local,
    }
}

/// The host that replies name. `local` is the address on which the
/// connection was accepted.
pub fn public_host(headers: Option<&Headers>, local: &[u8]) -> (host: Vec<u8>)
    ensures
        host@ == public_host_spec(
            match headers {
                Some(h) => Some(h@),
                None => None,
            },
            local@,
        ),
{
    let mut host: Vec<u8> = Vec::new();
    match headers {
        Some(map) => match map.get("Host".as_bytes()) {
            Some(value) => {
                host.extend_from_slice(value.as_slice());
            },
            None => {
                host.extend_from_slice(local);
            },
        },
        None => {
            host.extend_from_slice(local);
        },
    }
    host
}

/// What is sent back after a stored upload: the line of success, and the
/// address at which the upload can be had.
pub open spec fn stored_reply_spec(host: Seq<u8>, id: Seq<u8>, name: Seq<u8>) -> Seq<u8> {
    OK_HEAD.spec_bytes() + "http://".spec_bytes() + host + seq![SLASH] + id + seq![SLASH] + name
        + "\r\n".spec_bytes()
}

/// What is sent back after the body of an upload was stored.
pub fn stored_reply(host: &[u8], id: &[u8], name: &[u8]) -> (reply: Vec<u8>)
    ensures
        reply@ == stored_reply_spec(host@, id@, name@),
{
    let mut reply: Vec<u8> = Vec::new();
    push_text(&mut reply, OK_HEAD);
    push_text(&mut reply, "http://");
    reply.extend_from_slice(host);
    reply.push(SLASH);
    reply.extend_from_slice(id);
    reply.push(SLASH);
    reply.extend_from_slice(name);
    push_text(&mut reply, "\r\n");
    assert(reply@ =~= stored_reply_spec(host@, id@, name@));
    reply
}

/// How storing an upload ended.
#[derive(Clone, Copy, Debug, PartialEq, Eq, Structural)]
pub enum Stored {
    /// The directory and the file were made and the body was written.
    Done,
    /// The directory could not be made, as where it exists already.
    NoDirectory,
    /// The file could not be made.
    NoFile,
    /// Reading the body failed.
    BodyFailed,
}

/// What is sent back after an attempt to store `upload`: the address of the
/// upload where it was stored, and nothing where it was not.
pub fn put_reply(outcome: Stored, host: &[u8], upload: &Upload) -> (reply: Option<Vec<u8>>)
    ensures
        match reply {
            Some(bytes) => outcome == Stored::Done && bytes@ == stored_reply_spec(
                host@,
                upload.id@,
                upload.name@,
            ),
            None => outcome != Stored::Done,
        },
{
    match outcome {
        Stored::Done => Some(stored_reply(host, upload.id.as_slice(), upload.name.as_slice())),
        _ => None,
    }
}

/// The bytes of `text` in a vector.
pub fn text_bytes(text: &str) -> (bytes: Vec<u8>)
    ensures
        bytes@ == text.spec_bytes(),
{
    let mut bytes: Vec<u8> = Vec::new();
    push_text(&mut bytes, text);
    assert(bytes@ =~= text.spec_bytes());
    bytes
}

/// The status line of a download, before its length.
pub const FILE_HEAD: &'static str = "HTTP/1.1 200 Ok\r\nContent-length: ";

/// The status line before a page.
pub const PAGE_HEAD: &'static str = "HTTP/1.1 200 OK\r\n\r\n";

/// The relative path that a download asks for: the home page for an empty
/// path, else what the path holds after its first byte.
pub open spec fn get_name(path: Seq<u8>) -> Seq<u8> {
    if path.len() == 0 || path == seq![SLASH] {
        HOME_PAGE.spec_bytes()
    } else {
        path.skip(1)
    }
}

/// The part of a download's relative path that names a stored file: what
/// follows `files/`, or the whole of a path that has a directory in it.
/// A bare name is a page and names no stored file.
pub open spec fn stored_part(name: Seq<u8>) -> Option<Seq<u8>> {
    if starts_with(name, STORE_PREFIX.spec_bytes()) {
        Some(name.skip(STORE_PREFIX.spec_bytes().len() as int))
    } else if name.contains(SLASH) {
        Some(name)
    } else {
        None
    }
}

/// `path` asks how the server is used.
pub open spec fn asks_usage(path: Seq<u8>) -> bool {
    path == USAGE_PATH.spec_bytes()
}

/// `path` asks for something that may not be had: its relative path, or the
/// part of it that names a stored file, is forbidden.
pub open spec fn get_forbidden(path: Seq<u8>) -> bool {
    forbidden(get_name(path)) || (stored_part(get_name(path)) matches Some(part) && forbidden(
        part,
    ))
}

/// `dir` and `rest` joined by a slash.
pub open spec fn below(dir: Seq<u8>, rest: Seq<u8>) -> Seq<u8> {
    dir + seq![SLASH] + rest
}

/// What is done with a download.
#[derive(Debug, PartialEq, Eq)]
pub enum GetPlan {
    /// The text on how the server is used, or the page of the same content.
    Usage,
    /// The path may not be used: `FORBIDDEN` is sent and no file is opened.
    Forbidden,
    /// This stored file is sent.
    Upload(Vec<u8>),
    /// This page of the site is sent.
    Page(Vec<u8>),
}

/// Whether `s` holds `byte`.
pub fn holds_byte(s: &[u8], byte: u8) -> (held: bool)
    ensures
        held == s@.contains(byte),
{
    let mut i: usize = 0;
    while i < s.len()
        invariant
            i <= s.len(),
            forall|j: int| 0 <= j < i ==> s@[j] != byte,
        decreases s.len() - i,
    {
        if s[i] == byte {
            return true;
        }
        i += 1;
    }
    false
}

/// `rest` below `dir`.
pub fn join(dir: &[u8], rest: &[u8]) -> (path: Vec<u8>)
    ensures
        path@ == below(dir@, rest@),
{
    let mut path: Vec<u8> = Vec::new();
    path.extend_from_slice(dir);
    path.push(SLASH);
    path.extend_from_slice(rest);
    assert(path@ =~= below(dir@, rest@));
    path
}

/// Plans the download of `path`. Stored files lie below `root`, the pages of
/// the site below `site`.
pub fn get(path: &[u8], root: &[u8], site: &[u8]) -> (plan: GetPlan)
    ensures
        match plan {
            GetPlan::Usage => asks_usage(path@),
            GetPlan::Forbidden => !asks_usage(path@) && get_forbidden(path@),
            GetPlan::Upload(file) => !asks_usage(path@) && !get_forbidden(path@) && (stored_part(
                get_name(path@),
            ) matches Some(part) && file@ == below(root@, part)),
            GetPlan::Page(file) => !asks_usage(path@) && !get_forbidden(path@) && stored_part(
                get_name(path@),
            ).is_none() && file@ == below(site@, get_name(path@)),
        },
{
    if same_bytes(path, USAGE_PATH.as_bytes()) {
        return GetPlan::Usage;
    }
    let name: Vec<u8> = if path.len() == 0 || (path.len() == 1 && path[0] == SLASH) {
        assert(path@.len() == 0 || path@ =~= seq![SLASH]);
        text_bytes(HOME_PAGE)
    } else {
        assert(path@ != seq![SLASH]);
        strip_slash(path)
    };
    assert(name@ == get_name(path@));
    if sanitize(name.as_slice()).is_err() {
        return GetPlan::Forbidden;
    }
    let prefix = STORE_PREFIX.as_bytes();
    if matches_at(name.as_slice(), prefix, 0) {
        let part = copy_range(name.as_slice(), prefix.len(), name.len());
        assert(part@ =~= name@.skip(prefix@.len() as int));
        if sanitize(part.as_slice()).is_err() {
            return GetPlan::Forbidden;
        }
        GetPlan::Upload(join(root, part.as_slice()))
    } else if holds_byte(name.as_slice(), SLASH) {
        GetPlan::Upload(join(root, name.as_slice()))
    } else {
        GetPlan::Page(join(site, name.as_slice()))
    }
}

/// What is sent before the bytes of a file of `len` bytes.
pub open spec fn file_head_spec(len: nat) -> Seq<u8> {
    FILE_HEAD.spec_bytes() + decimal(len) + "\r\n\r\n".spec_bytes()
}

/// What is sent before the bytes of a file of `len` bytes: the line of
/// success, the length, and the blank line.
pub fn file_head(len: u64) -> (head: Vec<u8>)
    ensures
        head@ == file_head_spec(len as nat),
{
    let mut head: Vec<u8> = Vec::new();
    push_text(&mut head, FILE_HEAD);
    push_decimal(&mut head, len);
    push_text(&mut head, "\r\n\r\n");
    assert(head@ =~= file_head_spec(len as nat));
    head
}

/// What is sent back where the file `name` cannot be opened.
pub open spec fn gone_reply_spec(name: Seq<u8>) -> Seq<u8> {
    "HTTP/1.1 410 Gone\r\n\r\nFailed to fetch \"".spec_bytes() + name
        + "\", this is likely because it doesn't exist.\r\n".spec_bytes()
}

/// What is sent back where the file `name` cannot be opened.
pub fn gone_reply(name: &[u8]) -> (reply: Vec<u8>)
    ensures
        reply@ == gone_reply_spec(name@),
{
    let mut reply: Vec<u8> = Vec::new();
    push_text(&mut reply, "HTTP/1.1 410 Gone\r\n\r\nFailed to fetch \"");
    reply.extend_from_slice(name);
    push_text(&mut reply, "\", this is likely because it doesn't exist.\r\n");
    assert(reply@ =~= gone_reply_spec(name@));
    reply
}

/// The name of the header that lists what the client accepts.
pub open spec fn accept_name() -> Seq<u8> {
    "Accept".spec_bytes()
}

/// The client has said that it accepts HTML.
pub open spec fn accepts_html(headers: Option<Map<Seq<u8>, Seq<u8>>>) -> bool {
    headers matches Some(map) && map.contains_key(accept_name()) && contains(
        map[accept_name()],
        "text/html".spec_bytes(),
    )
}

/// The text on how the server is used, for a client that reached it as `host`.
pub open spec fn usage_spec(host: Seq<u8>) -> Seq<u8> {
    "HTTP/1.1 200 Ok\r\n\r\nTo upload, type:\r\n$ curl --upload-file <filename> http://".spec_bytes()
        + host + "\r\n\r\nThen to download, type:\r\n$ curl http://".spec_bytes() + host
        + "/files/<file_id>/<file_name> --output filename.txt\r\n\r\nIf you would like this output to be in HTML, please add \"text/html\" as an accepted format in your \"Accept\" header.".spec_bytes()
}

/// What is sent to a client that asks how the server is used.
#[derive(Debug, PartialEq, Eq)]
pub enum FilesPage {
    /// This text, for a client that has not said that it accepts HTML.
    Text(Vec<u8>),
    /// These bytes and then the page itself.
    Html(Vec<u8>),
}

/// Answers a client that asks how the server is used. `local` is the address
/// on which the connection was accepted.
pub fn files_page(headers: Option<&Headers>, local: &[u8]) -> (page: FilesPage)
    ensures
        match page {
            FilesPage::Text(text) => !accepts_html(
                match headers {
                    Some(h) => Some(h@),
                    None => None,
                },
            ) && text@ == usage_spec(
                public_host_spec(
                    match headers {
                        Some(h) => Some(h@),
                        None => None,
                    },
                    local@,
                ),
            ),
            FilesPage::Html(head) => accepts_html(
                match headers {
                    Some(h) => Some(h@),
                    None => None,
                },
            ) && head@ == PAGE_HEAD.spec_bytes(),
        },
{
    let html: bool = match headers {
        Some(map) => match map.get("Accept".as_bytes()) {
            Some(value) => find(value.as_slice(), "text/html".as_bytes()).is_some(),
            None => false,
        },
        None => false,
    };
    if html {
        FilesPage::Html(text_bytes(PAGE_HEAD))
    } else {
        let host = public_host(headers, local);
        let mut text: Vec<u8> = Vec::new();
        push_text(
            &mut text,
            "HTTP/1.1 200 Ok\r\n\r\nTo upload, type:\r\n$ curl --upload-file <filename> http://",
        );
        text.extend_from_slice(host.as_slice());
        push_text(&mut text, "\r\n\r\nThen to download, type:\r\n$ curl http://");
        text.extend_from_slice(host.as_slice());
        push_text(
            &mut text,
            "/files/<file_id>/<file_name> --output filename.txt\r\n\r\nIf you would like this output to be in HTML, please add \"text/html\" as an accepted format in your \"Accept\" header.",
        );
        assert(text@ =~= usage_spec(host@));
        FilesPage::Text(text)
    }
}

/// What is done with a deletion.
#[derive(Debug, PartialEq, Eq)]
pub enum DeletePlan {
    /// The path may not be used: `FORBIDDEN` is sent and nothing is removed.
    Forbidden,
    /// The path names no upload: the reply is that of a failed removal.
    Missing,
    /// This directory is removed with all that it holds.
    Remove(Vec<u8>),
}

/// The identifier in a deletion's relative path: what stands before its
/// first slash, where that has the form of an identifier.
pub open spec fn delete_id(name: Seq<u8>) -> Option<Seq<u8>> {
    match split_once(name, seq![SLASH]) {
        Some(parts) => if is_upload_id(parts.0) {
            Some(parts.0)
        } else {
            None
        },
        None => None,
    }
}

/// Plans the deletion that `path` asks for, below the storage root `root`.
/// The whole directory of the upload is removed, not the named file alone.
pub fn delete(path: &[u8], root: &[u8]) -> (plan: DeletePlan)
    ensures
        match plan {
            DeletePlan::Forbidden => forbidden(after_slash(path@)),
            DeletePlan::Missing => !forbidden(after_slash(path@)) && delete_id(
                after_slash(path@),
            ).is_none(),
            DeletePlan::Remove(dir) => !forbidden(after_slash(path@)) && (delete_id(
                after_slash(path@),
            ) matches Some(id) && dir@ == directory(root@, id)),
        },
{
    let name = strip_slash(path);
    if sanitize(name.as_slice()).is_err() {
        return DeletePlan::Forbidden;
    }
    let mut slash: Vec<u8> = Vec::new();
    slash.push(SLASH);
    assert(slash@ =~= seq![SLASH]);
    match split_at_first(name.as_slice(), slash.as_slice()) {
        Some((id, _)) => {
            if check_upload_id(id.as_slice()) {
                DeletePlan::Remove(upload_directory(root, id.as_slice()))
            } else {
                DeletePlan::Missing
            }
        },
        None => DeletePlan::Missing,
    }
}

/// What is sent back after the upload named by `name` was removed.
pub open spec fn deleted_reply_spec(name: Seq<u8>) -> Seq<u8> {
    OK_HEAD.spec_bytes() + "Deleted \"".spec_bytes() + name + "\".\r\n".spec_bytes()
}

/// What is sent back where the upload named by `name` could not be removed.
pub open spec fn not_found_reply_spec(name: Seq<u8>) -> Seq<u8> {
    "HTTP/1.1 404 File not found\r\n\r\nFailed to delete \"".spec_bytes() + name
        + "\", this is likely because it doesn't exist.\r\n".spec_bytes()
}

/// What is sent back after a deletion: the confirmation where the directory
/// was removed, and the reply of a missing file in every other case, also
/// where the directory was gone already.
pub fn delete_reply(removed: bool, name: &[u8]) -> (reply: Vec<u8>)
    ensures
        reply@ == if removed {
            deleted_reply_spec(name@)
        } else {
            not_found_reply_spec(name@)
        },
{
    let mut reply: Vec<u8> = Vec::new();
    if removed {
        push_text(&mut reply, OK_HEAD);
        push_text(&mut reply, "Deleted \"");
        reply.extend_from_slice(name);
        push_text(&mut reply, "\".\r\n");
        assert(reply@ =~= deleted_reply_spec(name@));
    } else {
        push_text(&mut reply, "HTTP/1.1 404 File not found\r\n\r\nFailed to delete \"");
        reply.extend_from_slice(name);
        push_text(&mut reply, "\", this is likely because it doesn't exist.\r\n");
        assert(reply@ =~= not_found_reply_spec(name@));
    }
    reply
}

/// The bytes of the two fixed paths: `/files` and `files/`.
pub proof fn lemma_fixed_paths()
    ensures
        USAGE_PATH.spec_bytes() == seq![47u8, 102u8, 105u8, 108u8, 101u8, 115u8],
        STORE_PREFIX.spec_bytes() == seq![102u8, 105u8, 108u8, 101u8, 115u8, 47u8],
{
    broadcast use vstd::string::is_ascii_spec_bytes;

    assert(vstd::string::is_ascii(USAGE_PATH) && USAGE_PATH@.len() == 6) by {
        reveal_strlit("/files");
    }
    assert(vstd::string::is_ascii(STORE_PREFIX) && STORE_PREFIX@.len() == 6) by {
        reveal_strlit("files/");
    }
    assert(USAGE_PATH.spec_bytes() =~= seq![47u8, 102u8, 105u8, 108u8, 101u8, 115u8]) by {
        reveal_strlit("/files");
    }
    assert(STORE_PREFIX.spec_bytes() =~= seq![102u8, 105u8, 108u8, 101u8, 115u8, 47u8]) by {
        reveal_strlit("files/");
    }
}

/// A forbidden relative path holds at least one byte.
pub proof fn lemma_forbidden_not_empty(rel: Seq<u8>)
    requires
        forbidden(rel),
    ensures
        rel.len() > 0,
{
    if has_parent_segment(rel) {
        let from = choose|from: int| parent_segment_at(rel, from);
        assert(rel.len() >= 2);
    }
}

/// No handler takes a forbidden relative path. Whether it comes right after
/// the slash of an upload, a deletion or a download, or after `/files/` in a
/// download, the plan is the refusal, so that nothing on disk is opened,
/// made or removed.
pub proof fn lemma_forbidden_is_refused(rel: Seq<u8>)
    requires
        forbidden(rel),
    ensures
        forbidden(after_slash(seq![SLASH] + rel)),
        !asks_usage(seq![SLASH] + rel),
        get_forbidden(seq![SLASH] + rel),
        !asks_usage(seq![SLASH] + STORE_PREFIX.spec_bytes() + rel),
        get_forbidden(seq![SLASH] + STORE_PREFIX.spec_bytes() + rel),
{
    lemma_forbidden_not_empty(rel);
    lemma_fixed_paths();
    let usage = USAGE_PATH.spec_bytes();
    let prefix = STORE_PREFIX.spec_bytes();

    let direct = seq![SLASH] + rel;
    assert(direct.skip(1) =~= rel);
    assert(direct != seq![SLASH]) by {
        assert(direct.len() >= 2);
        assert(seq![SLASH].len() == 1);
    }
    assert(get_name(direct) == rel);
    let bare = usage.skip(1);
    assert(!forbidden(bare)) by {
        assert(forall|i: int| 0 <= i < 5 ==> bare[i] == usage[i + 1]);
        assert forall|from: int| !parent_segment_at(bare, from) by {
            if 0 <= from && from + 2 <= bare.len() {
                assert(bare[from] == usage[from + 1]);
            }
        }
        assert forall|i: int| 0 <= i < bare.len() implies bare[i] != TILDE && bare[i] != STAR by {
            assert(bare[i] == usage[i + 1]);
        }
    }
    assert(direct != usage) by {
        if direct == usage {
            assert(rel =~= bare);
        }
    }

    let full = seq![SLASH] + prefix + rel;
    assert(full.len() >= 8);
    assert(full != seq![SLASH]) by {
        assert(seq![SLASH].len() == 1);
    }
    assert(full.skip(1) =~= prefix + rel);
    assert((prefix + rel).subrange(0, prefix.len() as int) =~= prefix);
    assert(starts_with(prefix + rel, prefix));
    assert((prefix + rel).skip(prefix.len() as int) =~= rel);
    assert(stored_part(get_name(full)) == Some(rel));
}

/// The relative path of the file `name` of the upload `id`.
pub open spec fn upload_path(id: Seq<u8>, name: Seq<u8>) -> Seq<u8> {
    id + seq![SLASH] + name
}

/// A name that may be used stays usable behind an identifier.
pub proof fn lemma_upload_path_allowed(id: Seq<u8>, name: Seq<u8>)
    requires
        is_upload_id(id),
        !forbidden(name),
    ensures
        !forbidden(upload_path(id, name)),
        upload_path(id, name).contains(SLASH),
        forall|i: int| 0 <= i < id.len() ==> upload_path(id, name)[i] == id[i],
        upload_path(id, name).len() == id.len() + 1 + name.len(),
{
    let whole = upload_path(id, name);
    let shift = id.len() as int + 1;
    assert(whole[id.len() as int] == SLASH);
    assert(forall|i: int| 0 <= i < id.len() ==> whole[i] == id[i]);
    assert(forall|i: int| 0 <= i < name.len() ==> whole[shift + i] == name[i]);
    assert(forall|i: int| 0 <= i < id.len() ==> is_hex_digit(id[i]));
    if has_parent_segment(whole) {
        let from = choose|from: int| parent_segment_at(whole, from);
        if from < id.len() {
            assert(whole[from] == id[from]);
        }
        assert(from >= shift);
        assert(whole[from] == name[from - shift]);
        assert(whole[from + 1] == name[from + 1 - shift]);
        if from > shift {
            assert(whole[from - 1] == name[from - 1 - shift]);
        }
        if from + 2 < whole.len() {
            assert(whole[from + 2] == name[from + 2 - shift]);
        }
        assert(parent_segment_at(name, from - shift));
    }
    assert(whole[0] == id[0]);
    if whole.contains(TILDE) {
        let i = choose|i: int| 0 <= i < whole.len() && whole[i] == TILDE;
        if i < id.len() {
            assert(whole[i] == id[i]);
        } else {
            assert(whole[i] == name[i - shift]);
        }
    }
    if whole.contains(STAR) {
        let i = choose|i: int| 0 <= i < whole.len() && whole[i] == STAR;
        if i < id.len() {
            assert(whole[i] == id[i]);
        } else {
            assert(whole[i] == name[i - shift]);
        }
    }
}

/// The address that an upload is answered with leads back to its file. For
/// an upload `id` of a file `name`, a download of `/<id>/<name>` and one of
/// `/files/<id>/<name>` are both planned as the sending of a stored file,
/// and that file is the one the upload was written to.
pub proof fn lemma_download_finds_upload(root: Seq<u8>, id: Seq<u8>, name: Seq<u8>)
    requires
        is_upload_id(id),
        !forbidden(name),
    ensures
        ({
            let short = seq![SLASH] + upload_path(id, name);
            let long = seq![SLASH] + STORE_PREFIX.spec_bytes() + upload_path(id, name);
            &&& !asks_usage(short) && !get_forbidden(short)
            &&& stored_part(get_name(short)) == Some(upload_path(id, name))
            &&& !asks_usage(long) && !get_forbidden(long)
            &&& stored_part(get_name(long)) == Some(upload_path(id, name))
            &&& below(root, upload_path(id, name)) == location(root, id, name)
        }),
{
    let rel = upload_path(id, name);
    lemma_upload_path_allowed(id, name);
    lemma_fixed_paths();
    let usage = USAGE_PATH.spec_bytes();
    let prefix = STORE_PREFIX.spec_bytes();

    let short = seq![SLASH] + rel;
    assert(short.len() >= 8);
    assert(seq![SLASH].len() == 1);
    assert(short.skip(1) =~= rel);
    assert(get_name(short) == rel);
    assert(!starts_with(rel, prefix)) by {
        if starts_with(rel, prefix) {
            assert(rel.subrange(0, 6)[1] == prefix[1]);
            assert(rel[1] == id[1]);
            assert(is_hex_digit(id[1]));
        }
    }

    let long = seq![SLASH] + prefix + rel;
    assert(long.len() >= 14);
    assert(long.skip(1) =~= prefix + rel);
    let full = prefix + rel;
    assert(get_name(long) == full);
    assert(full.subrange(0, prefix.len() as int) =~= prefix);
    assert(starts_with(full, prefix));
    assert(full.skip(prefix.len() as int) =~= rel);
    assert(!forbidden(full)) by {
        assert(forall|i: int| 0 <= i < 6 ==> full[i] == prefix[i]);
        assert(forall|i: int| 0 <= i < rel.len() ==> full[6 + i] == rel[i]);
        if has_parent_segment(full) {
            let from = choose|from: int| parent_segment_at(full, from);
            if from < 6 {
                assert(full[from] == prefix[from]);
            }
            assert(from >= 6);
            assert(full[from] == rel[from - 6]);
            assert(full[from + 1] == rel[from + 1 - 6]);
            if from > 6 {
                assert(full[from - 1] == rel[from - 1 - 6]);
            } else {
                assert(rel[0] == id[0]);
                assert(is_hex_digit(id[0]));
            }
            if from + 2 < full.len() {
                assert(full[from + 2] == rel[from + 2 - 6]);
            }
            if from > 6 {
                assert(parent_segment_at(rel, from - 6));
            }
        }
        assert(full[0] == prefix[0]);
        if full.contains(TILDE) {
            let i = choose|i: int| 0 <= i < full.len() && full[i] == TILDE;
            if i < 6 {
                assert(full[i] == prefix[i]);
            } else {
                assert(full[i] == rel[i - 6]);
                assert(rel.contains(TILDE));
            }
        }
        if full.contains(STAR) {
            let i = choose|i: int| 0 <= i < full.len() && full[i] == STAR;
            if i < 6 {
                assert(full[i] == prefix[i]);
            } else {
                assert(full[i] == rel[i - 6]);
                assert(rel.contains(STAR));
            }
        }
    }
    assert(below(root, rel) =~= location(root, id, name));
}

/// A deletion of `/<id>/<name>` is planned as the removal of the directory
/// that the upload `id` was stored in.
pub proof fn lemma_delete_finds_upload(id: Seq<u8>, name: Seq<u8>)
    requires
        is_upload_id(id),
        !forbidden(name),
    ensures
        !forbidden(after_slash(seq![SLASH] + upload_path(id, name))),
        delete_id(after_slash(seq![SLASH] + upload_path(id, name))) == Some(id),
{
    let rel = upload_path(id, name);
    let slash = seq![SLASH];
    lemma_upload_path_allowed(id, name);
    assert((slash + rel).skip(1) =~= rel);
    assert(after_slash(slash + rel) == rel);
    let at = id.len() as int;
    assert(rel.subrange(at, at + 1) =~= slash);
    assert(occurs_at(rel, slash, at));
    assert forall|earlier: int| 0 <= earlier < at implies !occurs_at(
        rel,
        slash,
        earlier,
    ) by {
        if occurs_at(rel, slash, earlier) {
            assert(rel.subrange(earlier, earlier + 1)[0] == slash[0]);
            assert(rel[earlier] == id[earlier]);
            assert(is_hex_digit(id[earlier]));
        }
    }
    assert(first_occurrence(rel, slash, at));
    lemma_split_once_at(rel, slash, at);
    assert(rel.subrange(0, at) =~= id);
}

} // verus!
