//! Files that are uploaded, served and ingested, and who may see them.

use vstd::prelude::*;
use vstd::utf8::{decode_utf8, encode_utf8, valid_utf8};

use crate::address::{parse_address, scheme_of};
use crate::auth::{sha256_of, strong_hash, strong_hash_hex};
use crate::codec::hashable;
use crate::h3::{read_text, text_of_bytes};
use crate::ids::{is_hex_digit, lemma_hex_digits};
use crate::json::{Fields, Json, JsonView};
use crate::ogg::push_all;
use crate::response::{invalid_field, invalid_field_view, ok, ok_view, Reply, ReplyView};
use crate::text::{
    after_last, chars_of, contains, contains_char, ends_with, has_prefix, has_suffix, lowered,
    occurs, occurs_at, opt_str, opt_text, owned, same, split, split_on, starts_with, tail_after_last, texts,
    to_lower, trim, trimmed,
};

verus! {

// ------------------------------------------------------------- the names
/// Whether a file has the name of a video.
pub open spec fn video_named(filename: Seq<char>) -> bool {
    match after_last(filename, '.') {
        Some(ext) => {
            let e = lowered(ext);
            e == "mp4"@ || e == "webm"@ || e == "mov"@ || e == "avi"@
        },
        None => false,
    }
}

/// Whether a file has the name of a video.
pub fn allowed_served_file_extension(filename: &str) -> (r: bool)
    ensures
        r == video_named(filename@),
{
    match tail_after_last(filename, '.') {
        Some(ext) => {
            let e = to_lower(ext.as_str());
            same(e.as_str(), "mp4") || same(e.as_str(), "webm") || same(e.as_str(), "mov") || same(
                e.as_str(),
                "avi",
            )
        },
        None => false,
    }
}

/// What stands before the names of a caller's uploads.
pub open spec fn owner_prefix(principal: Seq<char>) -> Seq<char> {
    if principal != "public"@ && has_prefix(principal, "api-key:"@) {
        strong_hash(principal) + "__"@
    } else {
        "public__"@
    }
}

/// What stands before the names of a caller's uploads: callers without a key
/// share one space of names, callers with a key have one each.
pub fn upload_owner_prefix_from_principal(principal: &str) -> (r: String)
    requires
        hashable(encode_utf8(principal@)),
    ensures
        r@ == owner_prefix(principal@),
{
    if !same(principal, "public") && starts_with(principal, "api-key:") {
        let mut out = strong_hash_hex(principal);
        out.push_str("__");
        out
    } else {
        owned("public__")
    }
}

/// Whether a caller may see an upload: it is one of their own, or nobody's and
/// the caller has no key.
pub open spec fn name_visible(
    filename: Seq<char>,
    principal: Seq<char>,
    prefix: Seq<char>,
) -> bool {
    has_prefix(filename, prefix) || (principal == "public"@ && !occurs(filename, "__"@))
}

/// Whether a caller may see an upload.
pub fn filename_is_visible_to_principal(
    filename: &str,
    principal: &str,
    owner_prefix: &str,
) -> (r: bool)
    ensures
        r == name_visible(filename@, principal@, owner_prefix@),
{
    starts_with(filename, owner_prefix) || (same(principal, "public") && !contains(filename, "__"))
}

// ------------------------------------------------------------ the places
/// The directories that files are taken from: the one of uploads first, where
/// there is one.
pub open spec fn all_roots(upload_root: Option<Seq<char>>, roots: Seq<Seq<char>>) -> Seq<
    Seq<char>,
> {
    match upload_root {
        Some(root) => seq![root] + roots,
        None => roots,
    }
}

/// The directories that files are taken from.
pub fn ingest_file_roots_with_upload_root(
    upload_root: &Option<String>,
    roots: &Vec<String>,
) -> (r: Vec<String>)
    ensures
        texts(r@) == all_roots(opt_text(*upload_root), texts(roots@)),
{
    let mut out: Vec<String> = Vec::new();
    match upload_root {
        Some(root) => out.push(owned(root.as_str())),
        None => {},
    }
    let ghost head = texts(out@);
    let mut i: usize = 0;
    assert(texts(out@) =~= head + texts(roots@).take(0));
    while i < roots.len()
        invariant
            i <= roots@.len(),
            texts(out@) == head + texts(roots@).take(i as int),
        decreases roots@.len() - i,
    {
        let ghost before = texts(out@);
        out.push(owned(roots[i].as_str()));
        assert(texts(out@) =~= before.push(roots@[i as int]@));
        assert(head + texts(roots@).take(i + 1) =~= before.push(roots@[i as int]@));
        i += 1;
    }
    assert(texts(roots@).take(i as int) =~= texts(roots@));
    assert(texts(out@) =~= all_roots(opt_text(*upload_root), texts(roots@)));
    out
}

/// The directories that files are served from: the same.
pub fn file_serve_roots(upload_root: &Option<String>, roots: &Vec<String>) -> (r: Vec<String>)
    ensures
        texts(r@) == all_roots(opt_text(*upload_root), texts(roots@)),
{
    ingest_file_roots_with_upload_root(upload_root, roots)
}

/// What stands between the parts of a path.
pub const SLASH: u8 = 47;

/// A file that was found under a name.
#[derive(Debug)]
pub struct FoundFile {
    /// Where it really is lies in the directory that it was looked for in.
    pub inside_root: bool,
    /// Where it really is lies among the uploads.
    pub inside_uploads: bool,
    /// Its real name, where the path that was asked for leads to a file itself
    /// and not to a link.
    pub regular_name: Option<String>,
}

/// A path lies in a directory, or is the directory. Both are in canonical form:
/// from the root on, with one slash between two parts and none at the end.
pub open spec fn lies_in(path: Seq<u8>, root: Seq<u8>) -> bool {
    &&& root.len() > 0
    &&& root.is_prefix_of(path)
    &&& path.len() == root.len() || root.last() == SLASH || path[root.len() as int] == SLASH
}

/// Whether a path lies in a directory.
pub fn is_inside(path: &[u8], root: &[u8]) -> (r: bool)
    ensures
        r == lies_in(path@, root@),
{
    let n: usize = root.len();
    if n == 0 || path.len() < n {
        return false;
    }
    let mut i: usize = 0;
    while i < n
        invariant
            n == root@.len(),
            n <= path@.len(),
            i <= n,
            forall|k: int| 0 <= k < i ==> #[trigger] root@[k] == path@[k],
        decreases n - i,
    {
        if root[i] != path[i] {
            return false;
        }
        i += 1;
    }
    assert(root@ =~= path@.subrange(0, n as int));
    path.len() == n || root[n - 1] == SLASH || path[n] == SLASH
}

/// What follows the last slash of a path.
pub open spec fn last_part(path: Seq<u8>) -> Seq<u8>
    decreases path.len(),
{
    if path.len() == 0 || path.last() == SLASH {
        Seq::empty()
    } else {
        last_part(path.drop_last()).push(path.last())
    }
}

fn tail_of(path: &[u8]) -> (r: Vec<u8>)
    ensures
        r@ == last_part(path@),
{
    let mut from: usize = path.len();
    assert(path@.take(from as int) =~= path@);
    assert(path@.subrange(from as int, path@.len() as int) =~= Seq::empty());
    assert(last_part(path@) =~= last_part(path@.take(from as int)) + path@.subrange(
        from as int,
        path@.len() as int,
    ));
    while from > 0 && path[from - 1] != SLASH
        invariant
            from <= path@.len(),
            last_part(path@) == last_part(path@.take(from as int)) + path@.subrange(
                from as int,
                path@.len() as int,
            ),
        decreases from,
    {
        let ghost longer = path@.take(from as int);
        assert(longer.drop_last() =~= path@.take(from - 1));
        assert(last_part(longer) == last_part(path@.take(from - 1)).push(path@[from - 1]));
        assert(path@.subrange(from - 1, path@.len() as int) =~= seq![path@[from - 1]]
            + path@.subrange(from as int, path@.len() as int));
        from -= 1;
        assert(last_part(path@) =~= last_part(path@.take(from as int)) + path@.subrange(
            from as int,
            path@.len() as int,
        ));
    }
    let mut out: Vec<u8> = Vec::new();
    let mut i: usize = from;
    while i < path.len()
        invariant
            from <= i <= path@.len(),
            out@ == path@.subrange(from as int, i as int),
        decreases path@.len() - i,
    {
        out.push(path[i]);
        i += 1;
    }
    assert(last_part(path@.take(from as int)) =~= Seq::empty());
    assert(out@ =~= last_part(path@));
    out
}

/// A file that was found: `canonical` is where it really is, `root` the
/// directory that it was looked for in and `uploads` that of the uploads, all in
/// canonical form. `is_regular` says whether the path that was asked for leads
/// to a file itself.
pub fn found_file(
    canonical: &[u8],
    root: &[u8],
    uploads: Option<&[u8]>,
    is_regular: bool,
) -> (r: FoundFile)
    ensures
        r.inside_root == lies_in(canonical@, root@),
        r.inside_uploads == (uploads is Some && lies_in(canonical@, uploads->0@)),
        opt_text(r.regular_name) == if is_regular {
            text_of_bytes(last_part(canonical@))
        } else {
            None
        },
{
    let regular_name = if is_regular {
        read_text(tail_of(canonical).as_slice())
    } else {
        None
    };
    FoundFile {
        inside_root: is_inside(canonical, root),
        inside_uploads: match uploads {
            Some(dir) => is_inside(canonical, dir),
            None => false,
        },
        regular_name,
    }
}

/// Where the first directory stands that a path lies in; the number of
/// directories where there is none.
pub open spec fn first_root(path: Seq<u8>, roots: Seq<Seq<char>>, i: int) -> int
    decreases roots.len() - i,
{
    if i >= roots.len() || lies_in(path, encode_utf8(roots[i])) {
        i
    } else {
        first_root(path, roots, i + 1)
    }
}

/// The first directory that a path lies in.
pub fn root_of(path: &[u8], roots: &Vec<String>) -> (r: Option<usize>)
    ensures
        match r {
            Some(i) => i < roots@.len() && i == first_root(path@, texts(roots@), 0),
            None => first_root(path@, texts(roots@), 0) >= roots@.len(),
        },
{
    let mut i: usize = 0;
    while i < roots.len()
        invariant
            i <= roots@.len(),
            first_root(path@, texts(roots@), 0) == first_root(path@, texts(roots@), i as int),
        decreases roots@.len() - i,
    {
        assert(texts(roots@)[i as int] == roots@[i as int]@);
        if is_inside(path, roots[i].as_str().as_bytes()) {
            return Some(i);
        }
        i += 1;
    }
    None
}

/// A caller may see a file among the uploads.
pub open spec fn upload_visible(
    regular_name: Option<Seq<char>>,
    principal: Seq<char>,
    prefix: Seq<char>,
) -> bool {
    match regular_name {
        Some(name) => name_visible(name, principal, prefix),
        None => false,
    }
}

/// A file is served: it does not lead out of its directory, and where it is an
/// upload the caller may see it.
pub open spec fn served(file: FoundFile, principal: Seq<char>, prefix: Seq<char>) -> bool {
    &&& file.inside_root
    &&& file.inside_uploads ==> upload_visible(opt_text(file.regular_name), principal, prefix)
}

fn may_see_upload(regular_name: &Option<String>, principal: &str, prefix: &str) -> (r: bool)
    ensures
        r == upload_visible(opt_text(*regular_name), principal@, prefix@),
{
    match regular_name {
        Some(name) => filename_is_visible_to_principal(name.as_str(), principal, prefix),
        None => false,
    }
}

/// Whether a file is served to a caller.
pub fn may_serve(file: &FoundFile, principal: &str, prefix: &str) -> (r: bool)
    ensures
        r == served(*file, principal@, prefix@),
{
    file.inside_root && (!file.inside_uploads || may_see_upload(
        &file.regular_name,
        principal,
        prefix,
    ))
}

/// What is said of a name that no file is served under.
pub open spec fn name_problem(filename: Seq<char>) -> Option<Seq<char>> {
    if filename.contains('/') || filename.contains('\\') || occurs(filename, ".."@) {
        Some("invalid filename"@)
    } else if !video_named(filename) {
        Some("unsupported file type"@)
    } else {
        None
    }
}

/// What is said of a name that no file is served under: one that leads
/// somewhere else, or that is no video's.
pub fn check_served_name(filename: &str) -> (r: Option<&'static str>)
    ensures
        opt_str(r) == name_problem(filename@),
{
    if contains_char(filename, '/') || contains_char(filename, '\\') || contains(filename, "..") {
        Some("invalid filename")
    } else if !allowed_served_file_extension(filename) {
        Some("unsupported file type")
    } else {
        None
    }
}

/// The media type of a file, by its name.
pub open spec fn media_type(filename: Seq<char>) -> Seq<char> {
    if has_suffix(filename, ".mp4"@) {
        "video/mp4"@
    } else if has_suffix(filename, ".webm"@) {
        "video/webm"@
    } else if has_suffix(filename, ".mov"@) {
        "video/quicktime"@
    } else if has_suffix(filename, ".avi"@) {
        "video/x-msvideo"@
    } else {
        "application/octet-stream"@
    }
}

/// The media type of a file, by its name.
pub fn media_type_of(filename: &str) -> (r: &'static str)
    ensures
        r@ == media_type(filename@),
{
    if ends_with(filename, ".mp4") {
        "video/mp4"
    } else if ends_with(filename, ".webm") {
        "video/webm"
    } else if ends_with(filename, ".mov") {
        "video/quicktime"
    } else if ends_with(filename, ".avi") {
        "video/x-msvideo"
    } else {
        "application/octet-stream"
    }
}

/// How a request for a file is answered.
#[derive(Debug, PartialEq, Eq)]
pub enum ServeAnswer {
    /// The status 400 with this text.
    Refused(&'static str),
    /// The file that stands at this place, with this media type.
    File(usize, &'static str),
    /// The status 404.
    NotFound,
}

/// Where the first file stands that is served, from `i` on; the number of files
/// where none is.
pub open spec fn first_served(
    files: Seq<FoundFile>,
    principal: Seq<char>,
    prefix: Seq<char>,
    i: int,
) -> int
    decreases files.len() - i,
{
    if i >= files.len() || served(files[i], principal, prefix) {
        i
    } else {
        first_served(files, principal, prefix, i + 1)
    }
}

/// Answers a request for a file. `files` are those that were found under its
/// name and can be read, in the order of the directories.
pub fn serve_file(
    filename: &str,
    files: &Vec<FoundFile>,
    principal: &str,
    prefix: &str,
) -> (r: ServeAnswer)
    ensures
        match r {
            ServeAnswer::Refused(why) => name_problem(filename@) == Some(why@),
            ServeAnswer::File(at, mime) => {
                &&& name_problem(filename@) is None
                &&& at == first_served(files@, principal@, prefix@, 0)
                &&& at < files@.len()
                &&& mime@ == media_type(filename@)
            },
            ServeAnswer::NotFound => name_problem(filename@) is None && first_served(
                files@,
                principal@,
                prefix@,
                0,
            ) >= files@.len(),
        },
{
    match check_served_name(filename) {
        Some(why) => return ServeAnswer::Refused(why),
        None => {},
    }
    let mut i: usize = 0;
    while i < files.len()
        invariant
            name_problem(filename@) is None,
            i <= files@.len(),
            first_served(files@, principal@, prefix@, 0) == first_served(
                files@,
                principal@,
                prefix@,
                i as int,
            ),
        decreases files@.len() - i,
    {
        if may_serve(&files[i], principal, prefix) {
            return ServeAnswer::File(i, media_type_of(filename));
        }
        i += 1;
    }
    ServeAnswer::NotFound
}

// ------------------------------------------------------------ the source
/// What a source is: something other than a file, or a file that was looked up.
#[derive(Debug)]
pub enum SourceLookup {
    NotAFile,
    /// There is no such file.
    Missing,
    File(FoundFile),
}

/// The refusal of a source that is a file, where it is refused.
pub open spec fn source_refusal(
    request_id: Seq<char>,
    context: Seq<char>,
    source: SourceLookup,
    principal: Seq<char>,
    prefix: Seq<char>,
) -> Option<ReplyView> {
    match source {
        SourceLookup::NotAFile => None,
        SourceLookup::Missing => Some(
            invalid_field_view(
                request_id,
                context,
                "source_uri"@,
                "source_uri file path is invalid or does not exist"@,
            ),
        ),
        SourceLookup::File(file) => if file.inside_uploads && !upload_visible(
            opt_text(file.regular_name),
            principal,
            prefix,
        ) {
            Some(
                invalid_field_view(
                    request_id,
                    context,
                    "source_uri"@,
                    "source_uri file is not visible to the caller"@,
                ),
            )
        } else {
            None
        },
    }
}

/// Refuses a source that the caller may not see. Files outside of the uploads
/// are shared by all.
pub fn enforce_file_source_visibility(
    request_id: &str,
    context: &str,
    source: &SourceLookup,
    principal: &str,
    prefix: &str,
) -> (r: Option<Reply>)
    ensures
        match r {
            Some(reply) => source_refusal(request_id@, context@, *source, principal@, prefix@)
                == Some(reply@),
            None => source_refusal(request_id@, context@, *source, principal@, prefix@) is None,
        },
{
    match source {
        SourceLookup::NotAFile => None,
        SourceLookup::Missing => Some(
            invalid_field(
                request_id,
                context,
                "source_uri",
                owned("source_uri file path is invalid or does not exist"),
            ),
        ),
        SourceLookup::File(file) => if file.inside_uploads && !may_see_upload(
            &file.regular_name,
            principal,
            prefix,
        ) {
            Some(
                invalid_field(
                    request_id,
                    context,
                    "source_uri",
                    owned("source_uri file is not visible to the caller"),
                ),
            )
        } else {
            None
        },
    }
}

/// `reqwest::Url::parse` and then `Url::to_file_path`, in the bytes of
/// `OsString::into_encoded_bytes`. What a path looks like depends on the
/// machine, so nothing is claimed of it.
#[verifier::external_body]
fn url_file_path(text: &str) -> (r: Option<Vec<u8>>) {
    let path = reqwest::Url::parse(text).ok()?.to_file_path().ok()?;
    Some(path.into_os_string().into_encoded_bytes())
}

/// The bytes that may be there.
pub open spec fn opt_bytes(b: Option<Vec<u8>>) -> Option<Seq<u8>> {
    match b {
        Some(v) => Some(v@),
        None => None,
    }
}

/// The path that a source asks for, in its bytes: that of a file address, or
/// the text itself where it is no address.
pub open spec fn asked_path(
    source: Seq<char>,
    scheme: Option<Seq<char>>,
    file_path: Option<Seq<u8>>,
) -> Option<Seq<u8>> {
    let t = trimmed(source);
    if occurs(t, "://"@) {
        if scheme == Some("file"@) {
            file_path
        } else {
            None
        }
    } else {
        Some(encode_utf8(t))
    }
}

/// The path that a source asks for, by what its text was read as.
pub fn path_asked_for(
    source: &str,
    scheme: &Option<String>,
    file_path: Option<Vec<u8>>,
) -> (r: Option<Vec<u8>>)
    ensures
        opt_bytes(r) == asked_path(source@, opt_text(*scheme), opt_bytes(file_path)),
{
    let t = trim(source);
    if !contains(t.as_str(), "://") {
        let mut path: Vec<u8> = Vec::new();
        push_all(&mut path, t.as_str().as_bytes());
        assert(path@ =~= encode_utf8(t@));
        return Some(path);
    }
    match scheme {
        Some(s) => if same(s.as_str(), "file") {
            file_path
        } else {
            None
        },
        None => None,
    }
}

/// The path that a source asks for, in its bytes. Of a file address the path is
/// the machine's.
pub fn requested_file_path_for_visibility(source_uri: &str) -> (r: Option<Vec<u8>>)
    ensures
        exists|file_path: Option<Seq<u8>>|
            opt_bytes(r) == #[trigger] asked_path(
                source_uri@,
                scheme_of(trimmed(source_uri@)),
                file_path,
            ),
{
    let t = trim(source_uri);
    let scheme = parse_address(t.as_str()).ok();
    let file_path = url_file_path(t.as_str());
    let ghost told = opt_bytes(file_path);
    let r = path_asked_for(source_uri, &scheme, file_path);
    assert(opt_bytes(r) == asked_path(source_uri@, scheme_of(trimmed(source_uri@)), told));
    r
}

// ----------------------------------------------------------- the uploads
/// What `char::is_alphanumeric` of std says of a character outside ASCII.
pub uninterp spec fn wide_alphanumeric(c: char) -> bool;

/// A letter or a digit.
pub open spec fn alphanumeric(c: char) -> bool {
    if (c as u32) < 128 {
        ('0' <= c && c <= '9') || ('a' <= c && c <= 'z') || ('A' <= c && c <= 'Z')
    } else {
        wide_alphanumeric(c)
    }
}

/// `char::is_alphanumeric` of std: the letters and digits of ASCII, and outside
/// of ASCII what Unicode's tables say.
#[verifier::external_body]
fn is_alphanumeric(c: char) -> (r: bool)
    ensures
        r == if (c as u32) < 128 {
            ('0' <= c && c <= '9') || ('a' <= c && c <= 'z') || ('A' <= c && c <= 'Z')
        } else {
            wide_alphanumeric(c)
        },
{
    c.is_alphanumeric()
}

/// A character that stays in the name of an upload.
pub open spec fn safe_char(c: char) -> bool {
    alphanumeric(c) || c == '.' || c == '-' || c == '_'
}

/// The characters of a name that stay.
pub open spec fn safe_chars(s: Seq<char>) -> Seq<char>
    decreases s.len(),
{
    if s.len() == 0 {
        s
    } else {
        let before = safe_chars(s.drop_last());
        if safe_char(s.last()) {
            before.push(s.last())
        } else {
            before
        }
    }
}

/// The name of an upload, made safe.
pub open spec fn safe_name(raw: Seq<char>) -> Seq<char> {
    let kept = safe_chars(raw);
    if kept.len() == 0 {
        "upload"@
    } else {
        kept
    }
}

/// The name of an upload, made safe.
pub fn sanitized_name(raw: &str) -> (r: String)
    ensures
        r@ == safe_name(raw@),
{
    let chars = chars_of(raw);
    let mut out = String::new();
    let mut i: usize = 0;
    assert(chars@.take(0) =~= Seq::empty());
    while i < chars.len()
        invariant
            chars@ == raw@,
            i <= chars@.len(),
            out@ == safe_chars(chars@.take(i as int)),
        decreases chars@.len() - i,
    {
        let c: char = chars[i];
        assert(chars@.take(i + 1).drop_last() =~= chars@.take(i as int));
        if is_alphanumeric(c) || c == '.' || c == '-' || c == '_' {
            out.push(c);
        }
        i += 1;
    }
    assert(chars@.take(i as int) =~= chars@);
    if out.as_str().is_empty() {
        owned("upload")
    } else {
        out
    }
}

/// The name that an upload came with.
pub open spec fn uploaded_as(name: Option<Seq<char>>) -> Seq<char> {
    match name {
        Some(n) => n,
        None => "upload"@,
    }
}

/// The name that an upload is kept under: the caller's prefix and then the name
/// that it came with, made safe. One that is no video's is refused.
pub fn upload_file(request_id: &str, file_name: Option<&str>, prefix: &str) -> (r: Result<
    String,
    Reply,
>)
    ensures
        ({
            let name = safe_name(uploaded_as(opt_str(file_name)));
            match r {
                Ok(kept) => video_named(name) && kept@ == prefix@ + name,
                Err(reply) => !video_named(name) && reply@ == invalid_field_view(
                    request_id@,
                    "invalid upload request"@,
                    "file"@,
                    "unsupported file type"@,
                ),
            }
        }),
{
    let name = match file_name {
        Some(n) => sanitized_name(n),
        None => sanitized_name("upload"),
    };
    if !allowed_served_file_extension(name.as_str()) {
        return Err(
            invalid_field(
                request_id,
                "invalid upload request",
                "file",
                owned("unsupported file type"),
            ),
        );
    }
    let mut out = owned(prefix);
    out.push_str(name.as_str());
    Ok(out)
}

/// The reply to an upload without a file.
pub fn upload_without_file(request_id: &str) -> (r: Reply)
    ensures
        r@ == invalid_field_view(
            request_id@,
            "upload request missing file field"@,
            "file"@,
            "no file field found in multipart form"@,
        ),
{
    invalid_field(
        request_id,
        "upload request missing file field",
        "file",
        owned("no file field found in multipart form"),
    )
}

/// A space, a tab, a new line, a form feed or a carriage return.
pub open spec fn blank_byte(b: u8) -> bool {
    b == 32 || b == 9 || b == 10 || b == 12 || b == 13
}

/// Where the first byte that is not blank stands, from `i` on.
pub open spec fn past_blanks(data: Seq<u8>, i: int) -> int
    decreases data.len() - i,
{
    if i >= data.len() || !blank_byte(data[i]) {
        i
    } else {
        past_blanks(data, i + 1)
    }
}

/// A letter in lower case.
pub open spec fn lower_byte(b: u8) -> u8 {
    if 65 <= b <= 90 {
        (b + 32) as u8
    } else {
        b
    }
}

/// The head of a playlist, in lower case.
pub open spec fn playlist_head() -> Seq<u8> {
    seq![35u8, 101, 120, 116, 109, 51, 117]
}

/// Some bytes begin as a playlist does: behind blanks, `#EXTM3U` in upper or
/// lower case.
pub open spec fn is_playlist(data: Seq<u8>) -> bool {
    let at = past_blanks(data, 0);
    at + 7 <= data.len() && data.subrange(at, at + 7).map_values(|b: u8| lower_byte(b))
        == playlist_head()
}

fn lower_of(b: u8) -> (r: u8)
    ensures
        r == lower_byte(b),
{
    if 65 <= b && b <= 90 {
        b + 32
    } else {
        b
    }
}

/// Whether some bytes begin as a playlist does.
pub fn looks_like_playlist(data: &[u8]) -> (r: bool)
    ensures
        r == is_playlist(data@),
{
    let n: usize = data.len();
    let mut at: usize = 0;
    while at < n && (data[at] == 32 || data[at] == 9 || data[at] == 10 || data[at] == 12 || data[at]
        == 13)
        invariant
            n == data@.len(),
            at <= n,
            past_blanks(data@, 0) == past_blanks(data@, at as int),
        ensures
            at <= n,
            at == past_blanks(data@, 0),
        decreases n - at,
    {
        at += 1;
    }
    if n - at < 7 {
        return false;
    }
    let r = lower_of(data[at]) == 35 && lower_of(data[at + 1]) == 101 && lower_of(data[at + 2])
        == 120 && lower_of(data[at + 3]) == 116 && lower_of(data[at + 4]) == 109 && lower_of(
        data[at + 5],
    ) == 51 && lower_of(data[at + 6]) == 117;
    proof {
        let low = data@.subrange(at as int, at + 7).map_values(|b: u8| lower_byte(b));
        if r {
            assert(low =~= playlist_head());
        } else {
            assert(low[0] == lower_byte(data@[at as int]));
            assert(low[1] == lower_byte(data@[at + 1]));
            assert(low[2] == lower_byte(data@[at + 2]));
            assert(low[3] == lower_byte(data@[at + 3]));
            assert(low[4] == lower_byte(data@[at + 4]));
            assert(low[5] == lower_byte(data@[at + 5]));
            assert(low[6] == lower_byte(data@[at + 6]));
        }
    }
    r
}

/// What `String::from_utf8_lossy` of std makes of some bytes.
pub uninterp spec fn lossy_text(bytes: Seq<u8>) -> Seq<char>;

/// `String::from_utf8_lossy` of std: a function of the bytes alone, and their
/// text where they are valid UTF-8. What becomes of other bytes is not spelled
/// out.
#[verifier::external_body]
pub(crate) fn text_from_bytes(bytes: &[u8]) -> (r: String)
    ensures
        r@ == lossy_text(bytes@),
        valid_utf8(bytes@) ==> r@ == decode_utf8(bytes@),
{
    String::from_utf8_lossy(bytes).into_owned()
}

/// What came of the inspection of an upload.
#[derive(Debug)]
pub enum ProbeOutcome {
    /// The inspection ended, well or not, and wrote this.
    Ended(bool, Vec<u8>),
    /// The inspection could not be made.
    Failed,
    TimedOut,
}

/// What is said of an upload that is a playlist.
pub const PLAYLIST_PROBLEM: &'static str =
    "uploaded file must be a media container, not a playlist manifest";

/// A format that stands for a playlist is among some formats.
pub open spec fn names_playlist(formats: Seq<Seq<char>>) -> bool {
    exists|i: int|
        0 <= i < formats.len() && (#[trigger] formats[i] == "hls"@ || formats[i] == "concat"@)
}

/// What is said of an upload for the text that its inspection wrote.
pub open spec fn format_problem(text: Seq<char>) -> Option<Seq<char>> {
    let format = lowered(trimmed(text));
    if format.len() == 0 {
        Some("uploaded file must declare a media container format"@)
    } else if names_playlist(split_on(format, ',')) {
        Some(PLAYLIST_PROBLEM@)
    } else {
        None
    }
}

/// What is said of an upload for the text that its inspection wrote.
pub fn judge_format(text: &str) -> (r: Option<&'static str>)
    ensures
        opt_str(r) == format_problem(text@),
{
    let format = to_lower(trim(text).as_str());
    if format.as_str().is_empty() {
        return Some("uploaded file must declare a media container format");
    }
    let names = split(format.as_str(), ',');
    let ghost all = split_on(format@, ',');
    let mut i: usize = 0;
    while i < names.len()
        invariant
            format@ == lowered(trimmed(text@)),
            format@.len() > 0,
            all == split_on(format@, ','),
            all == texts(names@),
            i <= names@.len(),
            forall|k: int| 0 <= k < i ==> #[trigger] all[k] != "hls"@ && all[k] != "concat"@,
        decreases names@.len() - i,
    {
        assert(all[i as int] == names@[i as int]@);
        if same(names[i].as_str(), "hls") || same(names[i].as_str(), "concat") {
            return Some(PLAYLIST_PROBLEM);
        }
        i += 1;
    }
    None
}

/// What is said of an upload that is no media container, by its first bytes and
/// by what its inspection came to.
pub open spec fn upload_problem(data: Seq<u8>, probe: ProbeOutcome) -> Option<Seq<char>> {
    if is_playlist(data) {
        Some(PLAYLIST_PROBLEM@)
    } else {
        match probe {
            ProbeOutcome::Failed => Some("failed to inspect uploaded media"@),
            ProbeOutcome::TimedOut => Some("uploaded media inspection timed out"@),
            ProbeOutcome::Ended(well, written) => if !well {
                Some("uploaded file must be a valid media container"@)
            } else {
                format_problem(lossy_text(written@))
            },
        }
    }
}

/// What is said of an upload that is no media container.
pub fn validate_uploaded_media_container(data: &[u8], probe: &ProbeOutcome) -> (r: Option<
    &'static str,
>)
    ensures
        opt_str(r) == upload_problem(data@, *probe),
{
    if looks_like_playlist(data) {
        return Some(PLAYLIST_PROBLEM);
    }
    match probe {
        ProbeOutcome::Failed => Some("failed to inspect uploaded media"),
        ProbeOutcome::TimedOut => Some("uploaded media inspection timed out"),
        ProbeOutcome::Ended(well, written) => if !*well {
            Some("uploaded file must be a valid media container")
        } else {
            judge_format(text_from_bytes(written.as_slice()).as_str())
        },
    }
}

/// The reply to an upload that was kept or that was refused for its content.
pub fn upload_reply(request_id: &str, file_path: &str, problem: Option<&'static str>) -> (r: Reply)
    ensures
        r@ == match problem {
            Some(why) => invalid_field_view(
                request_id@,
                "invalid upload request"@,
                "file"@,
                why@,
            ),
            None => ok_view(
                JsonView::Object(seq![("file_path"@, JsonView::Text(file_path@))]),
            ),
        },
{
    match problem {
        Some(why) => invalid_field(request_id, "invalid upload request", "file", owned(why)),
        None => {
            let mut o = Fields::new();
            o.put("file_path", Json::text(file_path));
            assert(o@ =~= seq![("file_path"@, JsonView::Text(file_path@))]);
            ok(o.object())
        },
    }
}

// ------------------------------------------------------------------ laws
/// The name of an upload holds no path: neither a slash nor a backslash stays.
pub proof fn safe_names_hold_no_path(raw: Seq<char>)
    ensures
        !safe_name(raw).contains('/'),
        !safe_name(raw).contains('\\'),
{
    lemma_safe_chars(raw);
    reveal_strlit("upload");
}

proof fn lemma_safe_chars(s: Seq<char>)
    ensures
        forall|i: int| 0 <= i < safe_chars(s).len() ==> safe_char(#[trigger] safe_chars(s)[i]),
    decreases s.len(),
{
    if s.len() > 0 {
        let before = safe_chars(s.drop_last());
        lemma_safe_chars(s.drop_last());
        assert forall|i: int| 0 <= i < safe_chars(s).len() implies safe_char(
            #[trigger] safe_chars(s)[i],
        ) by {
            if i < before.len() {
                assert(safe_chars(s)[i] == before[i]);
            }
        }
    }
}

/// A caller sees what they upload: the name that an upload is kept under is
/// visible under the prefix that it got.
pub proof fn callers_see_their_uploads(name: Seq<char>, principal: Seq<char>)
    ensures
        name_visible(owner_prefix(principal) + name, principal, owner_prefix(principal)),
{
    let prefix = owner_prefix(principal);
    let kept = prefix + name;
    assert(kept.subrange(0, prefix.len() as int) =~= prefix);
}

proof fn lemma_keyed_prefix(principal: Seq<char>)
    requires
        has_prefix(principal, "api-key:"@),
    ensures
        principal != "public"@,
        owner_prefix(principal) == strong_hash(principal) + "__"@,
{
    reveal_strlit("api-key:");
    reveal_strlit("public");
    assert(principal[0] == 'a') by {
        assert(principal.subrange(0, "api-key:"@.len() as int)[0] == principal[0]);
    }
}

/// What begins with one hash and two underscores does not begin with another
/// hash and two underscores.
proof fn lemma_hashes_part(a: Seq<char>, b: Seq<char>, name: Seq<char>)
    requires
        forall|i: int| 0 <= i < a.len() ==> is_hex_digit(#[trigger] a[i]),
        forall|i: int| 0 <= i < b.len() ==> is_hex_digit(#[trigger] b[i]),
        a != b,
    ensures
        !has_prefix(a + "__"@ + name, b + "__"@),
{
    reveal_strlit("__");
    let kept = a + "__"@ + name;
    let theirs = b + "__"@;
    if has_prefix(kept, theirs) {
        let head = kept.subrange(0, theirs.len() as int);
        assert(head == theirs);
        if a.len() < b.len() {
            assert(kept[a.len() as int] == '_');
            assert(head[a.len() as int] == b[a.len() as int]);
            assert(is_hex_digit(b[a.len() as int]));
        } else if b.len() < a.len() {
            assert(theirs[b.len() as int] == '_');
            assert(head[b.len() as int] == kept[b.len() as int]);
            assert(kept[b.len() as int] == a[b.len() as int]);
            assert(is_hex_digit(a[b.len() as int]));
        } else {
            assert forall|i: int| 0 <= i < a.len() implies a[i] == b[i] by {
                assert(kept[i] == a[i]);
                assert(head[i] == theirs[i]);
            }
            assert(a =~= b);
        }
    }
}

/// An upload of a caller with a key is visible to this caller only: not to one
/// with a key of another hash, and not to the public.
pub proof fn keys_keep_uploads_apart(name: Seq<char>, owner: Seq<char>, other: Seq<char>)
    requires
        has_prefix(owner, "api-key:"@),
        has_prefix(other, "api-key:"@),
        strong_hash(owner) != strong_hash(other),
    ensures
        ({
            let kept = owner_prefix(owner) + name;
            &&& name_visible(kept, owner, owner_prefix(owner))
            &&& !name_visible(kept, other, owner_prefix(other))
            &&& !name_visible(kept, "public"@, owner_prefix("public"@))
        }),
{
    let a = strong_hash(owner);
    let b = strong_hash(other);
    let kept = a + "__"@ + name;
    callers_see_their_uploads(name, owner);
    lemma_keyed_prefix(owner);
    lemma_keyed_prefix(other);
    assert forall|i: int| 0 <= i < a.len() implies is_hex_digit(#[trigger] a[i]) by {
        lemma_hex_digits(sha256_of(encode_utf8(owner)), i);
    }
    assert forall|i: int| 0 <= i < b.len() implies is_hex_digit(#[trigger] b[i]) by {
        lemma_hex_digits(sha256_of(encode_utf8(other)), i);
    }
    lemma_hashes_part(a, b, name);
    reveal_strlit("__");
    reveal_strlit("public__");
    assert(!has_prefix(kept, "public__"@)) by {
        if has_prefix(kept, "public__"@) {
            assert(kept.subrange(0, 8)[0] == kept[0]);
            if a.len() > 0 {
                assert(kept[0] == a[0]);
                assert(is_hex_digit(a[0]));
            }
        }
    }
    assert(occurs(kept, "__"@)) by {
        let at = a.len() as int;
        assert(kept.subrange(at, at + 2) =~= "__"@);
        assert(occurs_at(kept, "__"@, at));
    }
}

/// No file is served that lies outside of the directory that it was looked for
/// in.
pub proof fn served_files_lie_in_their_root(
    file: FoundFile,
    canonical: Seq<u8>,
    root: Seq<u8>,
    principal: Seq<char>,
    prefix: Seq<char>,
)
    requires
        file.inside_root == lies_in(canonical, root),
        served(file, principal, prefix),
    ensures
        root.is_prefix_of(canonical),
        canonical.len() == root.len() || root.last() == SLASH || canonical[root.len() as int]
            == SLASH,
{
}

/// No upload is served, and none is a source, to a caller who may not see it.
pub proof fn hidden_uploads_stay_hidden(
    file: FoundFile,
    principal: Seq<char>,
    prefix: Seq<char>,
    request_id: Seq<char>,
    context: Seq<char>,
)
    requires
        file.inside_uploads,
        !upload_visible(opt_text(file.regular_name), principal, prefix),
    ensures
        !served(file, principal, prefix),
        source_refusal(request_id, context, SourceLookup::File(file), principal, prefix) is Some,
{
}

/// A name is told apart by its ending.
pub proof fn endings_tell_the_media(name: Seq<char>)
    ensures
        name.len() >= 4 && name.skip(name.len() - 4) == ".mp4"@ ==> media_type(name)
            == "video/mp4"@,
        name.len() >= 5 && name.skip(name.len() - 5) == ".webm"@ ==> media_type(name)
            == "video/webm"@,
        name.len() >= 4 && name.skip(name.len() - 4) == ".mov"@ ==> media_type(name)
            == "video/quicktime"@,
        name.len() >= 4 && name.skip(name.len() - 4) == ".avi"@ ==> media_type(name)
            == "video/x-msvideo"@,
        !(name.len() >= 4 && (name.skip(name.len() - 4) == ".mp4"@ || name.skip(name.len() - 4)
            == ".mov"@ || name.skip(name.len() - 4) == ".avi"@)) && !(name.len() >= 5 && name.skip(
            name.len() - 5,
        ) == ".webm"@) ==> media_type(name) == "application/octet-stream"@,
{
    reveal_strlit(".mp4");
    reveal_strlit(".webm");
    reveal_strlit(".mov");
    reveal_strlit(".avi");
    assert(".mp4"@.len() == 4);
    assert(".webm"@.len() == 5);
    assert(".mov"@.len() == 4);
    assert(".avi"@.len() == 4);
    assert(".mp4"@[2] == 'p' && ".mov"@[2] == 'o');
    assert(".mp4"@[1] == 'm' && ".avi"@[1] == 'a');
    assert(".mov"@[1] == 'm' && ".avi"@[1] == 'a');
    let n = name.len() as int;
    if n >= 4 {
        assert(name.skip(n - 4) =~= name.subrange(n - 4, n));
        assert(name.skip(n - 4)[3] == name[n - 1]);
    }
    if n >= 5 {
        assert(name.skip(n - 5) =~= name.subrange(n - 5, n));
        assert(name.skip(n - 5)[4] == name[n - 1]);
    }
    assert(".mp4"@[3] == '4' && ".webm"@[4] == 'm' && ".mov"@[3] == 'v' && ".avi"@[3] == 'i');
}

/// The file that is served is the first one that lies in its root and, where it
/// is an upload, may be seen by the caller; where there is none, none is.
pub proof fn the_first_visible_file_is_served(
    files: Seq<FoundFile>,
    principal: Seq<char>,
    prefix: Seq<char>,
    i: int,
)
    requires
        0 <= i <= files.len(),
    ensures
        ({
            let at = first_served(files, principal, prefix, i);
            &&& i <= at <= files.len()
            &&& at < files.len() ==> files[at].inside_root && (files[at].inside_uploads ==> (
            files[at].regular_name is Some && name_visible(
                files[at].regular_name->0@,
                principal,
                prefix,
            )))
            &&& forall|k: int|
                i <= k < at ==> !(#[trigger] files[k]).inside_root || files[k].inside_uploads && !(
                files[k].regular_name is Some && name_visible(
                    files[k].regular_name->0@,
                    principal,
                    prefix,
                ))
        }),
    decreases files.len() - i,
{
    if i < files.len() && !served(files[i], principal, prefix) {
        the_first_visible_file_is_served(files, principal, prefix, i + 1);
    }
}

/// The root of a path is the first one that is the path or a directory above it.
pub proof fn the_first_root_above_is_taken(path: Seq<u8>, roots: Seq<Seq<char>>, i: int)
    requires
        0 <= i <= roots.len(),
    ensures
        i <= first_root(path, roots, i) <= roots.len(),
        first_root(path, roots, i) < roots.len() ==> lies_in(
            path,
            encode_utf8(roots[first_root(path, roots, i)]),
        ),
        forall|k: int|
            i <= k < first_root(path, roots, i) ==> !lies_in(path, encode_utf8(#[trigger] roots[k])),
    decreases roots.len() - i,
{
    if i < roots.len() && !lies_in(path, encode_utf8(roots[i])) {
        the_first_root_above_is_taken(path, roots, i + 1);
    }
}

/// A path lies in a root exactly if it is the root, or goes on behind it with a
/// slash.
pub proof fn paths_in_a_root_go_on_with_a_slash(root: Seq<u8>, rest: Seq<u8>)
    requires
        root.len() > 0,
        root.last() != 47,
    ensures
        lies_in(root, root),
        rest.len() > 0 ==> (lies_in(root + rest, root) <==> rest[0] == 47),
{
    assert(root.is_prefix_of(root + rest)) by {
        assert((root + rest).take(root.len() as int) =~= root);
    }
    if rest.len() > 0 {
        assert((root + rest)[root.len() as int] == rest[0]);
    }
}

/// The last part of a path is what follows its last slash.
pub proof fn the_last_part_follows_the_last_slash(path: Seq<u8>)
    ensures
        ({
            let part = last_part(path);
            let at = path.len() - part.len();
            &&& 0 <= at
            &&& path.skip(at) == part
            &&& !part.contains(47)
            &&& at == 0 || path[at - 1] == 47
        }),
    decreases path.len(),
{
    let part = last_part(path);
    if path.len() > 0 && path.last() != SLASH {
        let rest = path.drop_last();
        let before = last_part(rest);
        the_last_part_follows_the_last_slash(rest);
        let at = rest.len() - before.len();
        assert(path.skip(at) =~= rest.skip(at).push(path.last()));
        assert(!part.contains(47)) by {
            if part.contains(47) {
                let k = choose|k: int| 0 <= k < part.len() && part[k] == 47;
                assert(k < before.len());
                assert(before[k] == 47);
            }
        }
        if at > 0 {
            assert(path[at - 1] == rest[at - 1]);
        }
    } else {
        assert(path.skip(path.len() as int) =~= Seq::<u8>::empty());
        assert(part =~= Seq::<u8>::empty());
        if path.len() > 0 {
            assert(path[path.len() - 1] == path.last());
        }
    }
}

/// A name is made safe character by character: letters, digits, points, hyphens
/// and underscores stay, everything else goes; a name of which nothing stays is
/// replaced.
pub proof fn unsafe_characters_go(s: Seq<char>, c: char)
    ensures
        ({
            let stays = alphanumeric(c) || c == '.' || c == '-' || c == '_';
            &&& safe_chars(Seq::empty()) == Seq::<char>::empty()
            &&& stays ==> safe_chars(s.push(c)) == safe_chars(s).push(c)
            &&& !stays ==> safe_chars(s.push(c)) == safe_chars(s)
            &&& (c as u32) < 128 ==> (alphanumeric(c) <==> 48 <= c as u32 <= 57 || 65 <= c as u32
                <= 90 || 97 <= c as u32 <= 122)
            &&& safe_chars(s).len() > 0 ==> safe_name(s) == safe_chars(s)
            &&& safe_chars(s).len() == 0 ==> safe_name(s) == "upload"@
        }),
{
    assert(s.push(c).drop_last() =~= s);
}

/// An upload is taken for a playlist exactly if it begins, behind blanks, with
/// the seven letters that playlists begin with, small or large.
pub proof fn playlists_are_known_by_their_head(data: Seq<u8>, at: int)
    requires
        0 <= at,
        at + 7 <= data.len(),
        forall|i: int|
            0 <= i < at ==> (#[trigger] data[i] == 32 || data[i] == 9 || data[i] == 10 || data[i]
                == 12 || data[i] == 13),
        !(data[at] == 32 || data[at] == 9 || data[at] == 10 || data[at] == 12 || data[at] == 13),
    ensures
        is_playlist(data) <==> {
            &&& data[at] == 35
            &&& data[at + 1] == 69 || data[at + 1] == 101
            &&& data[at + 2] == 88 || data[at + 2] == 120
            &&& data[at + 3] == 84 || data[at + 3] == 116
            &&& data[at + 4] == 77 || data[at + 4] == 109
            &&& data[at + 5] == 51
            &&& data[at + 6] == 85 || data[at + 6] == 117
        },
{
    lemma_past_blanks(data, 0, at);
    let head = data.subrange(at, at + 7).map_values(|b: u8| lower_byte(b));
    assert(head.len() == 7);
    assert(head[0] == lower_byte(data[at]) && head[1] == lower_byte(data[at + 1]) && head[2]
        == lower_byte(data[at + 2]) && head[3] == lower_byte(data[at + 3]) && head[4] == lower_byte(
        data[at + 4],
    ) && head[5] == lower_byte(data[at + 5]) && head[6] == lower_byte(data[at + 6]));
    let p = playlist_head();
    if is_playlist(data) {
        assert(head[0] == p[0] && head[1] == p[1] && head[2] == p[2] && head[3] == p[3] && head[4]
            == p[4] && head[5] == p[5] && head[6] == p[6]);
    } else {
        assert(!(head =~= p));
    }
}

proof fn lemma_past_blanks(data: Seq<u8>, i: int, at: int)
    requires
        0 <= i <= at < data.len(),
        forall|k: int| i <= k < at ==> blank_byte(#[trigger] data[k]),
        !blank_byte(data[at]),
    ensures
        past_blanks(data, i) == at,
    decreases at - i,
{
    if i < at {
        assert(blank_byte(data[i]));
        lemma_past_blanks(data, i + 1, at);
    }
}

/// An upload is taken exactly if it is no playlist and the probe ended well and
/// named a format, none of whose parts is a playlist's.
pub proof fn uploads_are_taken_once_probed(data: Seq<u8>, probe: ProbeOutcome)
    ensures
        upload_problem(data, probe) is None <==> {
            &&& !is_playlist(data)
            &&& probe matches ProbeOutcome::Ended(well, written) && well && {
                let format = lowered(trimmed(lossy_text(written@)));
                let parts = split_on(format, ',');
                &&& format.len() > 0
                &&& forall|i: int|
                    0 <= i < parts.len() ==> #[trigger] parts[i] != "hls"@ && parts[i]
                        != "concat"@
            }
        },
{
}

/// A source is refused exactly if it is a file that is missing, or an upload
/// that the caller may not see.
pub proof fn sources_are_refused_when_hidden(
    request_id: Seq<char>,
    context: Seq<char>,
    source: SourceLookup,
    principal: Seq<char>,
    prefix: Seq<char>,
)
    ensures
        source_refusal(request_id, context, source, principal, prefix) is Some <==> {
            ||| source is Missing
            ||| source matches SourceLookup::File(file) && file.inside_uploads && !(
            file.regular_name is Some && name_visible(file.regular_name->0@, principal, prefix))
        },
{
}

/// A name is refused exactly if it could leave its directory or is no video's.
pub proof fn names_stay_in_their_directory(filename: Seq<char>)
    ensures
        name_problem(filename) is None <==> {
            &&& !filename.contains('/')
            &&& !filename.contains('\\')
            &&& !occurs(filename, ".."@)
            &&& video_named(filename)
        },
        video_named(filename) <==> (after_last(filename, '.') matches Some(ext) && (lowered(ext)
            == "mp4"@ || lowered(ext) == "webm"@ || lowered(ext) == "mov"@ || lowered(ext)
            == "avi"@)),
{
}

/// An upload may be seen by the caller whose prefix it has, and by the public
/// where it has none.
pub proof fn uploads_are_seen_by_their_owner(filename: Seq<char>, principal: Seq<char>, prefix: Seq<char>)
    ensures
        name_visible(filename, principal, prefix) <==> prefix.is_prefix_of(filename) || principal
            == "public"@ && !occurs(filename, "__"@),
{
    if prefix.len() <= filename.len() {
        assert(filename.subrange(0, prefix.len() as int) =~= filename.take(prefix.len() as int));
    }
}

} // verus!
