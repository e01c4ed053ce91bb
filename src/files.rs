use vstd::prelude::*;
use vstd::utf8::encode_utf8;
use crate::error::ServerError;
use crate::path::{file_name, push_path, pushed, segments_of};
use crate::response::Response;
use crate::text::chars_of;

verus! {

/// The name of the document served for a directory that holds one.
pub const INDEX_DOCUMENT: &'static str = "index.gmi";

/// What the file system shows at a target path.
#[derive(Debug, Clone, Copy)]
pub enum Entry {
    /// A directory, and whether it holds an index document.
    Directory { has_index: bool },
    /// Anything else, read as a file.
    File,
}

/// The next step in serving a path from the file system.
#[derive(Debug)]
pub enum StaticStep {
    Respond(Response),
    /// Read the whole file at this path and serve it.
    ReadFile(String),
    /// List the entries of the directory at this path.
    ListDirectory(String),
}

pub open spec fn ends_with_separator(p: Seq<char>) -> bool {
    p.len() > 0 && p.last() == '/'
}

/// The index document of the directory at `target`.
pub open spec fn index_path(target: Seq<char>) -> Seq<char> {
    pushed(target, INDEX_DOCUMENT@)
}

/// How a request for `path`, found at `target` as `entry`, goes on: a
/// directory asked for without a trailing separator is redirected to the
/// path with one; otherwise a directory serves its index document, or a
/// listing where it has none; anything else is read as a file.
pub open spec fn spec_static_step(path: Seq<char>, target: Seq<char>, entry: Entry, r: StaticStep) -> bool {
    match entry {
        Entry::Directory { has_index } => if !ends_with_separator(path) {
            r matches StaticStep::Respond(Response::Redirect(p)) && p@ == path.push('/')
        } else if has_index {
            r matches StaticStep::ReadFile(f) && f@ == index_path(target)
        } else {
            r matches StaticStep::ListDirectory(d) && d@ == target
        },
        Entry::File => r matches StaticStep::ReadFile(f) && f@ == target,
    }
}

/// The path of the index document of the directory at `target`.
pub fn index_document(target: &str) -> (r: String)
    ensures
        r@ == index_path(target@),
{
    push_path(target, INDEX_DOCUMENT)
}

pub fn static_step(path: &str, target: &str, entry: Entry) -> (r: StaticStep)
    ensures
        spec_static_step(path@, target@, entry, r),
{
    match entry {
        Entry::Directory { has_index } => {
            let cs = chars_of(path);
            if cs.len() == 0 || cs[cs.len() - 1] != '/' {
                let mut p = path.to_owned();
                p.append("/");
                proof {
                    reveal_strlit("/");
                }
                assert(p@ == path@.push('/'));
                StaticStep::Respond(Response::Redirect(p))
            } else if has_index {
                StaticStep::ReadFile(index_document(target))
            } else {
                StaticStep::ListDirectory(target.to_owned())
            }
        },
        Entry::File => StaticStep::ReadFile(target.to_owned()),
    }
}

/// One line per entry, each a link to the entry's name.
pub open spec fn listing_entries(names: Seq<Seq<char>>) -> Seq<char>
    decreases names.len(),
{
    if names.len() == 0 {
        seq![]
    } else {
        listing_entries(names.drop_last()) + "=> "@ + names.last() + "\n"@
    }
}

/// A directory listing: a heading, a link to the parent, and a link to each
/// entry.
pub open spec fn listing(names: Seq<Seq<char>>) -> Seq<char> {
    "# Directory listing\n=> .. Parent\n"@ + listing_entries(names)
}

pub open spec fn all_text(names: Seq<Option<Seq<char>>>) -> bool {
    forall|i: int| 0 <= i < names.len() ==> (#[trigger] names[i]) is Some
}

pub open spec fn texts(names: Seq<Option<Seq<char>>>) -> Seq<Seq<char>> {
    Seq::new(names.len(), |i: int| names[i]->0)
}

/// The listing of a directory whose entries have these names; an entry
/// whose name is not text (`None`) makes it an I/O error.
pub fn directory_listing(names: &Vec<Option<String>>) -> (r: Response)
    ensures
        all_text(names.deep_view()) ==> (r matches Response::Success { mimetype, body }
            && mimetype@ == "text/gemini"@ && body@ == encode_utf8(
            listing(texts(names.deep_view())),
        )),
        !all_text(names.deep_view()) ==> (r matches Response::ServerError(ServerError::IoError(m))
            && m@ == "Invalid pathname"@),
{
    let ghost ns = names.deep_view();
    let mut text = String::from_str("# Directory listing\n=> .. Parent\n");
    let mut i: usize = 0;
    while i < names.len()
        invariant
            i <= names@.len(),
            ns == names.deep_view(),
            forall|j: int| 0 <= j < i ==> (#[trigger] ns[j]) is Some,
            text@ == listing(texts(ns.take(i as int))),
        decreases names@.len() - i,
    {
        let ghost before = texts(ns.take(i as int));
        let ghost after = texts(ns.take(i + 1));
        match &names[i] {
            Some(n) => {
                text.append("=> ");
                text.append(n.as_str());
                text.append("\n");
                assert(after.drop_last() == before);
                assert(after.last() == n@);
                assert(listing(after) == listing(before) + "=> "@ + n@ + "\n"@);
            },
            None => {
                assert(!all_text(ns));
                proof {
                    reveal_strlit("Invalid pathname");
                }
                return Response::ServerError(
                    ServerError::IoError(String::from_str("Invalid pathname")),
                );
            },
        }
        i = i + 1;
    }
    assert(ns.take(names@.len() as int) == ns);
    Response::Success {
        mimetype: String::from_str("text/gemini"),
        body: text.as_str().as_bytes_vec(),
    }
}

/// The file at `path` is a native document: its name ends in `.gmi` after
/// at least one other character.
pub open spec fn is_native_document(path: Seq<char>) -> bool {
    file_name(path) matches Some(n) && n.len() > 4 && n.skip(n.len() - 4) == ".gmi"@
}

pub fn is_native_document_path(path: &str) -> (r: bool)
    ensures
        r == is_native_document(path@),
{
    let segs = segments_of(path);
    if segs.len() == 0 {
        return false;
    }
    let name = chars_of(segs[segs.len() - 1].as_str());
    let n = name.len();
    proof {
        reveal_strlit(".gmi");
    }
    if n > 4 && name[n - 4] == '.' && name[n - 3] == 'g' && name[n - 2] == 'm' && name[n - 1] == 'i' {
        assert(name@.skip(n - 4) =~= ".gmi"@);
        assert(name@ != seq!['.', '.']);
        true
    } else {
        assert(n > 4 ==> name@.skip(n - 4)[0] == name@[n - 4]);
        assert(n > 4 ==> name@.skip(n - 4)[1] == name@[n - 3]);
        assert(n > 4 ==> name@.skip(n - 4)[2] == name@[n - 2]);
        assert(n > 4 ==> name@.skip(n - 4)[3] == name@[n - 1]);
        false
    }
}

/// A file's content served with its media type: a native document is
/// `text/gemini`, anything else has the type `sniffed` from its bytes.
pub fn typed_file_response(path: &str, body: Vec<u8>, sniffed: String) -> (r: Response)
    ensures
        r matches Response::Success { mimetype, body: b } && b@ == body@ && mimetype@ == if is_native_document(path@) {
            "text/gemini"@
        } else {
            sniffed@
        },
{
    let mimetype = if is_native_document_path(path) {
        String::from_str("text/gemini")
    } else {
        sniffed
    };
    Response::Success { mimetype, body }
}

/// Relies on `tree_magic_mini::from_u8`: the media type it finds for the
/// bytes. It reads its type database from the machine, so nothing is
/// promised of the result.
#[verifier::external_body]
fn sniff_media_type(body: &[u8]) -> (r: String) {
    tree_magic_mini::from_u8(body).to_string()
}

/// A file's content served with its media type; the type of anything but a
/// native document is sniffed from its bytes.
pub fn file_response(path: &str, body: Vec<u8>) -> (r: Response)
    ensures
        r matches Response::Success { mimetype, body: b } && b@ == body@ && (is_native_document(
            path@,
        ) ==> mimetype@ == "text/gemini"@),
{
    if is_native_document_path(path) {
        typed_file_response(path, body, String::new())
    } else {
        let sniffed = sniff_media_type(body.as_slice());
        typed_file_response(path, body, sniffed)
    }
}

/// A directory asked for without a trailing separator is redirected to the
/// same path with one, before anything is served.
pub proof fn lemma_directory_redirect(path: Seq<char>, target: Seq<char>, has_index: bool, r: StaticStep)
    requires
        !ends_with_separator(path),
        spec_static_step(path, target, Entry::Directory { has_index }, r),
    ensures
        r matches StaticStep::Respond(Response::Redirect(p)) && p@ == path.push('/'),
{
}

/// A directory asked for with a trailing separator and without an index
/// document is listed, and every listing begins with a link to the parent.
pub proof fn lemma_listing_links_parent(path: Seq<char>, target: Seq<char>, r: StaticStep, names: Seq<Seq<char>>)
    requires
        ends_with_separator(path),
        spec_static_step(path, target, Entry::Directory { has_index: false }, r),
    ensures
        r matches StaticStep::ListDirectory(d) && d@ == target,
        listing(names).take("# Directory listing\n=> .. Parent\n"@.len() as int)
            == "# Directory listing\n=> .. Parent\n"@,
{
    assert(listing(names).take("# Directory listing\n=> .. Parent\n"@.len() as int)
        =~= "# Directory listing\n=> .. Parent\n"@);
}

} // verus!
