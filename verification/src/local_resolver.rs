//! Serving pages from a folder: which file a URL names, the answers that
//! need no file, and the answer made from what reading the file gave.
//! Reading and writing the files is left to the caller.

use vstd::prelude::*;
use crate::text;
use crate::forms::{first_form_value, form_value};
use crate::jrg_url::JaringanUrl;
use crate::paths::{joined_path, parts_view, path_components, path_join, path_parts, PathPart, PathPartV};
use crate::protocol::{
    Request, RequestMethod, ResolveError, Response, ResponseTag, ResponseTagV, ResponseV,
    ContentType, StatusCode,
};

verus! {

broadcast use vstd::string::group_string_axioms;

/// Serves `.jrg` documents from a folder.
pub struct LocalFileResolver {
    root: String,
    /// The key announced in a `Tag-Key` of every page: its id and base64.
    pub advertise_key_id: Option<(String, String)>,
}

pub open spec fn key_view(k: Option<(String, String)>) -> Option<(Seq<char>, Seq<char>)> {
    match k {
        Some((i, b)) => Some((i@, b@)),
        None => None,
    }
}

/// What a URL path names in the folder, before the path is checked: the
/// path without its leading slashes, and whether `index.jrg` goes after
/// it. Only `/`, folders (ending in `/`) and `.jrg` files are served.
pub open spec fn document_path(path: Seq<char>) -> Option<(Seq<char>, bool)> {
    let trimmed = path.skip(text::lead(path, '/', 0));
    if path == seq!['/'] {
        Some((Seq::empty(), true))
    } else if path.len() > 0 && path.last() == '/' {
        Some((trimmed, true))
    } else if ".jrg"@.is_suffix_of(path) {
        Some((trimmed, false))
    } else {
        None
    }
}

/// What happens next in serving a request.
pub enum FetchStep {
    /// Answer at once.
    Respond(Response),
    /// Append `line` to the action log at `log_path` (making the folder
    /// `dir` first), then answer with `action_response`.
    RecordAction { dir: String, log_path: String, line: String },
    /// Read the page at `path`, then answer with `page_response`.
    ReadPage { path: String },
}

/// What reading a page's file gave.
pub enum FileRead {
    Found(String),
    NotFound,
    Failed(String),
}

/// The text of the page that shows the advertised key.
pub open spec fn key_page(id: Seq<char>, b64: Seq<char>) -> Seq<char> {
    "# Server Key\n\nThis server is signed by key:\n\n```\n"@ + id + " ed25519:"@ + b64
        + "\n```\n\nTo trust this key, add it to your keyring:\n\n```\n"@ + id + " ed25519:"@ + b64
        + "\n```\n\n~~~\ntitle: Server Key\n"@
}

/// The answer to `/.well-known/key`: the key page with the key's tag, or a
/// not-found answer when no key is announced.
pub open spec fn key_answer(key: Option<(Seq<char>, Seq<char>)>) -> ResponseV {
    match key {
        Some((id, b64)) => ResponseV {
            tags: seq![ResponseTagV::Key { key_id: id, key_base64: b64 }],
            ..page_response_v(StatusCode::Success, key_page(id, b64))
        },
        None => text_response(
            StatusCode::NotFound,
            "This server does not advertise a public key. Start with --advertise-key KEY_ID"@,
        ),
    }
}

/// The text the demo search action answers with.
pub open spec fn search_results_page(query: Seq<char>) -> Seq<char> {
    "# Search Results\n\nDemo action received query: "@ + query + "\n\n=> /action-form.jrg Back to form\n"@
}

pub open spec fn text_response(status: StatusCode, body: Seq<char>) -> ResponseV {
    ResponseV { status, content_type: ContentType::PlainText, tags: Seq::empty(), body }
}

pub open spec fn page_response_v(status: StatusCode, body: Seq<char>) -> ResponseV {
    ResponseV { status, content_type: ContentType::JaringanPage, tags: Seq::empty(), body }
}

impl LocalFileResolver {
    pub closed spec fn spec_root(&self) -> Seq<char> {
        self.root@
    }

    /// The announced key's id and base64, if any.
    pub closed spec fn spec_key(&self) -> Option<(Seq<char>, Seq<char>)> {
        key_view(self.advertise_key_id)
    }

    /// A resolver for the folder `root`, announcing no key.
    pub fn new(root: String) -> (r: LocalFileResolver)
        ensures
            r.spec_root() == root@,
            r.spec_key() is None,
    {
        LocalFileResolver { root, advertise_key_id: None }
    }

    /// A resolver for the folder `root` that announces a key on every page.
    pub fn new_with_key(root: String, key_id: String, key_base64: String) -> (r: LocalFileResolver)
        ensures
            r.spec_root() == root@,
            r.spec_key() == Some((key_id@, key_base64@)),
    {
        LocalFileResolver { root, advertise_key_id: Some((key_id, key_base64)) }
    }

    pub fn root(&self) -> (r: &str)
        ensures
            r@ == self.spec_root(),
    {
        self.root.as_str()
    }

    /// The file a URL names, if it names a document and its path stays
    /// inside the folder (no `..`, root or drive part, by the platform's
    /// reading of paths); see `resolved_path`.
    pub fn resolve_path(&self, url: &JaringanUrl) -> (r: Option<String>)
        ensures
            match resolved_path(self.spec_root(), url@.path) {
                Some(p) => r matches Some(x) && x@ == p,
                None => r is None,
            },
    {
        let path = text::chars_of(url.path());
        proof {
            reveal_strlit(".jrg");
            text::lemma_lead(path@, '/', 0);
        }
        let k = text::lead_count(path.as_slice(), '/');
        let trimmed = text::slice_of(path.as_slice(), k, path.len());
        let trimmed_s = text::string_from(trimmed.as_slice());
        let relative = if text::chars_eq(path.as_slice(), ['/'].as_slice()) {
            String::from_str("index.jrg")
        } else if path.len() > 0 && path[path.len() - 1] == '/' {
            path_join(trimmed_s.as_str(), "index.jrg")
        } else if text::ends_with(path.as_slice(), text::chars_of(".jrg").as_slice()) {
            trimmed_s
        } else {
            return None;
        };
        proof {
            reveal_strlit("index.jrg");
            assert(trimmed@ =~= path@.skip(text::lead(path@, '/', 0)));
            assert(['/']@ == seq!['/']);
        }
        assert(relative@ == relative_path(url@.path));
        let parts = path_components(relative.as_str());
        resolve_in_root(self.root.as_str(), relative.as_str(), parts.as_slice())
    }
}

/// The path, relative to the folder, that a document path names: `index.jrg`
/// for `/`, a folder's path (without its leading `/`s) joined with
/// `index.jrg`, or a `.jrg` file's path without its leading `/`s.
pub open spec fn relative_path(path: Seq<char>) -> Seq<char> {
    match document_path(path) {
        Some((trimmed, index)) => if path == seq!['/'] {
            "index.jrg"@
        } else if index {
            joined_path(trimmed, "index.jrg"@)
        } else {
            trimmed
        },
        None => Seq::empty(),
    }
}

/// The file a URL path names under `root`: none for a path that names no
/// document or whose relative path leads out of the folder.
pub open spec fn resolved_path(root: Seq<char>, path: Seq<char>) -> Option<Seq<char>> {
    if document_path(path) is None {
        None
    } else {
        in_root(root, relative_path(path), path_parts(relative_path(path)))
    }
}

/// The site root `/` is served from `index.jrg` directly under the
/// folder; the answer is that file whenever there is one, and there is
/// one unless the platform reads the name `index.jrg` as leading out of
/// the folder.
pub proof fn lemma_root_serves_index(root: Seq<char>)
    ensures
        resolved_path(root, seq!['/']) matches Some(p) ==> p == joined_path(root, "index.jrg"@),
        !escapes(path_parts("index.jrg"@)) ==> resolved_path(root, seq!['/']) == Some(joined_path(root, "index.jrg"@)),
        escapes(path_parts("index.jrg"@)) ==> resolved_path(root, seq!['/']) is None,
{
}

/// A path `/rel` that ends in `.jrg` is served from `rel` under the
/// folder, unless the platform reads `rel` as leading out of it.
pub proof fn lemma_document_path_serves_file(root: Seq<char>, rel: Seq<char>)
    requires
        rel.len() > 0 && rel[0] != '/',
        ".jrg"@.is_suffix_of(rel),
    ensures
        !escapes(path_parts(rel)) ==> resolved_path(root, seq!['/'] + rel) == Some(joined_path(root, rel)),
        escapes(path_parts(rel)) ==> resolved_path(root, seq!['/'] + rel) is None,
{
    reveal_strlit(".jrg");
    let path = seq!['/'] + rel;
    assert(".jrg"@.is_suffix_of(path)) by {
        assert(path.subrange(path.len() - 4, path.len() as int) =~= rel.subrange(rel.len() - 4, rel.len() as int));
    }
    assert(path.last() == rel.last());
    assert(rel.last() == 'g') by {
        assert(rel.subrange(rel.len() - 4, rel.len() as int)[3] == rel.last());
    }
    text::lemma_lead(path, '/', 0);
    text::lemma_lead(path, '/', 1);
    assert(text::lead(path, '/', 1) == 1) by {
        assert(path[1] == rel[0]);
    }
    assert(path.skip(1) =~= rel);
    assert(path != seq!['/']);
}

/// A folder path `/dir/` is served from `index.jrg` in that folder under
/// the served one, unless the platform reads that as leading out of it.
pub proof fn lemma_folder_path_serves_index(root: Seq<char>, dir: Seq<char>)
    requires
        dir.len() > 0 && dir[0] != '/' && dir.last() == '/',
    ensures
        !escapes(path_parts(joined_path(dir, "index.jrg"@))) ==> resolved_path(root, seq!['/'] + dir) == Some(
            joined_path(root, joined_path(dir, "index.jrg"@)),
        ),
        escapes(path_parts(joined_path(dir, "index.jrg"@))) ==> resolved_path(root, seq!['/'] + dir) is None,
{
    let path = seq!['/'] + dir;
    assert(path.last() == dir.last());
    text::lemma_lead(path, '/', 0);
    text::lemma_lead(path, '/', 1);
    assert(text::lead(path, '/', 1) == 1) by {
        assert(path[1] == dir[0]);
    }
    assert(path.skip(1) =~= dir);
    assert(path != seq!['/']) by {
        assert(path.len() == dir.len() + 1);
    }
}

/// A path that is not `/`, does not end in `/` and does not end in `.jrg`
/// names no page, and is served from no file.
pub proof fn lemma_other_paths_serve_nothing(root: Seq<char>, path: Seq<char>)
    requires
        path != seq!['/'],
        !(path.len() > 0 && path.last() == '/'),
        !".jrg"@.is_suffix_of(path),
    ensures
        resolved_path(root, path) is None,
{
}

/// A piece of a path that leads out of the folder it is read in: `..`, a
/// root, or a drive prefix.
pub open spec fn leaves_root(p: PathPartV) -> bool {
    p is ParentDir || p is RootDir || p is Prefix
}

/// Whether any piece of a path leads out of the folder.
pub open spec fn escapes(parts: Seq<PathPartV>) -> bool {
    exists|k: int| 0 <= k < parts.len() && leaves_root(#[trigger] parts[k])
}

/// `relative` under `root`, unless its pieces lead out of the folder.
pub open spec fn in_root(root: Seq<char>, relative: Seq<char>, parts: Seq<PathPartV>) -> Option<Seq<char>> {
    if escapes(parts) {
        None
    } else {
        Some(joined_path(root, relative))
    }
}

/// The file `relative` names under `root`, given the pieces the platform
/// reads `relative` as: none when a piece leads out of the folder, else
/// the two joined.
pub fn resolve_in_root(root: &str, relative: &str, parts: &[PathPart]) -> (r: Option<String>)
    ensures
        match in_root(root@, relative@, parts_view(parts@)) {
            Some(p) => r matches Some(x) && x@ == p,
            None => r is None,
        },
{
    let ghost pv = parts_view(parts@);
    let mut i: usize = 0;
    while i < parts.len()
        invariant
            i <= parts@.len(),
            pv == parts_view(parts@),
            forall|k: int| 0 <= k < i ==> !leaves_root(#[trigger] pv[k]),
        decreases parts@.len() - i,
    {
        match &parts[i] {
            PathPart::ParentDir | PathPart::RootDir | PathPart::Prefix => {
                assert(leaves_root(pv[i as int]));
                return None;
            },
            _ => {},
        }
        i = i + 1;
    }
    Some(path_join(root, relative))
}

/// The token the demo search action asks for.
pub open spec fn demo_token() -> Seq<char> {
    "demo-search"@
}

pub open spec fn opt_text_view(o: Option<String>) -> Option<Seq<char>> {
    match o {
        Some(s) => Some(s@),
        None => None,
    }
}

impl LocalFileResolver {
    /// The answer to the demo search action once its log line is written:
    /// a page that repeats the form's `q` (empty when missing).
    pub fn action_response(request: &Request) -> (r: Response)
        ensures
            r@ == page_response_v(
                StatusCode::Success,
                search_results_page(
                    match first_form_value(text::split_on(request.body@, '&'), "q"@) {
                        Some(q) => q,
                        None => Seq::empty(),
                    },
                ),
            ),
    {
        let query = match form_value(request.body.as_str(), "q") {
            Some(q) => q,
            None => String::new(),
        };
        let mut out = text::chars_of("# Search Results\n\nDemo action received query: ");
        text::push_str(&mut out, query.as_str());
        text::push_str(&mut out, "\n\n=> /action-form.jrg Back to form\n");
        let body = text::string_from(out.as_slice());
        proof {
            if query@.len() == 0 {
                assert(query@ =~= Seq::<char>::empty());
            }
        }
        Response::page(StatusCode::Success, body)
    }

    /// The page that shows the announced key (see `key_answer`), or a
    /// not-found answer when
    /// the server announces none.
    pub fn key_response(&self) -> (r: Response)
        ensures
            r@ == key_answer(self.spec_key()),
    {
        match &self.advertise_key_id {
            Some((key_id, key_base64)) => {
                let mut out = text::chars_of("# Server Key\n\nThis server is signed by key:\n\n```\n");
                text::push_str(&mut out, key_id.as_str());
                text::push_str(&mut out, " ed25519:");
                text::push_str(&mut out, key_base64.as_str());
                text::push_str(&mut out, "\n```\n\nTo trust this key, add it to your keyring:\n\n```\n");
                text::push_str(&mut out, key_id.as_str());
                text::push_str(&mut out, " ed25519:");
                text::push_str(&mut out, key_base64.as_str());
                text::push_str(&mut out, "\n```\n\n~~~\ntitle: Server Key\n");
                let tag = ResponseTag::Key {
                    key_id: String::from_str(key_id.as_str()),
                    key_base64: String::from_str(key_base64.as_str()),
                };
                let r = Response::page(StatusCode::Success, text::string_from(out.as_slice())).with_tag(tag);
                assert(Seq::<ResponseTagV>::empty().push(tag@) =~= seq![tag@]);
                r
            },
            None => Response::text(
                StatusCode::NotFound,
                String::from_str("This server does not advertise a public key. Start with --advertise-key KEY_ID"),
            ),
        }
    }

    /// What to do with a request: the demo search action (refused without
    /// its token), the announced key, a path that names no document or
    /// leads out of the folder, or the page file to read.
    pub fn plan(&self, request: &Request) -> (r: FetchStep)
        ensures
            request.method == RequestMethod::Post && request.url@.path == "/actions/search"@ ==> {
                if opt_text_view(request.action_token) != Some(demo_token()) {
                    r matches FetchStep::Respond(x) && x@ == text_response(
                        StatusCode::Forbidden,
                        "missing or invalid action capability token"@,
                    )
                } else {
                    r matches FetchStep::RecordAction { dir, log_path, line } && dir@
                        == self.spec_root() && log_path@ == joined_path(self.spec_root(), ".jrg-actions.log"@)
                        && line@ == "POST "@ + request.url@.path + seq![' ']
                        + request.body@
                }
            },
            !(request.method == RequestMethod::Post && request.url@.path == "/actions/search"@)
                && request.url@.path == "/.well-known/key"@ ==> (r matches FetchStep::Respond(x) && x@
                == key_answer(self.spec_key())),
            !(request.method == RequestMethod::Post && request.url@.path == "/actions/search"@)
                && request.url@.path != "/.well-known/key"@ ==> match resolved_path(self.spec_root(), request.url@.path) {
                Some(p) => r matches FetchStep::ReadPage { path } && path@ == p,
                None => r matches FetchStep::Respond(x) && x@ == text_response(
                    StatusCode::NotFound,
                    request.url@.path + " is not a .jrg document path"@,
                ),
            },
    {
        let path = request.url.path();
        let pc = text::chars_of(path);
        let is_post = match request.method {
            RequestMethod::Post => true,
            RequestMethod::Get => false,
        };
        if is_post && text::chars_eq(pc.as_slice(), text::chars_of("/actions/search").as_slice()) {
            let token_ok = match &request.action_token {
                Some(t) => text::chars_eq(text::chars_of(t.as_str()).as_slice(), text::chars_of("demo-search").as_slice()),
                None => false,
            };
            if !token_ok {
                return FetchStep::Respond(
                    Response::text(
                        StatusCode::Forbidden,
                        String::from_str("missing or invalid action capability token"),
                    ),
                );
            }
            let mut line = text::chars_of("POST ");
            text::push_str(&mut line, path);
            line.push(' ');
            text::push_str(&mut line, request.body.as_str());
            return FetchStep::RecordAction {
                dir: String::from_str(self.root.as_str()),
                log_path: path_join(self.root.as_str(), ".jrg-actions.log"),
                line: text::string_from(line.as_slice()),
            };
        }
        if text::chars_eq(pc.as_slice(), text::chars_of("/.well-known/key").as_slice()) {
            return FetchStep::Respond(self.key_response());
        }
        match self.resolve_path(&request.url) {
            None => {
                let mut msg = text::chars_of(path);
                text::push_str(&mut msg, " is not a .jrg document path");
                FetchStep::Respond(Response::text(StatusCode::NotFound, text::string_from(msg.as_slice())))
            },
            Some(p) => FetchStep::ReadPage { path: p },
        }
    }

    /// The answer made from reading a page's file: the page, a not-found
    /// answer, or the read error; pages and not-found answers carry the
    /// announced key.
    pub fn page_response(&self, request: &Request, path: String, read: FileRead) -> (r: Result<
        Response,
        ResolveError,
    >)
        ensures
            ({
                let key_tags = match self.spec_key() {
                    Some((id, b64)) => seq![ResponseTagV::Key { key_id: id, key_base64: b64 }],
                    None => Seq::<ResponseTagV>::empty(),
                };
                match read {
                    FileRead::Found(body) => r matches Ok(x) && x@ == (ResponseV {
                        tags: key_tags,
                        ..page_response_v(StatusCode::Success, body@)
                    }),
                    FileRead::NotFound => r matches Ok(x) && x@ == (ResponseV {
                        tags: key_tags,
                        ..text_response(StatusCode::NotFound, "Jaringan page not found: "@ + request.url@.path)
                    }),
                    FileRead::Failed(m) => r matches Err(ResolveError::Read { path: p, message })
                        && p@ == path@ && message@ == m@,
                }
            }),
    {
        let response = match read {
            FileRead::Found(body) => Response::page(StatusCode::Success, body),
            FileRead::NotFound => {
                let mut msg = text::chars_of("Jaringan page not found: ");
                text::push_str(&mut msg, request.url.path());
                Response::text(StatusCode::NotFound, text::string_from(msg.as_slice()))
            },
            FileRead::Failed(message) => {
                return Err(ResolveError::Read { path, message });
            },
        };
        match &self.advertise_key_id {
            Some((key_id, key_base64)) => {
                let tag = ResponseTag::Key {
                    key_id: String::from_str(key_id.as_str()),
                    key_base64: String::from_str(key_base64.as_str()),
                };
                let r = response.with_tag(tag);
                assert(Seq::<ResponseTagV>::empty().push(tag@) =~= seq![tag@]);
                Ok(r)
            },
            None => Ok(response),
        }
    }
}

} // verus!
