//! The dispatcher. Method check first: anything but `GET` is answered
//! with 405. A path registered in the route table answers with 200 and
//! the route's output; the table takes precedence over files on disk.
//! Any other path becomes a static-file candidate under the base
//! directory: the root path stands for `index.html`, any other path
//! loses a single leading slash. Whether the candidate file exists is the one
//! fact the dispatcher cannot decide itself; it hands the candidate back
//! as a probe, and `finish_static` turns the answer into 200 with the
//! file's bytes or 404.

use vstd::prelude::*;
use vstd::string::StrSliceExecFns;
use vstd::string::StringExecFns;
use crate::response::{Body, BodyModel, Response, ResponseModel, response_wf};
use crate::routes::RouteTable;
use crate::text::str_eq;

verus! {

/// The path of a static-file request relative to the base directory: the
/// root path stands for `index.html`, any other path loses a single
/// leading `'/'`.
pub open spec fn candidate_rel(path: Seq<char>) -> Seq<char> {
    if path == "/"@ {
        "index.html"@
    } else if path.len() > 0 && path[0] == '/' {
        path.drop_first()
    } else {
        path
    }
}

/// The relative path joined onto the base directory, with a `'/'` between
/// them unless the base directory is empty or already ends in one.
pub open spec fn join_path(base_dir: Seq<char>, rel: Seq<char>) -> Seq<char> {
    if base_dir.len() == 0 {
        rel
    } else if base_dir.last() == '/' {
        base_dir + rel
    } else {
        base_dir + "/"@ + rel
    }
}

/// `rel` without its trailing `'/'` characters: extensions are read off
/// the file name, which ignores trailing slashes.
pub open spec fn trim_slashes(rel: Seq<char>) -> Seq<char>
    decreases rel.len(),
{
    if rel.len() > 0 && rel.last() == '/' {
        trim_slashes(rel.drop_last())
    } else {
        rel
    }
}

/// Index of the first character of the file name of `rel`: the position
/// right after its last `'/'`.
pub open spec fn file_start(rel: Seq<char>) -> int
    decreases rel.len(),
{
    if rel.len() == 0 {
        0
    } else if rel.last() == '/' {
        rel.len() as int
    } else {
        file_start(rel.drop_last())
    }
}

/// Index of the last `'.'` of `rel`, or `-1` if there is none.
pub open spec fn dot_pos(rel: Seq<char>) -> int
    decreases rel.len(),
{
    if rel.len() == 0 {
        -1
    } else if rel.last() == '.' {
        rel.len() - 1
    } else {
        dot_pos(rel.drop_last())
    }
}

/// The extension of the file name of `rel` — its last component, with
/// trailing slashes ignored: what follows the last `'.'`, provided that
/// dot stands in the file name and is not its first character.
/// Otherwise there is no extension and the result is empty.
pub open spec fn ext_of(rel: Seq<char>) -> Seq<char> {
    let name = trim_slashes(rel);
    if dot_pos(name) > file_start(name) {
        name.skip(dot_pos(name) + 1)
    } else {
        Seq::empty()
    }
}

/// The content type served for a static file: by extension, `html` is
/// `text/html`, `css` is `text/css`, and anything else, extension or
/// not, is `application/octet-stream`.
pub open spec fn ctype_model(rel: Seq<char>) -> Seq<char> {
    if ext_of(rel) == "html"@ {
        "text/html"@
    } else if ext_of(rel) == "css"@ {
        "text/css"@
    } else {
        "application/octet-stream"@
    }
}

/// A static-file candidate: the path to probe on disk, and the content
/// type to serve the file under if it is there.
pub struct StaticProbe {
    pub candidate: String,
    pub content_type: String,
}

/// The mathematical shape of a `StaticProbe`.
#[verifier::ext_equal]
pub struct ProbeModel {
    pub candidate: Seq<char>,
    pub content_type: Seq<char>,
}

impl View for StaticProbe {
    type V = ProbeModel;

    open spec fn view(&self) -> ProbeModel {
        ProbeModel { candidate: self.candidate@, content_type: self.content_type@ }
    }
}

/// What the dispatcher decides: either a finished response, or a
/// static-file candidate whose existence the embedding program must
/// probe.
pub enum Dispatch {
    Done(Response),
    Probe(StaticProbe),
}

/// The mathematical shape of a `Dispatch`.
#[verifier::ext_equal]
pub enum DispatchModel {
    Done(ResponseModel),
    Probe(ProbeModel),
}

impl View for Dispatch {
    type V = DispatchModel;

    open spec fn view(&self) -> DispatchModel {
        match self {
            Dispatch::Done(r) => DispatchModel::Done(r@),
            Dispatch::Probe(p) => DispatchModel::Probe(p@),
        }
    }
}

/// The dispatcher's whole decision. First match wins: a non-`GET` method
/// is 405 with an empty body; a path in the route table is 200 with the
/// route's body and content type; anything else becomes a static-file
/// probe for the joined candidate path.
pub open spec fn dispatch_model(
    method: Seq<char>,
    path: Seq<char>,
    base_dir: Seq<char>,
    routes: Map<Seq<char>, (Seq<char>, Seq<char>)>,
) -> DispatchModel {
    if method != "GET"@ {
        DispatchModel::Done(
            ResponseModel {
                status: 405,
                reason: "Method Not Allowed"@,
                content_type: "text/plain"@,
                body: BodyModel::Empty,
            },
        )
    } else if routes.contains_key(path) {
        DispatchModel::Done(
            ResponseModel {
                status: 200,
                reason: "OK"@,
                content_type: routes[path].1,
                body: BodyModel::Text(routes[path].0),
            },
        )
    } else {
        let rel = candidate_rel(path);
        DispatchModel::Probe(
            ProbeModel { candidate: join_path(base_dir, rel), content_type: ctype_model(rel) },
        )
    }
}

/// What a probe resolves to once the filesystem has answered: 200 with
/// the file's bytes under the probe's content type when the candidate
/// exists, else 404 with an empty body.
pub open spec fn finish_model(p: ProbeModel, file_exists: bool) -> ResponseModel {
    if file_exists {
        ResponseModel {
            status: 200,
            reason: "OK"@,
            content_type: p.content_type,
            body: BodyModel::File(p.candidate),
        }
    } else {
        ResponseModel {
            status: 404,
            reason: "Not Found"@,
            content_type: "text/plain"@,
            body: BodyModel::Empty,
        }
    }
}

/// A non-GET method is always answered 405 "Method Not Allowed" with an
/// empty body, whatever the path, the base directory, and the route
/// table hold.
pub proof fn lemma_non_get_is_405(
    method: Seq<char>,
    path: Seq<char>,
    base_dir: Seq<char>,
    routes: Map<Seq<char>, (Seq<char>, Seq<char>)>,
)
    requires
        method != "GET"@,
    ensures
        dispatch_model(method, path, base_dir, routes) == DispatchModel::Done(
            ResponseModel {
                status: 405,
                reason: "Method Not Allowed"@,
                content_type: "text/plain"@,
                body: BodyModel::Empty,
            },
        ),
{
}

/// A GET whose path is in the route table is always answered 200 "OK"
/// with the route's body and content type; the table takes precedence,
/// so no file on disk is ever consulted for such a path.
pub proof fn lemma_route_hit_is_200(
    method: Seq<char>,
    path: Seq<char>,
    base_dir: Seq<char>,
    routes: Map<Seq<char>, (Seq<char>, Seq<char>)>,
)
    requires
        method == "GET"@,
        routes.contains_key(path),
    ensures
        dispatch_model(method, path, base_dir, routes) == DispatchModel::Done(
            ResponseModel {
                status: 200,
                reason: "OK"@,
                content_type: routes[path].1,
                body: BodyModel::Text(routes[path].0),
            },
        ),
{
}

/// A GET for a path with no route becomes a probe of the joined
/// candidate path, and when the candidate file does not exist, it
/// resolves to 404 "Not Found", content type `text/plain`, empty body.
pub proof fn lemma_no_route_no_file_is_404(
    method: Seq<char>,
    path: Seq<char>,
    base_dir: Seq<char>,
    routes: Map<Seq<char>, (Seq<char>, Seq<char>)>,
)
    requires
        method == "GET"@,
        !routes.contains_key(path),
    ensures
        dispatch_model(method, path, base_dir, routes) == DispatchModel::Probe(
            ProbeModel {
                candidate: join_path(base_dir, candidate_rel(path)),
                content_type: ctype_model(candidate_rel(path)),
            },
        ),
        finish_model(
            ProbeModel {
                candidate: join_path(base_dir, candidate_rel(path)),
                content_type: ctype_model(candidate_rel(path)),
            },
            false,
        ) == (ResponseModel {
            status: 404,
            reason: "Not Found"@,
            content_type: "text/plain"@,
            body: BodyModel::Empty,
        }),
{
}

/// Content-type resolution by extension: `html` is `text/html`, `css` is
/// `text/css`, and any other extension, or none, is
/// `application/octet-stream`.
pub proof fn lemma_content_type_resolution(rel: Seq<char>)
    ensures
        ext_of(rel) == "html"@ ==> ctype_model(rel) == "text/html"@,
        ext_of(rel) == "css"@ ==> ctype_model(rel) == "text/css"@,
        ext_of(rel) != "html"@ && ext_of(rel) != "css"@ ==> ctype_model(rel)
            == "application/octet-stream"@,
{
    reveal_strlit("html");
    reveal_strlit("css");
    assert("css"@.len() == 3);
    assert("html"@.len() == 4);
    assert("css"@ != "html"@);
}

/// Every finished response of the dispatcher carries a body exactly when
/// its status is 200.
pub proof fn lemma_dispatch_wf(
    method: Seq<char>,
    path: Seq<char>,
    base_dir: Seq<char>,
    routes: Map<Seq<char>, (Seq<char>, Seq<char>)>,
)
    ensures
        (dispatch_model(method, path, base_dir, routes) matches DispatchModel::Done(r)
            ==> response_wf(r)),
{
}

/// Every resolved probe carries a body exactly when its status is 200.
pub proof fn lemma_finish_wf(p: ProbeModel, file_exists: bool)
    ensures
        response_wf(finish_model(p, file_exists)),
{
}

/// Computes the static-file path relative to the base directory.
fn static_rel(path: &str) -> (r: String)
    ensures
        r@ == candidate_rel(path@),
{
    if str_eq(path, "/") {
        String::from_str("index.html")
    } else {
        let n = path.unicode_len();
        if n > 0 && path.get_char(0) == '/' {
            proof {
                assert(path@.drop_first() =~= path@.subrange(1, n as int));
            }
            String::from_str(path.substring_char(1, n))
        } else {
            String::from_str(path)
        }
    }
}

/// Joins the relative path onto the base directory.
fn join(base_dir: &str, rel: &str) -> (r: String)
    ensures
        r@ == join_path(base_dir@, rel@),
{
    let bn = base_dir.unicode_len();
    if bn == 0 {
        String::from_str(rel)
    } else if base_dir.get_char(bn - 1) == '/' {
        let mut s = String::from_str(base_dir);
        s.append(rel);
        s
    } else {
        let mut s = String::from_str(base_dir);
        s.append("/");
        s.append(rel);
        proof {
            assert(s@ =~= base_dir@ + "/"@ + rel@);
        }
        s
    }
}

fn trim_trailing_slashes(rel: &str) -> (tn: usize)
    ensures
        tn <= rel@.len(),
        trim_slashes(rel@) == rel@.subrange(0, tn as int),
{
    let n = rel.unicode_len();
    let mut k: usize = n;
    proof {
        assert(rel@.take(n as int) =~= rel@);
    }
    while k > 0
        invariant
            k <= n,
            n == rel@.len(),
            trim_slashes(rel@) == trim_slashes(rel@.take(k as int)),
        decreases k,
    {
        proof {
            assert(rel@.take(k as int).last() == rel@[k - 1]);
            assert(rel@.take(k as int).drop_last() =~= rel@.take(k - 1));
        }
        if rel.get_char(k - 1) != '/' {
            return k;
        }
        k -= 1;
    }
    proof {
        assert(rel@.take(0) =~= Seq::<char>::empty());
    }
    0
}

fn find_file_start(rel: &str) -> (k: usize)
    ensures
        0 <= k <= rel@.len(),
        k == file_start(rel@),
{
    let n = rel.unicode_len();
    let mut k: usize = n;
    proof {
        assert(rel@.take(n as int) =~= rel@);
    }
    while k > 0
        invariant
            k <= n,
            n == rel@.len(),
            file_start(rel@) == file_start(rel@.take(k as int)),
        decreases k,
    {
        proof {
            assert(rel@.take(k as int).last() == rel@[k - 1]);
            assert(rel@.take(k as int).drop_last() =~= rel@.take(k - 1));
        }
        if rel.get_char(k - 1) == '/' {
            return k;
        }
        k -= 1;
    }
    proof {
        assert(rel@.take(0) =~= Seq::<char>::empty());
    }
    0
}

fn find_dot(rel: &str) -> (r: Option<usize>)
    ensures
        match r {
            Some(d) => d == dot_pos(rel@) && d < rel@.len(),
            None => dot_pos(rel@) == -1,
        },
{
    let n = rel.unicode_len();
    let mut k: usize = n;
    proof {
        assert(rel@.take(n as int) =~= rel@);
    }
    while k > 0
        invariant
            k <= n,
            n == rel@.len(),
            dot_pos(rel@) == dot_pos(rel@.take(k as int)),
        decreases k,
    {
        proof {
            assert(rel@.take(k as int).last() == rel@[k - 1]);
            assert(rel@.take(k as int).drop_last() =~= rel@.take(k - 1));
        }
        if rel.get_char(k - 1) == '.' {
            return Some(k - 1);
        }
        k -= 1;
    }
    proof {
        assert(rel@.take(0) =~= Seq::<char>::empty());
    }
    None
}

/// The content type for the file at `rel`, by its extension.
pub fn content_type_for(rel: &str) -> (ct: String)
    ensures
        ct@ == ctype_model(rel@),
{
    proof {
        reveal_strlit("html");
        reveal_strlit("css");
    }
    let tn = trim_trailing_slashes(rel);
    let name = rel.substring_char(0, tn);
    let fs = find_file_start(name);
    if let Some(d) = find_dot(name) {
        if d > fs {
            let ext = name.substring_char(d + 1, tn);
            proof {
                assert(trim_slashes(rel@).skip(dot_pos(trim_slashes(rel@)) + 1) =~= name@.subrange(
                    d + 1,
                    tn as int,
                ));
            }
            if str_eq(ext, "html") {
                return String::from_str("text/html");
            }
            if str_eq(ext, "css") {
                return String::from_str("text/css");
            }
            return String::from_str("application/octet-stream");
        }
    }
    proof {
        assert(ext_of(rel@) =~= Seq::<char>::empty());
        assert(ext_of(rel@) != "html"@);
        assert(ext_of(rel@) != "css"@);
    }
    String::from_str("application/octet-stream")
}

/// Decides a request. The decision for the static branch stays open in
/// the returned probe; the embedding program answers it with
/// `finish_static`.
pub fn handle_request(method: &str, path: &str, base_dir: &str, routes: &RouteTable) -> (d:
    Dispatch)
    ensures
        d@ == dispatch_model(method@, path@, base_dir@, routes@),
{
    if !str_eq(method, "GET") {
        let r = Response {
            status: 405,
            reason: String::from_str("Method Not Allowed"),
            content_type: String::from_str("text/plain"),
            body: Body::Empty,
        };
        let d = Dispatch::Done(r);
        proof {
            assert(d@ =~= dispatch_model(method@, path@, base_dir@, routes@));
        }
        return d;
    }
    match routes.get(path) {
        Some((body, content_type)) => {
            let r = Response {
                status: 200,
                reason: String::from_str("OK"),
                content_type: content_type.clone(),
                body: Body::Text(body.clone()),
            };
            let d = Dispatch::Done(r);
            proof {
                assert(d@ =~= dispatch_model(method@, path@, base_dir@, routes@));
            }
            d
        },
        None => {
            let rel = static_rel(path);
            let candidate = join(base_dir, rel.as_str());
            let content_type = content_type_for(rel.as_str());
            let d = Dispatch::Probe(StaticProbe { candidate, content_type });
            proof {
                assert(d@ =~= dispatch_model(method@, path@, base_dir@, routes@));
            }
            d
        },
    }
}

/// Resolves a static-file probe once the embedding program has checked
/// whether the candidate file exists.
pub fn finish_static(probe: StaticProbe, file_exists: bool) -> (r: Response)
    ensures
        r@ == finish_model(probe@, file_exists),
{
    let ghost pm = probe@;
    if file_exists {
        let r = Response {
            status: 200,
            reason: String::from_str("OK"),
            content_type: probe.content_type,
            body: Body::File(probe.candidate),
        };
        proof {
            assert(r@ =~= finish_model(pm, true));
        }
        r
    } else {
        let r = Response {
            status: 404,
            reason: String::from_str("Not Found"),
            content_type: String::from_str("text/plain"),
            body: Body::Empty,
        };
        proof {
            assert(r@ =~= finish_model(pm, false));
        }
        r
    }
}

} // verus!
