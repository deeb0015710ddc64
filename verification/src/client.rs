//! Requests to the server, and what its replies say.

use crate::json::{parse_json, write_json, Json, JsonView};
use crate::text::chars_of;
use crate::text::slice_text;
use vstd::prelude::*;
use vstd::string::*;

verus! {

// ---------------------------------------------------------------------------
// Requests
// ---------------------------------------------------------------------------

/// The method of a request.
#[derive(Copy, Clone, Debug, PartialEq, Eq, Structural)]
pub enum Method {
    Get,
    Post,
    Put,
    Delete,
}

/// The name of a method.
pub open spec fn method_name(method: Method) -> Seq<char> {
    match method {
        Method::Get => "GET"@,
        Method::Post => "POST"@,
        Method::Put => "PUT"@,
        Method::Delete => "DELETE"@,
    }
}

impl Method {
    /// The name of this method.
    pub fn name(self) -> (res: &'static str)
        ensures
            res@ == method_name(self),
    {
        match self {
            Method::Get => "GET",
            Method::Post => "POST",
            Method::Put => "PUT",
            Method::Delete => "DELETE",
        }
    }
}

/// A request to the server: sent to `url`, with `body` as JSON where there is one.
pub struct Request {
    pub method: Method,
    pub url: String,
    pub body: Option<Json>,
}

/// A request, with texts and values as mathematics.
pub struct RequestView {
    pub method: Method,
    pub url: Seq<char>,
    pub body: Option<JsonView>,
}

impl View for Request {
    type V = RequestView;

    open spec fn view(&self) -> RequestView {
        RequestView {
            method: self.method,
            url: self.url@,
            body: match self.body {
                Some(j) => Some(j@),
                None => None,
            },
        }
    }
}

/// The method and the target of a request, as errors name it.
pub open spec fn request_line(method: Method, url: Seq<char>) -> Seq<char> {
    method_name(method) + " "@ + url
}

impl Request {
    /// The method and the target of this request, as errors name it.
    pub fn line(&self) -> (res: String)
        ensures
            res@ == request_line(self.method, self.url@),
    {
        let mut out = self.method.name().to_owned();
        out.append(" ");
        out.append(self.url.as_str());
        out
    }
}

/// `s` without the slashes at its end.
pub open spec fn without_slashes(s: Seq<char>) -> Seq<char>
    decreases s.len(),
{
    if s.len() > 0 && s.last() == '/' {
        without_slashes(s.drop_last())
    } else {
        s
    }
}

/// Where the server is and as whom to talk to it.
pub struct Client {
    endpoint: String,
    user: String,
    password: String,
}

/// A server's address and an account on it.
pub struct ClientView {
    pub endpoint: Seq<char>,
    pub user: Seq<char>,
    pub password: Seq<char>,
}

impl View for Client {
    type V = ClientView;

    closed spec fn view(&self) -> ClientView {
        ClientView { endpoint: self.endpoint@, user: self.user@, password: self.password@ }
    }
}

/// An object with one entry.
pub open spec fn object1(k1: Seq<char>, v1: JsonView) -> JsonView {
    JsonView::Object(seq![(k1, v1)])
}

/// An object with one entry.
fn new_object1(k1: &str, v1: Json) -> (res: Json)
    ensures
        res@ == object1(k1@, v1@),
{
    let ghost a = v1@;
    let entries: Vec<(String, Json)> = vec![(k1.to_owned(), v1)];
    let res = Json::Object(entries);
    proof {
        crate::json::lemma_view_parts(res);
        assert(crate::json::entry_views(entries@) =~= seq![(k1@, a)]);
    }
    res
}

/// What the server is asked to create a database with.
pub open spec fn database_body(db: Seq<char>) -> JsonView {
    object1("name"@, JsonView::Text(db))
}

/// What the server is asked to create a collection with.
pub open spec fn collection_body(name: Seq<char>, shards: u64) -> JsonView {
    JsonView::Object(
        seq![("name"@, JsonView::Text(name)), ("numberOfShards"@, JsonView::Unsigned(shards))],
    )
}

/// What the server is asked to run a query with, 10000 rows to a page.
pub open spec fn cursor_body(query: Seq<char>, bind_vars: JsonView) -> JsonView {
    JsonView::Object(
        seq![
            ("batchSize"@, JsonView::Unsigned(10_000)),
            ("bindVars"@, bind_vars),
            ("query"@, JsonView::Text(query)),
        ],
    )
}

/// What the server is asked to tune an index with: the recall that is wanted, in decimal, of the
/// top `top_k`.
pub open spec fn autotune_body(top_k: u64, target: Seq<char>) -> JsonView {
    JsonView::Object(
        seq![("targetRecall"@, JsonView::Float(target)), ("topK"@, JsonView::Unsigned(top_k))],
    )
}

/// Where the operating points of an index are.
pub open spec fn autotune_path(db: Seq<char>, index_id: Seq<char>) -> Seq<char> {
    "/_db/"@ + db + "/_api/index/"@ + index_id + "/autotune"@
}

/// Where the operating points of an index are.
fn path_of_autotune(db: &str, index_id: &str) -> (res: String)
    ensures
        res@ == autotune_path(db@, index_id@),
{
    let mut path = "/_db/".to_owned();
    path.append(db);
    path.append("/_api/index/");
    path.append(index_id);
    path.append("/autotune");
    path
}

impl Client {
    /// A client of the server at `endpoint`, which may end in slashes.
    pub fn new(endpoint: &str, user: &str, password: &str) -> (res: Client)
        ensures
            res@ == (ClientView {
                endpoint: without_slashes(endpoint@),
                user: user@,
                password: password@,
            }),
    {
        let chars = chars_of(endpoint);
        let mut end: usize = chars.len();
        assert(chars@.take(end as int) =~= chars@);
        while end > 0 && chars[end - 1] == '/'
            invariant
                end <= chars@.len(),
                without_slashes(endpoint@) == without_slashes(chars@.take(end as int)),
            decreases end,
        {
            assert(chars@.take(end as int).drop_last() =~= chars@.take(end - 1));
            end -= 1;
        }
        let endpoint = slice_text(&chars, 0, end);
        assert(endpoint@ =~= chars@.take(end as int));
        Client { endpoint, user: user.to_owned(), password: password.to_owned() }
    }

    /// Where the server is.
    pub fn endpoint(&self) -> (res: &str)
        ensures
            res@ == self@.endpoint,
    {
        self.endpoint.as_str()
    }

    /// The account's name.
    pub fn user(&self) -> (res: &str)
        ensures
            res@ == self@.user,
    {
        self.user.as_str()
    }

    /// The account's password.
    pub fn password(&self) -> (res: &str)
        ensures
            res@ == self@.password,
    {
        self.password.as_str()
    }

    /// The address of `path` on the server.
    pub fn url(&self, path: &str) -> (res: String)
        ensures
            res@ == self@.endpoint + path@,
    {
        let mut out = self.endpoint.clone();
        out.append(path);
        out
    }

    /// Asks for a database to be dropped; `drop_database_reply` says what the reply means.
    pub fn drop_database_if_exists(&self, db: &str) -> (res: Request)
        ensures
            res@ == (RequestView {
                method: Method::Delete,
                url: self@.endpoint + ("/_db/_system/_api/database/"@ + db@),
                body: None,
            }),
    {
        let mut path = "/_db/_system/_api/database/".to_owned();
        path.append(db);
        Request { method: Method::Delete, url: self.url(path.as_str()), body: None }
    }

    /// Asks for a database to be created.
    pub fn create_database(&self, db: &str) -> (res: Request)
        ensures
            res@ == (RequestView {
                method: Method::Post,
                url: self@.endpoint + "/_db/_system/_api/database"@,
                body: Some(database_body(db@)),
            }),
    {
        Request {
            method: Method::Post,
            url: self.url("/_db/_system/_api/database"),
            body: Some(new_object1("name", Json::Text(db.to_owned()))),
        }
    }

    /// Asks for the current database; it exists where the reply reports success.
    pub fn database_exists(&self, db: &str) -> (res: Request)
        ensures
            res@ == (RequestView {
                method: Method::Get,
                url: self@.endpoint + ("/_db/"@ + db@ + "/_api/database/current"@),
                body: None,
            }),
    {
        let mut path = "/_db/".to_owned();
        path.append(db);
        path.append("/_api/database/current");
        Request { method: Method::Get, url: self.url(path.as_str()), body: None }
    }

    /// Asks for a collection to be dropped; `drop_collection_reply` says what the reply means.
    pub fn drop_collection_if_exists(&self, db: &str, coll: &str) -> (res: Request)
        ensures
            res@ == (RequestView {
                method: Method::Delete,
                url: self@.endpoint + ("/_db/"@ + db@ + "/_api/collection/"@ + coll@),
                body: None,
            }),
    {
        let mut path = "/_db/".to_owned();
        path.append(db);
        path.append("/_api/collection/");
        path.append(coll);
        Request { method: Method::Delete, url: self.url(path.as_str()), body: None }
    }

    /// Asks for a collection to be created.
    pub fn create_collection(&self, db: &str, name: &str, number_of_shards: u64) -> (res: Request)
        ensures
            res@ == (RequestView {
                method: Method::Post,
                url: self@.endpoint + ("/_db/"@ + db@ + "/_api/collection"@),
                body: Some(collection_body(name@, number_of_shards)),
            }),
    {
        let mut path = "/_db/".to_owned();
        path.append(db);
        path.append("/_api/collection");
        let entries: Vec<(String, Json)> = vec![
            ("name".to_owned(), Json::Text(name.to_owned())),
            ("numberOfShards".to_owned(), Json::Unsigned(number_of_shards)),
        ];
        let body = Json::Object(entries);
        proof {
            crate::json::lemma_view_parts(body);
            assert(crate::json::entry_views(entries@) =~= collection_body(
                name@,
                number_of_shards,
            )->Object_0);
        }
        Request { method: Method::Post, url: self.url(path.as_str()), body: Some(body) }
    }

    /// Asks how many documents a collection holds; `count_reply` reads the reply.
    pub fn collection_count(&self, db: &str, coll: &str) -> (res: Request)
        ensures
            res@ == (RequestView {
                method: Method::Get,
                url: self@.endpoint + ("/_db/"@ + db@ + "/_api/collection/"@ + coll@ + "/count"@),
                body: None,
            }),
    {
        let mut path = "/_db/".to_owned();
        path.append(db);
        path.append("/_api/collection/");
        path.append(coll);
        path.append("/count");
        Request { method: Method::Get, url: self.url(path.as_str()), body: None }
    }

    /// Asks for documents to be inserted.
    pub fn insert_docs(&self, db: &str, coll: &str, docs: Json) -> (res: Request)
        ensures
            res@ == (RequestView {
                method: Method::Post,
                url: self@.endpoint + ("/_db/"@ + db@ + "/_api/document/"@ + coll@
                    + "?silent=true"@),
                body: Some(docs@),
            }),
    {
        let mut path = "/_db/".to_owned();
        path.append(db);
        path.append("/_api/document/");
        path.append(coll);
        path.append("?silent=true");
        Request { method: Method::Post, url: self.url(path.as_str()), body: Some(docs) }
    }

    /// Asks for an index with the definition `def`.
    pub fn create_vector_index(&self, db: &str, coll: &str, def: Json) -> (res: Request)
        ensures
            res@ == (RequestView {
                method: Method::Post,
                url: self@.endpoint + ("/_db/"@ + db@ + "/_api/index?collection="@ + coll@),
                body: Some(def@),
            }),
    {
        let mut path = "/_db/".to_owned();
        path.append(db);
        path.append("/_api/index?collection=");
        path.append(coll);
        Request { method: Method::Post, url: self.url(path.as_str()), body: Some(def) }
    }

    /// Asks which indexes a collection has.
    pub fn list_indexes(&self, db: &str, coll: &str, with_hidden: bool) -> (res: Request)
        ensures
            res@ == (RequestView {
                method: Method::Get,
                url: self@.endpoint + ("/_db/"@ + db@ + "/_api/index?collection="@ + coll@
                    + "&withHidden="@ + (if with_hidden {
                    "true"@
                } else {
                    "false"@
                })),
                body: None,
            }),
    {
        let mut path = "/_db/".to_owned();
        path.append(db);
        path.append("/_api/index?collection=");
        path.append(coll);
        path.append("&withHidden=");
        path.append(
            if with_hidden {
                "true"
            } else {
                "false"
            },
        );
        Request { method: Method::Get, url: self.url(path.as_str()), body: None }
    }

    /// Asks for a query to be run; `Cursor` collects the pages of rows.
    pub fn aql(&self, db: &str, query: &str, bind_vars: Json) -> (res: Request)
        ensures
            res@ == (RequestView {
                method: Method::Post,
                url: self@.endpoint + ("/_db/"@ + db@ + "/_api/cursor"@),
                body: Some(cursor_body(query@, bind_vars@)),
            }),
    {
        let ghost vars = bind_vars@;
        let mut path = "/_db/".to_owned();
        path.append(db);
        path.append("/_api/cursor");
        let entries: Vec<(String, Json)> = vec![
            ("batchSize".to_owned(), Json::Unsigned(10_000)),
            ("bindVars".to_owned(), bind_vars),
            ("query".to_owned(), Json::Text(query.to_owned())),
        ];
        let body = Json::Object(entries);
        proof {
            crate::json::lemma_view_parts(body);
            assert(crate::json::entry_views(entries@) =~= cursor_body(query@, vars)->Object_0);
        }
        Request { method: Method::Post, url: self.url(path.as_str()), body: Some(body) }
    }

    /// Asks for the next page of the cursor `id`.
    pub fn next_page(&self, db: &str, id: &str) -> (res: Request)
        ensures
            res@ == (RequestView {
                method: Method::Post,
                url: self@.endpoint + ("/_db/"@ + db@ + "/_api/cursor/"@ + id@),
                body: None,
            }),
    {
        let mut path = "/_db/".to_owned();
        path.append(db);
        path.append("/_api/cursor/");
        path.append(id);
        Request { method: Method::Post, url: self.url(path.as_str()), body: None }
    }

    /// Asks for the persisted operating points of an index.
    pub fn get_autotune(&self, db: &str, index_id: &str) -> (res: Request)
        ensures
            res@ == (RequestView {
                method: Method::Get,
                url: self@.endpoint + autotune_path(db@, index_id@),
                body: None,
            }),
    {
        let path = path_of_autotune(db, index_id);
        Request { method: Method::Get, url: self.url(path.as_str()), body: None }
    }

    /// Asks for an index to be tuned, as a job; `submission_reply` reads the reply.
    pub fn submit_autotune(&self, db: &str, index_id: &str, top_k: usize, target: &str) -> (res:
        Request)
        ensures
            res@ == (RequestView {
                method: Method::Post,
                url: self@.endpoint + autotune_path(db@, index_id@),
                body: Some(autotune_body(top_k as u64, target@)),
            }),
    {
        let path = path_of_autotune(db, index_id);
        let entries: Vec<(String, Json)> = vec![
            ("targetRecall".to_owned(), Json::Float(target.to_owned())),
            ("topK".to_owned(), Json::Unsigned(top_k as u64)),
        ];
        let body = Json::Object(entries);
        proof {
            crate::json::lemma_view_parts(body);
            assert(crate::json::entry_views(entries@) =~= autotune_body(
                top_k as u64,
                target@,
            )->Object_0);
        }
        Request { method: Method::Post, url: self.url(path.as_str()), body: Some(body) }
    }

    /// Asks for the result of a job; `job_reply` reads the reply.
    pub fn poll_job(&self, db: &str, job: &str) -> (res: Request)
        ensures
            res@ == (RequestView {
                method: Method::Put,
                url: self@.endpoint + ("/_db/"@ + db@ + "/_api/job/"@ + job@),
                body: None,
            }),
    {
        let mut path = "/_db/".to_owned();
        path.append(db);
        path.append("/_api/job/");
        path.append(job);
        Request { method: Method::Put, url: self.url(path.as_str()), body: None }
    }
}

/// Slashes at the end of the endpoint make no difference: they, and nothing else, are taken off.
pub proof fn law_endpoint_slashes(endpoint: Seq<char>)
    ensures
        without_slashes(endpoint.push('/')) == without_slashes(endpoint),
        without_slashes(without_slashes(endpoint)) == without_slashes(endpoint),
        without_slashes(endpoint).len() <= endpoint.len(),
        without_slashes(endpoint) == endpoint.take(without_slashes(endpoint).len() as int),
        without_slashes(endpoint).len() > 0 ==> without_slashes(endpoint).last() != '/',
        forall|i: int|
            without_slashes(endpoint).len() <= i < endpoint.len() ==> #[trigger] endpoint[i] == '/',
    decreases endpoint.len(),
{
    assert(endpoint.push('/').drop_last() =~= endpoint);
    if endpoint.len() > 0 && endpoint.last() == '/' {
        let rest = endpoint.drop_last();
        law_endpoint_slashes(rest);
        let n = without_slashes(endpoint).len() as int;
        assert(endpoint.take(n) =~= rest.take(n));
        assert forall|i: int| n <= i < endpoint.len() implies #[trigger] endpoint[i] == '/' by {
            if i < rest.len() {
                assert(rest[i] == endpoint[i]);
            }
        }
    } else {
        assert(endpoint.take(endpoint.len() as int) =~= endpoint);
    }
}

/// What a request asks for stands in its body under the names that the server knows: a
/// database and a collection by name, a collection with its number of shards, a query with its
/// bind variables, and tuning for a recall at a cutoff.
pub proof fn law_bodies_hold_what_is_asked(
    name: Seq<char>,
    shards: u64,
    query: Seq<char>,
    vars: JsonView,
    target: Seq<char>,
    top_k: u64,
)
    ensures
        crate::json::member(database_body(name), "name"@) == JsonView::Text(name),
        crate::json::member(collection_body(name, shards), "name"@) == JsonView::Text(name),
        crate::json::member(collection_body(name, shards), "numberOfShards"@)
            == JsonView::Unsigned(shards),
        crate::json::member(cursor_body(query, vars), "query"@) == JsonView::Text(query),
        crate::json::member(cursor_body(query, vars), "bindVars"@) == vars,
        crate::json::member(cursor_body(query, vars), "batchSize"@) == JsonView::Unsigned(10_000),
        crate::json::member(autotune_body(top_k, target), "topK"@) == JsonView::Unsigned(top_k),
        crate::json::member(autotune_body(top_k, target), "targetRecall"@) == JsonView::Float(
            target,
        ),
{
    reveal_with_fuel(crate::json::lookup, 4);
    reveal_strlit("name");
    reveal_strlit("numberOfShards");
    reveal_strlit("batchSize");
    reveal_strlit("bindVars");
    reveal_strlit("query");
    reveal_strlit("targetRecall");
    reveal_strlit("topK");
    assert("name"@.len() == 4 && "numberOfShards"@.len() == 14);
    assert("batchSize"@.len() == 9 && "bindVars"@.len() == 8 && "query"@.len() == 5);
    assert("targetRecall"@.len() == 12 && "topK"@.len() == 4);
    let collection = collection_body(name, shards)->Object_0;
    assert(collection.drop_first()[0] == ("numberOfShards"@, JsonView::Unsigned(shards)));
    let cursor = cursor_body(query, vars)->Object_0;
    assert(cursor.drop_first()[0] == ("bindVars"@, vars));
    assert(cursor.drop_first().drop_first()[0] == ("query"@, JsonView::Text(query)));
    let tune = autotune_body(top_k, target)->Object_0;
    assert(tune.drop_first()[0] == ("topK"@, JsonView::Unsigned(top_k)));
}

/// The operating points of an index are asked for under its own database and id.
pub proof fn law_autotune_path(db: Seq<char>, id: Seq<char>)
    ensures
        crate::text::begins_with(autotune_path(db, id), "/_db/"@ + db + "/_api/index/"@),
        crate::text::ends_in(autotune_path(db, id), "/_api/index/"@ + id + "/autotune"@),
{
    let a = "/_db/"@ + db;
    let b = "/_api/index/"@ + id + "/autotune"@;
    assert(autotune_path(db, id) =~= a + b);
    crate::text::lemma_pieces(a, b);
    let c = "/_db/"@ + db + "/_api/index/"@;
    assert(autotune_path(db, id) =~= c + (id + "/autotune"@));
    crate::text::lemma_pieces(c, id + "/autotune"@);
}

// ---------------------------------------------------------------------------
// Replies
// ---------------------------------------------------------------------------

/// The codes that report success.
pub open spec fn is_success(code: u16) -> bool {
    200 <= code < 300
}

/// Success is reported by the codes of the second hundred alone.
pub proof fn law_success_codes(code: u16)
    ensures
        is_success(code) <==> code / 100 == 2,
{
}

/// The status of a reply: its code, and the code with its phrase, such as `404 Not Found`.
pub struct Status {
    pub code: u16,
    pub text: String,
}

impl Status {
    /// Whether the reply reports success.
    pub fn success(&self) -> (res: bool)
        ensures
            res == is_success(self.code),
    {
        200 <= self.code && self.code < 300
    }
}

/// What a reply lacks.
#[derive(Copy, Clone, Debug, PartialEq, Eq, Structural)]
pub enum Missing {
    /// The number of documents of a collection.
    Count,
    /// The rows of the first page of a cursor.
    Result,
    /// The id under which the next page is asked for.
    CursorId,
    /// The rows of a later page.
    NextResult,
}

/// What the user is told of a reply that lacks something.
pub open spec fn missing_text(m: Missing) -> Seq<char> {
    match m {
        Missing::Count => "missing 'count' in collection response"@,
        Missing::Result => "missing 'result' in cursor response"@,
        Missing::CursorId => "missing cursor 'id' for continuation"@,
        Missing::NextResult => "missing 'result' in cursor continuation"@,
    }
}

impl Missing {
    /// What the user is told.
    pub fn message(self) -> (res: &'static str)
        ensures
            res@ == missing_text(self),
    {
        match self {
            Missing::Count => "missing 'count' in collection response",
            Missing::Result => "missing 'result' in cursor response",
            Missing::CursorId => "missing cursor 'id' for continuation",
            Missing::NextResult => "missing 'result' in cursor continuation",
        }
    }
}

/// Why a reply is of no use.
pub enum ClientError {
    /// The text of the reply is not JSON.
    Decode { line: String, text: String, cause: serde_json::Error },
    /// The server refused the request.
    Refused { line: String, status: String, value: Json },
    /// The server did not drop a database or a collection.
    NotDropped { what: &'static str, name: String, status: String },
    /// The reply lacks something.
    Lacks(Missing),
}

/// `message` is what the user is told of an error.
pub open spec fn is_client_message(e: ClientError, message: Seq<char>) -> bool {
    match e {
        ClientError::Decode { line, text, cause: _ } => message == "decoding JSON from "@ + line@
            + ": "@ + text@,
        ClientError::Refused { line, status, value } => crate::json::ordered(value@) ==> message
            == line@ + " -> "@ + status@ + ": "@ + crate::json::json_text(
            crate::json::rendered(value@),
        ),
        ClientError::NotDropped { what, name, status } => message == "DELETE "@ + what@ + " "@
            + name@ + ": "@ + status@,
        ClientError::Lacks(m) => message == missing_text(m),
    }
}

impl ClientError {
    /// What the user is told.
    pub fn message(&self) -> (res: String)
        ensures
            is_client_message(*self, res@),
    {
        match self {
            ClientError::Decode { line, text, cause: _ } => {
                let mut out = "decoding JSON from ".to_owned();
                out.append(line.as_str());
                out.append(": ");
                out.append(text.as_str());
                out
            },
            ClientError::Refused { line, status, value } => {
                let mut out = line.clone();
                out.append(" -> ");
                out.append(status.as_str());
                out.append(": ");
                out.append(write_json(value).as_str());
                out
            },
            ClientError::NotDropped { what, name, status } => {
                let mut out = "DELETE ".to_owned();
                out.append(what);
                out.append(" ");
                out.append(name.as_str());
                out.append(": ");
                out.append(status.as_str());
                out
            },
            ClientError::Lacks(m) => m.message().to_owned(),
        }
    }
}

/// The value that the text of a reply holds: `Null` where there is no text; `None` where the
/// text is not JSON.
pub open spec fn reply_value(text: Seq<char>) -> Option<JsonView> {
    if text.len() == 0 {
        Some(JsonView::Null)
    } else {
        crate::json::json_read(text)
    }
}

/// `res` is the value of a reply with this status and text: the value where the server reports
/// success, the refusal with the value where it does not, and an error where the text is not
/// JSON, whatever the status.
pub open spec fn is_reply(
    line: Seq<char>,
    status: Status,
    text: Seq<char>,
    res: Result<Json, ClientError>,
) -> bool {
    match reply_value(text) {
        None => res matches Err(ClientError::Decode { line: l, text: t, cause: _ }) && l@ == line
            && t@ == text,
        Some(v) => if is_success(status.code) {
            res matches Ok(j) && j@ == v
        } else {
            res matches Err(ClientError::Refused { line: l, status: s, value }) && l@ == line && s@
                == status.text@ && value@ == v
        },
    }
}

/// A reply is of use exactly where the server reports success with JSON or with no text at all.
/// Text that is not JSON is told as such whatever the status; a refusal carries the status and
/// what the server said of it, which is nothing where there is no text.
pub proof fn law_replies(
    line: Seq<char>,
    status: Status,
    text: Seq<char>,
    res: Result<Json, ClientError>,
)
    requires
        is_reply(line, status, text, res),
    ensures
        res is Ok <==> 200 <= status.code <= 299 && (text == Seq::<char>::empty()
            || crate::json::json_read(text) is Some),
        res matches Ok(j) ==> (text == Seq::<char>::empty() ==> j@ == JsonView::Null) && (text
            != Seq::<char>::empty() ==> crate::json::json_read(text) == Some(j@)),
        res matches Err(ClientError::Refused { line: l, status: s, value }) ==> (!(200
            <= status.code <= 299) && l@ == line && s@ == status.text@ && (text
            == Seq::<char>::empty() ==> value@ == JsonView::Null) && (text != Seq::<char>::empty()
            ==> crate::json::json_read(text) == Some(value@))),
        res matches Err(ClientError::Decode { line: l, text: t, cause: _ }) ==> (l@ == line && t@
            == text && text != Seq::<char>::empty() && crate::json::json_read(text) is None),
        !(res matches Err(ClientError::NotDropped { .. })),
        !(res matches Err(ClientError::Lacks(_))),
{
    if text.len() == 0 {
        assert(text =~= Seq::<char>::empty());
    }
}

impl Request {
    /// The value of the reply to this request.
    pub fn reply(&self, status: &Status, text: &str) -> (res: Result<Json, ClientError>)
        ensures
            is_reply(request_line(self.method, self.url@), *status, text@, res),
            res matches Ok(j) ==> crate::json::canonical(j@),
            res matches Err(ClientError::Refused { line: _, status: _, value })
                ==> crate::json::canonical(value@),
    {
        let value = if text.unicode_len() == 0 {
            Json::Null
        } else {
            match parse_json(text) {
                Ok(value) => value,
                Err(cause) => {
                    return Err(
                        ClientError::Decode { line: self.line(), text: text.to_owned(), cause },
                    );
                },
            }
        };
        if !status.success() {
            return Err(
                ClientError::Refused { line: self.line(), status: status.text.clone(), value },
            );
        }
        Ok(value)
    }
}

/// The code of a reply to a request to drop something after which it is gone.
pub open spec fn is_gone(code: u16) -> bool {
    is_success(code) || code == 404
}

/// What was to be dropped is gone after success and where it never was; any other refusal leaves
/// it.
pub proof fn law_gone(code: u16)
    ensures
        200 <= code <= 299 ==> is_gone(code),
        is_gone(404),
        is_gone(code) && !is_success(code) ==> code == 404,
{
}

/// The job as which a run goes on, where the server accepted it so.
pub open spec fn runs_as(code: u16, job: Option<Seq<char>>) -> Option<Seq<char>> {
    if code == 202 {
        job
    } else {
        None
    }
}

/// The reply that there is nothing yet.
pub open spec fn is_pending(code: u16) -> bool {
    code == 204
}

/// A run goes on as a job only where the server accepted it with that very id, and a job is
/// pending only by the code for no content; both codes report success.
pub proof fn law_jobs(code: u16, job: Option<Seq<char>>)
    ensures
        runs_as(code, job) is Some ==> runs_as(code, job) == job && is_success(code) && code == 202,
        code == 202 ==> runs_as(code, job) == job,
        is_pending(code) <==> code == 204,
        is_pending(code) ==> is_success(code) && runs_as(code, job) is None,
{
}

/// What the reply to a request to drop something means: it is gone where the server reports
/// success or does not know it.
fn drop_reply(what: &'static str, name: &str, status: &Status) -> (res: Result<(), ClientError>)
    ensures
        res is Ok <==> is_gone(status.code),
        is_success(status.code) || status.code == 404 <==> res is Ok,
        res matches Err(e) ==> e matches ClientError::NotDropped { what: w, name: n, status: s }
            && w@ == what@ && n@ == name@ && s@ == status.text@,
{
    if status.code == 404 || status.success() {
        Ok(())
    } else {
        Err(ClientError::NotDropped { what, name: name.to_owned(), status: status.text.clone() })
    }
}

/// What the reply to `drop_database_if_exists` means.
pub fn drop_database_reply(db: &str, status: &Status) -> (res: Result<(), ClientError>)
    ensures
        res is Ok <==> is_gone(status.code),
        is_success(status.code) || status.code == 404 <==> res is Ok,
        res matches Err(e) ==> e matches ClientError::NotDropped { what, name, status: s } && what@
            == "database"@ && name@ == db@ && s@ == status.text@,
{
    drop_reply("database", db, status)
}

/// What the reply to `drop_collection_if_exists` means.
pub fn drop_collection_reply(coll: &str, status: &Status) -> (res: Result<(), ClientError>)
    ensures
        res is Ok <==> is_gone(status.code),
        is_success(status.code) || status.code == 404 <==> res is Ok,
        res matches Err(e) ==> e matches ClientError::NotDropped { what, name, status: s } && what@
            == "collection"@ && name@ == coll@ && s@ == status.text@,
{
    drop_reply("collection", coll, status)
}

/// The number of documents that the reply to `collection_count` tells.
pub fn count_reply(v: &Json) -> (res: Result<u64, ClientError>)
    ensures
        match crate::json::as_u64(crate::json::member(v@, "count"@)) {
            Some(n) => res matches Ok(r) && r == n,
            None => res matches Err(ClientError::Lacks(m)) && m == Missing::Count,
        },
{
    match v.get_u64("count") {
        Some(n) => Ok(n),
        None => Err(ClientError::Lacks(Missing::Count)),
    }
}

/// How an autotune run was answered.
pub enum AsyncSubmission {
    /// It is done already, with this result.
    Done(Json),
    /// It runs as the job with this id.
    Job(String),
}

impl Request {
    /// What the reply to `submit_autotune` means, where `job` is the id of a job that it names:
    /// the run goes on as that job where the server accepted it so, else it is done.
    pub fn submission_reply(&self, status: &Status, job: Option<&str>, text: &str) -> (res: Result<
        AsyncSubmission,
        ClientError,
    >)
        ensures
            match job {
                Some(id) => status.code == 202 ==> (res matches Ok(AsyncSubmission::Job(i)) && i@
                    == id@),
                None => true,
            },
            match runs_as(status.code, crate::json::opt_str(job)) {
                Some(id) => res matches Ok(AsyncSubmission::Job(i)) && i@ == id,
                None => !(res matches Ok(AsyncSubmission::Job(_))),
            },
            status.code != 202 || job is None ==> !(res matches Ok(AsyncSubmission::Job(_)))
                && is_reply(
                request_line(self.method, self.url@),
                *status,
                text@,
                match res {
                    Ok(AsyncSubmission::Done(j)) => Ok(j),
                    Ok(AsyncSubmission::Job(_)) => Ok(Json::Null),
                    Err(e) => Err(e),
                },
            ),
    {
        if status.code == 202 {
            if let Some(id) = job {
                return Ok(AsyncSubmission::Job(id.to_owned()));
            }
        }
        match self.reply(status, text) {
            Ok(j) => Ok(AsyncSubmission::Done(j)),
            Err(e) => Err(e),
        }
    }

    /// What the reply to `poll_job` means: nothing yet where the server has no content for it,
    /// else the result of the job.
    pub fn job_reply(&self, status: &Status, text: &str) -> (res: Result<Option<Json>, ClientError>)
        ensures
            (res matches Ok(None)) <==> is_pending(status.code),
            status.code == 204 ==> (res matches Ok(None)),
            status.code != 204 ==> !(res matches Ok(None)) && is_reply(
                request_line(self.method, self.url@),
                *status,
                text@,
                match res {
                    Ok(Some(j)) => Ok(j),
                    Ok(None) => Ok(Json::Null),
                    Err(e) => Err(e),
                },
            ),
    {
        if status.code == 204 {
            return Ok(None);
        }
        match self.reply(status, text) {
            Ok(j) => Ok(Some(j)),
            Err(e) => Err(e),
        }
    }
}

// ---------------------------------------------------------------------------
// Cursors
// ---------------------------------------------------------------------------

/// The rows of a page.
pub open spec fn page_rows(page: JsonView) -> Option<Seq<JsonView>> {
    crate::json::as_array(crate::json::member(page, "result"@))
}

/// Whether there are more pages behind this one.
pub open spec fn page_has_more(page: JsonView) -> bool {
    crate::json::as_bool(crate::json::member(page, "hasMore"@)) == Some(true)
}

/// The id of the cursor that a page belongs to.
pub open spec fn page_id(page: JsonView) -> Option<Seq<char>> {
    crate::json::as_str(crate::json::member(page, "id"@))
}

/// What a page lacks: its rows, or the id where there are more pages behind it.
pub open spec fn page_lacks(page: JsonView, first: bool) -> Option<Missing> {
    if page_rows(page) is None {
        Some(
            if first {
                Missing::Result
            } else {
                Missing::NextResult
            },
        )
    } else if page_has_more(page) && page_id(page) is None {
        Some(Missing::CursorId)
    } else {
        None
    }
}

/// The cursor under which the page behind this one is asked for, where there is one.
pub open spec fn page_next(page: JsonView) -> Option<Seq<char>> {
    if page_has_more(page) {
        page_id(page)
    } else {
        None
    }
}

/// There is a next page exactly where a page says so, and it is asked for under that page's own
/// id; a page is refused only where its rows, or the id that is then needed, are missing.
pub proof fn law_pages(page: JsonView, first: bool)
    ensures
        ({
            let more = crate::json::member(page, "hasMore"@) == JsonView::Bool(true);
            let rows = crate::json::member(page, "result"@);
            let id = crate::json::member(page, "id"@);
            &&& page_next(page) is Some ==> more
            &&& !more ==> page_next(page) is None
            &&& more && page_lacks(page, first) is None ==> page_next(page) is Some && id
                == JsonView::Text(page_next(page)->0)
            &&& page_lacks(page, first) is None ==> rows == JsonView::Array(page_rows(page)->0)
            &&& page_lacks(page, first) is Some <==> !(rows is Array) || (more && !(id is Text))
            &&& page_lacks(page, first) == Some(Missing::CursorId) <==> rows is Array && more && !(
            id is Text)
            &&& page_lacks(page, true) == Some(Missing::Result) <==> !(rows is Array)
            &&& page_lacks(page, false) == Some(Missing::NextResult) <==> !(rows is Array)
        }),
{
}

/// The rows that came so far with those of the next page.
pub open spec fn with_page(rows: Seq<JsonView>, page: JsonView) -> Seq<JsonView> {
    match page_rows(page) {
        Some(more) => rows + more,
        None => rows,
    }
}

/// Pages come one behind the other: a page changes nothing of the rows that came before it, and
/// its own rows follow them in their order.
pub proof fn law_pages_follow_one_another(rows: Seq<JsonView>, page: JsonView, i: int)
    requires
        page_rows(page) is Some,
        0 <= i,
    ensures
        ({
            let all = with_page(rows, page);
            let more = page_rows(page)->0;
            &&& crate::json::member(page, "result"@) == JsonView::Array(more)
            &&& all.len() == rows.len() + more.len()
            &&& i < rows.len() ==> all[i] == rows[i]
            &&& i < more.len() ==> all[rows.len() + i] == more[i]
        }),
{
}

/// The rows of a query that came so far, and the cursor under which to ask for more.
pub struct Cursor {
    pub rows: Vec<Json>,
    pub next: Option<String>,
}

impl Cursor {
    /// A cursor before its first page.
    pub fn new() -> (res: Cursor)
        ensures
            crate::json::json_views(res.rows@) == Seq::<JsonView>::empty(),
            res.next is None,
    {
        let res = Cursor { rows: Vec::new(), next: None };
        assert(crate::json::json_views(res.rows@) =~= Seq::<JsonView>::empty());
        res
    }

    /// Takes the next page: its rows come behind those that came so far, and it says whether
    /// and where to ask for more. `first` says that it is the first page. A page that lacks
    /// something changes nothing.
    pub fn take(&mut self, page: &Json, first: bool) -> (res: Result<(), ClientError>)
        ensures
            match page_lacks(page@, first) {
                Some(m) => {
                    &&& res matches Err(ClientError::Lacks(l)) && l == m
                    &&& *final(self) == *old(self)
                },
                None => {
                    &&& res is Ok
                    &&& crate::json::json_views(final(self).rows@) == with_page(
                        crate::json::json_views(old(self).rows@),
                        page@,
                    )
                    &&& crate::json::opt_text(final(self).next) == page_next(page@)
                },
            },
    {
        let rows = match page.get_array("result") {
            Some(rows) => rows,
            None => {
                return Err(
                    ClientError::Lacks(
                        if first {
                            Missing::Result
                        } else {
                            Missing::NextResult
                        },
                    ),
                );
            },
        };
        let more = match page.get("hasMore") {
            Some(j) => match j.as_bool() {
                Some(b) => b,
                None => false,
            },
            None => false,
        };
        let next = if more {
            match page.get_str("id") {
                Some(id) => Some(id.to_owned()),
                None => {
                    return Err(ClientError::Lacks(Missing::CursorId));
                },
            }
        } else {
            None
        };
        let ghost before = crate::json::json_views(self.rows@);
        let ghost all = crate::json::json_views(rows@);
        assert(before =~= before + all.take(0));
        for i in 0..rows.len()
            invariant
                all == crate::json::json_views(rows@),
                crate::json::json_views(self.rows@) == before + all.take(i as int),
        {
            let ghost here = crate::json::json_views(self.rows@);
            self.rows.push(rows[i].copy());
            assert(crate::json::json_views(self.rows@) =~= here.push(all[i as int]));
            assert(before + all.take(i + 1) =~= here.push(all[i as int]));
        }
        assert(all.take(rows@.len() as int) =~= all);
        self.next = next;
        Ok(())
    }
}

/// The bodies that requests carry have their keys in order, so that their text is that of
/// `serde_json`; that of a query where its bind variables are in order.
pub proof fn law_bodies_are_ordered(db: Seq<char>, name: Seq<char>, shards: u64, vars: JsonView)
    ensures
        crate::json::ordered(autotune_body(shards, name)),
        crate::json::ordered(database_body(db)),
        crate::json::ordered(collection_body(name, shards)),
        crate::json::ordered(vars) ==> crate::json::ordered(cursor_body(name, vars)),
{
    reveal_with_fuel(crate::json::ordered, 2);
    reveal_with_fuel(crate::json::text_before, 3);
    reveal_strlit("name");
    reveal_strlit("numberOfShards");
    reveal_strlit("batchSize");
    reveal_strlit("bindVars");
    reveal_strlit("query");
    reveal_strlit("targetRecall");
    reveal_strlit("topK");
    assert(crate::json::text_before("targetRecall"@, "topK"@));
    assert(crate::json::text_before("name"@, "numberOfShards"@));
    assert(crate::json::text_before("batchSize"@, "bindVars"@));
    assert(crate::json::text_before("bindVars"@, "query"@));
    assert(crate::json::text_before("batchSize"@, "query"@));
}

} // verus!
