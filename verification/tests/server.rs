use vrecall::args::IndexType;
use vrecall::client::{
    count_reply, drop_collection_reply, drop_database_reply, AsyncSubmission, Client, ClientError,
    Cursor, Method, Request, Status,
};
use vrecall::explain::{arangosh_args, not_explained_lines};
use vrecall::indexes::{
    index_alpha, index_stats, is_ready, resolve_nlists, shows_ready, ListError,
};
use vrecall::json::{json_scalar_str, parse_json, put_entry, write_json, Json};
use vrecall::setup_run::{
    build_next, BuildEvent, BuildStep, SetupEvent, SetupFacts, SetupStep,
};

fn json(text: &str) -> Json {
    parse_json(text).unwrap_or_else(|e| panic!("{e}: {text}"))
}

fn client() -> Client {
    Client::new("http://h:8529//", "root", "pw")
}

fn shown(r: Request) -> (Method, String, Option<String>) {
    (r.method, r.url, r.body.map(|b| write_json(&b)))
}

fn status(code: u16, text: &str) -> Status {
    Status { code, text: text.to_string() }
}

#[test]
fn endpoint_loses_its_slashes() {
    let c = client();
    assert_eq!((c.endpoint(), c.user(), c.password()), ("http://h:8529", "root", "pw"));
    assert_eq!(c.url("/x"), "http://h:8529/x");
    assert_eq!(Client::new("///", "", "").endpoint(), "");
    assert_eq!(Client::new("http://h/a", "", "").endpoint(), "http://h/a");
}

#[test]
fn autotune_runs_as_a_job() {
    let c = client();
    let url = "http://h:8529/_db/d/_api/index/c/7/autotune".to_string();
    assert_eq!(shown(c.get_autotune("d", "c/7")), (Method::Get, url.clone(), None));
    let body = "{\"targetRecall\":0.95,\"topK\":10}".to_string();
    let submit = c.submit_autotune("d", "c/7", 10, "0.95");
    match submit.submission_reply(&status(202, "202 Accepted"), Some("99"), "") {
        Ok(AsyncSubmission::Job(id)) => assert_eq!(id, "99"),
        _ => panic!("no job"),
    }
    for (code, job) in [(200, Some("99")), (202, None)] {
        match submit.submission_reply(&status(code, "OK"), job, "{\"a\":1}") {
            Ok(AsyncSubmission::Done(v)) => assert_eq!(write_json(&v), "{\"a\":1}"),
            _ => panic!("not done"),
        }
    }
    match submit.submission_reply(&status(404, "404 Not Found"), None, "null") {
        Err(e) => assert_eq!(e.message(), format!("POST {url} -> 404 Not Found: null")),
        Ok(_) => panic!("not refused"),
    }
    assert_eq!(shown(submit), (Method::Post, url, Some(body)));

    let poll = c.poll_job("d", "99");
    assert_eq!(poll.line(), "PUT http://h:8529/_db/d/_api/job/99");
    assert!(matches!(poll.job_reply(&status(204, "204 No Content"), ""), Ok(None)));
    match poll.job_reply(&status(200, "200 OK"), "[1]") {
        Ok(Some(v)) => assert_eq!(write_json(&v), "[1]"),
        _ => panic!("no result"),
    }
    assert!(poll.job_reply(&status(500, "500 Internal Server Error"), "{}").is_err());
    assert_eq!(shown(poll).2, None);
}

#[test]
fn requests_go_to_the_right_place() {
    let c = client();
    let base = "http://h:8529/_db/";
    let get = |path: &str| (Method::Get, format!("{base}{path}"), None);
    let delete = |path: &str| (Method::Delete, format!("{base}{path}"), None);
    let post = |path: &str, body: Option<&str>| {
        (Method::Post, format!("{base}{path}"), body.map(|b| b.to_string()))
    };
    assert_eq!(shown(c.drop_database_if_exists("d")), delete("_system/_api/database/d"));
    assert_eq!(
        shown(c.create_database("d")),
        post("_system/_api/database", Some("{\"name\":\"d\"}"))
    );
    assert_eq!(shown(c.database_exists("d")), get("d/_api/database/current"));
    assert_eq!(shown(c.drop_collection_if_exists("d", "c")), delete("d/_api/collection/c"));
    assert_eq!(
        shown(c.create_collection("d", "c", 3)),
        post("d/_api/collection", Some("{\"name\":\"c\",\"numberOfShards\":3}"))
    );
    assert_eq!(shown(c.collection_count("d", "c")), get("d/_api/collection/c/count"));
    assert_eq!(
        shown(c.insert_docs("d", "c", json("[{\"idx\":0}]"))),
        post("d/_api/document/c?silent=true", Some("[{\"idx\":0}]"))
    );
    assert_eq!(
        shown(c.create_vector_index("d", "c", json("{\"name\":\"v\"}"))),
        post("d/_api/index?collection=c", Some("{\"name\":\"v\"}"))
    );
    assert_eq!(
        shown(c.list_indexes("d", "c", true)),
        get("d/_api/index?collection=c&withHidden=true")
    );
    assert_eq!(
        shown(c.list_indexes("d", "c", false)),
        get("d/_api/index?collection=c&withHidden=false")
    );
    assert_eq!(
        shown(c.aql("d", "RETURN 1", json("{}"))),
        post(
            "d/_api/cursor",
            Some("{\"batchSize\":10000,\"bindVars\":{},\"query\":\"RETURN 1\"}")
        )
    );
    assert_eq!(shown(c.next_page("d", "17")), post("d/_api/cursor/17", None));
}

#[test]
fn replies_are_read() {
    let r = client().database_exists("d");
    let ok = status(200, "200 OK");
    assert!(matches!(r.reply(&ok, ""), Ok(Json::Null)));
    assert_eq!(write_json(&r.reply(&ok, "{\"b\":1,\"a\":[2.50,-3]}").ok().unwrap()), "{\"a\":[2.5,-3],\"b\":1}");
    let err = r.reply(&status(404, "404 Not Found"), "{\"error\": true}").err().unwrap();
    assert_eq!(
        err.message(),
        "GET http://h:8529/_db/d/_api/database/current -> 404 Not Found: {\"error\":true}"
    );
    let err = r.reply(&status(500, "500 Internal Server Error"), "").err().unwrap();
    assert_eq!(
        err.message(),
        "GET http://h:8529/_db/d/_api/database/current -> 500 Internal Server Error: null"
    );
    // What is not JSON is an error whatever the status.
    for s in [ok, status(502, "502 Bad Gateway")] {
        let err = r.reply(&s, "<html>").err().unwrap();
        assert_eq!(
            err.message(),
            "decoding JSON from GET http://h:8529/_db/d/_api/database/current: <html>"
        );
        assert!(matches!(err, ClientError::Decode { .. }));
    }
    assert!(r.reply(&status(299, "299"), "1").is_ok());
    assert!(r.reply(&status(300, "300"), "1").is_err());
    assert!(r.reply(&status(199, "199"), "1").is_err());
}

#[test]
fn dropping_what_is_not_there_is_fine() {
    assert!(drop_database_reply("d", &status(200, "200 OK")).is_ok());
    assert!(drop_database_reply("d", &status(404, "404 Not Found")).is_ok());
    let err = drop_database_reply("d", &status(403, "403 Forbidden")).err().unwrap();
    assert_eq!(err.message(), "DELETE database d: 403 Forbidden");
    let err = drop_collection_reply("c", &status(500, "500 x")).err().unwrap();
    assert_eq!(err.message(), "DELETE collection c: 500 x");
}

#[test]
fn count_is_read_from_the_reply() {
    assert_eq!(count_reply(&json("{\"count\": 12}")).ok(), Some(12));
    let err = count_reply(&json("{\"count\": \"12\"}")).err().unwrap();
    assert_eq!(err.message(), "missing 'count' in collection response");
}

#[test]
fn cursor_collects_all_pages() {
    let mut cursor = Cursor::new();
    assert!(cursor.take(&json(r#"{"result": [1, 2], "hasMore": true, "id": "9"}"#), true).is_ok());
    assert_eq!(cursor.next.as_deref(), Some("9"));
    assert!(cursor.take(&json(r#"{"result": [], "hasMore": true, "id": "9"}"#), false).is_ok());
    assert!(cursor.take(&json(r#"{"result": [3], "hasMore": false, "id": "9"}"#), false).is_ok());
    assert_eq!(cursor.next, None);
    let rows: Vec<u64> = cursor.rows.iter().map(|j| j.as_u64().unwrap()).collect();
    assert_eq!(rows, vec![1, 2, 3]);
    let mut lacks = |text: &str, first| cursor.take(&json(text), first).err().unwrap().message();
    assert_eq!(lacks("{}", true), "missing 'result' in cursor response");
    assert_eq!(lacks("{}", false), "missing 'result' in cursor continuation");
    assert_eq!(
        lacks(r#"{"result": [4], "hasMore": true}"#, false),
        "missing cursor 'id' for continuation"
    );
    assert_eq!(cursor.rows.len(), 3);
}

#[test]
fn indexes_are_ready_when_they_or_all_their_shards_say_so() {
    assert!(is_ready(&json(r#"{"trainingState": "ready"}"#)));
    assert!(!is_ready(&json(r#"{"trainingState": "training", "shards": {}}"#)));
    assert!(is_ready(&json(
        r#"{"shards": {"a": {"trainingState": "ready"}, "b": {"trainingState": "ready"}}}"#
    )));
    assert!(!is_ready(&json(r#"{"shards": {"a": {"trainingState": "ready"}, "b": {}}}"#)));
    assert!(is_ready(&json(r#"{"shards": {}}"#)));
    assert!(!is_ready(&json("{}")));
    let listing = json(r#"{"indexes": [{"name": "v", "trainingState": "ready"}]}"#);
    assert_eq!(shows_ready(&listing, "v"), Some(true));
    assert_eq!(shows_ready(&listing, "w"), Some(false));
    assert_eq!(shows_ready(&json("{}"), "v"), None);
}

#[test]
fn ivf_stats_are_laid_out() {
    let listing = json(
        r#"{"indexes": [{"name": "v", "type": "vector", "resolvedNLists": 448,
            "trainingState": "ready", "defaultNProbe": 3,
            "params": {"metric": "cosine", "dimension": 768, "trainingIterations": 25}}]}"#,
    );
    assert_eq!(
        index_stats(&listing, "v", "").ok().unwrap(),
        "Vector index stats:\n\
         \x20 name:               v\n\
         \x20 metric:             cosine\n\
         \x20 dimension:          768\n\
         \x20 nLists (requested): auto\n\
         \x20 resolvedNLists:     448\n\
         \x20 trainingIterations: 25\n\
         \x20 defaultNProbe:      3\n\
         \x20 trainingState:      ready\n"
    );
    let sharded = json(
        r#"{"indexes": [{"name": "v", "type": "vector", "params": {"nLists": 7, "defaultNProbe": 2},
            "shards": {"s1": {}, "s2": {"resolvedNLists": 9, "trainingState": "training"}}}]}"#,
    );
    assert_eq!(
        index_stats(&sharded, "v", "").ok().unwrap(),
        "Vector index stats:\n\
         \x20 name:               v\n\
         \x20 metric:             ?\n\
         \x20 dimension:          0\n\
         \x20 nLists (requested): 7\n\
         \x20 resolvedNLists:     9\n\
         \x20 trainingIterations: 0\n\
         \x20 defaultNProbe:      2\n\
         \x20 trainingState:      training (2 shards)\n"
    );
    let bare = json(r#"{"indexes": [{"name": "v", "type": "vector"}]}"#);
    assert_eq!(
        index_stats(&bare, "v", "").ok().unwrap(),
        "Vector index stats:\n\
         \x20 name:               v\n\
         \x20 metric:             ?\n\
         \x20 dimension:          0\n\
         \x20 nLists (requested): auto\n\
         \x20 trainingIterations: 0\n\
         \x20 defaultNProbe:      1\n"
    );
    assert_eq!(resolve_nlists(&json(r#"{"params": {"nLists": 7}, "resolvedNLists": 9}"#)), Some(7));
}

#[test]
fn graph_stats_are_laid_out() {
    let listing = json(
        r#"{"indexes": [{"name": "g", "type": "vector-graph", "segmentCount": 4, "onDiskBytes": 99,
            "params": {"metric": "l2", "dimension": 96, "maxDegree": 48, "alpha": 1.4}}]}"#,
    );
    assert_eq!(
        index_stats(&listing, "g", "1.40").ok().unwrap(),
        "Vector-graph index stats:\n\
         \x20 name:               g\n\
         \x20 metric:             l2\n\
         \x20 dimension:          96\n\
         \x20 maxDegree (R):      48\n\
         \x20 alpha:              1.40\n\
         \x20 segmentCount      : 4\n\
         \x20 onDiskBytes       : 99\n"
    );
    assert_eq!(index_alpha(&json(r#"{"params": {"alpha": 1.4}}"#)), "1.4");
    assert_eq!(index_alpha(&json("{}")), "0");
    let err = index_stats(&listing, "x", "").err().unwrap();
    assert_eq!(err.message(), "vector index 'x' not found after creation");
    assert!(matches!(index_stats(&json("{}"), "x", ""), Err(ListError::NoIndexes)));
    assert_eq!(ListError::NoIndexes.message(), "indexes missing");
}

#[test]
fn json_text_is_that_of_serde_json() {
    let text = r#"{"z":1.5,"a":"q\"é\n","m":[null,true,18446744073709551615,-9223372036854775808,1e300,0.1,-0.0],"b":{}}"#;
    let value: serde_json::Value = serde_json::from_str(text).unwrap();
    assert_eq!(write_json(&json(text)), value.to_string());
    assert!(parse_json("{").is_err());
    assert!(parse_json("").is_err());
    assert_eq!(json_scalar_str(&json("\"a b\"")), "a b");
    assert_eq!(json_scalar_str(&json("1.40")), "1.4");
    assert_eq!(json_scalar_str(&json("false")), "false");
}

#[test]
fn json_numbers_are_told_apart() {
    let j = json(r#"{"u": 7, "n": -7, "f": 7.0, "t": "7", "big": 9223372036854775808}"#);
    assert_eq!((j.get_u64("u"), j.get_u64("n"), j.get_u64("f")), (Some(7), None, None));
    let int = |key: &str| j.get(key).unwrap().as_i64();
    assert_eq!((int("u"), int("n"), int("f"), int("big")), (Some(7), Some(-7), None, None));
    assert_eq!(j.get_number("f").as_deref(), Some("7.0"));
    assert_eq!(j.get_number("n").as_deref(), Some("-7"));
    assert_eq!(j.get_number("t"), None);
    assert!(j.get("absent").is_none());
    assert_eq!(write_json(&j.copy()), write_json(&j));
}

#[test]
fn entries_are_put_in_the_order_of_their_keys() {
    let mut entries: Vec<(String, Json)> = Vec::new();
    for (key, n) in [("m", 1), ("z", 2), ("a", 3), ("ma", 4), ("m", 5), ("é", 6)] {
        put_entry(&mut entries, key, Json::Unsigned(n));
    }
    assert_eq!(write_json(&Json::Object(entries)), "{\"a\":3,\"m\":5,\"ma\":4,\"z\":2,\"é\":6}");
}

#[test]
fn arangosh_authenticates_with_a_password() {
    let args = arangosh_args(&client(), "db");
    assert_eq!(
        args[..12],
        [
            "--server.endpoint",
            "http://h:8529",
            "--server.username",
            "root",
            "--server.password",
            "pw",
            "--server.database",
            "db",
            "--server.authentication",
            "true",
            "--quiet",
            "--javascript.execute-string",
        ]
    );
    assert!(args[12].ends_with("explain(data, undefined, true);"));
    assert_eq!(arangosh_args(&Client::new("h", "u", ""), "db")[9], "false");
    assert_eq!(
        not_explained_lines("gone"),
        "(could not run arangosh explainer: gone)\n  hint: ensure `arangosh` is on PATH, or pass \
         VRECALL_ARANGOSH=/path/to/arangosh\n\n"
    );
}

fn setup_steps(facts: SetupFacts, events: &[SetupEvent]) -> Vec<SetupStep> {
    let mut steps = vec![SetupStep::Validate];
    for e in events {
        steps.push(facts.next(*steps.last().unwrap(), *e));
    }
    steps
}

#[test]
fn ivf_setup_indexes_last() {
    let facts = SetupFacts {
        index_type: IndexType::Ivf,
        has_dataset: true,
        only_vector: false,
        no_plan: false,
    };
    let d = SetupEvent::Done;
    assert_eq!(
        setup_steps(
            facts,
            &[d, d, d, d, d, SetupEvent::Answer(true), SetupEvent::Answer(false), d, d, d, d, d, d]
        ),
        vec![
            SetupStep::Validate,
            SetupStep::FindDataset,
            SetupStep::ResolveMetric,
            SetupStep::MakePlan,
            SetupStep::ShowPlan,
            SetupStep::Confirm,
            SetupStep::FindDatabase,
            SetupStep::CreateDatabase,
            SetupStep::DropCollection,
            SetupStep::CreateCollection,
            SetupStep::Insert,
            SetupStep::BuildIndex,
            SetupStep::Report,
            SetupStep::Complete,
        ]
    );
}

#[test]
fn graph_setup_indexes_first() {
    let facts = SetupFacts {
        index_type: IndexType::VectorGraph,
        has_dataset: false,
        only_vector: false,
        no_plan: true,
    };
    let d = SetupEvent::Done;
    assert_eq!(
        setup_steps(facts, &[d, d, d, SetupEvent::Answer(true), d, d, d, d, d]),
        vec![
            SetupStep::Validate,
            SetupStep::ResolveMetric,
            SetupStep::MakePlan,
            SetupStep::FindDatabase,
            SetupStep::DropCollection,
            SetupStep::CreateCollection,
            SetupStep::BuildIndex,
            SetupStep::Insert,
            SetupStep::Report,
            SetupStep::Complete,
        ]
    );
}

#[test]
fn only_vector_touches_the_index_alone() {
    let facts = SetupFacts {
        index_type: IndexType::VectorGraph,
        has_dataset: false,
        only_vector: true,
        no_plan: false,
    };
    let d = SetupEvent::Done;
    let steps = setup_steps(facts, &[d, d, d, d, SetupEvent::Answer(true), d, d]);
    assert_eq!(steps[5..], [SetupStep::BuildIndex, SetupStep::Report, SetupStep::Complete]);
    let steps = setup_steps(facts, &[d, d, d, d, SetupEvent::Answer(false), d]);
    assert_eq!(steps[5..], [SetupStep::Aborted, SetupStep::Aborted]);
    assert_eq!(setup_steps(facts, &[SetupEvent::Failure])[1], SetupStep::Failed);
}

#[test]
fn ivf_index_is_waited_for() {
    let next = |step, event| build_next(IndexType::Ivf, step, event);
    // A failed request to create it is not the end.
    assert_eq!(next(BuildStep::Create, BuildEvent::Failure), BuildStep::LookAtClock);
    assert_eq!(next(BuildStep::Create, BuildEvent::Done), BuildStep::LookAtClock);
    assert_eq!(next(BuildStep::LookAtClock, BuildEvent::Answer(true)), BuildStep::List);
    assert_eq!(next(BuildStep::List, BuildEvent::Answer(false)), BuildStep::Pause);
    assert_eq!(next(BuildStep::Pause, BuildEvent::Done), BuildStep::LookAtClock);
    assert_eq!(next(BuildStep::LookAtClock, BuildEvent::Answer(false)), BuildStep::TimedOut);
    assert_eq!(next(BuildStep::List, BuildEvent::Answer(true)), BuildStep::Ready);
    assert_eq!(next(BuildStep::List, BuildEvent::Failure), BuildStep::Failed);
    let graph = |event| build_next(IndexType::VectorGraph, BuildStep::Create, event);
    assert_eq!(graph(BuildEvent::Done), BuildStep::Ready);
    assert_eq!(graph(BuildEvent::Failure), BuildStep::Failed);
}
