use vrecall::args::{IndexType, SetupArgs};
use vrecall::client::Status;
use vrecall::datasets::{
    dataset_cache_dir, dataset_way, download_error, ensure_dataset, is_known, known_datasets,
    looks_like_path, path_like, DatasetPlan, DatasetStep,
};
use vrecall::json::{parse_json, write_json, Json};
use vrecall::metric::{
    default_index_name, infer_metric, metric_is_in_file, metric_named, normalize_metric,
    resolve_metric,
};
use vrecall::params::{param_schema, validate_params, ParamSpec, Params};
use vrecall::plan::{confirm, prompt, IngestSource, SetupPlan, TRAINING_ITERATIONS};
use vrecall::ranges::{batch_ranges, block_rows};
use vrecall::setup::{
    check_metric, complete_lines, created_line, creating_line, database_line, document_seed,
    inserted_line, make_batch, only_vector_lines, open_vector_dataset, random_count, resolve_seed,
    SetupError,
};

fn kv(pairs: &[(&str, &str)]) -> Vec<(String, String)> {
    pairs.iter().map(|(k, v)| (k.to_string(), v.to_string())).collect()
}

fn accepted(index_type: IndexType, pairs: &[(&str, &str)]) -> Params {
    match validate_params(index_type, &kv(pairs)) {
        Ok(params) => params,
        Err(e) => panic!("{}", e.message()),
    }
}

fn plan_with(index_type: IndexType, params: Params) -> SetupPlan {
    SetupPlan {
        index_type,
        index_name: "vec".to_string(),
        metric: "l2",
        dim: 128,
        shards: 3,
        training_iterations: TRAINING_ITERATIONS,
        index_timeout_sec: 1800,
        params,
        source: IngestSource::Random(1),
        ndocs: None,
        batch: 5000,
        workers: 16,
        only_vector: false,
    }
}

fn setup_args() -> SetupArgs {
    SetupArgs {
        index_type: IndexType::Ivf,
        input: None,
        metric: None,
        ann_dataset: None,
        only_vector: false,
        dim: 768,
        ndocs: None,
        params: Vec::new(),
        index_name: None,
        shards: 3,
        seed: None,
        batch: 5000,
        workers: 16,
        index_timeout_sec: 1800,
        no_plan: false,
    }
}

fn spec_named(index_type: IndexType, key: &str) -> ParamSpec {
    *param_schema(index_type).iter().find(|s| s.key == key).unwrap()
}

// The index the server builds must be exactly what the plan describes: the
// definition is generated from the same validated map the banner renders.
#[test]
fn ivf_index_definition_matches_declared_fields() {
    let params = accepted(IndexType::Ivf, &[("nLists", "256")]);
    let p = plan_with(IndexType::Ivf, params);
    let def = p.index_definition();
    assert_eq!(def.get_str("type"), Some("vector"));
    let params = def.get("params").unwrap();
    assert_eq!(params.get_str("metric"), Some(p.metric));
    assert_eq!(params.get_u64("dimension").unwrap() as usize, p.dim);
    assert_eq!(params.get_u64("trainingIterations").unwrap() as u32, p.training_iterations);
    assert_eq!(params.get_u64("nLists"), Some(256));
    // IVF must not carry graph-only params, and factory is omitted when unset.
    assert!(params.get("maxDegree").is_none());
    assert!(params.get("alpha").is_none());
    assert!(params.get("factory").is_none());
}

#[test]
fn ivf_index_definition_includes_factory_when_set() {
    let params = accepted(IndexType::Ivf, &[("factory", "IVF{}_HNSW32,PQ32x8")]);
    let p = plan_with(IndexType::Ivf, params);
    let def = p.index_definition();
    assert_eq!(def.get("params").unwrap().get_str("factory"), Some("IVF{}_HNSW32,PQ32x8"));
    assert!(def.get("params").unwrap().get("nLists").is_none());
}

#[test]
fn graph_index_definition_matches_declared_fields() {
    let params = accepted(IndexType::VectorGraph, &[("maxDegree", "48"), ("alpha", "1.4")]);
    let mut p = plan_with(IndexType::VectorGraph, params);
    p.metric = "cosine";
    p.dim = 96;
    let def = p.index_definition();
    assert_eq!(def.get_str("type"), Some("vector-graph"));
    let params = def.get("params").unwrap();
    assert_eq!(params.get_str("metric"), Some("cosine"));
    assert_eq!(params.get_u64("dimension").unwrap() as usize, 96);
    assert_eq!(params.get_u64("maxDegree"), Some(48));
    let alpha: f64 = params.get_number("alpha").unwrap().parse().unwrap();
    assert!((alpha - 1.4).abs() < 1e-6);
    // The graph index has no training/nLists/factory.
    assert!(params.get("trainingIterations").is_none());
    assert!(params.get("nLists").is_none());
    assert!(params.get("factory").is_none());
}

#[test]
fn index_definition_is_sent_as_compact_json() {
    let graph = plan_with(
        IndexType::VectorGraph,
        accepted(IndexType::VectorGraph, &[("maxDegree", "48"), ("alpha", "1.4")]),
    );
    assert_eq!(
        write_json(&graph.index_definition()),
        "{\"fields\":[\"vector\"],\"inBackground\":false,\"name\":\"vec\",\"params\":\
         {\"alpha\":1.4,\"dimension\":128,\"maxDegree\":48,\"metric\":\"l2\"},\
         \"type\":\"vector-graph\"}"
    );
    let ivf = plan_with(IndexType::Ivf, Params::none());
    assert_eq!(
        write_json(&ivf.index_definition()),
        "{\"fields\":[\"vector\"],\"inBackground\":false,\"name\":\"vec\",\"params\":\
         {\"dimension\":128,\"metric\":\"l2\",\"trainingIterations\":25},\"type\":\"vector\"}"
    );
}

#[test]
fn param_display_shows_set_value_else_documented_default() {
    // maxDegree set, alpha left to the server default.
    let params = accepted(IndexType::VectorGraph, &[("maxDegree", "48")]);
    let p = plan_with(IndexType::VectorGraph, params);
    let alpha = spec_named(IndexType::VectorGraph, "alpha");
    let max_degree = spec_named(IndexType::VectorGraph, "maxDegree");
    assert_eq!(p.param_display(&alpha), "1.2"); // documented default
    assert_eq!(p.param_display(&max_degree), "48"); // set value
                                                    // nLists has no default, so it renders as "auto".
    let ivf = plan_with(IndexType::Ivf, Params::none());
    let nlists = spec_named(IndexType::Ivf, "nLists");
    assert_eq!(ivf.param_display(&nlists), "auto");
}

#[test]
fn params_are_summed_up_in_schema_order() {
    let set = accepted(IndexType::VectorGraph, &[("maxDegree", "48"), ("alpha", "1.40")]);
    assert_eq!(plan_with(IndexType::VectorGraph, set).params_summary(), "alpha=1.4, maxDegree=48");
    let none = plan_with(IndexType::Ivf, Params::none());
    assert_eq!(none.params_summary(), "nLists=auto, factory=auto");
    let texts = accepted(IndexType::Ivf, &[("factory", "IVF{},Flat")]);
    assert_eq!(plan_with(IndexType::Ivf, texts).params_summary(), "nLists=auto, factory=IVF{},Flat");
}

#[test]
fn ivf_plan_banner_lists_the_steps() {
    let p = plan_with(IndexType::Ivf, accepted(IndexType::Ivf, &[("nLists", "256")]));
    assert_eq!(p.kind_label(), "ivf");
    assert_eq!(
        p.banner("db", "coll"),
        "================================================================\n\
         vrecall setup\n\
         ================================================================\n\
         What we're going to do:\n\
         \x20 1. Ensure database 'db' exists (created if missing)\n\
         \x20 2. Drop (if exists) and recreate collection 'coll' (shards=3)\n\
         \x20 3. Insert 200000 docs from random uniform[-1, 1] (seed=1, dim=128)\n\
         \x20    - 16 parallel workers, batch=5000\n\
         \x20    - each doc: { idx: <row>, vector: [...] }\n\
         \x20 4. Build IVF vector index 'vec':\n\
         \x20    - type=vector, metric=l2, dimension=128\n\
         \x20    - params:\n\
         \x20        nLists  = 256    (set)\n\
         \x20        factory = auto   (server default)\n\
         \x20    - trainingIterations=25\n\
         \x20    - waits up to 1800s for ready state\n\
         \n"
    );
    let mut p = p;
    p.only_vector = true;
    assert_eq!(
        p.banner("db", "coll"),
        "vrecall setup (index only)\n  - (Re)create ivf vector index 'vec' on collection 'coll' \
         (metric=l2, dim=128)\n"
    );
}

#[test]
fn graph_plan_banner_builds_the_index_first() {
    let mut p = plan_with(IndexType::VectorGraph, Params::none());
    p.source = IngestSource::Hdf5("/data/x.hdf5".to_string());
    p.ndocs = Some(7);
    assert_eq!(
        p.banner("db", "coll"),
        "================================================================\n\
         vrecall setup\n\
         ================================================================\n\
         What we're going to do:\n\
         \x20 1. Ensure database 'db' exists (created if missing)\n\
         \x20 2. Drop (if exists) and recreate collection 'coll' (shards=3)\n\
         \x20 3. Build vector-graph index 'vec' (on empty collection):\n\
         \x20    - type=vector-graph, metric=l2, dimension=128 (no training)\n\
         \x20    - params:\n\
         \x20        alpha     = 1.2    (server default)\n\
         \x20        maxDegree = 64     (server default)\n\
         \x20 4. Insert up to 7 rows from HDF5 file /data/x.hdf5\n\
         \x20    - 16 parallel workers, batch=5000\n\
         \x20    - each doc: { idx: <row>, vector: [...] }\n\
         \x20    - the index is populated as documents are inserted\n\
         \n"
    );
    p.ndocs = None;
    assert_eq!(p.count_str(), "all rows");
    p.source = IngestSource::Random(9);
    p.ndocs = Some(5);
    assert_eq!(p.count_str(), "5 docs");
    p.only_vector = true;
    assert_eq!(
        p.banner("db", "coll"),
        "vrecall setup (index only)\n  - (Re)create vector-graph vector index 'vec' on \
         collection 'coll' (metric=l2, dim=128)\n"
    );
}

#[test]
fn plan_is_made_of_the_arguments() {
    let mut args = setup_args();
    args.seed = Some(11);
    args.ndocs = Some(4);
    let p = SetupPlan::from_args(&args, "cosine", "idx".to_string(), 32, Params::none());
    assert_eq!(p.index_name, "idx");
    assert_eq!((p.metric, p.dim, p.shards, p.training_iterations), ("cosine", 32, 3, 25));
    assert!(matches!(p.source, IngestSource::Random(11)));
    args.input = Some("f.h5".to_string());
    let p = SetupPlan::from_args(&args, "l2", "idx".to_string(), 32, Params::none());
    assert_eq!(p.source_str(), "HDF5 file f.h5");
}

#[test]
fn confirmation_takes_enter_y_and_yes() {
    assert_eq!(prompt(), "\nProceed with these steps? [Y/n] ");
    assert!(confirm(true, None));
    assert!(confirm(true, Some("n")));
    assert!(!confirm(false, None));
    for yes in ["\n", "", "y\n", "Y", " yes \n", "YES", "\u{a0}Yes\u{2003}\n"] {
        assert!(confirm(false, Some(yes)), "{yes:?}");
    }
    for no in ["n\n", "no", "yess", "y y", "ja"] {
        assert!(!confirm(false, Some(no)), "{no:?}");
    }
}

#[test]
fn batch_ranges_splits_evenly_and_handles_remainder() {
    assert_eq!(batch_ranges(10, 3), vec![(0, 3), (3, 6), (6, 9), (9, 10)]);
    assert_eq!(batch_ranges(10, 5), vec![(0, 5), (5, 10)]);
}

#[test]
fn batch_ranges_handles_edge_sizes() {
    assert_eq!(batch_ranges(0, 5), Vec::<(usize, usize)>::new());
    assert_eq!(batch_ranges(5, 10), vec![(0, 5)]);
    assert_eq!(batch_ranges(3, 1), vec![(0, 1), (1, 2), (2, 3)]);
    assert_eq!(batch_ranges(5, usize::MAX), vec![(0, 5)]);
}

#[test]
fn blocks_hold_a_batch_for_each_worker() {
    assert_eq!(block_rows(5000, 16), 80_000);
    assert_eq!(block_rows(5000, 0), 5000);
    assert_eq!(block_rows(usize::MAX, 2), usize::MAX);
}

#[test]
fn blocks_and_batches_insert_each_row_once() {
    let (n, batch, workers) = (103, 7, 4);
    let mut rows: Vec<usize> = Vec::new();
    for (start, end) in batch_ranges(n, block_rows(batch, workers)) {
        for (from, to) in batch_ranges(end - start, batch) {
            rows.extend((from..to).map(|i| start + i));
        }
    }
    assert_eq!(rows, (0..n).collect::<Vec<usize>>());
}

#[test]
fn infer_metric_reads_dataset_name_suffix() {
    assert_eq!(infer_metric("sift-128-euclidean"), "l2");
    assert_eq!(infer_metric("lastfm-64-dot"), "dot");
    assert_eq!(infer_metric("glove-100-angular"), "cosine");
    // Unknown suffix falls back to cosine.
    assert_eq!(infer_metric("mystery-dataset"), "cosine");
}

#[test]
fn normalize_metric_accepts_synonyms_case_insensitively() {
    let metric = |raw: &str| normalize_metric(raw).ok();
    assert_eq!(metric("cosine"), Some("cosine"));
    assert_eq!(metric("angular"), Some("cosine"));
    assert_eq!(metric("l2"), Some("l2"));
    assert_eq!(metric("euclidean"), Some("l2"));
    assert_eq!(metric("dot"), Some("dot"));
    assert_eq!(metric("ip"), Some("dot"));
    assert_eq!(metric("inner_product"), Some("dot"));
    assert_eq!(metric("inner-product"), Some("dot"));
    // Trimmed and lowercased before matching.
    assert_eq!(metric("  Cosine  "), Some("cosine"));
}

#[test]
fn normalize_metric_rejects_unknown() {
    assert!(normalize_metric("hamming").is_err());
}

#[test]
fn unknown_metric_is_named_in_small_letters() {
    let message = |raw: &str| normalize_metric(raw).err().unwrap().message();
    assert_eq!(message(" HAMMING "), "unrecognized metric 'hamming'; use --metric cosine|l2|dot");
    assert_eq!(message("ÄÖ"), "unrecognized metric 'äö'; use --metric cosine|l2|dot");
    // The Kelvin sign is a capital of `k`.
    assert_eq!(message("\u{212a}"), "unrecognized metric 'k'; use --metric cosine|l2|dot");
    // A metric's own name stands for it.
    for name in ["cosine", "l2", "dot"] {
        assert_eq!(metric_named(name).ok(), Some(name));
    }
    assert!(metric_named("Cosine").is_err());
}

#[test]
fn metric_comes_from_flag_then_name_then_file() {
    let mut args = setup_args();
    assert_eq!(resolve_metric(&args, None).ok(), Some("cosine"));
    args.ann_dataset = Some("sift-128-euclidean".to_string());
    args.input = Some("cache/sift-128-euclidean.hdf5".to_string());
    assert!(!metric_is_in_file(&args));
    assert_eq!(resolve_metric(&args, None).ok(), Some("l2"));
    args.ann_dataset = Some("my.h5".to_string());
    args.input = Some("my.h5".to_string());
    assert!(metric_is_in_file(&args));
    assert_eq!(resolve_metric(&args, Some("IP")).ok(), Some("dot"));
    assert_eq!(resolve_metric(&args, Some(" inner_product ")).ok(), Some("dot"));
    assert_eq!(resolve_metric(&args, None).ok(), Some("cosine"));
    assert!(resolve_metric(&args, Some("?")).is_err());
    args.metric = Some("Euclidean".to_string());
    assert!(!metric_is_in_file(&args));
    assert_eq!(resolve_metric(&args, Some("dot")).ok(), Some("l2"));
}

#[test]
fn index_names_follow_the_metric() {
    assert_eq!(default_index_name(IndexType::Ivf, "cosine"), "vector_cosine");
    assert_eq!(default_index_name(IndexType::Ivf, "l2"), "vector_l2");
    assert_eq!(default_index_name(IndexType::Ivf, "dot"), "vector_dot");
    assert_eq!(default_index_name(IndexType::VectorGraph, "cosine"), "vector_graph_cosine");
    assert_eq!(default_index_name(IndexType::VectorGraph, "l2"), "vector_graph_l2");
}

#[test]
fn graph_index_does_not_take_dot() {
    assert!(check_metric(IndexType::Ivf, "dot").is_ok());
    assert!(check_metric(IndexType::VectorGraph, "l2").is_ok());
    let err = check_metric(IndexType::VectorGraph, "dot").err().unwrap();
    assert_eq!(
        err.message(),
        "the vector-graph index supports only cosine or l2 metrics, not dot"
    );
}

#[test]
fn looks_like_path_distinguishes_files_from_dataset_slugs() {
    assert!(!looks_like_path("glove-100-angular"));
    assert!(looks_like_path("data.h5"));
    assert!(looks_like_path("data.hdf5"));
    assert!(looks_like_path(&format!("sub{}file.h5", std::path::MAIN_SEPARATOR)));
    // A relative name with a non-HDF5 extension and no separator is a slug.
    assert!(!looks_like_path("some-dataset.txt"));
}

#[test]
fn looks_like_path_agrees_with_path_extensions() {
    for name in [".h5", ".hdf5", "a.h5", "..h5", "a.b.hdf5", "h5", "a.H5", "a.h5x", "", ".", ".."] {
        let p = std::path::Path::new(name);
        let by_path = p.is_absolute()
            || name.contains(std::path::MAIN_SEPARATOR)
            || matches!(p.extension().and_then(|e| e.to_str()), Some("h5") | Some("hdf5"));
        assert_eq!(looks_like_path(name), by_path, "{name:?}");
    }
}

#[test]
fn paths_follow_the_platform() {
    for (arg, separator) in [("a/b", '/'), ("a\\b", '\\')] {
        assert!(path_like(arg, false, separator, None));
        assert!(!path_like(arg, false, if separator == '/' { '\\' } else { '/' }, None));
    }
    assert!(path_like("C:/data", true, '\\', None));
    assert!(path_like("x", false, '/', Some("h5")) && path_like("x", false, '/', Some("hdf5")));
    assert!(!path_like("x", false, '/', Some("H5")));
    let place = || Some(("C:\\me\\d".to_string(), "C:\\me\\d\\x.hdf5".to_string()));
    match dataset_way("lastfm-64-dot", false, place()) {
        Ok(DatasetPlan::Cached(c)) => {
            assert_eq!((c.dir.as_str(), c.path.as_str()), ("C:\\me\\d", "C:\\me\\d\\x.hdf5"));
            assert_eq!(c.partial, "C:\\me\\d\\x.hdf5.tmp");
        }
        _ => panic!("not cached"),
    }
    assert!(matches!(dataset_way("lastfm-64-dot", true, place()), Ok(DatasetPlan::File { .. })));
    let home = std::path::Path::new("home").join("me");
    assert_eq!(
        dataset_cache_dir(home.to_str().unwrap()),
        home.join("dataset-embeddings").display().to_string()
    );
    assert_eq!(dataset_cache_dir("/h/"), "/h/dataset-embeddings");
}

#[test]
fn datasets_are_found_in_the_cache_or_as_files() {
    assert_eq!(known_datasets().len(), 12);
    assert!(is_known("glove-100-angular") && !is_known("glove-101-angular"));
    match ensure_dataset("glove-100-angular", Some("/home/me")) {
        Ok(plan) => {
            assert_eq!(plan.step(true), DatasetStep::Use);
            assert_eq!(plan.step(false), DatasetStep::Download);
            let path = "/home/me/dataset-embeddings/glove-100-angular.hdf5";
            assert_eq!(plan.found_line(), format!("Using cached dataset: {path}"));
            match plan {
                DatasetPlan::Cached(c) => {
                    assert_eq!(c.dir, "/home/me/dataset-embeddings");
                    assert_eq!(c.path, path);
                    assert_eq!(c.partial, format!("{path}.tmp"));
                    assert_eq!(c.url, "http://ann-benchmarks.com/glove-100-angular.hdf5");
                    assert_eq!(
                        c.download_line(),
                        format!("Downloading http://ann-benchmarks.com/glove-100-angular.hdf5 -> {path}")
                    );
                }
                DatasetPlan::File { .. } => panic!("no file"),
            }
        }
        Err(e) => panic!("{}", e.message()),
    }
    match ensure_dataset("dir/x.h5", None) {
        Ok(plan) => {
            assert_eq!(plan.step(false), DatasetStep::Refuse);
            assert_eq!(plan.found_line(), "Using HDF5 file: dir/x.h5");
        }
        Err(e) => panic!("{}", e.message()),
    }
}

#[test]
fn datasets_that_cannot_be_had_are_refused() {
    let err = ensure_dataset("glove-1", Some("/h")).err().unwrap().message();
    assert!(err.starts_with(
        "Unknown ann-benchmarks dataset 'glove-1'. Pass a path to a local HDF5 file, or one of \
         the known datasets:\n  deep-image-96-angular\n  fashion-mnist-784-euclidean\n"
    ));
    assert!(err.ends_with("\n  sift-128-euclidean"));
    let err = ensure_dataset("sift-128-euclidean", None).err().unwrap();
    assert_eq!(err.message(), "HOME env var not set");
    let err = vrecall::datasets::DatasetError::FileMissing { name: "x.h5".to_string() };
    assert_eq!(err.message(), "HDF5 file 'x.h5' not found");
    let not_found = Status { code: 404, text: "404 Not Found".to_string() };
    assert_eq!(
        download_error("http://x/y", &not_found),
        Some("HTTP 404 Not Found downloading http://x/y".to_string())
    );
    let ok = Status { code: 200, text: "200 OK".to_string() };
    assert_eq!(download_error("http://x/y", &ok), None);
}

#[test]
fn vectors_are_read_from_train_before_vectors() {
    let d = open_vector_dataset(Some(&[10, 4]), Some(&[7, 3])).ok().unwrap();
    assert_eq!((d.name, d.rows, d.dim), ("train", 10, 4));
    let d = open_vector_dataset(None, Some(&[7, 3])).ok().unwrap();
    assert_eq!((d.name, d.rows, d.dim), ("vectors", 7, 3));
    assert_eq!(d.rows_to_insert(None), 7);
    assert_eq!(d.rows_to_insert(Some(5)), 5);
    assert_eq!(d.rows_to_insert(Some(9)), 7);
    assert_eq!(
        d.reading_lines("f.h5", 5),
        "Reading HDF5 file f.h5 (dataset 'vectors')...\n  source: 7 × 3 float32; will insert 5 rows\n"
    );
    let message = |r: Result<_, SetupError>| r.err().map(|e| e.message());
    assert_eq!(
        message(open_vector_dataset(Some(&[10]), Some(&[7, 3])).map(|_| ())),
        Some("dataset 'train' is 1D, expected 2D (rows × dim)".to_string())
    );
    assert_eq!(
        message(open_vector_dataset(None, None).map(|_| ())),
        Some(
            "HDF5 file has none of the expected vector datasets (train, vectors); provide a 2D \
             float32 dataset under one of those names"
                .to_string()
        )
    );
}

#[test]
fn documents_carry_their_absolute_row() {
    let rows = vec![vec!["0.5".to_string(), "-1".to_string()], vec!["1e-3".to_string(), "NaN".to_string()]];
    let docs = make_batch(80_000, 3, &rows);
    assert_eq!(
        write_json(&docs),
        "[{\"idx\":80003,\"vector\":[0.5,-1]},{\"idx\":80004,\"vector\":[0.001,null]}]"
    );
    assert_eq!(write_json(&make_batch(0, 0, &Vec::new())), "[]");
    let (first, second) = (vec![rows[0].clone()], vec![rows[1].clone()]);
    let joined = format!(
        "{},{}",
        write_json(&make_batch(80_000, 3, &first)).strip_suffix(']').unwrap(),
        write_json(&make_batch(80_000, 4, &second)).strip_prefix('[').unwrap()
    );
    assert_eq!(joined, "[{\"idx\":80003,\"vector\":[0.5,-1]},{\"idx\":80004,\"vector\":[0.001,null]}]");
}

#[test]
fn seeds_belong_to_documents() {
    assert_eq!(document_seed(7, 3), 10);
    assert_eq!(document_seed(u64::MAX, 0), u64::MAX);
    assert_eq!(document_seed(u64::MAX, 2), 1);
    assert_ne!(document_seed(5, 1), document_seed(5, 2));
    assert_eq!(resolve_seed(Some(42)), 42);
    // A fresh seed is drawn anew each time.
    let drawn: Vec<u64> = (0..4).map(|_| resolve_seed(None)).collect();
    assert!(drawn.iter().any(|s| *s != drawn[0]));
    assert_eq!(random_count(None), 200_000);
    assert_eq!(random_count(Some(3)), 3);
}

#[test]
fn progress_lines_tell_what_happens() {
    let ivf = plan_with(IndexType::Ivf, Params::none());
    assert_eq!(
        creating_line(&ivf),
        "Creating vector index 'vec' (metric=l2, dim=128, trainingIterations=25, nLists=auto, \
         factory=auto)..."
    );
    let graph = plan_with(IndexType::VectorGraph, Params::none());
    assert_eq!(
        creating_line(&graph),
        "Creating vector-graph index 'vec' (metric=l2, dim=128, alpha=1.2, maxDegree=64)..."
    );
    assert_eq!(created_line(IndexType::Ivf, "1.5"), "Index trained and ready in 1.5s.");
    assert_eq!(created_line(IndexType::VectorGraph, "0.1"), "Empty index created in 0.1s.");
    assert_eq!(database_line("db", true), "Using existing database 'db'.");
    assert_eq!(database_line("db", false), "Creating database 'db'...");
    assert_eq!(inserted_line(5, true, "2.0", "3"), "Inserted 5 random docs in 2.0s (3 docs/s).");
    assert_eq!(inserted_line(5, false, "2.0", "3"), "Inserted 5 docs in 2.0s (3 docs/s).");
    assert_eq!(only_vector_lines("2.5"), "\nIndex build time: 2.5s.\n");
    assert_eq!(
        complete_lines("db", 5, 3, IndexType::Ivf, "1.0", "2.0", "3.0"),
        "\nSetup complete. Database 'db' is ready (5 vectors, dim=3).\n\
         Timing: ingest 1.0s, index build 2.0s, total 3.0s.\nNext: vrecall bench\n"
    );
    assert_eq!(
        complete_lines("db", 5, 3, IndexType::VectorGraph, "1.0", "2.0", "3.0"),
        "\nSetup complete. Database 'db' is ready (5 vectors, dim=3).\n\
         Timing: index create 2.0s, ingest + index 1.0s, total 3.0s.\nNext: vrecall bench\n"
    );
    let late = SetupError::NotReady { name: "vec".to_string(), timeout_sec: 9 };
    assert_eq!(late.message(), "vector index 'vec' not ready within 9s");
    assert_eq!(SetupError::NoListing.message(), "indexes array missing");
}

#[test]
fn definition_reads_back_as_written() {
    let p = plan_with(
        IndexType::Ivf,
        accepted(IndexType::Ivf, &[("factory", "IVF\"{}\",x"), ("nLists", "3")]),
    );
    let text = write_json(&p.index_definition());
    let back: Json = parse_json(&text).ok().unwrap();
    assert_eq!(back.get("params").unwrap().get_str("factory"), Some("IVF\"{}\",x"));
    assert_eq!(write_json(&back), text);
}
