use vrecall::args::{parse_kv, IndexType};
use vrecall::json::Json;
use vrecall::params::{
    coerce_value, find_spec, kind_label_of, param_schema, params_help, spec_help_suffix,
    valid_keys, validate_params, ParamError, Params,
};

fn kv(pairs: &[(&str, &str)]) -> Vec<(String, String)> {
    pairs.iter().map(|(k, v)| (k.to_string(), v.to_string())).collect()
}

fn accepted(index_type: IndexType, pairs: &[(&str, &str)]) -> Params {
    match validate_params(index_type, &kv(pairs)) {
        Ok(params) => params,
        Err(e) => panic!("{}", e.message()),
    }
}

fn refused(index_type: IndexType, pairs: &[(&str, &str)]) -> ParamError {
    match validate_params(index_type, &kv(pairs)) {
        Ok(_) => panic!("accepted"),
        Err(e) => e,
    }
}

fn number(j: Option<&Json>) -> f64 {
    j.unwrap().as_number().unwrap().parse().unwrap()
}

#[test]
fn parse_kv_splits_on_first_equals_and_requires_key() {
    assert_eq!(parse_kv("alpha=1.4").unwrap(), ("alpha".to_string(), "1.4".to_string()));
    // Value may itself contain '='.
    assert_eq!(
        parse_kv("factory=IVF{}=x").unwrap(),
        ("factory".to_string(), "IVF{}=x".to_string())
    );
    assert!(parse_kv("noequals").is_err());
    assert!(parse_kv("=novalue").is_err());
}

#[test]
fn parse_kv_names_what_it_got() {
    assert_eq!(parse_kv("noequals").unwrap_err(), "expected KEY=VALUE, got 'noequals'");
    assert_eq!(parse_kv("").unwrap_err(), "expected KEY=VALUE, got ''");
    assert_eq!(parse_kv("k=").unwrap(), ("k".to_string(), "".to_string()));
}

#[test]
fn validate_params_rejects_unknown_key_listing_valid_ones() {
    let err = refused(IndexType::VectorGraph, &[("bogus", "1")]).message();
    assert!(err.contains("unknown --set key 'bogus'"));
    assert!(err.contains("alpha") && err.contains("maxDegree"));
}

#[test]
fn validate_params_points_at_the_other_index_type() {
    let err = refused(IndexType::VectorGraph, &[("nLists", "10")]).message();
    assert!(err.contains("'nLists' is a ivf-only param"));
    assert!(err.contains("vector-graph"));
}

#[test]
fn validate_params_range_checks_and_types() {
    assert!(validate_params(IndexType::VectorGraph, &kv(&[("alpha", "9")])).is_err());
    assert!(validate_params(IndexType::VectorGraph, &kv(&[("alpha", "0.5")])).is_err());
    assert!(validate_params(IndexType::VectorGraph, &kv(&[("maxDegree", "0")])).is_err());
    assert!(validate_params(IndexType::VectorGraph, &kv(&[("maxDegree", "65")])).is_err());
    // Wrong type for a numeric param.
    assert!(validate_params(IndexType::VectorGraph, &kv(&[("alpha", "high")])).is_err());
    // In-range values coerce to the expected JSON types.
    let ok = accepted(IndexType::VectorGraph, &[("alpha", "1.5"), ("maxDegree", "32")]);
    assert!((number(ok.get("alpha")) - 1.5).abs() < 1e-6);
    assert_eq!(ok.get("maxDegree").unwrap().as_u64(), Some(32));
}

#[test]
fn validate_params_rejects_duplicate_key() {
    assert!(validate_params(
        IndexType::VectorGraph,
        &kv(&[("alpha", "1.3"), ("alpha", "1.4")])
    )
    .is_err());
}

#[test]
fn validate_params_enforces_factory_nlists_relationship() {
    // Non-templated factory without nLists is rejected.
    assert!(validate_params(IndexType::Ivf, &kv(&[("factory", "IVF4096_HNSW32")])).is_err());
    // With a matching nLists it is accepted.
    assert!(validate_params(
        IndexType::Ivf,
        &kv(&[("factory", "IVF4096_HNSW32"), ("nLists", "4096")])
    )
    .is_ok());
    // A templated factory lets the server pick nLists, so it stands alone.
    assert!(validate_params(IndexType::Ivf, &kv(&[("factory", "IVF{}_HNSW32")])).is_ok());
}

#[test]
fn params_help_lists_every_schema_key_with_its_range() {
    let help = params_help();
    for index_type in [IndexType::Ivf, IndexType::VectorGraph] {
        for spec in param_schema(index_type) {
            assert!(help.contains(spec.key), "help omits '{}'", spec.key);
        }
    }
    // Numeric ranges and documented defaults are rendered.
    assert!(help.contains("[1.0, 2.0]") && help.contains("server default 1.2"));
    assert!(help.contains("[1, 64]") && help.contains("server default 64"));
}

#[test]
fn params_help_is_laid_out_by_index_type() {
    assert_eq!(
        params_help(),
        "Index tuning parameter, repeatable: `--set alpha=1.4 --set maxDegree=48`.\n\n\
         Valid keys depend on --index-type:\n\
         \x20 vector-graph:\n\
         \x20   alpha      Vamana pruning slack, [1.0, 2.0] (server default 1.2)\n\
         \x20   maxDegree  Vamana out-degree bound R, [1, 64] (server default 64)\n\
         \x20 ivf:\n\
         \x20   nLists   number of IVF cells; server auto-selects (auto-sqrt) when unset\n\
         \x20   factory  FAISS index_factory string, e.g. \"IVF{}_HNSW32,PQ32x8\"\n\
         \nValues are validated and range-checked against the index type; unknown \
         keys are rejected. Omitted params fall back to the server default."
    );
}

#[test]
fn unreadable_values_are_kept() {
    match refused(IndexType::Ivf, &[("nLists", "many")]) {
        ParamError::NotAnInteger { key, raw } => {
            assert_eq!((key.as_str(), raw.as_str()), ("nLists", "many"));
            assert!(raw.parse::<u64>().is_err());
        }
        _ => panic!("an integer"),
    }
    match refused(IndexType::VectorGraph, &[("alpha", "")]) {
        ParamError::NotANumber { key, raw } => {
            assert_eq!((key.as_str(), raw.as_str()), ("alpha", ""));
            assert!(raw.parse::<f64>().is_err());
        }
        _ => panic!("a number"),
    }
}

#[test]
fn every_refusal_tells_what_is_wrong() {
    assert_eq!(
        refused(IndexType::Ivf, &[("nLists", "many")]).message(),
        "param 'nLists' expects an integer"
    );
    assert_eq!(refused(IndexType::Ivf, &[("nLists", "0")]).message(), "param 'nLists' must be >= 1, got 0");
    assert_eq!(
        refused(IndexType::VectorGraph, &[("maxDegree", "65")]).message(),
        "param 'maxDegree' must be in [1, 64], got 65"
    );
    assert_eq!(
        refused(IndexType::VectorGraph, &[("alpha", "high")]).message(),
        "param 'alpha' expects a number"
    );
    assert_eq!(
        refused(IndexType::VectorGraph, &[("alpha", "9")]).message(),
        "param 'alpha' must be in [1, 2], got 9"
    );
    assert_eq!(
        refused(IndexType::VectorGraph, &[("alpha", "5e-1")]).message(),
        "param 'alpha' must be in [1, 2], got 0.5"
    );
    assert_eq!(
        refused(IndexType::VectorGraph, &[("alpha", "-Inf")]).message(),
        "param 'alpha' must be in [1, 2], got -inf"
    );
    assert_eq!(
        refused(IndexType::VectorGraph, &[("alpha", "1e999")]).message(),
        "param 'alpha' must be in [1, 2], got inf"
    );
    assert_eq!(
        refused(IndexType::VectorGraph, &[("alpha", "nan")]).message(),
        "param 'alpha' must be in [1, 2], got NaN"
    );
    assert_eq!(
        refused(IndexType::VectorGraph, &[("alpha", "1.3"), ("alpha", "1.4")]).message(),
        "--set key 'alpha' given more than once"
    );
    assert_eq!(
        refused(IndexType::VectorGraph, &[("nLists", "10")]).message(),
        "'nLists' is a ivf-only param; you selected --index-type vector-graph. Valid keys: \
         alpha (Vamana pruning slack), maxDegree (Vamana out-degree bound R)"
    );
    assert_eq!(
        refused(IndexType::Ivf, &[("factory", "IVF4096_HNSW32")]).message(),
        "a non-templated factory requires nLists set to the factory string's nlist; use the \
         `{}` placeholder (e.g. \"IVF{}_HNSW32,PQ32x8\") to let the server auto-select nLists"
    );
}

#[test]
fn alpha_is_in_range_when_its_nearest_double_is() {
    let ok = |raw: &str| validate_params(IndexType::VectorGraph, &kv(&[("alpha", raw)])).is_ok();
    for raw in [
        "1", "2", "1.0", "2e0", "+1.5", "0.1e1", "20E-1", "1.", "01.25",
        "0.99999999999999999", "2.0000000000000001",
        "0.999999999999999944488848768742172978818416595458984375",
        "2.0000000000000002220446049250313080847263336181640625",
    ] {
        let x: f64 = raw.parse().unwrap();
        assert!((1.0..=2.0).contains(&x) && ok(raw), "{raw}");
    }
    for raw in [
        "0.9999999999999999", "2.0000000000000004", "-1.5", "0", "1e-400",
        "0.999999999999999944488848768742172978818416595458984374",
        "2.0000000000000002220446049250313080847263336181640626",
    ] {
        let x: f64 = raw.parse().unwrap();
        assert!(!(1.0..=2.0).contains(&x) && !ok(raw), "{raw}");
    }
    for raw in ["", ".", "e1", "1e", "1.5x", " 1.5", "--1", "1_0"] {
        assert!(raw.parse::<f64>().is_err() && !ok(raw), "{raw}");
    }
}

#[test]
fn integers_are_read_as_unsigned_64_bit_numbers() {
    let spec = find_spec(IndexType::Ivf, "nLists").unwrap();
    let value = |raw: &str| coerce_value(&spec, raw).ok().and_then(|j| j.as_u64());
    assert_eq!(value("18446744073709551615"), Some(u64::MAX));
    assert_eq!(value("18446744073709551616"), None);
    assert_eq!(value("+7"), Some(7));
    assert_eq!(value("007"), Some(7));
    assert_eq!(value("-7"), None);
    assert_eq!(value("+"), None);
    assert_eq!(value("7 "), None);
}

#[test]
fn schema_facts_are_shown() {
    assert_eq!(kind_label_of(IndexType::Ivf), "ivf");
    assert_eq!(kind_label_of(IndexType::VectorGraph), "vector-graph");
    assert!(find_spec(IndexType::Ivf, "alpha").is_none());
    assert_eq!(
        valid_keys(IndexType::VectorGraph),
        "alpha (Vamana pruning slack), maxDegree (Vamana out-degree bound R)"
    );
    let suffix = |t: IndexType, key: &str| spec_help_suffix(&find_spec(t, key).unwrap());
    assert_eq!(suffix(IndexType::VectorGraph, "alpha"), ", [1.0, 2.0] (server default 1.2)");
    assert_eq!(suffix(IndexType::VectorGraph, "maxDegree"), ", [1, 64] (server default 64)");
    assert_eq!(suffix(IndexType::Ivf, "nLists"), "");
    assert_eq!(suffix(IndexType::Ivf, "factory"), "");
}

#[test]
fn accepted_params_keep_their_order_and_values() {
    let params = accepted(IndexType::Ivf, &[("nLists", "16"), ("factory", "IVF16,Flat")]);
    let keys: Vec<&str> = params.entries.iter().map(|(k, _)| k.as_str()).collect();
    assert_eq!(keys, vec!["nLists", "factory"]);
    assert_eq!(params.get("factory").unwrap().as_str(), Some("IVF16,Flat"));
    assert!(params.contains_key("nLists"));
    assert!(!params.contains_key("alpha"));
    assert!(Params::none().entries.is_empty());
}
