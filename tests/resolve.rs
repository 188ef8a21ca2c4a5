use mock_api::endpoint::Endpoint;
use mock_api::error::ResolveError;
use mock_api::not_found::{generate_request_id, not_found_body, request_id_from};
use mock_api::parse_628::Parse628;
use mock_api::parse_643::Parse643;
use mock_api::parse_663::Parse663;
use mock_api::parse_handler::ParseHandler;
use mock_api::query::QueryParams;
use mock_api::resolve::{CanonicalKey, Resolver};

fn query(pairs: &[(&str, &str)]) -> QueryParams {
    let mut q = QueryParams::new();
    for (k, v) in pairs {
        q.insert(k, v);
    }
    q
}

fn resolve(path: &str, pairs: &[(&str, &str)]) -> Result<CanonicalKey, ResolveError> {
    Resolver::standard().resolve(path, &query(pairs))
}

#[test]
fn beneficiary_uses_its_own_defaults() {
    let k = resolve(
        "Beneficiary/GetBeneficiary",
        &[("companyName", "Acme Corp"), ("key", "ignored")],
    )
    .unwrap();
    assert_eq!(k.path, vec!["Beneficiary".to_string(), "GetBeneficiary".to_string()]);
    assert_eq!(k.subdir, Some("Acme Corp".to_string()));
    assert_eq!(k.filename, "1_1.json");
}

#[test]
fn beneficiary_keeps_raw_page_values() {
    let k = resolve(
        "api/Beneficiary/GetBeneficiary",
        &[("companyName", "Acme"), ("pageIndex", "2"), ("pageSize", "20")],
    )
    .unwrap();
    assert_eq!(k.subdir, Some("Acme".to_string()));
    assert_eq!(k.filename, "2_20.json");
}

#[test]
fn beneficiary_without_company_name_fails() {
    let r = resolve("Beneficiary/GetBeneficiary", &[("pageIndex", "1")]);
    assert_eq!(r.err(), Some(ResolveError::MissingRequiredParameter));
}

#[test]
fn generic_sorts_values_and_drops_key() {
    let k = resolve("api/other", &[("b", "2"), ("a", "1"), ("key", "x")]).unwrap();
    assert_eq!(k.path, vec!["api".to_string(), "other".to_string()]);
    assert_eq!(k.subdir, Some("1_2".to_string()));
    assert_eq!(k.filename, "1_10.json");
}

#[test]
fn generic_defaults_without_pagination() {
    let k = resolve("list", &[("q", "x")]).unwrap();
    assert_eq!(k.filename, "1_10.json");
    let k = resolve("list", &[]).unwrap();
    assert_eq!(k.subdir, None);
    assert_eq!(k.filename, "1_10.json");
}

#[test]
fn generic_pagination_each_with_its_own_default() {
    assert_eq!(resolve("list", &[("pageIndex", "3")]).unwrap().filename, "3_10.json");
    assert_eq!(resolve("list", &[("pageSize", "25")]).unwrap().filename, "1_25.json");
    let k = resolve("list", &[("pageSize", "25"), ("pageIndex", "4")]).unwrap();
    assert_eq!(k.filename, "4_25.json");
    assert_eq!(k.subdir, None);
}

#[test]
fn generic_pagination_is_decoded_and_normalised() {
    assert_eq!(resolve("list", &[("pageIndex", "007")]).unwrap().filename, "7_10.json");
    assert_eq!(resolve("list", &[("pageIndex", "%32")]).unwrap().filename, "2_10.json");
    assert_eq!(
        resolve("list", &[("pageSize", "18446744073709551615")]).unwrap().filename,
        "1_18446744073709551615.json"
    );
}

#[test]
fn invalid_pagination_is_rejected() {
    assert_eq!(
        resolve("list", &[("pageIndex", "bad")]).err(),
        Some(ResolveError::InvalidPagination)
    );
    assert_eq!(
        resolve("list", &[("pageSize", "")]).err(),
        Some(ResolveError::InvalidPagination)
    );
    assert_eq!(
        resolve("list", &[("pageSize", "-1")]).err(),
        Some(ResolveError::InvalidPagination)
    );
    assert_eq!(
        resolve("list", &[("pageIndex", "18446744073709551616")]).err(),
        Some(ResolveError::InvalidPagination)
    );
}

#[test]
fn parameter_order_does_not_change_the_key() {
    let a = resolve("x", &[("a", "2"), ("b", "1"), ("c", "1")]).unwrap();
    let b = resolve("x", &[("c", "1"), ("b", "1"), ("a", "2")]).unwrap();
    assert_eq!(a.subdir, Some("1_1_2".to_string()));
    assert_eq!(a.subdir, b.subdir);
    assert_eq!(a.filename, b.filename);
}

#[test]
fn values_sort_by_code_point() {
    let k = resolve("x", &[("a", "b"), ("b", "B"), ("c", "a"), ("d", "%C3%A9"), ("e", "z")]).unwrap();
    assert_eq!(k.subdir, Some("B_a_b_z_\u{e9}".to_string()));
    let k = resolve("x", &[("a", "ab"), ("b", "a")]).unwrap();
    assert_eq!(k.subdir, Some("a_ab".to_string()));
}

#[test]
fn values_are_percent_decoded() {
    let k = resolve("x", &[("name", "Acme%20Corp"), ("percent", "50")]).unwrap();
    assert_eq!(k.subdir, Some("50_Acme Corp".to_string()));
}

#[test]
fn traversal_segment_is_rejected() {
    assert_eq!(resolve("a/../b", &[]).err(), Some(ResolveError::TraversalRejected));
    assert_eq!(resolve("..", &[]).err(), Some(ResolveError::TraversalRejected));
    assert_eq!(resolve("a/%2E%2E/b", &[]).err(), Some(ResolveError::TraversalRejected));
    assert!(resolve("a/..b/.../c", &[]).is_ok());
}

#[test]
fn empty_segments_are_dropped() {
    let k = resolve("//a///b/", &[]).unwrap();
    assert_eq!(k.path, vec!["a".to_string(), "b".to_string()]);
}

#[test]
fn bad_encoding_is_rejected() {
    assert_eq!(resolve("a/%FF", &[]).err(), Some(ResolveError::EncodingError));
    assert_eq!(resolve("x", &[("v", "%FF")]).err(), Some(ResolveError::EncodingError));
    assert_eq!(resolve("x", &[("pageIndex", "%FF")]).err(), Some(ResolveError::EncodingError));
}

#[test]
fn malformed_percent_passes_through() {
    let k = resolve("x", &[("v", "100%")]).unwrap();
    assert_eq!(k.subdir, Some("100%".to_string()));
}

#[test]
fn escaping_key_is_denied() {
    assert_eq!(
        resolve("ActualControl/SuspectedActualControl", &[("keyWord", "../../etc/passwd")]).err(),
        Some(ResolveError::AccessDenied)
    );
    assert_eq!(resolve("x", &[("v", "/etc")]).err(), Some(ResolveError::AccessDenied));
    assert_eq!(resolve("x", &[("v", "a/%2E%2E")]).err(), Some(ResolveError::AccessDenied));
    assert_eq!(resolve("x", &[("v", "a/b")]).unwrap().subdir, Some("a/b".to_string()));
}

#[test]
fn actual_control_names_the_file() {
    let k = resolve("ActualControl/SuspectedActualControl", &[("keyWord", "abc")]).unwrap();
    assert_eq!(k.subdir, None);
    assert_eq!(k.filename, "abc.json");
    assert_eq!(
        resolve("ActualControl/SuspectedActualControl", &[]).err(),
        Some(ResolveError::MissingRequiredParameter)
    );
}

#[test]
fn investment_through_defaults() {
    let k = resolve("ECIInvestmentThrough/GetInfo", &[("searchKey", "S")]).unwrap();
    assert_eq!(k.subdir, Some("S".to_string()));
    assert_eq!(k.filename, "1_10.json");
}

#[test]
fn first_matching_endpoint_wins() {
    let path = "Beneficiary/GetBeneficiary/ECIInvestmentThrough/GetInfo";
    let q = query(&[("companyName", "C"), ("searchKey", "S")]);
    let first = Resolver::standard().resolve(path, &q).unwrap();
    assert_eq!(first.subdir, Some("C".to_string()));
    let mut r = Resolver::standard();
    r.endpoints = vec![Endpoint::InvestmentThrough, Endpoint::Beneficiary];
    let other = r.resolve(path, &q).unwrap();
    assert_eq!(other.subdir, Some("S".to_string()));
    assert_eq!(other.filename, "1_10.json");
}

#[test]
fn no_match_without_fallback() {
    let mut r = Resolver::standard();
    r.generic_fallback = false;
    assert_eq!(r.resolve("x", &query(&[])).err(), Some(ResolveError::NoMatch));
}

#[test]
fn configured_reserved_and_defaults() {
    let mut r = Resolver::standard();
    r.reserved = vec!["key".to_string(), "percent".to_string()];
    r.default_page_size = 20;
    let k = r.resolve("x", &query(&[("percent", "5"), ("key", "k"), ("a", "z")])).unwrap();
    assert_eq!(k.subdir, Some("z".to_string()));
    assert_eq!(k.filename, "1_20.json");
}

#[test]
fn resolving_twice_gives_the_same_key() {
    let q = query(&[("b", "2"), ("a", "1")]);
    let r = Resolver::standard();
    let a = r.resolve("p/q", &q).unwrap();
    let b = r.resolve("p/q", &q).unwrap();
    assert_eq!(a.path, b.path);
    assert_eq!(a.subdir, b.subdir);
    assert_eq!(a.filename, b.filename);
}

#[test]
fn query_last_write_wins() {
    let q = query(&[("a", "1"), ("b", "2"), ("a", "3")]);
    assert_eq!(q.len(), 2);
    assert_eq!(q.get("a").map(|s| s.as_str()), Some("3"));
    assert_eq!(q.name_at(0).as_str(), "a");
    assert_eq!(q.value_at(1).as_str(), "2");
    assert_eq!(q.get("c"), None);
    let k = Resolver::standard().resolve("x", &q).unwrap();
    assert_eq!(k.subdir, Some("2_3".to_string()));
}

#[test]
fn matchers_directly() {
    assert!(Parse628.is_match("/api/Beneficiary/GetBeneficiary"));
    assert!(!Parse628.is_match("/api/Beneficiary"));
    assert!(Parse643.is_match("x/ActualControl/SuspectedActualControl"));
    assert!(Parse663.is_match("ECIInvestmentThrough/GetInfo"));
    let (vals, file) = Parse663.parse(&query(&[("searchKey", "k"), ("pageSize", "5")])).unwrap();
    assert_eq!(vals, vec!["k".to_string()]);
    assert_eq!(file, "1_5.json");
}

#[test]
fn request_ids() {
    let id = generate_request_id();
    assert_eq!(id.chars().count(), 16);
    assert!(id.chars().all(|c| c.is_ascii_lowercase() || c.is_ascii_digit()));
    assert_eq!(request_id_from(&vec![0, 25, 26, 35]), "az09");
    let body = not_found_body();
    assert_eq!(body.code, 404);
    assert_eq!(body.message, "数据文件未找到");
    assert_eq!(body.request_id.len(), 16);
}
