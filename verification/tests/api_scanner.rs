use rspack_chunks::api_scanner::{
    get_typeof_const_of_api, get_typeof_evaluate_of_api, ApiParserPlugin, ApiScanner, BuildInfo,
    CallArg, CallExpr, ConstDependency, DependencyLocation, Ident, ModuleArgumentDependency,
    PresentationalDependency, ResourceData, Span, NON_WEBPACK_REQUIRE, WEBPACK_HASH,
    WEBPACK_IS_INCLUDE, WEBPACK_MODULE, WEBPACK_MODULES, WEBPACK_REQUIRE, WEBPACK_RESOURCE_QUERY,
    WEBPACK_RUNTIME_ID,
};
use rspack_chunks::runtime::RuntimeGlobal;

const UNRESOLVED: u32 = 7;

fn scanner(module: bool, query: Option<&str>) -> ApiScanner {
    ApiScanner::new(
        UNRESOLVED,
        ResourceData { resource_query: query.map(|q| q.to_string()) },
        Vec::new(),
        Vec::new(),
        module,
        BuildInfo { need_create_require: false },
        Vec::new(),
    )
}

fn ident(sym: &str, lo: u32, hi: u32, ctxt: u32) -> Ident {
    Ident { sym: sym.to_string(), span: Span { lo, hi }, ctxt }
}

fn only_const(s: &ApiScanner) -> &ConstDependency {
    assert_eq!(s.presentational_dependencies.len(), 1);
    match &s.presentational_dependencies[0] {
        PresentationalDependency::Const(c) => c,
        _ => panic!("expected a const dependency"),
    }
}

#[test]
fn typeof_evaluate_knows_the_api() {
    assert_eq!(get_typeof_evaluate_of_api(WEBPACK_REQUIRE), Some("function"));
    assert_eq!(get_typeof_evaluate_of_api(WEBPACK_HASH), Some("string"));
    assert_eq!(get_typeof_evaluate_of_api(WEBPACK_MODULES), Some("object"));
    assert_eq!(get_typeof_evaluate_of_api(NON_WEBPACK_REQUIRE), None);
    assert_eq!(get_typeof_evaluate_of_api(WEBPACK_RUNTIME_ID), None);
    assert_eq!(get_typeof_evaluate_of_api(WEBPACK_IS_INCLUDE), Some("function"));
    assert_eq!(get_typeof_evaluate_of_api("window"), None);
}

#[test]
fn typeof_const_only_for_is_included() {
    assert_eq!(get_typeof_const_of_api(WEBPACK_IS_INCLUDE), Some("function"));
    assert_eq!(get_typeof_const_of_api(WEBPACK_REQUIRE), None);
    assert_eq!(get_typeof_evaluate_of_api(WEBPACK_IS_INCLUDE), get_typeof_const_of_api(WEBPACK_IS_INCLUDE));
}

#[test]
fn evaluate_typeof_only_for_unresolved() {
    let plugin = ApiParserPlugin;
    let r = plugin.evaluate_typeof(&ident(WEBPACK_HASH, 1, 2, UNRESOLVED), 3, 9, UNRESOLVED).unwrap();
    assert_eq!(r.string, "string");
    assert_eq!((r.start, r.end), (3, 9));
    assert!(plugin.evaluate_typeof(&ident(WEBPACK_HASH, 1, 2, 0), 3, 9, UNRESOLVED).is_none());
    assert!(plugin.evaluate_typeof(&ident("foo", 1, 2, UNRESOLVED), 3, 9, UNRESOLVED).is_none());
}

#[test]
fn visit_ident_replaces_webpack_require() {
    let mut s = scanner(false, None);
    s.visit_ident(&ident(WEBPACK_REQUIRE, 11, 30, UNRESOLVED));
    let c = only_const(&s);
    assert_eq!((c.start, c.end), (10, 29));
    assert_eq!(c.content, "__webpack_require__");
    assert_eq!(c.runtime_requirements, Some(RuntimeGlobal::Require));
}

#[test]
fn visit_ident_calls_full_hash() {
    let mut s = scanner(false, None);
    s.visit_ident(&ident(WEBPACK_HASH, 1, 17, UNRESOLVED));
    let c = only_const(&s);
    assert_eq!(c.content, "__webpack_require__.h()");
    assert_eq!(c.runtime_requirements, Some(RuntimeGlobal::GetFullHash));
}

#[test]
fn visit_ident_leaves_resolved_identifiers() {
    let mut s = scanner(false, None);
    s.visit_ident(&ident(WEBPACK_REQUIRE, 1, 20, UNRESOLVED + 1));
    s.visit_ident(&ident("other", 1, 6, UNRESOLVED));
    assert!(s.presentational_dependencies.is_empty());
}

#[test]
fn visit_ident_skips_assigned_webpack_modules() {
    let mut s = scanner(false, None);
    s.visit_assigned_ident(&ident(WEBPACK_MODULES, 1, 20, UNRESOLVED));
    assert!(s.presentational_dependencies.is_empty());
    assert!(!s.enter_assign);
    s.visit_ident(&ident(WEBPACK_MODULES, 1, 20, UNRESOLVED));
    assert_eq!(only_const(&s).content, "__webpack_require__.m");
}

#[test]
fn visit_ident_writes_resource_query_as_json() {
    let mut s = scanner(false, Some("?a=\"b\"\n"));
    s.visit_ident(&ident(WEBPACK_RESOURCE_QUERY, 1, 16, UNRESOLVED));
    let c = only_const(&s);
    assert_eq!(c.content, "\"?a=\\\"b\\\"\\n\"");
    assert_eq!(c.runtime_requirements, None);
    let mut empty = scanner(false, None);
    empty.visit_ident(&ident(WEBPACK_RESOURCE_QUERY, 1, 16, UNRESOLVED));
    assert_eq!(only_const(&empty).content, "\"\"");
}

#[test]
fn visit_ident_non_webpack_require_in_modules() {
    let mut esm = scanner(true, None);
    esm.visit_ident(&ident(NON_WEBPACK_REQUIRE, 1, 24, UNRESOLVED));
    assert_eq!(only_const(&esm).content, "__WEBPACK_EXTERNAL_createRequire(import.meta.url)");
    assert!(esm.build_info.need_create_require);
    let mut cjs = scanner(false, None);
    cjs.visit_ident(&ident(NON_WEBPACK_REQUIRE, 1, 24, UNRESOLVED));
    assert_eq!(only_const(&cjs).content, "require");
    assert!(!cjs.build_info.need_create_require);
}

#[test]
fn visit_ident_webpack_module_is_the_module_argument() {
    let mut s = scanner(false, None);
    s.visit_ident(&ident(WEBPACK_MODULE, 5, 23, UNRESOLVED));
    match &s.presentational_dependencies[0] {
        PresentationalDependency::ModuleArgument(ModuleArgumentDependency { start, end, id }) => {
            assert_eq!((*start, *end), (4, 22));
            assert!(id.is_none());
        }
        _ => panic!("expected the module argument"),
    }
}

#[test]
fn visit_expr_require_cache_and_module_id() {
    let mut s = scanner(false, None);
    assert!(s.visit_expr(Span { lo: 1, hi: 14 }, true, false));
    assert_eq!(only_const(&s).content, "__webpack_require__.c");
    let mut s = scanner(false, None);
    assert!(!s.visit_expr(Span { lo: 1, hi: 10 }, false, true));
    assert_eq!(s.presentational_dependencies.len(), 2);
    assert!(matches!(
        s.presentational_dependencies[0],
        PresentationalDependency::RuntimeRequirements(RuntimeGlobal::ModuleId)
    ));
    match &s.presentational_dependencies[1] {
        PresentationalDependency::ModuleArgument(d) => assert_eq!(d.id, Some("id".to_string())),
        _ => panic!("expected the module argument"),
    }
    let mut s = scanner(false, None);
    assert!(s.visit_expr(Span { lo: 1, hi: 10 }, false, false));
    assert!(s.presentational_dependencies.is_empty());
}

#[test]
fn visit_expr_skips_ignored_ranges() {
    let mut s = scanner(false, None);
    s.ignored.push(DependencyLocation { start: 0, end: 20 });
    assert!(!s.visit_expr(Span { lo: 3, hi: 10 }, true, false));
    assert!(s.presentational_dependencies.is_empty());
    assert!(s.visit_expr(Span { lo: 3, hi: 30 }, true, false));
    assert_eq!(s.presentational_dependencies.len(), 1);
}

#[test]
fn visit_call_expr_records_is_included_requests() {
    let mut s = scanner(false, None);
    let call = CallExpr {
        span: Span { lo: 1, hi: 40 },
        callee_ident: Some(WEBPACK_IS_INCLUDE.to_string()),
        args: vec![CallArg { spread: false, str_value: Some("./a".to_string()) }],
    };
    assert!(s.visit_call_expr(&call));
    assert_eq!(s.dependencies.len(), 1);
    assert_eq!((s.dependencies[0].start, s.dependencies[0].end), (0, 39));
    assert_eq!(s.dependencies[0].request, "./a");
    let two = CallExpr {
        span: Span { lo: 1, hi: 40 },
        callee_ident: Some(WEBPACK_IS_INCLUDE.to_string()),
        args: vec![
            CallArg { spread: false, str_value: Some("./a".to_string()) },
            CallArg { spread: false, str_value: None },
        ],
    };
    assert!(!s.visit_call_expr(&two));
    let spread = CallExpr {
        span: Span { lo: 1, hi: 40 },
        callee_ident: Some(WEBPACK_IS_INCLUDE.to_string()),
        args: vec![CallArg { spread: true, str_value: Some("./a".to_string()) }],
    };
    assert!(s.visit_call_expr(&spread));
    let other = CallExpr { span: Span { lo: 1, hi: 4 }, callee_ident: Some("f".to_string()), args: vec![] };
    assert!(s.visit_call_expr(&other));
    assert_eq!(s.dependencies.len(), 1);
}

#[test]
fn visit_unary_expr_fixes_typeof_is_included() {
    let mut s = scanner(false, None);
    let id = ident(WEBPACK_IS_INCLUDE, 8, 31, UNRESOLVED);
    s.visit_unary_expr(Span { lo: 1, hi: 31 }, Some(&id));
    let c = only_const(&s);
    assert_eq!(c.content, "'function'");
    assert_eq!((c.start, c.end), (0, 30));
    let mut s = scanner(false, None);
    s.visit_unary_expr(Span { lo: 1, hi: 31 }, Some(&ident(WEBPACK_REQUIRE, 8, 27, UNRESOLVED)));
    s.visit_unary_expr(Span { lo: 1, hi: 31 }, None);
    assert!(s.presentational_dependencies.is_empty());
}

#[test]
fn assigned_webpack_modules_without_positions() {
    let mut s = scanner(false, None);
    s.visit_assigned_ident(&ident(WEBPACK_MODULES, 0, 0, UNRESOLVED));
    assert!(s.presentational_dependencies.is_empty());
    assert!(s.dependencies.is_empty());
    assert!(!s.build_info.need_create_require);
    assert!(!s.enter_assign);
}

#[test]
fn is_included_calls_without_a_request_read_no_positions() {
    let mut s = scanner(false, None);
    let none = CallExpr { span: Span { lo: 0, hi: 0 }, callee_ident: Some(WEBPACK_IS_INCLUDE.to_string()), args: vec![] };
    assert!(!s.visit_call_expr(&none));
    let not_a_string = CallExpr {
        span: Span { lo: 0, hi: 0 },
        callee_ident: Some(WEBPACK_IS_INCLUDE.to_string()),
        args: vec![CallArg { spread: false, str_value: None }],
    };
    assert!(s.visit_call_expr(&not_a_string));
    assert!(s.dependencies.is_empty());
    assert!(s.presentational_dependencies.is_empty());
}
