//! What a script's references to the bundler's free API identifiers turn
//! into: the values `typeof` gives for them, and the dependencies that
//! replace them in the output.

use crate::comparators::str_equals;
use crate::json::{json_string, json_to_string};
use crate::runtime::{global_name, RuntimeGlobal};
use vstd::prelude::*;
use vstd::string::StringExecFns;

verus! {

pub const WEBPACK_HASH: &'static str = "__webpack_hash__";
pub const WEBPACK_PUBLIC_PATH: &'static str = "__webpack_public_path__";
pub const WEBPACK_MODULES: &'static str = "__webpack_modules__";
pub const WEBPACK_MODULE: &'static str = "__webpack_module__";
pub const WEBPACK_RESOURCE_QUERY: &'static str = "__resourceQuery";
pub const WEBPACK_CHUNK_LOAD: &'static str = "__webpack_chunk_load__";
pub const WEBPACK_BASE_URI: &'static str = "__webpack_base_uri__";
pub const NON_WEBPACK_REQUIRE: &'static str = "__non_webpack_require__";
pub const SYSTEM_CONTEXT: &'static str = "__system_context__";
pub const WEBPACK_SHARE_SCOPES: &'static str = "__webpack_share_scopes__";
pub const WEBPACK_INIT_SHARING: &'static str = "__webpack_init_sharing__";
pub const WEBPACK_NONCE: &'static str = "__webpack_nonce__";
pub const WEBPACK_CHUNK_NAME: &'static str = "__webpack_chunkname__";
pub const WEBPACK_RUNTIME_ID: &'static str = "__webpack_runtime_id__";
pub const WEBPACK_IS_INCLUDE: &'static str = "__webpack_is_included__";
pub const WEBPACK_REQUIRE: &'static str = "__webpack_require__";

/// What `typeof` evaluates to for an API identifier, if it is known.
pub open spec fn typeof_evaluate(sym: Seq<char>) -> Option<Seq<char>> {
    if sym == WEBPACK_REQUIRE@ {
        Some("function"@)
    } else if sym == WEBPACK_HASH@ {
        Some("string"@)
    } else if sym == WEBPACK_PUBLIC_PATH@ {
        Some("string"@)
    } else if sym == WEBPACK_MODULES@ {
        Some("object"@)
    } else if sym == WEBPACK_MODULE@ {
        Some("object"@)
    } else if sym == WEBPACK_RESOURCE_QUERY@ {
        Some("string"@)
    } else if sym == WEBPACK_CHUNK_LOAD@ {
        Some("function"@)
    } else if sym == WEBPACK_BASE_URI@ {
        Some("string"@)
    } else if sym == NON_WEBPACK_REQUIRE@ {
        None
    } else if sym == SYSTEM_CONTEXT@ {
        Some("object"@)
    } else if sym == WEBPACK_SHARE_SCOPES@ {
        Some("object"@)
    } else if sym == WEBPACK_INIT_SHARING@ {
        Some("function"@)
    } else if sym == WEBPACK_NONCE@ {
        Some("string"@)
    } else if sym == WEBPACK_CHUNK_NAME@ {
        Some("string"@)
    } else if sym == WEBPACK_RUNTIME_ID@ {
        None
    } else if sym == WEBPACK_IS_INCLUDE@ {
        Some("function"@)
    } else {
        None
    }
}

/// What `typeof` of an API identifier is replaced by at build time, if anything.
pub open spec fn typeof_const(sym: Seq<char>) -> Option<Seq<char>> {
    if sym == WEBPACK_IS_INCLUDE@ {
        Some("function"@)
    } else {
        None
    }
}


/// Where `typeof` of an API identifier is fixed at build time, it is what
/// evaluating `typeof` of that identifier gives.
pub proof fn law_typeof_const_agrees(sym: Seq<char>)
    ensures
        typeof_const(sym) matches Some(t) ==> typeof_evaluate(sym) == Some(t),
{
    if sym == WEBPACK_IS_INCLUDE@ {
        reveal_strlit("__webpack_is_included__");
        reveal_strlit("__webpack_require__");
        reveal_strlit("__webpack_hash__");
        reveal_strlit("__webpack_public_path__");
        reveal_strlit("__webpack_modules__");
        reveal_strlit("__webpack_module__");
        reveal_strlit("__resourceQuery");
        reveal_strlit("__webpack_chunk_load__");
        reveal_strlit("__webpack_base_uri__");
        reveal_strlit("__non_webpack_require__");
        reveal_strlit("__system_context__");
        reveal_strlit("__webpack_share_scopes__");
        reveal_strlit("__webpack_init_sharing__");
        reveal_strlit("__webpack_nonce__");
        reveal_strlit("__webpack_chunkname__");
        reveal_strlit("__webpack_runtime_id__");
        assert(sym.len() == 23);
        assert(sym[2] == 'w' && sym[10] == 'i');
        assert(WEBPACK_PUBLIC_PATH@[10] == 'p');
        assert(NON_WEBPACK_REQUIRE@[2] == 'n');
    }
}

/// The characters of an optional string.
pub open spec fn opt_view(o: Option<&str>) -> Option<Seq<char>> {
    match o {
        Some(s) => Some(s@),
        None => None,
    }
}

/// What `typeof` evaluates to for an API identifier, if it is known.
pub fn get_typeof_evaluate_of_api(sym: &str) -> (r: Option<&'static str>)
    ensures
        opt_view(r) == typeof_evaluate(sym@),
{
    if str_equals(sym, WEBPACK_REQUIRE) {
        Some("function")
    } else if str_equals(sym, WEBPACK_HASH) {
        Some("string")
    } else if str_equals(sym, WEBPACK_PUBLIC_PATH) {
        Some("string")
    } else if str_equals(sym, WEBPACK_MODULES) {
        Some("object")
    } else if str_equals(sym, WEBPACK_MODULE) {
        Some("object")
    } else if str_equals(sym, WEBPACK_RESOURCE_QUERY) {
        Some("string")
    } else if str_equals(sym, WEBPACK_CHUNK_LOAD) {
        Some("function")
    } else if str_equals(sym, WEBPACK_BASE_URI) {
        Some("string")
    } else if str_equals(sym, NON_WEBPACK_REQUIRE) {
        None
    } else if str_equals(sym, SYSTEM_CONTEXT) {
        Some("object")
    } else if str_equals(sym, WEBPACK_SHARE_SCOPES) {
        Some("object")
    } else if str_equals(sym, WEBPACK_INIT_SHARING) {
        Some("function")
    } else if str_equals(sym, WEBPACK_NONCE) {
        Some("string")
    } else if str_equals(sym, WEBPACK_CHUNK_NAME) {
        Some("string")
    } else if str_equals(sym, WEBPACK_RUNTIME_ID) {
        None
    } else if str_equals(sym, WEBPACK_IS_INCLUDE) {
        Some("function")
    } else {
        None
    }
}

/// What `typeof` of an API identifier is replaced by at build time, if anything.
pub fn get_typeof_const_of_api(sym: &str) -> (r: Option<&'static str>)
    ensures
        opt_view(r) == typeof_const(sym@),
{
    if str_equals(sym, WEBPACK_IS_INCLUDE) {
        Some("function")
    } else {
        None
    }
}

/// A source range, in byte positions counted from 1.
#[derive(Clone, Copy)]
pub struct Span {
    pub lo: u32,
    pub hi: u32,
}

impl Span {
    /// The start of the range counted from 0.
    pub fn real_lo(&self) -> (r: u32)
        requires
            self.lo >= 1,
        ensures
            r == self.lo - 1,
    {
        self.lo - 1
    }

    /// The end of the range counted from 0.
    pub fn real_hi(&self) -> (r: u32)
        requires
            self.hi >= 1,
        ensures
            r == self.hi - 1,
    {
        self.hi - 1
    }
}

/// An identifier of the script: its name, where it stands, and the syntax
/// context it was resolved in.
pub struct Ident {
    pub sym: String,
    pub span: Span,
    pub ctxt: u32,
}

/// The value an expression was evaluated to at build time: a string, with
/// the range of the expression.
pub struct BasicEvaluatedExpression {
    pub string: String,
    pub start: u32,
    pub end: u32,
}

/// A range of the source to leave alone.
#[derive(Clone, Copy)]
pub struct DependencyLocation {
    pub start: u32,
    pub end: u32,
}

impl DependencyLocation {
    /// Where the range starts.
    pub fn start(&self) -> (r: u32)
        ensures
            r == self.start,
    {
        self.start
    }

    /// Where the range ends.
    pub fn end(&self) -> (r: u32)
        ensures
            r == self.end,
    {
        self.end
    }
}

/// Replaces a range of the source with fixed code, possibly requiring a
/// runtime global.
pub struct ConstDependency {
    pub start: u32,
    pub end: u32,
    pub content: String,
    pub runtime_requirements: Option<RuntimeGlobal>,
}

/// Replaces a range of the source with the module argument, or one of its
/// properties.
pub struct ModuleArgumentDependency {
    pub start: u32,
    pub end: u32,
    pub id: Option<String>,
}

/// A dependency that only changes how the module's code is presented.
pub enum PresentationalDependency {
    Const(ConstDependency),
    ModuleArgument(ModuleArgumentDependency),
    RuntimeRequirements(RuntimeGlobal),
}

/// A call of `__webpack_is_included__` with a request.
pub struct WebpackIsIncludedDependency {
    pub start: u32,
    pub end: u32,
    pub request: String,
}

/// The parts of a `__webpack_is_included__` dependency: the range of the
/// call and the request.
pub open spec fn included_view(d: WebpackIsIncludedDependency) -> (u32, u32, Seq<char>) {
    (d.start, d.end, d.request@)
}

/// The views of a list of `__webpack_is_included__` dependencies.
pub open spec fn included_deps_view(s: Seq<WebpackIsIncludedDependency>) -> Seq<(u32, u32, Seq<char>)> {
    s.map_values(|d: WebpackIsIncludedDependency| included_view(d))
}

/// An argument of a call: whether it is spread, and the value of the string
/// literal it is, when it is one.
pub struct CallArg {
    pub spread: bool,
    pub str_value: Option<String>,
}

/// A call expression, as far as the scanner reads it: its range, the name
/// of the callee when the callee is an identifier, and the arguments.
pub struct CallExpr {
    pub span: Span,
    pub callee_ident: Option<String>,
    pub args: Vec<CallArg>,
}

/// Whether a call calls `__webpack_is_included__` by name.
pub open spec fn calls_is_included(call: CallExpr) -> bool {
    call.callee_ident matches Some(s) && s@ == WEBPACK_IS_INCLUDE@
}

/// The request of a `__webpack_is_included__` call with exactly one
/// argument that is a string literal and not spread.
pub open spec fn is_included_request(call: CallExpr) -> Option<Seq<char>> {
    if calls_is_included(call) && call.args.len() == 1 && !call.args[0].spread {
        match call.args[0].str_value {
            Some(v) => Some(v@),
            None => None,
        }
    } else {
        None
    }
}

/// Whether a range `[lo, hi]` lies within one of the ignored ranges.
pub open spec fn in_ignored(ignored: Seq<DependencyLocation>, lo: u32, hi: u32) -> bool {
    exists|i: int| 0 <= i < ignored.len() && #[trigger] ignored[i].start <= lo && hi <= ignored[i].end
}

/// What the scanner records about the module being built.
pub struct BuildInfo {
    pub need_create_require: bool,
}

/// What the scanner reads about the module's resource.
pub struct ResourceData {
    pub resource_query: Option<String>,
}

/// A presentational dependency, with its strings as character sequences.
pub enum DependencyView {
    Const { start: u32, end: u32, content: Seq<char>, runtime_requirements: Option<RuntimeGlobal> },
    ModuleArgument { start: u32, end: u32, id: Option<Seq<char>> },
    RuntimeRequirements(RuntimeGlobal),
}

impl View for PresentationalDependency {
    type V = DependencyView;

    open spec fn view(&self) -> DependencyView {
        match self {
            PresentationalDependency::Const(d) => DependencyView::Const {
                start: d.start,
                end: d.end,
                content: d.content@,
                runtime_requirements: d.runtime_requirements,
            },
            PresentationalDependency::ModuleArgument(d) => DependencyView::ModuleArgument {
                start: d.start,
                end: d.end,
                id: match d.id {
                    Some(x) => Some(x@),
                    None => None,
                },
            },
            PresentationalDependency::RuntimeRequirements(g) => DependencyView::RuntimeRequirements(
                *g,
            ),
        }
    }
}

/// The views of a list of presentational dependencies.
pub open spec fn deps_view(s: Seq<PresentationalDependency>) -> Seq<DependencyView> {
    s.map_values(|d: PresentationalDependency| d@)
}

/// A dependency that puts the name of a runtime global in place of a range.
pub open spec fn global_dependency(start: u32, end: u32, g: RuntimeGlobal) -> DependencyView {
    DependencyView::Const { start, end, content: global_name(g), runtime_requirements: Some(g) }
}

/// The dependency that replaces an unresolved API identifier standing at
/// `[start, end)`, if any. `__webpack_modules__` is left alone where it is
/// assigned to; `__resourceQuery` becomes the query as a JSON string;
/// `__non_webpack_require__` becomes a `createRequire` call in ES modules.
pub open spec fn ident_dependency(
    sym: Seq<char>,
    start: u32,
    end: u32,
    enter_assign: bool,
    module: bool,
    resource_query: Seq<char>,
) -> Option<DependencyView> {
    if sym == WEBPACK_REQUIRE@ {
        Some(global_dependency(start, end, RuntimeGlobal::Require))
    } else if sym == WEBPACK_HASH@ {
        Some(
            DependencyView::Const {
                start,
                end,
                content: global_name(RuntimeGlobal::GetFullHash) + "()"@,
                runtime_requirements: Some(RuntimeGlobal::GetFullHash),
            },
        )
    } else if sym == WEBPACK_PUBLIC_PATH@ {
        Some(global_dependency(start, end, RuntimeGlobal::PublicPath))
    } else if sym == WEBPACK_MODULES@ {
        if enter_assign {
            None
        } else {
            Some(global_dependency(start, end, RuntimeGlobal::ModuleFactories))
        }
    } else if sym == WEBPACK_RESOURCE_QUERY@ {
        Some(
            DependencyView::Const {
                start,
                end,
                content: json_string(resource_query),
                runtime_requirements: None,
            },
        )
    } else if sym == WEBPACK_CHUNK_LOAD@ {
        Some(global_dependency(start, end, RuntimeGlobal::EnsureChunk))
    } else if sym == WEBPACK_MODULE@ {
        Some(DependencyView::ModuleArgument { start, end, id: None })
    } else if sym == WEBPACK_BASE_URI@ {
        Some(global_dependency(start, end, RuntimeGlobal::BaseUri))
    } else if sym == NON_WEBPACK_REQUIRE@ {
        Some(
            DependencyView::Const {
                start,
                end,
                content: if module {
                    "__WEBPACK_EXTERNAL_createRequire(import.meta.url)"@
                } else {
                    "require"@
                },
                runtime_requirements: None,
            },
        )
    } else if sym == SYSTEM_CONTEXT@ {
        Some(global_dependency(start, end, RuntimeGlobal::SystemContext))
    } else if sym == WEBPACK_SHARE_SCOPES@ {
        Some(global_dependency(start, end, RuntimeGlobal::ShareScopeMap))
    } else if sym == WEBPACK_INIT_SHARING@ {
        Some(global_dependency(start, end, RuntimeGlobal::InitializeSharing))
    } else if sym == WEBPACK_NONCE@ {
        Some(global_dependency(start, end, RuntimeGlobal::ScriptNonce))
    } else if sym == WEBPACK_CHUNK_NAME@ {
        Some(global_dependency(start, end, RuntimeGlobal::ChunkName))
    } else if sym == WEBPACK_RUNTIME_ID@ {
        Some(global_dependency(start, end, RuntimeGlobal::RuntimeId))
    } else {
        None
    }
}

/// Whether an unresolved identifier named `sym` is replaced where it
/// stands: every API identifier but `__webpack_modules__` inside an
/// assignment target. Neither its range nor the module's kind changes that.
pub open spec fn replaced_here(sym: Seq<char>, enter_assign: bool) -> bool {
    ident_dependency(sym, 0, 0, enter_assign, false, Seq::empty()) is Some
}

/// The dependencies after `d` (if any) is added at the end.
pub open spec fn pushed_opt(s: Seq<DependencyView>, d: Option<DependencyView>) -> Seq<
    DependencyView,
> {
    match d {
        Some(x) => s.push(x),
        None => s,
    }
}

/// The view of an optional dependency.
pub open spec fn opt_dep_view(o: Option<PresentationalDependency>) -> Option<DependencyView> {
    match o {
        Some(d) => Some(d@),
        None => None,
    }
}

/// The resource query, or nothing when there is none.
pub open spec fn query_view(q: Option<String>) -> Seq<char> {
    match q {
        Some(x) => x@,
        None => Seq::empty(),
    }
}

/// A parser plugin that evaluates `typeof` of the API identifiers.
pub struct ApiParserPlugin;

impl ApiParserPlugin {
    /// `typeof` of an unresolved API identifier, evaluated to a string when
    /// it is known; nothing for other identifiers.
    pub fn evaluate_typeof(
        &self,
        expression: &Ident,
        start: u32,
        end: u32,
        unresolved_mark: u32,
    ) -> (r: Option<BasicEvaluatedExpression>)
        ensures
            expression.ctxt != unresolved_mark ==> r is None,
            expression.ctxt == unresolved_mark ==> match typeof_evaluate(expression.sym@) {
                Some(v) => r matches Some(e) && e.string@ == v && e.start == start && e.end == end,
                None => r is None,
            },
    {
        if expression.ctxt == unresolved_mark {
            match get_typeof_evaluate_of_api(expression.sym.as_str()) {
                Some(res) => Some(
                    BasicEvaluatedExpression { string: String::from_str(res), start, end },
                ),
                None => None,
            }
        } else {
            None
        }
    }
}

/// Finds the bundler's API identifiers in a script and records what
/// replaces them.
pub struct ApiScanner {
    pub unresolved_ctxt: u32,
    pub module: bool,
    pub build_info: BuildInfo,
    pub enter_assign: bool,
    pub resource_data: ResourceData,
    pub presentational_dependencies: Vec<PresentationalDependency>,
    pub dependencies: Vec<WebpackIsIncludedDependency>,
    pub ignored: Vec<DependencyLocation>,
}

/// Everything but the presentational dependencies and the build info is unchanged.
pub open spec fn scanner_same_but_outputs(a: ApiScanner, b: ApiScanner) -> bool {
    &&& a.unresolved_ctxt == b.unresolved_ctxt
    &&& a.module == b.module
    &&& a.enter_assign == b.enter_assign
    &&& a.resource_data == b.resource_data
    &&& a.dependencies == b.dependencies
    &&& a.ignored == b.ignored
}

/// A string made of a runtime global's name.
fn global_string(g: RuntimeGlobal) -> (r: String)
    ensures
        r@ == global_name(g),
{
    String::from_str(g.name())
}

impl ApiScanner {
    /// A scanner that has found nothing yet and is not inside an assignment target.
    pub fn new(
        unresolved_ctxt: u32,
        resource_data: ResourceData,
        dependencies: Vec<WebpackIsIncludedDependency>,
        presentational_dependencies: Vec<PresentationalDependency>,
        module: bool,
        build_info: BuildInfo,
        ignored: Vec<DependencyLocation>,
    ) -> (r: ApiScanner)
        ensures
            r.unresolved_ctxt == unresolved_ctxt,
            r.resource_data == resource_data,
            r.dependencies == dependencies,
            r.presentational_dependencies == presentational_dependencies,
            r.module == module,
            r.build_info == build_info,
            r.ignored == ignored,
            !r.enter_assign,
    {
        ApiScanner {
            unresolved_ctxt,
            module,
            build_info,
            enter_assign: false,
            resource_data,
            presentational_dependencies,
            dependencies,
            ignored,
        }
    }

    /// Records the dependency that replaces an identifier: only unresolved
    /// API identifiers are replaced (see `ident_dependency`); a
    /// `__non_webpack_require__` in an ES module also marks that the module
    /// needs `createRequire`.
    pub fn visit_ident(&mut self, ident: &Ident)
        requires
            ident.ctxt == old(self).unresolved_ctxt && replaced_here(ident.sym@, old(self).enter_assign)
                ==> ident.span.lo >= 1 && ident.span.hi >= 1,
        ensures
            scanner_same_but_outputs(*final(self), *old(self)),
            deps_view(final(self).presentational_dependencies@) == if ident.ctxt == old(
                self,
            ).unresolved_ctxt {
                pushed_opt(
                    deps_view(old(self).presentational_dependencies@),
                    ident_dependency(
                        ident.sym@,
                        (ident.span.lo - 1) as u32,
                        (ident.span.hi - 1) as u32,
                        old(self).enter_assign,
                        old(self).module,
                        query_view(old(self).resource_data.resource_query),
                    ),
                )
            } else {
                deps_view(old(self).presentational_dependencies@)
            },
            final(self).build_info.need_create_require == (old(self).build_info.need_create_require
                || (ident.ctxt == old(self).unresolved_ctxt && ident.sym@ == NON_WEBPACK_REQUIRE@
                && old(self).module)),
    {
        if ident.ctxt != self.unresolved_ctxt {
            return;
        }
        let ghost before = deps_view(self.presentational_dependencies@);
        let dep = self.ident_replacement(ident);
        if self.module && str_equals(ident.sym.as_str(), NON_WEBPACK_REQUIRE) {
            self.build_info.need_create_require = true;
        }
        match dep {
            Some(d) => {
                self.presentational_dependencies.push(d);
                proof {
                    assert(deps_view(self.presentational_dependencies@) =~= before.push(d@));
                }
            },
            None => {},
        }
    }

    /// The dependency that replaces an unresolved identifier, if any.
    fn ident_replacement(&self, ident: &Ident) -> (r: Option<PresentationalDependency>)
        requires
            replaced_here(ident.sym@, self.enter_assign) ==> ident.span.lo >= 1 && ident.span.hi >= 1,
        ensures
            opt_dep_view(r) == ident_dependency(
                ident.sym@,
                (ident.span.lo - 1) as u32,
                (ident.span.hi - 1) as u32,
                self.enter_assign,
                self.module,
                query_view(self.resource_data.resource_query),
            ),
    {
        let sym = ident.sym.as_str();
        if str_equals(sym, WEBPACK_REQUIRE) {
            Some(self.global_dep(ident, RuntimeGlobal::Require))
        } else if str_equals(sym, WEBPACK_HASH) {
            let mut content = global_string(RuntimeGlobal::GetFullHash);
            content.append("()");
            proof {
                reveal_strlit("()");
            }
            Some(
                PresentationalDependency::Const(
                    ConstDependency {
                        start: ident.span.real_lo(),
                        end: ident.span.real_hi(),
                        content,
                        runtime_requirements: Some(RuntimeGlobal::GetFullHash),
                    },
                ),
            )
        } else if str_equals(sym, WEBPACK_PUBLIC_PATH) {
            Some(self.global_dep(ident, RuntimeGlobal::PublicPath))
        } else if str_equals(sym, WEBPACK_MODULES) {
            if self.enter_assign {
                None
            } else {
                Some(self.global_dep(ident, RuntimeGlobal::ModuleFactories))
            }
        } else if str_equals(sym, WEBPACK_RESOURCE_QUERY) {
            let resource_query: &str = match &self.resource_data.resource_query {
                Some(x) => x.as_str(),
                None => "",
            };
            proof {
                reveal_strlit("");
            }
            let content = match json_to_string(resource_query) {
                Ok(v) => v,
                Err(_) => vstd::pervasive::unreached(),
            };
            Some(
                PresentationalDependency::Const(
                    ConstDependency {
                        start: ident.span.real_lo(),
                        end: ident.span.real_hi(),
                        content,
                        runtime_requirements: None,
                    },
                ),
            )
        } else if str_equals(sym, WEBPACK_CHUNK_LOAD) {
            Some(self.global_dep(ident, RuntimeGlobal::EnsureChunk))
        } else if str_equals(sym, WEBPACK_MODULE) {
            Some(
                PresentationalDependency::ModuleArgument(
                    ModuleArgumentDependency {
                        start: ident.span.real_lo(),
                        end: ident.span.real_hi(),
                        id: None,
                    },
                ),
            )
        } else if str_equals(sym, WEBPACK_BASE_URI) {
            Some(self.global_dep(ident, RuntimeGlobal::BaseUri))
        } else if str_equals(sym, NON_WEBPACK_REQUIRE) {
            let content = if self.module {
                String::from_str("__WEBPACK_EXTERNAL_createRequire(import.meta.url)")
            } else {
                String::from_str("require")
            };
            Some(
                PresentationalDependency::Const(
                    ConstDependency {
                        start: ident.span.real_lo(),
                        end: ident.span.real_hi(),
                        content,
                        runtime_requirements: None,
                    },
                ),
            )
        } else if str_equals(sym, SYSTEM_CONTEXT) {
            Some(self.global_dep(ident, RuntimeGlobal::SystemContext))
        } else if str_equals(sym, WEBPACK_SHARE_SCOPES) {
            Some(self.global_dep(ident, RuntimeGlobal::ShareScopeMap))
        } else if str_equals(sym, WEBPACK_INIT_SHARING) {
            Some(self.global_dep(ident, RuntimeGlobal::InitializeSharing))
        } else if str_equals(sym, WEBPACK_NONCE) {
            Some(self.global_dep(ident, RuntimeGlobal::ScriptNonce))
        } else if str_equals(sym, WEBPACK_CHUNK_NAME) {
            Some(self.global_dep(ident, RuntimeGlobal::ChunkName))
        } else if str_equals(sym, WEBPACK_RUNTIME_ID) {
            Some(self.global_dep(ident, RuntimeGlobal::RuntimeId))
        } else {
            None
        }
    }

    /// Visits an identifier that is assigned to (a declared variable or the
    /// target of a plain assignment): as `visit_ident`, inside an
    /// assignment target, which is left afterwards.
    pub fn visit_assigned_ident(&mut self, ident: &Ident)
        requires
            ident.ctxt == old(self).unresolved_ctxt && replaced_here(ident.sym@, true) ==> ident.span.lo
                >= 1 && ident.span.hi >= 1,
        ensures
            final(self).unresolved_ctxt == old(self).unresolved_ctxt,
            final(self).module == old(self).module,
            final(self).resource_data == old(self).resource_data,
            final(self).dependencies == old(self).dependencies,
            final(self).ignored == old(self).ignored,
            !final(self).enter_assign,
            deps_view(final(self).presentational_dependencies@) == if ident.ctxt == old(
                self,
            ).unresolved_ctxt {
                pushed_opt(
                    deps_view(old(self).presentational_dependencies@),
                    ident_dependency(
                        ident.sym@,
                        (ident.span.lo - 1) as u32,
                        (ident.span.hi - 1) as u32,
                        true,
                        old(self).module,
                        query_view(old(self).resource_data.resource_query),
                    ),
                )
            } else {
                deps_view(old(self).presentational_dependencies@)
            },
            final(self).build_info.need_create_require == (old(self).build_info.need_create_require
                || (ident.ctxt == old(self).unresolved_ctxt && ident.sym@ == NON_WEBPACK_REQUIRE@
                && old(self).module)),
    {
        self.enter_assign = true;
        self.visit_ident(ident);
        self.enter_assign = false;
    }

    /// Visits an expression standing at `span`, given whether it reads
    /// `require.cache` and whether it reads `module.id`. Nothing is done in
    /// an ignored range. `require.cache` becomes the module cache;
    /// `module.id` asks for the module id and becomes the module argument's
    /// `id`. The result tells whether the expression's parts are visited
    /// next: not in an ignored range and not for `module.id`.
    pub fn visit_expr(&mut self, span: Span, is_require_cache: bool, is_webpack_module_id: bool) -> (visit_children: bool)
        requires
            old(self).ignored@.len() > 0 || is_require_cache || is_webpack_module_id ==> span.lo >= 1
                && span.hi >= 1,
        ensures
            scanner_same_but_outputs(*final(self), *old(self)),
            final(self).build_info == old(self).build_info,
            visit_children == (!in_ignored(old(self).ignored@, (span.lo - 1) as u32, (span.hi - 1) as u32)
                && (is_require_cache || !is_webpack_module_id)),
            deps_view(final(self).presentational_dependencies@) == if in_ignored(
                old(self).ignored@,
                (span.lo - 1) as u32,
                (span.hi - 1) as u32,
            ) {
                deps_view(old(self).presentational_dependencies@)
            } else if is_require_cache {
                deps_view(old(self).presentational_dependencies@).push(
                    global_dependency((span.lo - 1) as u32, (span.hi - 1) as u32, RuntimeGlobal::ModuleCache),
                )
            } else if is_webpack_module_id {
                deps_view(old(self).presentational_dependencies@).push(
                    DependencyView::RuntimeRequirements(RuntimeGlobal::ModuleId),
                ).push(
                    DependencyView::ModuleArgument {
                        start: (span.lo - 1) as u32,
                        end: (span.hi - 1) as u32,
                        id: Some("id"@),
                    },
                )
            } else {
                deps_view(old(self).presentational_dependencies@)
            },
    {
        if self.ignored.len() > 0 {
            let lo = span.real_lo();
            let hi = span.real_hi();
            let mut i: usize = 0;
            while i < self.ignored.len()
                invariant
                    i <= self.ignored@.len(),
                    lo == span.lo - 1,
                    hi == span.hi - 1,
                    forall|j: int| 0 <= j < i ==> !(#[trigger] self.ignored@[j].start <= lo && hi <= self.ignored@[j].end),
                decreases self.ignored@.len() - i,
            {
                let r = self.ignored[i];
                if r.start() <= lo && hi <= r.end() {
                    return false;
                }
                i = i + 1;
            }
        }
        let ghost before = deps_view(self.presentational_dependencies@);
        if is_require_cache {
            let lo = span.real_lo();
            let hi = span.real_hi();
            let d = PresentationalDependency::Const(
                ConstDependency {
                    start: lo,
                    end: hi,
                    content: global_string(RuntimeGlobal::ModuleCache),
                    runtime_requirements: Some(RuntimeGlobal::ModuleCache),
                },
            );
            self.presentational_dependencies.push(d);
            proof {
                assert(deps_view(self.presentational_dependencies@) =~= before.push(d@));
            }
        } else if is_webpack_module_id {
            let lo = span.real_lo();
            let hi = span.real_hi();
            let d1 = PresentationalDependency::RuntimeRequirements(RuntimeGlobal::ModuleId);
            self.presentational_dependencies.push(d1);
            let d2 = PresentationalDependency::ModuleArgument(
                ModuleArgumentDependency { start: lo, end: hi, id: Some(String::from_str("id")) },
            );
            self.presentational_dependencies.push(d2);
            proof {
                reveal_strlit("id");
                assert(deps_view(self.presentational_dependencies@) =~= before.push(d1@).push(d2@));
            }
            return false;
        }
        true
    }

    /// Visits a call: a call of `__webpack_is_included__` with one argument
    /// that is a string literal and not spread records that request with the
    /// call's range. The result tells whether the call's parts are visited
    /// next: not for a call of `__webpack_is_included__` with other than one
    /// argument.
    pub fn visit_call_expr(&mut self, call: &CallExpr) -> (visit_children: bool)
        requires
            is_included_request(*call) is Some ==> call.span.lo >= 1 && call.span.hi >= 1,
        ensures
            final(self).unresolved_ctxt == old(self).unresolved_ctxt,
            final(self).module == old(self).module,
            final(self).enter_assign == old(self).enter_assign,
            final(self).resource_data == old(self).resource_data,
            final(self).build_info == old(self).build_info,
            final(self).presentational_dependencies == old(self).presentational_dependencies,
            final(self).ignored == old(self).ignored,
            visit_children == !(calls_is_included(*call) && call.args.len() != 1),
            included_deps_view(final(self).dependencies@) == match is_included_request(*call) {
                Some(request) => included_deps_view(old(self).dependencies@).push(
                    ((call.span.lo - 1) as u32, (call.span.hi - 1) as u32, request),
                ),
                None => included_deps_view(old(self).dependencies@),
            },
    {
        let is_include = match &call.callee_ident {
            Some(name) => str_equals(name.as_str(), WEBPACK_IS_INCLUDE),
            None => false,
        };
        if is_include {
            if call.args.len() != 1 {
                return false;
            }
            let arg = &call.args[0];
            if !arg.spread {
                match &arg.str_value {
                    Some(v) => {
                        let ghost before = included_deps_view(self.dependencies@);
                        let d = WebpackIsIncludedDependency {
                            start: call.span.real_lo(),
                            end: call.span.real_hi(),
                            request: v.clone(),
                        };
                        self.dependencies.push(d);
                        proof {
                            assert(included_deps_view(self.dependencies@) =~= before.push(included_view(d)));
                        }
                    },
                    None => {},
                }
            }
        }
        true
    }

    /// Visits a unary expression standing at `span` whose operand is
    /// `arg_ident` when that is an identifier: an API identifier whose
    /// `typeof` is fixed at build time is replaced, with its operator, by
    /// that type in single quotes.
    pub fn visit_unary_expr(&mut self, span: Span, arg_ident: Option<&Ident>)
        requires
            arg_ident matches Some(id) && typeof_const(id.sym@) is Some ==> span.lo >= 1 && span.hi >= 1,
        ensures
            scanner_same_but_outputs(*final(self), *old(self)),
            final(self).build_info == old(self).build_info,
            deps_view(final(self).presentational_dependencies@) == match arg_ident {
                Some(id) => match typeof_const(id.sym@) {
                    Some(t) => deps_view(old(self).presentational_dependencies@).push(
                        DependencyView::Const {
                            start: (span.lo - 1) as u32,
                            end: (span.hi - 1) as u32,
                            content: seq!['\''] + t + seq!['\''],
                            runtime_requirements: None,
                        },
                    ),
                    None => deps_view(old(self).presentational_dependencies@),
                },
                None => deps_view(old(self).presentational_dependencies@),
            },
    {
        match arg_ident {
            Some(id) => match get_typeof_const_of_api(id.sym.as_str()) {
                Some(res) => {
                    let ghost before = deps_view(self.presentational_dependencies@);
                    let mut content = String::from_str("'");
                    content.append(res);
                    content.append("'");
                    proof {
                        reveal_strlit("'");
                        assert(content@ =~= seq!['\''] + res@ + seq!['\'']);
                    }
                    let d = PresentationalDependency::Const(
                        ConstDependency {
                            start: span.real_lo(),
                            end: span.real_hi(),
                            content,
                            runtime_requirements: None,
                        },
                    );
                    self.presentational_dependencies.push(d);
                    proof {
                        assert(deps_view(self.presentational_dependencies@) =~= before.push(d@));
                    }
                },
                None => {},
            },
            None => {},
        }
    }

    /// The dependency that puts a runtime global's name in place of an identifier.
    fn global_dep(&self, ident: &Ident, g: RuntimeGlobal) -> (r: PresentationalDependency)
        requires
            ident.span.lo >= 1,
            ident.span.hi >= 1,
        ensures
            r@ == global_dependency((ident.span.lo - 1) as u32, (ident.span.hi - 1) as u32, g),
    {
        PresentationalDependency::Const(
            ConstDependency {
                start: ident.span.real_lo(),
                end: ident.span.real_hi(),
                content: global_string(g),
                runtime_requirements: Some(g),
            },
        )
    }
}


/// What each API identifier is replaced by, wherever it stands: the runtime
/// global it names, as that global's name, and with that global as its
/// runtime requirement; `__webpack_hash__` calls the full hash;
/// `__webpack_module__` becomes the module argument; `__resourceQuery`
/// becomes the query as a JSON string; `__non_webpack_require__` becomes
/// `require`, or a `createRequire` call in an ES module; and
/// `__webpack_modules__` is left alone inside an assignment target.
pub proof fn law_ident_replacements(
    start: u32,
    end: u32,
    enter_assign: bool,
    module: bool,
    query: Seq<char>,
)
    ensures
        ident_dependency(WEBPACK_REQUIRE@, start, end, enter_assign, module, query) == Some(
            DependencyView::Const { start, end, content: "__webpack_require__"@, runtime_requirements: Some(RuntimeGlobal::Require) },
        ),
        ident_dependency(WEBPACK_HASH@, start, end, enter_assign, module, query) == Some(
            DependencyView::Const { start, end, content: "__webpack_require__.h()"@, runtime_requirements: Some(RuntimeGlobal::GetFullHash) },
        ),
        ident_dependency(WEBPACK_PUBLIC_PATH@, start, end, enter_assign, module, query) == Some(
            DependencyView::Const { start, end, content: "__webpack_require__.p"@, runtime_requirements: Some(RuntimeGlobal::PublicPath) },
        ),
        ident_dependency(WEBPACK_MODULES@, start, end, enter_assign, module, query) == if enter_assign {
            None
        } else {
            Some(DependencyView::Const { start, end, content: "__webpack_require__.m"@, runtime_requirements: Some(RuntimeGlobal::ModuleFactories) })
        },
        ident_dependency(WEBPACK_RESOURCE_QUERY@, start, end, enter_assign, module, query) == Some(
            DependencyView::Const { start, end, content: json_string(query), runtime_requirements: None },
        ),
        ident_dependency(WEBPACK_CHUNK_LOAD@, start, end, enter_assign, module, query) == Some(
            DependencyView::Const { start, end, content: "__webpack_require__.e"@, runtime_requirements: Some(RuntimeGlobal::EnsureChunk) },
        ),
        ident_dependency(WEBPACK_MODULE@, start, end, enter_assign, module, query) == Some(
            DependencyView::ModuleArgument { start, end, id: None },
        ),
        ident_dependency(WEBPACK_BASE_URI@, start, end, enter_assign, module, query) == Some(
            DependencyView::Const { start, end, content: "__webpack_require__.b"@, runtime_requirements: Some(RuntimeGlobal::BaseUri) },
        ),
        ident_dependency(NON_WEBPACK_REQUIRE@, start, end, enter_assign, module, query) == Some(
            DependencyView::Const {
                start,
                end,
                content: if module { "__WEBPACK_EXTERNAL_createRequire(import.meta.url)"@ } else { "require"@ },
                runtime_requirements: None,
            },
        ),
        ident_dependency(SYSTEM_CONTEXT@, start, end, enter_assign, module, query) == Some(
            DependencyView::Const { start, end, content: "__webpack_require__.y"@, runtime_requirements: Some(RuntimeGlobal::SystemContext) },
        ),
        ident_dependency(WEBPACK_SHARE_SCOPES@, start, end, enter_assign, module, query) == Some(
            DependencyView::Const { start, end, content: "__webpack_require__.S"@, runtime_requirements: Some(RuntimeGlobal::ShareScopeMap) },
        ),
        ident_dependency(WEBPACK_INIT_SHARING@, start, end, enter_assign, module, query) == Some(
            DependencyView::Const { start, end, content: "__webpack_require__.I"@, runtime_requirements: Some(RuntimeGlobal::InitializeSharing) },
        ),
        ident_dependency(WEBPACK_NONCE@, start, end, enter_assign, module, query) == Some(
            DependencyView::Const { start, end, content: "__webpack_require__.nc"@, runtime_requirements: Some(RuntimeGlobal::ScriptNonce) },
        ),
        ident_dependency(WEBPACK_CHUNK_NAME@, start, end, enter_assign, module, query) == Some(
            DependencyView::Const { start, end, content: "__webpack_require__.cn"@, runtime_requirements: Some(RuntimeGlobal::ChunkName) },
        ),
        ident_dependency(WEBPACK_RUNTIME_ID@, start, end, enter_assign, module, query) == Some(
            DependencyView::Const { start, end, content: "__webpack_require__.j"@, runtime_requirements: Some(RuntimeGlobal::RuntimeId) },
        ),
        ident_dependency(WEBPACK_IS_INCLUDE@, start, end, enter_assign, module, query) is None,
{
    reveal_strlit("__webpack_require__");
    reveal_strlit("__webpack_hash__");
    reveal_strlit("__webpack_public_path__");
    reveal_strlit("__webpack_modules__");
    reveal_strlit("__webpack_module__");
    reveal_strlit("__resourceQuery");
    reveal_strlit("__webpack_chunk_load__");
    reveal_strlit("__webpack_base_uri__");
    reveal_strlit("__non_webpack_require__");
    reveal_strlit("__system_context__");
    reveal_strlit("__webpack_share_scopes__");
    reveal_strlit("__webpack_init_sharing__");
    reveal_strlit("__webpack_nonce__");
    reveal_strlit("__webpack_chunkname__");
    reveal_strlit("__webpack_runtime_id__");
    reveal_strlit("__webpack_is_included__");
    reveal_strlit("__webpack_require__.h");
    reveal_strlit("()");
    reveal_strlit("__webpack_require__.h()");
    assert(global_name(RuntimeGlobal::GetFullHash) + "()"@ =~= "__webpack_require__.h()"@);
    assert(WEBPACK_REQUIRE@.len() == 19);
    assert(WEBPACK_HASH@.len() == 16);
    assert(WEBPACK_PUBLIC_PATH@.len() == 23);
    assert(WEBPACK_MODULES@.len() == 19);
    assert(WEBPACK_RESOURCE_QUERY@.len() == 15);
    assert(WEBPACK_CHUNK_LOAD@.len() == 22);
    assert(WEBPACK_MODULE@.len() == 18);
    assert(WEBPACK_BASE_URI@.len() == 20);
    assert(NON_WEBPACK_REQUIRE@.len() == 23);
    assert(SYSTEM_CONTEXT@.len() == 18);
    assert(WEBPACK_SHARE_SCOPES@.len() == 24);
    assert(WEBPACK_INIT_SHARING@.len() == 24);
    assert(WEBPACK_NONCE@.len() == 17);
    assert(WEBPACK_CHUNK_NAME@.len() == 21);
    assert(WEBPACK_RUNTIME_ID@.len() == 22);
    assert(WEBPACK_IS_INCLUDE@.len() == 23);
    assert(WEBPACK_REQUIRE@[10] != WEBPACK_MODULES@[10]);
    assert(WEBPACK_PUBLIC_PATH@[2] != NON_WEBPACK_REQUIRE@[2]);
    assert(WEBPACK_PUBLIC_PATH@[10] != WEBPACK_IS_INCLUDE@[10]);
    assert(NON_WEBPACK_REQUIRE@[2] != WEBPACK_IS_INCLUDE@[2]);
    assert(WEBPACK_MODULE@[2] != SYSTEM_CONTEXT@[2]);
    assert(WEBPACK_SHARE_SCOPES@[10] != WEBPACK_INIT_SHARING@[10]);
    assert(WEBPACK_CHUNK_LOAD@[10] != WEBPACK_RUNTIME_ID@[10]);
}

} // verus!
