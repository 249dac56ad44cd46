//! Route descriptors: an HTTP method filter, a compiled path pattern, and
//! the resolved bindings of the request shape's fields, validated so that
//! pattern variables and path-bound fields correspond one to one.

use crate::error::{BodyError, ContentTypeError, NailsError, QueryError};
use crate::http::{Method, RequestBody};
use crate::numparse::int_text_val;
use crate::path::{
    first_dup, lemma_name_index_found, lemma_var_component_at, lemma_var_name_index,
    lemma_var_names_contains, name_index, var_components, var_names, CompView, PathPattern,
};
use crate::query::QueryTable;
use crate::request::{one_value_err, sint_ok, uint_ok, FromPath};
use vstd::prelude::*;
use vstd::slice::slice_to_vec;
use vstd::string::{StrSliceExecFns, StringExecFns};

verus! {

/// Which request methods a route accepts; `GetOrHead` is the default.
#[derive(Debug, Clone, Copy, PartialEq, Eq, Structural)]
pub enum MethodFilter {
    GetOrHead,
    GetOnly,
    Head,
    Post,
    Put,
    Delete,
    Options,
    Patch,
}

impl MethodFilter {
    pub open spec fn allows_spec(self, m: Method) -> bool {
        match self {
            MethodFilter::GetOrHead => m == Method::Get || m == Method::Head,
            MethodFilter::GetOnly => m == Method::Get,
            MethodFilter::Head => m == Method::Head,
            MethodFilter::Post => m == Method::Post,
            MethodFilter::Put => m == Method::Put,
            MethodFilter::Delete => m == Method::Delete,
            MethodFilter::Options => m == Method::Options,
            MethodFilter::Patch => m == Method::Patch,
        }
    }

    pub fn allows(&self, m: &Method) -> (r: bool)
        ensures
            r == self.allows_spec(*m),
    {
        match self {
            MethodFilter::GetOrHead => matches!(m, Method::Get) || matches!(m, Method::Head),
            MethodFilter::GetOnly => matches!(m, Method::Get),
            MethodFilter::Head => matches!(m, Method::Head),
            MethodFilter::Post => matches!(m, Method::Post),
            MethodFilter::Put => matches!(m, Method::Put),
            MethodFilter::Delete => matches!(m, Method::Delete),
            MethodFilter::Options => matches!(m, Method::Options),
            MethodFilter::Patch => matches!(m, Method::Patch),
        }
    }
}

/// The type a path variable or query parameter converts to.
#[derive(Debug, Clone, Copy, PartialEq, Eq, Structural)]
pub enum ParamType {
    StringParam,
    U8Param,
    U16Param,
    U32Param,
    U64Param,
    U128Param,
    I8Param,
    I16Param,
    I32Param,
    I64Param,
    I128Param,
}

pub open spec fn is_unsigned(t: ParamType) -> bool {
    t == ParamType::U8Param || t == ParamType::U16Param || t == ParamType::U32Param || t
        == ParamType::U64Param || t == ParamType::U128Param
}

/// Which component texts convert as type `t`: exactly the texts the
/// corresponding `FromPath` conversion accepts.
pub open spec fn param_ok(t: ParamType, s: Seq<char>) -> bool {
    match t {
        ParamType::StringParam => true,
        ParamType::U8Param => uint_ok(s, u8::MAX as int),
        ParamType::U16Param => uint_ok(s, u16::MAX as int),
        ParamType::U32Param => uint_ok(s, u32::MAX as int),
        ParamType::U64Param => uint_ok(s, u64::MAX as int),
        ParamType::U128Param => uint_ok(s, u128::MAX as int),
        ParamType::I8Param => sint_ok(s, i8::MIN as int, i8::MAX as int),
        ParamType::I16Param => sint_ok(s, i16::MIN as int, i16::MAX as int),
        ParamType::I32Param => sint_ok(s, i32::MIN as int, i32::MAX as int),
        ParamType::I64Param => sint_ok(s, i64::MIN as int, i64::MAX as int),
        ParamType::I128Param => sint_ok(s, i128::MIN as int, i128::MAX as int),
    }
}

/// Whether the text `s` would convert as type `t`, as the route match
/// predicate asks.
pub fn param_matches(t: &ParamType, s: &str) -> (r: bool)
    ensures
        r == param_ok(*t, s@),
{
    match t {
        ParamType::StringParam => <String as FromPath>::matches(s),
        ParamType::U8Param => <u8 as FromPath>::matches(s),
        ParamType::U16Param => <u16 as FromPath>::matches(s),
        ParamType::U32Param => <u32 as FromPath>::matches(s),
        ParamType::U64Param => <u64 as FromPath>::matches(s),
        ParamType::U128Param => <u128 as FromPath>::matches(s),
        ParamType::I8Param => <i8 as FromPath>::matches(s),
        ParamType::I16Param => <i16 as FromPath>::matches(s),
        ParamType::I32Param => <i32 as FromPath>::matches(s),
        ParamType::I64Param => <i64 as FromPath>::matches(s),
        ParamType::I128Param => <i128 as FromPath>::matches(s),
    }
}

/// A converted value: text stays text, integers are widened to one signed
/// or unsigned representation; the descriptor's type says which range it
/// came from.
#[derive(Debug, Clone, PartialEq, Eq)]
pub enum ParamValue {
    StrVal(String),
    UintVal(u128),
    IntVal(i128),
}

/// Whether `v` is the value that the text `s` converts to as type `t`.
pub open spec fn param_val_ok(t: ParamType, s: Seq<char>, v: ParamValue) -> bool {
    if t == ParamType::StringParam {
        v matches ParamValue::StrVal(x) && x@ == s
    } else if is_unsigned(t) {
        v matches ParamValue::UintVal(u) && u as int == int_text_val(s)
    } else {
        v matches ParamValue::IntVal(x) && x as int == int_text_val(s)
    }
}

/// Converts one component text as type `t`: succeeds exactly when the
/// match predicate accepts the text, and then returns its value.
pub fn param_parse(t: &ParamType, s: &str) -> (r: Result<ParamValue, ()>)
    ensures
        r is Ok <==> param_ok(*t, s@),
        r matches Ok(v) ==> param_val_ok(*t, s@, v),
{
    match t {
        ParamType::StringParam => match <String as FromPath>::from_path(s) {
            Ok(v) => Ok(ParamValue::StrVal(v)),
            Err(()) => Err(()),
        },
        ParamType::U8Param => match <u8 as FromPath>::from_path(s) {
            Ok(v) => Ok(ParamValue::UintVal(v as u128)),
            Err(()) => Err(()),
        },
        ParamType::U16Param => match <u16 as FromPath>::from_path(s) {
            Ok(v) => Ok(ParamValue::UintVal(v as u128)),
            Err(()) => Err(()),
        },
        ParamType::U32Param => match <u32 as FromPath>::from_path(s) {
            Ok(v) => Ok(ParamValue::UintVal(v as u128)),
            Err(()) => Err(()),
        },
        ParamType::U64Param => match <u64 as FromPath>::from_path(s) {
            Ok(v) => Ok(ParamValue::UintVal(v as u128)),
            Err(()) => Err(()),
        },
        ParamType::U128Param => match <u128 as FromPath>::from_path(s) {
            Ok(v) => Ok(ParamValue::UintVal(v)),
            Err(()) => Err(()),
        },
        ParamType::I8Param => match <i8 as FromPath>::from_path(s) {
            Ok(v) => Ok(ParamValue::IntVal(v as i128)),
            Err(()) => Err(()),
        },
        ParamType::I16Param => match <i16 as FromPath>::from_path(s) {
            Ok(v) => Ok(ParamValue::IntVal(v as i128)),
            Err(()) => Err(()),
        },
        ParamType::I32Param => match <i32 as FromPath>::from_path(s) {
            Ok(v) => Ok(ParamValue::IntVal(v as i128)),
            Err(()) => Err(()),
        },
        ParamType::I64Param => match <i64 as FromPath>::from_path(s) {
            Ok(v) => Ok(ParamValue::IntVal(v as i128)),
            Err(()) => Err(()),
        },
        ParamType::I128Param => match <i128 as FromPath>::from_path(s) {
            Ok(v) => Ok(ParamValue::IntVal(v)),
            Err(()) => Err(()),
        },
    }
}

/// How many values a query field takes: exactly one, none or one, or any
/// number.
#[derive(Debug, Clone, Copy, PartialEq, Eq, Structural)]
pub enum QueryArity {
    Single,
    Optional,
    Repeated,
}

/// The declared conversion type of a field: a single value, an optional
/// value, or a repeated value.
#[derive(Debug, Clone, Copy, PartialEq, Eq, Structural)]
pub enum FieldTy {
    One(ParamType),
    Opt(ParamType),
    Many(ParamType),
}

pub open spec fn arity_of(ty: FieldTy) -> QueryArity {
    match ty {
        FieldTy::One(_) => QueryArity::Single,
        FieldTy::Opt(_) => QueryArity::Optional,
        FieldTy::Many(_) => QueryArity::Repeated,
    }
}

pub open spec fn elem_of(ty: FieldTy) -> ParamType {
    match ty {
        FieldTy::One(t) => t,
        FieldTy::Opt(t) => t,
        FieldTy::Many(t) => t,
    }
}

/// One field of a route's request shape, as the route author declares it:
/// its identifier if it has one, its explicit tags, and its type.
#[derive(Debug, Clone)]
pub struct FieldDecl {
    pub ident: Option<String>,
    pub query: Option<Option<String>>,
    pub path: Option<Option<String>>,
    pub body: bool,
    pub ty: FieldTy,
}

/// The mathematical shape of a field declaration.
pub struct FieldDeclView {
    pub ident: Option<Seq<char>>,
    pub query: Option<Option<Seq<char>>>,
    pub path: Option<Option<Seq<char>>>,
    pub body: bool,
    pub ty: FieldTy,
}

pub open spec fn opt_view(o: Option<String>) -> Option<Seq<char>> {
    match o {
        Some(s) => Some(s@),
        None => None,
    }
}

pub open spec fn opt_opt_view(o: Option<Option<String>>) -> Option<Option<Seq<char>>> {
    match o {
        Some(s) => Some(opt_view(s)),
        None => None,
    }
}

impl View for FieldDecl {
    type V = FieldDeclView;

    open spec fn view(&self) -> FieldDeclView {
        FieldDeclView {
            ident: opt_view(self.ident),
            query: opt_opt_view(self.query),
            path: opt_opt_view(self.path),
            body: self.body,
            ty: self.ty,
        }
    }
}

impl DeepView for FieldDecl {
    type V = FieldDeclView;

    open spec fn deep_view(&self) -> FieldDeclView {
        self.view()
    }
}

/// What one field resolved to: the source it reads and the conversion it
/// applies.
#[derive(Debug, Clone)]
pub enum FieldBinding {
    PathBind { name: String, ty: ParamType },
    QueryBind { name: String, arity: QueryArity, ty: ParamType },
    BodyBind,
}

/// The mathematical shape of a resolved binding.
pub enum BindView {
    PathV { name: Seq<char>, ty: ParamType },
    QueryV { name: Seq<char>, arity: QueryArity, ty: ParamType },
    BodyV,
}

impl View for FieldBinding {
    type V = BindView;

    open spec fn view(&self) -> BindView {
        match self {
            FieldBinding::PathBind { name, ty } => BindView::PathV { name: name@, ty: *ty },
            FieldBinding::QueryBind { name, arity, ty } => BindView::QueryV {
                name: name@,
                arity: *arity,
                ty: *ty,
            },
            FieldBinding::BodyBind => BindView::BodyV,
        }
    }
}

impl DeepView for FieldBinding {
    type V = BindView;

    open spec fn deep_view(&self) -> BindView {
        self.view()
    }
}

/// Why a route description was rejected.
#[derive(Debug, Clone, PartialEq, Eq)]
pub enum BuildError {
    /// One field carries both a query and a path tag.
    QueryAndPath,
    /// A positional field tagged as query has no name to use.
    QueryNameMissing,
    /// A positional field tagged as path has no name to use.
    PathNameMissing,
    /// A positional field has no tag and no name at all.
    FieldNameMissing,
    /// A path tag names a variable the template does not declare.
    PathNameNotInPattern,
    /// A path-bound field must take exactly one value.
    PathFieldNotSingle,
    /// Two fields bind the same path variable.
    DuplicatePathNames(String),
    /// A template variable has no path-bound field.
    MissingFieldForBinding(String),
    /// More than one field binds the body.
    MultipleBodyFields,
}

/// The mathematical shape of a build failure.
pub enum BuildErrView {
    QueryAndPathV,
    QueryNameMissingV,
    PathNameMissingV,
    FieldNameMissingV,
    NotInPatternV,
    PathNotSingleV,
    DuplicateV(Seq<char>),
    MissingV(Seq<char>),
    MultiBodyV,
}

impl View for BuildError {
    type V = BuildErrView;

    open spec fn view(&self) -> BuildErrView {
        match self {
            BuildError::QueryAndPath => BuildErrView::QueryAndPathV,
            BuildError::QueryNameMissing => BuildErrView::QueryNameMissingV,
            BuildError::PathNameMissing => BuildErrView::PathNameMissingV,
            BuildError::FieldNameMissing => BuildErrView::FieldNameMissingV,
            BuildError::PathNameNotInPattern => BuildErrView::NotInPatternV,
            BuildError::PathFieldNotSingle => BuildErrView::PathNotSingleV,
            BuildError::DuplicatePathNames(n) => BuildErrView::DuplicateV(n@),
            BuildError::MissingFieldForBinding(n) => BuildErrView::MissingV(n@),
            BuildError::MultipleBodyFields => BuildErrView::MultiBodyV,
        }
    }
}

/// How one declared field resolves against the template's variable names,
/// in the order the resolution rules apply: an explicit query tag first,
/// then an explicit path tag, then an explicit body tag, then the
/// identifier-based fallback.
pub open spec fn resolve_field(f: FieldDeclView, bindings: Seq<Seq<char>>) -> Result<
    BindView,
    BuildErrView,
> {
    if f.query is Some {
        if f.path is Some {
            Err(BuildErrView::QueryAndPathV)
        } else {
            let name = match f.query->0 {
                Some(n) => Some(n),
                None => f.ident,
            };
            match name {
                None => Err(BuildErrView::QueryNameMissingV),
                Some(n) => Ok(
                    BindView::QueryV { name: n, arity: arity_of(f.ty), ty: elem_of(f.ty) },
                ),
            }
        }
    } else if f.path is Some {
        let name = match f.path->0 {
            Some(n) => Some(n),
            None => f.ident,
        };
        match name {
            None => Err(BuildErrView::PathNameMissingV),
            Some(n) => if !bindings.contains(n) {
                Err(BuildErrView::NotInPatternV)
            } else {
                match f.ty {
                    FieldTy::One(t) => Ok(BindView::PathV { name: n, ty: t }),
                    _ => Err(BuildErrView::PathNotSingleV),
                }
            },
        }
    } else if f.body {
        Ok(BindView::BodyV)
    } else {
        match f.ident {
            None => Err(BuildErrView::FieldNameMissingV),
            Some(id) => if bindings.contains(id) {
                match f.ty {
                    FieldTy::One(t) => Ok(BindView::PathV { name: id, ty: t }),
                    _ => Err(BuildErrView::PathNotSingleV),
                }
            } else {
                Ok(BindView::QueryV { name: id, arity: arity_of(f.ty), ty: elem_of(f.ty) })
            },
        }
    }
}

/// How a field list resolves from position `i` on: the first failing
/// field's error, or the bindings in order.
pub open spec fn resolve_list(fs: Seq<FieldDeclView>, bindings: Seq<Seq<char>>, i: int) -> Result<
    Seq<BindView>,
    BuildErrView,
>
    decreases fs.len() - i,
{
    if i < 0 || i >= fs.len() {
        Ok(Seq::<BindView>::empty())
    } else {
        match resolve_field(fs[i], bindings) {
            Err(e) => Err(e),
            Ok(b) => match resolve_list(fs, bindings, i + 1) {
                Err(e) => Err(e),
                Ok(rest) => Ok(seq![b] + rest),
            },
        }
    }
}

/// The names of the path-bound fields, in field order.
pub open spec fn path_names_of(bs: Seq<BindView>) -> Seq<Seq<char>>
    decreases bs.len(),
{
    if bs.len() == 0 {
        Seq::<Seq<char>>::empty()
    } else {
        path_names_of(bs.drop_last()) + (match bs.last() {
            BindView::PathV { name, .. } => seq![name],
            _ => Seq::<Seq<char>>::empty(),
        })
    }
}

/// How many fields bind the body.
pub open spec fn body_count(bs: Seq<BindView>) -> nat
    decreases bs.len(),
{
    if bs.len() == 0 {
        0
    } else {
        body_count(bs.drop_last()) + (if bs.last() is BodyV {
            1nat
        } else {
            0nat
        })
    }
}

/// The first entry of `bindings` that `names` does not hold.
pub open spec fn first_missing(bindings: Seq<Seq<char>>, names: Seq<Seq<char>>) -> Option<
    Seq<char>,
>
    decreases bindings.len(),
{
    if bindings.len() == 0 {
        None
    } else if !names.contains(bindings[0]) {
        Some(bindings[0])
    } else {
        first_missing(bindings.drop_first(), names)
    }
}

/// How a whole route description resolves: each field in order, then at
/// most one body field, no two fields on one path variable, and a
/// path-bound field for every template variable.
pub open spec fn resolve_route(fs: Seq<FieldDeclView>, bindings: Seq<Seq<char>>) -> Result<
    Seq<BindView>,
    BuildErrView,
> {
    match resolve_list(fs, bindings, 0) {
        Err(e) => Err(e),
        Ok(bs) => if body_count(bs) > 1 {
            Err(BuildErrView::MultiBodyV)
        } else {
            match first_dup(path_names_of(bs)) {
                Some(d) => Err(BuildErrView::DuplicateV(d)),
                None => match first_missing(bindings, path_names_of(bs)) {
                    Some(b) => Err(BuildErrView::MissingV(b)),
                    None => Ok(bs),
                },
            }
        },
    }
}

impl BuildError {
    /// The reason in words.
    pub fn message(&self) -> (r: String)
        ensures
            self is DuplicatePathNames ==> r@ == "Duplicate path names"@,
            self is PathNameNotInPattern ==> r@
                == "This name doesn't exist in the endpoint path"@,
            self matches BuildError::MissingFieldForBinding(n) ==> r@
                == "Missing field for binding name from {"@ + n@ + "}"@,
    {
        match self {
            BuildError::QueryAndPath => String::from_str("cannot bind both query and path"),
            BuildError::QueryNameMissing => String::from_str(
                "a positional query field needs an explicit name",
            ),
            BuildError::PathNameMissing => String::from_str(
                "a positional path field needs an explicit name",
            ),
            BuildError::FieldNameMissing => String::from_str(
                "a positional field needs an explicit binding",
            ),
            BuildError::PathNameNotInPattern => String::from_str(
                "This name doesn't exist in the endpoint path",
            ),
            BuildError::PathFieldNotSingle => String::from_str(
                "a path field takes a single value",
            ),
            BuildError::DuplicatePathNames(_) => String::from_str("Duplicate path names"),
            BuildError::MissingFieldForBinding(n) => {
                let mut out = String::from_str("Missing field for binding name from {");
                out.append(n.as_str());
                out.append("}");
                proof {
                    assert(out@ =~= "Missing field for binding name from {"@ + n@ + "}"@);
                }
                out
            },
            BuildError::MultipleBodyFields => String::from_str("multiple body fields"),
        }
    }
}

/// Resolves one declared field, as `resolve_field` describes.
fn resolve_field_exec(f: &FieldDecl, bindings: &Vec<String>) -> (r: Result<
    FieldBinding,
    BuildError,
>)
    ensures
        r matches Ok(b) ==> resolve_field(f@, bindings.deep_view()) == Ok::<BindView, BuildErrView>(
            b@,
        ),
        r matches Err(e) ==> resolve_field(f@, bindings.deep_view()) == Err::<
            BindView,
            BuildErrView,
        >(e@),
{
    let arity = match &f.ty {
        FieldTy::One(_) => QueryArity::Single,
        FieldTy::Opt(_) => QueryArity::Optional,
        FieldTy::Many(_) => QueryArity::Repeated,
    };
    let elem = match &f.ty {
        FieldTy::One(t) => *t,
        FieldTy::Opt(t) => *t,
        FieldTy::Many(t) => *t,
    };
    if let Some(qname) = &f.query {
        if f.path.is_some() {
            return Err(BuildError::QueryAndPath);
        }
        let name = match qname {
            Some(n) => Some(n.clone()),
            None => match &f.ident {
                Some(id) => Some(id.clone()),
                None => None,
            },
        };
        match name {
            None => Err(BuildError::QueryNameMissing),
            Some(n) => Ok(FieldBinding::QueryBind { name: n, arity, ty: elem }),
        }
    } else if let Some(pname) = &f.path {
        let name = match pname {
            Some(n) => Some(n.clone()),
            None => match &f.ident {
                Some(id) => Some(id.clone()),
                None => None,
            },
        };
        match name {
            None => Err(BuildError::PathNameMissing),
            Some(n) => {
                if !crate::path::vec_contains_str(bindings, n.as_str()) {
                    return Err(BuildError::PathNameNotInPattern);
                }
                match &f.ty {
                    FieldTy::One(t) => Ok(FieldBinding::PathBind { name: n, ty: *t }),
                    _ => Err(BuildError::PathFieldNotSingle),
                }
            },
        }
    } else if f.body {
        Ok(FieldBinding::BodyBind)
    } else {
        match &f.ident {
            None => Err(BuildError::FieldNameMissing),
            Some(id) => {
                if crate::path::vec_contains_str(bindings, id.as_str()) {
                    match &f.ty {
                        FieldTy::One(t) => Ok(
                            FieldBinding::PathBind { name: id.clone(), ty: *t },
                        ),
                        _ => Err(BuildError::PathFieldNotSingle),
                    }
                } else {
                    Ok(
                        FieldBinding::QueryBind {
                            name: id.clone(),
                            arity,
                            ty: elem,
                        },
                    )
                }
            },
        }
    }
}


/// The path names of a concatenation are the concatenated path names.
proof fn lemma_path_names_concat(a: Seq<BindView>, b: Seq<BindView>)
    ensures
        path_names_of(a + b) == path_names_of(a) + path_names_of(b),
    decreases b.len(),
{
    if b.len() == 0 {
        assert(a + b =~= a);
        assert(path_names_of(a) + path_names_of(b) =~= path_names_of(a));
    } else {
        lemma_path_names_concat(a, b.drop_last());
        assert((a + b).drop_last() =~= a + b.drop_last());
        assert((a + b).last() == b.last());
        assert(path_names_of(a + b) =~= path_names_of(a) + path_names_of(b));
    }
}

/// The name of the path binding at `j` stands in the path-name list at the
/// position counting the path bindings before `j`.
proof fn lemma_path_name_index(bs: Seq<BindView>, j: int)
    requires
        0 <= j < bs.len(),
        bs[j] is PathV,
    ensures
        path_names_of(bs.take(j)).len() < path_names_of(bs).len(),
        path_names_of(bs)[path_names_of(bs.take(j)).len() as int] == bs[j]->PathV_name,
        path_names_of(bs.take(j + 1)).len() == path_names_of(bs.take(j)).len() + 1,
{
    let head = bs.take(j + 1);
    let tail = bs.skip(j + 1);
    assert(head + tail =~= bs);
    lemma_path_names_concat(head, tail);
    assert(head.drop_last() =~= bs.take(j));
    assert(head.last() == bs[j]);
    assert(path_names_of(head) =~= path_names_of(bs.take(j)).push(bs[j]->PathV_name));
    let idx = path_names_of(bs.take(j)).len() as int;
    assert(path_names_of(bs)[idx] == path_names_of(head)[idx]);
}

/// A name stands among the path names exactly when some binding binds it.
proof fn lemma_path_names_contains(bs: Seq<BindView>, n: Seq<char>)
    ensures
        path_names_of(bs).contains(n) <==> exists|j: int|
            0 <= j < bs.len() && ((#[trigger] bs[j]) matches BindView::PathV { name, .. }
                && name == n),
    decreases bs.len(),
{
    if bs.len() == 0 {
    } else {
        lemma_path_names_contains(bs.drop_last(), n);
        let dl = bs.drop_last();
        if path_names_of(bs).contains(n) {
            let k = choose|k: int|
                0 <= k < path_names_of(bs).len() && path_names_of(bs)[k] == n;
            if k < path_names_of(dl).len() {
                assert(path_names_of(dl).contains(n)) by {
                    assert(path_names_of(dl)[k] == path_names_of(bs)[k]);
                }
                let j = choose|j: int|
                    0 <= j < dl.len() && ((#[trigger] dl[j]) matches BindView::PathV {
                        name,
                        ..
                    } && name == n);
                assert(bs[j] == dl[j]);
            } else {
                assert(bs.last() matches BindView::PathV { name, .. } && name == n);
                assert(bs[bs.len() - 1] == bs.last());
            }
        }
        if exists|j: int|
            0 <= j < bs.len() && ((#[trigger] bs[j]) matches BindView::PathV { name, .. }
                && name == n) {
            let j = choose|j: int|
                0 <= j < bs.len() && ((#[trigger] bs[j]) matches BindView::PathV { name, .. }
                    && name == n);
            if j < bs.len() - 1 {
                assert(dl[j] == bs[j]);
                assert(path_names_of(dl).contains(n));
                let k = choose|k: int|
                    0 <= k < path_names_of(dl).len() && path_names_of(dl)[k] == n;
                assert(path_names_of(bs)[k] == n);
            } else {
                lemma_path_name_index(bs, j);
            }
        }
    }
}

/// With pairwise-distinct path names, the type looked up for a name is the
/// type of the binding that declares it.
proof fn lemma_type_of_var_at(bs: Seq<BindView>, j: int)
    requires
        0 <= j < bs.len(),
        bs[j] is PathV,
        first_dup(path_names_of(bs)) is None,
    ensures
        type_of_var(bs, bs[j]->PathV_name) == bs[j]->PathV_ty,
    decreases j,
{
    crate::path::lemma_first_dup_none_distinct(path_names_of(bs));
    let n = bs[j]->PathV_name;
    match bs[0] {
        BindView::PathV { name, ty } => {
            if j == 0 {
            } else {
                if name == n {
                    lemma_path_name_index(bs, 0);
                    lemma_path_name_index(bs, j);
                    assert(path_names_of(bs.take(0)).len() == 0);
                    let k = path_names_of(bs.take(j)).len() as int;
                    assert(k >= 1) by {
                        lemma_path_names_concat(bs.take(1), bs.take(j).skip(1));
                        assert(bs.take(1) + bs.take(j).skip(1) =~= bs.take(j));
                        lemma_path_name_index(bs.take(1), 0);
                        assert(bs.take(1)[0] == bs[0]);
                    }
                    assert(path_names_of(bs)[0] == name);
                    assert(path_names_of(bs)[k] == n);
                    assert(false);
                }
                assert(bs.drop_first()[j - 1] == bs[j]);
                lemma_drop_first_path_names(bs);
                lemma_type_of_var_at(bs.drop_first(), j - 1);
            }
        },
        _ => {
            assert(j > 0);
            assert(bs.drop_first()[j - 1] == bs[j]);
            lemma_drop_first_path_names(bs);
            lemma_type_of_var_at(bs.drop_first(), j - 1);
        },
    }
}

/// Dropping the first binding drops at most the first path name.
proof fn lemma_drop_first_path_names(bs: Seq<BindView>)
    requires
        bs.len() > 0,
        first_dup(path_names_of(bs)) is None,
    ensures
        first_dup(path_names_of(bs.drop_first())) is None,
{
    let head = bs.take(1);
    let tail = bs.skip(1);
    assert(head + tail =~= bs);
    lemma_path_names_concat(head, tail);
    assert(tail =~= bs.drop_first());
    if first_dup(path_names_of(tail)) is Some {
        lemma_first_dup_some_suffix(path_names_of(head), path_names_of(tail));
    }
}

/// A duplicate within a suffix stays a duplicate of the whole.
proof fn lemma_first_dup_some_suffix(a: Seq<Seq<char>>, b: Seq<Seq<char>>)
    requires
        first_dup(b) is Some,
    ensures
        first_dup(a + b) is Some,
    decreases b.len(),
{
    if first_dup(a + b) is None {
        crate::path::lemma_first_dup_none_distinct(a + b);
        let ns = b;
        assert(exists|i: int, j: int| 0 <= i < j < ns.len() && ns[i] == ns[j]) by {
            lemma_first_dup_some_witness(ns);
        }
        let (i, j): (int, int) = choose|i: int, j: int|
            0 <= i < j < ns.len() && ns[i] == ns[j];
        assert((a + b)[a.len() + i] == b[i]);
        assert((a + b)[a.len() + j] == b[j]);
        assert(false);
    }
}

/// A list with a first duplicate holds two equal names.
proof fn lemma_first_dup_some_witness(ns: Seq<Seq<char>>)
    requires
        first_dup(ns) is Some,
    ensures
        exists|i: int, j: int| 0 <= i < j < ns.len() && ns[i] == ns[j],
    decreases ns.len(),
{
    if first_dup(ns.drop_last()) is Some {
        lemma_first_dup_some_witness(ns.drop_last());
        let (i, j): (int, int) = choose|i: int, j: int|
            0 <= i < j < ns.drop_last().len() && ns.drop_last()[i] == ns.drop_last()[j];
        assert(ns[i] == ns.drop_last()[i] && ns[j] == ns.drop_last()[j]);
        assert(0 <= i < j < ns.len() && ns[i] == ns[j]);
    } else {
        assert(ns.drop_last().contains(ns.last()));
        let i = choose|i: int|
            0 <= i < ns.drop_last().len() && ns.drop_last()[i] == ns.last();
        assert(ns[i] == ns.last());
        assert(ns[ns.len() - 1] == ns.last());
        assert(0 <= i < ns.len() - 1 < ns.len() && ns[i] == ns[ns.len() - 1]);
    }
}

/// When every earlier entry is present and entry `k` is not, the first
/// missing entry is entry `k`.
proof fn lemma_first_missing_found(bindings: Seq<Seq<char>>, names: Seq<Seq<char>>, k: int)
    requires
        0 <= k < bindings.len(),
        forall|j: int| 0 <= j < k ==> names.contains(#[trigger] bindings[j]),
        !names.contains(bindings[k]),
    ensures
        first_missing(bindings, names) == Some(bindings[k]),
    decreases k,
{
    if k > 0 {
        assert(names.contains(bindings[0]));
        assert forall|j: int| 0 <= j < k - 1 implies names.contains(
            #[trigger] bindings.drop_first()[j],
        ) by {
            assert(bindings.drop_first()[j] == bindings[j + 1]);
        }
        assert(bindings.drop_first()[k - 1] == bindings[k]);
        lemma_first_missing_found(bindings.drop_first(), names, k - 1);
    }
}

/// When every entry is present, nothing is missing.
proof fn lemma_first_missing_none(bindings: Seq<Seq<char>>, names: Seq<Seq<char>>)
    requires
        forall|j: int| 0 <= j < bindings.len() ==> names.contains(#[trigger] bindings[j]),
    ensures
        first_missing(bindings, names) is None,
    decreases bindings.len(),
{
    if bindings.len() > 0 {
        assert forall|j: int| 0 <= j < bindings.drop_first().len() implies names.contains(
            #[trigger] bindings.drop_first()[j],
        ) by {
            assert(bindings.drop_first()[j] == bindings[j + 1]);
        }
        lemma_first_missing_none(bindings.drop_first(), names);
    }
}

/// When nothing is missing, every entry is present.
proof fn lemma_first_missing_none_all(bindings: Seq<Seq<char>>, names: Seq<Seq<char>>)
    requires
        first_missing(bindings, names) is None,
    ensures
        forall|j: int| 0 <= j < bindings.len() ==> names.contains(#[trigger] bindings[j]),
    decreases bindings.len(),
{
    if bindings.len() > 0 {
        lemma_first_missing_none_all(bindings.drop_first(), names);
        assert forall|j: int| 0 <= j < bindings.len() implies names.contains(
            #[trigger] bindings[j],
        ) by {
            if j > 0 {
                assert(bindings.drop_first()[j - 1] == bindings[j]);
            }
        }
    }
}

/// Bindings resolved as a list all come from `resolve_field`, so a path
/// binding's name is always one of the pattern's.
proof fn lemma_resolve_list_ok(
    fs: Seq<FieldDeclView>,
    bindings: Seq<Seq<char>>,
    i: int,
    bs: Seq<BindView>,
)
    requires
        0 <= i <= fs.len(),
        resolve_list(fs, bindings, i) == Ok::<Seq<BindView>, BuildErrView>(bs),
    ensures
        bs.len() == fs.len() - i,
        forall|j: int|
            0 <= j < bs.len() ==> ((#[trigger] bs[j]) matches BindView::PathV { name, .. }
                ==> bindings.contains(name)),
    decreases fs.len() - i,
{
    if i < fs.len() {
        match resolve_field(fs[i], bindings) {
            Err(_) => {
                assert(false);
            },
            Ok(b) => {
                let rest = resolve_list(fs, bindings, i + 1)->Ok_0;
                lemma_resolve_list_ok(fs, bindings, i + 1, rest);
                assert(bs == seq![b] + rest);
                assert(bs[0] == b);
                assert forall|j: int| 0 <= j < bs.len() implies ((
                #[trigger] bs[j]) matches BindView::PathV { name, .. }
                    ==> bindings.contains(name)) by {
                    if j > 0 {
                        assert(bs[j] == rest[j - 1]);
                    }
                }
            },
        }
    }
}

/// The first field that does not resolve decides the error of the whole
/// list.
pub proof fn lemma_resolve_list_err(
    fs: Seq<FieldDeclView>,
    bindings: Seq<Seq<char>>,
    i: int,
)
    requires
        0 <= i < fs.len(),
        forall|j: int| 0 <= j < i ==> resolve_field(#[trigger] fs[j], bindings) is Ok,
        resolve_field(fs[i], bindings) is Err,
    ensures
        resolve_list(fs, bindings, 0) == Err::<Seq<BindView>, BuildErrView>(
            resolve_field(fs[i], bindings)->Err_0,
        ),
{
    lemma_resolve_list_err_from(fs, bindings, 0, i);
}

proof fn lemma_resolve_list_err_from(
    fs: Seq<FieldDeclView>,
    bindings: Seq<Seq<char>>,
    from: int,
    i: int,
)
    requires
        0 <= from <= i < fs.len(),
        forall|j: int| from <= j < i ==> resolve_field(#[trigger] fs[j], bindings) is Ok,
        resolve_field(fs[i], bindings) is Err,
    ensures
        resolve_list(fs, bindings, from) == Err::<Seq<BindView>, BuildErrView>(
            resolve_field(fs[i], bindings)->Err_0,
        ),
    decreases i - from,
{
    if from < i {
        lemma_resolve_list_err_from(fs, bindings, from + 1, i);
    }
}

/// A route whose field list names a path variable absent from its template
/// is rejected with the not-in-pattern error, whatever follows that field.
pub proof fn lemma_unknown_path_name_rejected(
    fs: Seq<FieldDeclView>,
    bindings: Seq<Seq<char>>,
    i: int,
)
    requires
        0 <= i < fs.len(),
        forall|j: int| 0 <= j < i ==> resolve_field(#[trigger] fs[j], bindings) is Ok,
        fs[i].query is None,
        fs[i].path is Some,
        (match fs[i].path->0 {
            Some(n) => Some(n),
            None => fs[i].ident,
        }) matches Some(n) && !bindings.contains(n),
    ensures
        resolve_route(fs, bindings) == Err::<Seq<BindView>, BuildErrView>(
            BuildErrView::NotInPatternV,
        ),
{
    assert(resolve_field(fs[i], bindings) == Err::<BindView, BuildErrView>(
        BuildErrView::NotInPatternV,
    ));
    lemma_resolve_list_err(fs, bindings, i);
}

/// The mathematical shape of a route descriptor.
pub struct DescView {
    pub method: MethodFilter,
    pub comps: Seq<CompView>,
    pub fields: Seq<BindView>,
}

/// One registered route: its method filter, its compiled pattern, and the
/// resolved bindings of its request shape, in field order.
#[derive(Debug)]
pub struct RouteDescriptor {
    method: MethodFilter,
    pattern: PathPattern,
    fields: Vec<FieldBinding>,
}

impl View for RouteDescriptor {
    type V = DescView;

    closed spec fn view(&self) -> DescView {
        DescView { method: self.method, comps: self.pattern@, fields: self.fields.deep_view() }
    }
}

impl DeepView for RouteDescriptor {
    type V = DescView;

    open spec fn deep_view(&self) -> DescView {
        self.view()
    }
}

/// The declared type of the path variable `name`: the type of the first
/// path binding that carries it.
pub open spec fn type_of_var(bs: Seq<BindView>, name: Seq<char>) -> ParamType
    decreases bs.len(),
{
    if bs.len() == 0 {
        ParamType::StringParam
    } else if bs[0] matches BindView::PathV { name: n, ty } && n == name {
        bs[0]->PathV_ty
    } else {
        type_of_var(bs.drop_first(), name)
    }
}

/// The typed match predicate over components: literals compare equal,
/// variables must convert as their bound field's type.
pub open spec fn typed_components_match(
    comps: Seq<CompView>,
    bs: Seq<BindView>,
    parts: Seq<Seq<char>>,
) -> bool {
    comps.len() == parts.len() && (forall|i: int|
        0 <= i < comps.len() ==> (match #[trigger] comps[i] {
            CompView::Lit(s) => parts[i] == s,
            CompView::Var(v) => param_ok(type_of_var(bs, v), parts[i]),
        }))
}

/// The full match predicate of one route against one request line.
pub open spec fn descriptor_matches(d: DescView, m: Method, path: Seq<char>) -> bool {
    d.method.allows_spec(m) && path.len() > 0 && path[0] == '/' && typed_components_match(
        d.comps,
        d.fields,
        crate::strutil::split_on(path.drop_first(), '/'),
    )
}

impl RouteDescriptor {
    /// Internal shape: the pattern is well formed, at most one field binds
    /// the body, path-bound names are pairwise distinct, every pattern
    /// variable has its path-bound field, and every path-bound name is a
    /// pattern variable.
    pub closed spec fn wf(&self) -> bool {
        &&& self.pattern.wf()
        &&& body_count(self.fields.deep_view()) <= 1
        &&& first_dup(path_names_of(self.fields.deep_view())) is None
        &&& first_missing(var_names(self.pattern@), path_names_of(self.fields.deep_view()))
            is None
        &&& forall|j: int|
            0 <= j < self.fields.deep_view().len() ==> ((
            #[trigger] self.fields.deep_view()[j]) matches BindView::PathV { name, .. }
                ==> var_names(self.pattern@).contains(name))
    }

    /// Builds one route descriptor, as `resolve_route` describes: the
    /// fields resolve in order against the pattern's variable names, and
    /// the bijection between variables and path-bound fields is checked.
    #[verifier::loop_isolation(false)]
    pub fn new(method: MethodFilter, pattern: PathPattern, fields: &Vec<FieldDecl>) -> (r:
        Result<RouteDescriptor, BuildError>)
        requires
            pattern.wf(),
        ensures
            r is Ok <==> resolve_route(fields.deep_view(), var_names(pattern@)) is Ok,
            r matches Ok(d) ==> d@.method == method && d@.comps == pattern@ && resolve_route(
                fields.deep_view(),
                var_names(pattern@),
            ) == Ok::<Seq<BindView>, BuildErrView>(d@.fields) && d.wf(),
            r matches Err(e) ==> resolve_route(fields.deep_view(), var_names(pattern@))
                == Err::<Seq<BindView>, BuildErrView>(e@),
    {
        let ghost fv = fields.deep_view();
        let ghost names = var_names(pattern@);
        let binding_names: Vec<String> = pattern.bindings().clone();
        proof {
            assert(binding_names.deep_view() == names);
        }
        let n = fields.len();
        let mut resolved: Vec<FieldBinding> = Vec::new();
        let mut i: usize = 0;
        while i < n
            invariant
                i <= n,
                resolve_list(fv, names, i as int) matches Ok(rest) ==> resolve_list(fv, names, 0)
                    == Ok::<Seq<BindView>, BuildErrView>(resolved.deep_view() + rest),
                resolve_list(fv, names, i as int) matches Err(e) ==> resolve_list(fv, names, 0)
                    == Err::<Seq<BindView>, BuildErrView>(e),
            decreases n - i,
        {
            proof {
                assert(fv[i as int] == fields@[i as int]@);
            }
            match resolve_field_exec(&fields[i], &binding_names) {
                Ok(b) => {
                    let ghost old_dv = resolved.deep_view();
                    resolved.push(b);
                    proof {
                        assert(resolved.deep_view() =~= old_dv.push(b@));
                        let after = resolve_list(fv, names, i + 1);
                        if after is Ok {
                            let rest = after->Ok_0;
                            assert(resolve_list(fv, names, i as int) == Ok::<
                                Seq<BindView>,
                                BuildErrView,
                            >(seq![b@] + rest));
                            assert(old_dv + (seq![b@] + rest) =~= resolved.deep_view() + rest);
                        }
                    }
                },
                Err(e) => {
                    proof {
                        assert(resolve_list(fv, names, i as int) == Err::<
                            Seq<BindView>,
                            BuildErrView,
                        >(e@));
                    }
                    return Err(e);
                },
            }
            i = i + 1;
        }
        let ghost bdv = resolved.deep_view();
        proof {
            assert(resolve_list(fv, names, n as int) == Ok::<Seq<BindView>, BuildErrView>(
                Seq::<BindView>::empty(),
            ));
            assert(bdv + Seq::<BindView>::empty() =~= bdv);
            assert(resolve_list(fv, names, 0) == Ok::<Seq<BindView>, BuildErrView>(bdv));
            lemma_resolve_list_ok(fv, names, 0, bdv);
        }
        // at most one body field
        let mut bodies: usize = 0;
        let mut j: usize = 0;
        proof {
            assert(body_count(bdv.take(0)) == 0);
        }
        while j < n
            invariant
                j <= n,
                bodies as nat == body_count(bdv.take(j as int)),
                bodies <= j,
            decreases n - j,
        {
            proof {
                assert(bdv.take(j + 1).drop_last() =~= bdv.take(j as int));
                assert(bdv.take(j + 1).last() == bdv[j as int]);
                assert(bdv[j as int] == resolved@[j as int]@);
            }
            let is_body = match &resolved[j] {
                FieldBinding::BodyBind => true,
                _ => false,
            };
            if is_body {
                bodies = bodies + 1;
            }
            j = j + 1;
        }
        proof {
            assert(bdv.take(n as int) =~= bdv);
        }
        if bodies > 1 {
            return Err(BuildError::MultipleBodyFields);
        }
        // no two fields on one path variable
        let mut seen: Vec<String> = Vec::new();
        let mut k: usize = 0;
        proof {
            assert(path_names_of(bdv.take(0)) =~= Seq::<Seq<char>>::empty());
        }
        while k < n
            invariant
                k <= n,
                seen.deep_view() == path_names_of(bdv.take(k as int)),
                first_dup(path_names_of(bdv.take(k as int))) is None,
            decreases n - k,
        {
            let ghost pre = path_names_of(bdv.take(k as int));
            proof {
                assert(bdv.take(k + 1).drop_last() =~= bdv.take(k as int));
                assert(bdv.take(k + 1).last() == bdv[k as int]);
                assert(bdv[k as int] == resolved@[k as int]@);
            }
            let bind: &FieldBinding = &resolved[k];
            match bind {
                FieldBinding::PathBind { name, .. } => {
                    let ghost new_names = path_names_of(bdv.take(k + 1));
                    proof {
                        assert(new_names =~= pre.push(name@));
                        assert(new_names.drop_last() =~= pre);
                        assert(new_names.last() == name@);
                    }
                    if crate::path::vec_contains_str(&seen, name.as_str()) {
                        proof {
                            assert(first_dup(new_names) == Some(name@));
                            crate::path::lemma_first_dup_append(
                                new_names,
                                path_names_of(bdv.skip(k + 1)),
                            );
                            lemma_path_names_concat(bdv.take(k + 1), bdv.skip(k + 1));
                            assert(bdv.take(k + 1) + bdv.skip(k + 1) =~= bdv);
                            assert(first_dup(path_names_of(bdv)) == Some(name@));
                        }
                        return Err(BuildError::DuplicatePathNames(name.clone()));
                    }
                    let ghost old_seen = seen.deep_view();
                    seen.push(name.clone());
                    proof {
                        assert(seen.deep_view() =~= old_seen.push(name@));
                        assert(seen.deep_view() =~= new_names);
                    }
                },
                _ => {
                    proof {
                        assert(path_names_of(bdv.take(k + 1)) =~= pre);
                    }
                },
            }
            k = k + 1;
        }
        proof {
            assert(bdv.take(n as int) =~= bdv);
        }
        // every pattern variable has its path-bound field
        let m = binding_names.len();
        let mut b: usize = 0;
        while b < m
            invariant
                b <= m,
                forall|q: int|
                    0 <= q < b ==> path_names_of(bdv).contains(#[trigger] names[q]),
            decreases m - b,
        {
            proof {
                assert(names[b as int] == binding_names@[b as int]@);
            }
            if !crate::path::vec_contains_str(&seen, binding_names[b].as_str()) {
                proof {
                    lemma_first_missing_found(names, path_names_of(bdv), b as int);
                }
                return Err(BuildError::MissingFieldForBinding(binding_names[b].clone()));
            }
            b = b + 1;
        }
        proof {
            lemma_first_missing_none(names, path_names_of(bdv));
        }
        let d = RouteDescriptor { method, pattern, fields: resolved };
        proof {
            assert(d@.fields == bdv);
            assert forall|q: int|
                0 <= q < d@.fields.len() implies ((
            #[trigger] d@.fields[q]) matches BindView::PathV { name, .. } ==> var_names(
                d.pattern@,
            ).contains(name)) by {}
            assert(d.wf());
        }
        Ok(d)
    }

    /// The typed match predicate, as `descriptor_matches` describes.
    #[verifier::loop_isolation(false)]
    pub fn matches(&self, method: &Method, path: &str) -> (r: bool)
        requires
            self.wf(),
        ensures
            r == descriptor_matches(self@, *method, path@),
    {
        if !self.method.allows(method) {
            return false;
        }
        let n = path.unicode_len();
        if n == 0 || path.get_char(0) != '/' {
            return false;
        }
        let rest = path.substring_char(1, n);
        proof {
            assert(rest@ =~= path@.drop_first());
        }
        let parts = crate::strutil::split_str(rest, '/');
        let ghost pv = parts.deep_view();
        let comps = self.pattern.components();
        if parts.len() != comps.len() {
            return false;
        }
        let m = parts.len();
        let mut i: usize = 0;
        while i < m
            invariant
                i <= m,
                forall|j: int|
                    0 <= j < i ==> (match #[trigger] self@.comps[j] {
                        CompView::Lit(t) => pv[j] == t,
                        CompView::Var(v) => param_ok(type_of_var(self@.fields, v), pv[j]),
                    }),
            decreases m - i,
        {
            proof {
                assert(pv[i as int] == parts@[i as int]@);
                assert(comps.deep_view()[i as int] == self@.comps[i as int]);
            }
            let comp: &crate::path::PathComponent = &comps[i];
            match comp {
                crate::path::PathComponent::Lit(t) => {
                    if !crate::strutil::str_eq(t.as_str(), parts[i].as_str()) {
                        return false;
                    }
                },
                crate::path::PathComponent::Var(v) => {
                    proof {
                        crate::path::lemma_var_name_index(self@.comps, i as int);
                        let k = var_names(self@.comps.take(i as int)).len() as int;
                        assert(var_names(self@.comps)[k] == v@);
                        assert(var_names(self@.comps).contains(v@));
                    }
                    let ty = self.find_path_type(v.as_str());
                    if !param_matches(&ty, parts[i].as_str()) {
                        return false;
                    }
                },
            }
            i = i + 1;
        }
        true
    }

    /// The type bound to the path variable `name`, which well-formedness
    /// guarantees exists.
    #[verifier::loop_isolation(false)]
    fn find_path_type(&self, name: &str) -> (r: ParamType)
        requires
            self.wf(),
            var_names(self@.comps).contains(name@),
        ensures
            r == type_of_var(self@.fields, name@),
    {
        let ghost bs = self.fields.deep_view();
        proof {
            lemma_first_missing_none_all(var_names(self@.comps), path_names_of(bs));
            assert(path_names_of(bs).contains(name@));
            lemma_path_names_contains(bs, name@);
            assert(bs.skip(0) =~= bs);
        }
        let n = self.fields.len();
        let mut i: usize = 0;
        while i < n
            invariant
                i <= n,
                forall|j: int|
                    0 <= j < i ==> !((#[trigger] bs[j]) matches BindView::PathV { name: n2, .. }
                        && n2 == name@),
                type_of_var(bs.skip(i as int), name@) == type_of_var(bs, name@),
            decreases n - i,
        {
            proof {
                assert(bs.skip(i as int)[0] == bs[i as int]);
                assert(bs.skip(i as int).drop_first() =~= bs.skip(i + 1));
                assert(bs[i as int] == self.fields@[i as int]@);
            }
            let bind: &FieldBinding = &self.fields[i];
            match bind {
                FieldBinding::PathBind { name: n2, ty } => {
                    if crate::strutil::str_eq(n2.as_str(), name) {
                        proof {
                            assert(type_of_var(bs.skip(i as int), name@) == *ty);
                        }
                        return *ty;
                    }
                },
                _ => {},
            }
            i = i + 1;
        }
        proof {
            let j = choose|j: int|
                0 <= j < bs.len() && ((#[trigger] bs[j]) matches BindView::PathV { name: n2, .. }
                    && n2 == name@);
            assert(false);
        }
        ParamType::StringParam
    }
}


/// The value list a query key carried: empty for a key the query string
/// never named.
pub open spec fn qvalues_of(qt: Map<Seq<char>, Seq<Seq<char>>>, name: Seq<char>) -> Seq<
    Seq<char>,
> {
    if qt.contains_key(name) {
        qt[name]
    } else {
        Seq::<Seq<char>>::empty()
    }
}

/// The error a value of type `t` fails to parse with.
pub open spec fn parse_kind_err(t: ParamType) -> QueryError {
    if t == ParamType::StringParam {
        QueryError::AnyError
    } else {
        QueryError::ParseIntError
    }
}

/// Whether a query field of type `t` and arity `ar` converts from the
/// value list `vs`: the `FromQuery` rules, with a single value demanded
/// for `Single`, none or one for `Optional`, and each value independently
/// for `Repeated`.
pub open spec fn qfield_ok(t: ParamType, ar: QueryArity, vs: Seq<Seq<char>>) -> bool {
    match ar {
        QueryArity::Single => vs.len() == 1 && param_ok(t, vs[0]),
        QueryArity::Optional => vs.len() == 0 || (vs.len() == 1 && param_ok(t, vs[0])),
        QueryArity::Repeated => forall|i: int| 0 <= i < vs.len() ==> param_ok(t, #[trigger] vs[i]),
    }
}

/// The error reported when a query field does not convert.
pub open spec fn qfield_err(t: ParamType, ar: QueryArity, vs: Seq<Seq<char>>) -> QueryError {
    match ar {
        QueryArity::Single => one_value_err(vs, parse_kind_err(t)),
        QueryArity::Optional => one_value_err(vs, parse_kind_err(t)),
        QueryArity::Repeated => parse_kind_err(t),
    }
}

/// Whether `v` is the value a query field converts the list `vs` to.
pub open spec fn qfield_val_ok(t: ParamType, ar: QueryArity, vs: Seq<Seq<char>>, v: FieldValue) -> bool {
    match ar {
        QueryArity::Single => v matches FieldValue::QueryOne(pv) && param_val_ok(t, vs[0], pv),
        QueryArity::Optional => match v {
            FieldValue::QueryOpt(o) => match o {
                None => vs.len() == 0,
                Some(pv) => vs.len() == 1 && param_val_ok(t, vs[0], pv),
            },
            _ => false,
        },
        QueryArity::Repeated => match v {
            FieldValue::QueryMany(pvs) => pvs@.len() == vs.len() && (forall|i: int|
                0 <= i < vs.len() ==> param_val_ok(t, #[trigger] vs[i], pvs@[i])),
            _ => false,
        },
    }
}

/// One extracted field value, in the field's declared shape.
#[derive(Debug)]
pub enum FieldValue {
    PathVal(ParamValue),
    QueryOne(ParamValue),
    QueryOpt(Option<ParamValue>),
    QueryMany(Vec<ParamValue>),
    BodyRaw(Vec<u8>),
}

/// The view of the content type the request carried.
pub open spec fn ct_of(ct: Option<&String>) -> Option<Seq<char>> {
    match ct {
        Some(s) => Some(s@),
        None => None,
    }
}

/// The bytes of the request body, when it was read.
pub open spec fn body_bytes_of(body: RequestBody) -> Seq<u8> {
    match body {
        RequestBody::Bytes(b) => b@,
        RequestBody::ReadFailed => Seq::<u8>::empty(),
    }
}

/// Whether one field extracts: a path field always does once the route
/// matched, a query field when its values convert, the body field when the
/// content type is JSON and the body was read.
pub open spec fn field_ok(
    b: BindView,
    qt: Map<Seq<char>, Seq<Seq<char>>>,
    ctv: Option<Seq<char>>,
    body_read: bool,
) -> bool {
    match b {
        BindView::PathV { .. } => true,
        BindView::QueryV { name, arity, ty } => qfield_ok(ty, arity, qvalues_of(qt, name)),
        BindView::BodyV => ctv == Some("application/json"@) && body_read,
    }
}

/// The shape of the error a failing field reports.
pub enum ExtractErrView {
    QErrV(QueryError),
    CtErrV(Option<Seq<char>>),
    BodyErrV,
}

/// Which error a failing field reports: the query conversion error, the
/// content-type complaint naming what was carried, or the body read
/// failure.  A path field never fails once the route matched, so its arm
/// is never reached.
pub open spec fn field_err(
    b: BindView,
    qt: Map<Seq<char>, Seq<Seq<char>>>,
    ctv: Option<Seq<char>>,
) -> ExtractErrView {
    match b {
        BindView::PathV { .. } => ExtractErrView::BodyErrV,
        BindView::QueryV { name, arity, ty } => ExtractErrView::QErrV(
            qfield_err(ty, arity, qvalues_of(qt, name)),
        ),
        BindView::BodyV => if ctv != Some("application/json"@) {
            ExtractErrView::CtErrV(ctv)
        } else {
            ExtractErrView::BodyErrV
        },
    }
}

/// Whether the error value `e` is the one `x` describes.
pub open spec fn extract_err_matches(e: NailsError, x: ExtractErrView) -> bool {
    match x {
        ExtractErrView::QErrV(q) => e matches NailsError::QueryError(q2) && q2 == q,
        ExtractErrView::CtErrV(got) => e matches NailsError::ContentTypeError(c) && (
        c.expected.deep_view() == seq!["application/json"@] && opt_view(c.got) == got),
        ExtractErrView::BodyErrV => e is BodyError,
    }
}

/// Whether `v` is the right value for the field `b`, given the matched
/// path's components, the query table, and the body bytes.
pub open spec fn field_val_ok(
    b: BindView,
    comps: Seq<CompView>,
    parts: Seq<Seq<char>>,
    qt: Map<Seq<char>, Seq<Seq<char>>>,
    body: Seq<u8>,
    v: FieldValue,
) -> bool {
    match b {
        BindView::PathV { name, ty } => v matches FieldValue::PathVal(pv) && param_val_ok(
            ty,
            var_components(comps, parts)[name_index(var_names(comps), name)],
            pv,
        ),
        BindView::QueryV { name, arity, ty } => qfield_val_ok(ty, arity, qvalues_of(qt, name), v),
        BindView::BodyV => v matches FieldValue::BodyRaw(bs) && bs@ == body,
    }
}

/// The position of the first field that does not extract, or the field
/// count when every field does.
pub open spec fn first_fail(
    bs: Seq<BindView>,
    qt: Map<Seq<char>, Seq<Seq<char>>>,
    ctv: Option<Seq<char>>,
    body_read: bool,
) -> int
    decreases bs.len(),
{
    if bs.len() == 0 {
        0
    } else if !field_ok(bs[0], qt, ctv, body_read) {
        0
    } else {
        1 + first_fail(bs.drop_first(), qt, ctv, body_read)
    }
}

proof fn lemma_first_fail_at(
    bs: Seq<BindView>,
    qt: Map<Seq<char>, Seq<Seq<char>>>,
    ctv: Option<Seq<char>>,
    body_read: bool,
    i: int,
)
    requires
        0 <= i < bs.len(),
        forall|j: int| 0 <= j < i ==> field_ok(#[trigger] bs[j], qt, ctv, body_read),
        !field_ok(bs[i], qt, ctv, body_read),
    ensures
        first_fail(bs, qt, ctv, body_read) == i,
    decreases i,
{
    if i > 0 {
        assert(field_ok(bs[0], qt, ctv, body_read));
        assert(bs.drop_first()[i - 1] == bs[i]);
        assert forall|j: int| 0 <= j < i - 1 implies field_ok(
            #[trigger] bs.drop_first()[j],
            qt,
            ctv,
            body_read,
        ) by {
            assert(bs.drop_first()[j] == bs[j + 1]);
        }
        lemma_first_fail_at(bs.drop_first(), qt, ctv, body_read, i - 1);
    }
}

impl RouteDescriptor {
    /// The position of `name` among the pattern's bindings.
    #[verifier::loop_isolation(false)]
    fn binding_index(&self, name: &str) -> (r: usize)
        requires
            self.wf(),
            var_names(self@.comps).contains(name@),
        ensures
            r < var_names(self@.comps).len(),
            var_names(self@.comps)[r as int] == name@,
            r as int == name_index(var_names(self@.comps), name@),
    {
        let ghost names = var_names(self@.comps);
        let bindings = self.pattern.bindings();
        let n = bindings.len();
        let mut i: usize = 0;
        while i < n
            invariant
                i <= n,
                forall|j: int| 0 <= j < i ==> names[j] != name@,
            decreases n - i,
        {
            proof {
                assert(names[i as int] == bindings@[i as int]@);
            }
            if crate::strutil::str_eq(bindings[i].as_str(), name) {
                proof {
                    lemma_name_index_found(names, name@, i as int);
                }
                return i;
            }
            i = i + 1;
        }
        proof {
            let k = choose|k: int| 0 <= k < names.len() && names[k] == name@;
            assert(false);
        }
        0
    }

    /// The positional extractor: pulls every declared field of a request
    /// the route matched, in field order.  Path fields cannot fail once
    /// the typed match predicate has accepted the path; a query field or
    /// the body field may fail, and the first failure is reported.
    #[verifier::loop_isolation(false)]
    pub fn extract(
        &self,
        path: &str,
        query: &QueryTable,
        content_type: Option<&String>,
        body: &RequestBody,
    ) -> (r: Result<Vec<FieldValue>, NailsError>)
        requires
            self.wf(),
            query.wf(),
            path@.len() > 0 && path@[0] == '/',
            typed_components_match(
                self@.comps,
                self@.fields,
                crate::strutil::split_on(path@.drop_first(), '/'),
            ),
        ensures
            r is Ok <==> (forall|i: int|
                0 <= i < self@.fields.len() ==> field_ok(
                    #[trigger] self@.fields[i],
                    query@,
                    ct_of(content_type),
                    body is Bytes,
                )),
            r matches Ok(vals) ==> vals@.len() == self@.fields.len() && (forall|i: int|
                0 <= i < self@.fields.len() ==> field_val_ok(
                    #[trigger] self@.fields[i],
                    self@.comps,
                    crate::strutil::split_on(path@.drop_first(), '/'),
                    query@,
                    body_bytes_of(*body),
                    vals@[i],
                )),
            r matches Err(e) ==> first_fail(
                self@.fields,
                query@,
                ct_of(content_type),
                body is Bytes,
            ) < self@.fields.len() && extract_err_matches(
                e,
                field_err(
                    self@.fields[first_fail(self@.fields, query@, ct_of(content_type), body is Bytes)],
                    query@,
                    ct_of(content_type),
                ),
            ),
    {
        let ghost comps = self@.comps;
        let ghost parts = crate::strutil::split_on(path@.drop_first(), '/');
        let ghost bs = self@.fields;
        let ghost qt = query@;
        let ghost ctv = ct_of(content_type);
        let ghost body_read = body is Bytes;
        proof {
            // a typed match is in particular a structural match
            assert(crate::path::pattern_matches(self.pattern@, path@)) by {
                assert(crate::path::components_match(comps, parts)) by {
                    assert forall|i: int| 0 <= i < comps.len() implies (
                    match #[trigger] comps[i] {
                        CompView::Lit(t) => parts[i] == t,
                        CompView::Var(_) => true,
                    }) by {}
                }
            }
        }
        let var_vals = self.pattern.extract(path);
        let ghost captured = var_components(comps, parts);
        let n = self.fields.len();
        let mut out: Vec<FieldValue> = Vec::new();
        let mut i: usize = 0;
        while i < n
            invariant
                i <= n,
                out@.len() == i,
                forall|j: int| 0 <= j < i ==> field_ok(#[trigger] bs[j], qt, ctv, body_read),
                forall|j: int|
                    0 <= j < i ==> field_val_ok(
                        #[trigger] bs[j],
                        comps,
                        parts,
                        qt,
                        body_bytes_of(*body),
                        out@[j],
                    ),
            decreases n - i,
        {
            proof {
                assert(bs[i as int] == self.fields@[i as int]@);
            }
            let bind: &FieldBinding = &self.fields[i];
            match bind {
                FieldBinding::PathBind { name, ty } => {
                    proof {
                        lemma_first_missing_none_all(var_names(comps), path_names_of(bs));
                        assert(var_names(comps).contains(name@));
                    }
                    let idx = self.binding_index(name.as_str());
                    let ghost k = idx as int;
                    proof {
                        // the variable with this name sits at a unique
                        // pattern position, whose component was captured
                        // at position `k`
                        lemma_var_names_contains(comps, name@);
                        let p = choose|p: int|
                            0 <= p < comps.len() && ((#[trigger] comps[p]) matches CompView::Var(
                                v,
                            ) && v == name@);
                        lemma_var_name_index(comps, p);
                        self.pattern.lemma_wf_names();
                        crate::path::lemma_first_dup_none_distinct(var_names(comps));
                        let kp = var_names(comps.take(p)).len() as int;
                        assert(var_names(comps)[kp] == name@);
                        assert(kp == k);
                        lemma_var_component_at(comps, parts, p);
                        assert(captured[k] == parts[p]);
                        assert(param_ok(type_of_var(bs, name@), parts[p]));
                        lemma_type_of_var_at(bs, i as int);
                        assert(type_of_var(bs, name@) == *ty);
                        assert(var_vals.deep_view()[k] == var_vals@[k]@);
                        assert(var_vals@[k]@ == captured[k]);
                    }
                    match param_parse(ty, var_vals[idx].as_str()) {
                        Ok(v) => {
                            out.push(FieldValue::PathVal(v));
                        },
                        Err(()) => {
                            proof {
                                assert(false);
                            }
                            return Err(NailsError::BodyError(BodyError));
                        },
                    }
                },
                FieldBinding::QueryBind { name, arity, ty } => {
                    let ghost vs = qvalues_of(qt, name@);
                    let empty_values: Vec<String> = Vec::new();
                    let values: &Vec<String> = match query.get(name.as_str()) {
                        Some(v) => v,
                        None => &empty_values,
                    };
                    proof {
                        assert(values.deep_view() =~= vs);
                    }
                    match arity {
                        QueryArity::Single => {
                            if values.len() != 1 {
                                let e = if values.len() == 0 {
                                    QueryError::NoQuery
                                } else {
                                    QueryError::MultipleQuery
                                };
                                proof {
                                    lemma_first_fail_at(bs, qt, ctv, body_read, i as int);
                                }
                                return Err(NailsError::QueryError(e));
                            }
                            proof {
                                assert(values.deep_view()[0] == values@[0]@);
                            }
                            match param_parse(ty, values[0].as_str()) {
                                Ok(v) => {
                                    out.push(FieldValue::QueryOne(v));
                                },
                                Err(()) => {
                                    proof {
                                        assert(*ty != ParamType::StringParam);
                                        lemma_first_fail_at(bs, qt, ctv, body_read, i as int);
                                    }
                                    return Err(
                                        NailsError::QueryError(QueryError::ParseIntError),
                                    );
                                },
                            }
                        },
                        QueryArity::Optional => {
                            if values.len() == 0 {
                                out.push(FieldValue::QueryOpt(None));
                            } else if values.len() > 1 {
                                proof {
                                    lemma_first_fail_at(bs, qt, ctv, body_read, i as int);
                                }
                                return Err(NailsError::QueryError(QueryError::MultipleQuery));
                            } else {
                                proof {
                                    assert(values.deep_view()[0] == values@[0]@);
                                }
                                match param_parse(ty, values[0].as_str()) {
                                    Ok(v) => {
                                        out.push(FieldValue::QueryOpt(Some(v)));
                                    },
                                    Err(()) => {
                                        proof {
                                            assert(*ty != ParamType::StringParam);
                                            lemma_first_fail_at(
                                                bs,
                                                qt,
                                                ctv,
                                                body_read,
                                                i as int,
                                            );
                                        }
                                        return Err(
                                            NailsError::QueryError(QueryError::ParseIntError),
                                        );
                                    },
                                }
                            }
                        },
                        QueryArity::Repeated => {
                            let m = values.len();
                            let mut pvs: Vec<ParamValue> = Vec::new();
                            let mut q: usize = 0;
                            while q < m
                                invariant
                                    q <= m,
                                    m == values@.len(),
                                    vs == values.deep_view(),
                                    vs.len() == values@.len(),
                                    pvs@.len() == q,
                                    forall|x: int|
                                        0 <= x < q ==> param_ok(*ty, #[trigger] vs[x]),
                                    forall|x: int|
                                        0 <= x < q ==> param_val_ok(
                                            *ty,
                                            #[trigger] vs[x],
                                            pvs@[x],
                                        ),
                                decreases m - q,
                            {
                                proof {
                                    assert(values.deep_view()[q as int] == values@[q as int]@);
                                }
                                match param_parse(ty, values[q].as_str()) {
                                    Ok(v) => {
                                        pvs.push(v);
                                    },
                                    Err(()) => {
                                        proof {
                                            assert(*ty != ParamType::StringParam);
                                            assert(!qfield_ok(*ty, *arity, vs));
                                            lemma_first_fail_at(
                                                bs,
                                                qt,
                                                ctv,
                                                body_read,
                                                i as int,
                                            );
                                        }
                                        return Err(
                                            NailsError::QueryError(QueryError::ParseIntError),
                                        );
                                    },
                                }
                                q = q + 1;
                            }
                            out.push(FieldValue::QueryMany(pvs));
                        },
                    }
                },
                FieldBinding::BodyBind => {
                    let ct_ok = match content_type {
                        Some(ct) => crate::strutil::str_eq(ct.as_str(), "application/json"),
                        None => false,
                    };
                    if !ct_ok {
                        let got = match content_type {
                            Some(ct) => Some(ct.clone()),
                            None => None,
                        };
                        let mut expected: Vec<String> = Vec::new();
                        expected.push(String::from_str("application/json"));
                        let e = NailsError::ContentTypeError(ContentTypeError { expected, got });
                        proof {
                            assert(ctv != Some("application/json"@));
                            lemma_first_fail_at(bs, qt, ctv, body_read, i as int);
                            assert(e->ContentTypeError_0.expected.deep_view() =~= seq![
                                "application/json"@,
                            ]);
                        }
                        return Err(e);
                    }
                    match body {
                        RequestBody::Bytes(b) => {
                            let copy = slice_to_vec(b.as_slice());
                            out.push(FieldValue::BodyRaw(copy));
                        },
                        RequestBody::ReadFailed => {
                            proof {
                                lemma_first_fail_at(bs, qt, ctv, body_read, i as int);
                            }
                            return Err(NailsError::BodyError(BodyError));
                        },
                    }
                },
            }
            i = i + 1;
        }
        Ok(out)
    }
}

} // verus!
