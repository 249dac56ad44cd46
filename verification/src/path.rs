//! The path-pattern compiler: a URL template such as `/api/posts/{id}` is
//! parsed into literal and variable components, validated (partial braces,
//! bad identifiers, duplicate variable names), and queried for its static
//! prefix, its match predicate, and its positional extractor.

use crate::strutil::{join_with, split_on, split_str, str_eq};
use vstd::prelude::*;
use vstd::string::{StrSliceExecFns, StringExecFns};

verus! {

/// One segment of a compiled template: a literal to compare, or a named
/// variable that captures the path component in its position.
#[derive(Debug, Clone, PartialEq, Eq)]
pub enum PathComponent {
    Lit(String),
    Var(String),
}

/// The mathematical shape of a component.
pub enum CompView {
    Lit(Seq<char>),
    Var(Seq<char>),
}

impl View for PathComponent {
    type V = CompView;

    open spec fn view(&self) -> CompView {
        match self {
            PathComponent::Lit(s) => CompView::Lit(s@),
            PathComponent::Var(s) => CompView::Var(s@),
        }
    }
}

impl DeepView for PathComponent {
    type V = CompView;

    open spec fn deep_view(&self) -> CompView {
        self.view()
    }
}

pub open spec fn contains_char(s: Seq<char>, c: char) -> bool {
    exists|i: int| 0 <= i < s.len() && s[i] == c
}

/// Whether `s` contains the character `c`.
pub fn str_contains_char(s: &str, c: char) -> (r: bool)
    ensures
        r == contains_char(s@, c),
{
    let n = s.unicode_len();
    let mut i: usize = 0;
    while i < n
        invariant
            i <= n,
            n == s@.len(),
            forall|j: int| 0 <= j < i ==> s@[j] != c,
        decreases n - i,
    {
        if s.get_char(i) == c {
            return true;
        }
        i = i + 1;
    }
    false
}

pub open spec fn is_ident_start(c: char) -> bool {
    ('a' <= c && c <= 'z') || ('A' <= c && c <= 'Z') || c == '_'
}

pub open spec fn is_ident_char(c: char) -> bool {
    is_ident_start(c) || ('0' <= c && c <= '9')
}

/// Whether `s` is a variable identifier: `[A-Za-z_][A-Za-z0-9_]*`, and not
/// the bare underscore.
pub open spec fn is_ident_seq(s: Seq<char>) -> bool {
    s.len() > 0 && s != seq!['_'] && is_ident_start(s[0]) && (forall|i: int|
        0 <= i < s.len() ==> is_ident_char(#[trigger] s[i]))
}

/// Decides `is_ident_seq` on a string slice.
pub fn is_ident(s: &str) -> (r: bool)
    ensures
        r == is_ident_seq(s@),
{
    let n = s.unicode_len();
    if n == 0 {
        return false;
    }
    let first = s.get_char(0);
    if n == 1 && first == '_' {
        proof {
            assert(s@ =~= seq!['_']);
        }
        return false;
    }
    if !(('a' <= first && first <= 'z') || ('A' <= first && first <= 'Z') || first == '_') {
        return false;
    }
    let mut i: usize = 0;
    while i < n
        invariant
            i <= n,
            n == s@.len(),
            forall|j: int| 0 <= j < i ==> is_ident_char(#[trigger] s@[j]),
        decreases n - i,
    {
        let c = s.get_char(i);
        if !(('a' <= c && c <= 'z') || ('A' <= c && c <= 'Z') || c == '_' || ('0' <= c && c
            <= '9')) {
            return false;
        }
        i = i + 1;
    }
    proof {
        if s@ == seq!['_'] {
            assert(s@[0] == '_' && s@.len() == 1);
        }
    }
    true
}

/// How a single template segment parses: a literal, a variable with its
/// name, or a validation failure with its message.
pub enum SegResult {
    SegLit(Seq<char>),
    SegVar(Seq<char>),
    SegErr(Seq<char>),
}

/// Parses one segment: a segment containing a brace must be exactly
/// `{name}` with a legal identifier name; any other segment is a literal.
pub open spec fn seg_parse(c: Seq<char>) -> SegResult {
    if !contains_char(c, '{') && !contains_char(c, '}') {
        SegResult::SegLit(c)
    } else if !(c.len() > 0 && c[0] == '{' && c.last() == '}' && c.len() >= 2) {
        SegResult::SegErr("variable must span the whole path component"@)
    } else {
        let inner = c.subrange(1, c.len() - 1);
        if contains_char(inner, '{') || contains_char(inner, '}') {
            SegResult::SegErr("variable must span the whole path component"@)
        } else if inner.len() == 0 {
            SegResult::SegErr("variable must contain variable name"@)
        } else if !is_ident_seq(inner) {
            SegResult::SegErr("variable must be /[a-zA-Z_][a-zA-Z0-9_]*/"@)
        } else {
            SegResult::SegVar(inner)
        }
    }
}

/// How a list of segments parses, from position `i` on: the first failing
/// segment's message, or the components in order.
pub enum TemplateResult {
    TOk(Seq<CompView>),
    TErr(Seq<char>),
}

pub open spec fn segs_parse(segs: Seq<Seq<char>>, i: int) -> TemplateResult
    decreases segs.len() - i,
{
    if i < 0 || i >= segs.len() {
        TemplateResult::TOk(Seq::<CompView>::empty())
    } else {
        match seg_parse(segs[i]) {
            SegResult::SegErr(m) => TemplateResult::TErr(m),
            SegResult::SegLit(t) => match segs_parse(segs, i + 1) {
                TemplateResult::TErr(m) => TemplateResult::TErr(m),
                TemplateResult::TOk(rest) => TemplateResult::TOk(
                    seq![CompView::Lit(t)] + rest,
                ),
            },
            SegResult::SegVar(v) => match segs_parse(segs, i + 1) {
                TemplateResult::TErr(m) => TemplateResult::TErr(m),
                TemplateResult::TOk(rest) => TemplateResult::TOk(
                    seq![CompView::Var(v)] + rest,
                ),
            },
        }
    }
}

/// The variable names of a component list, in order of appearance.
pub open spec fn var_names(comps: Seq<CompView>) -> Seq<Seq<char>>
    decreases comps.len(),
{
    if comps.len() == 0 {
        Seq::<Seq<char>>::empty()
    } else {
        var_names(comps.drop_last()) + (match comps.last() {
            CompView::Var(v) => seq![v],
            CompView::Lit(_) => Seq::<Seq<char>>::empty(),
        })
    }
}

/// The first name that repeats an earlier one, scanning left to right.
pub open spec fn first_dup(names: Seq<Seq<char>>) -> Option<Seq<char>>
    decreases names.len(),
{
    if names.len() == 0 {
        None
    } else {
        match first_dup(names.drop_last()) {
            Some(d) => Some(d),
            None => if names.drop_last().contains(names.last()) {
                Some(names.last())
            } else {
                None
            },
        }
    }
}

/// How a whole template parses: it must start with `/`; its remainder
/// splits on `/` into segments, each of which must parse; and no variable
/// name may repeat.
pub open spec fn template_result(t: Seq<char>) -> TemplateResult {
    if !(t.len() > 0 && t[0] == '/') {
        TemplateResult::TErr("must start with slash"@)
    } else {
        match segs_parse(split_on(t.drop_first(), '/'), 0) {
            TemplateResult::TErr(m) => TemplateResult::TErr(m),
            TemplateResult::TOk(comps) => match first_dup(var_names(comps)) {
                Some(d) => TemplateResult::TErr("duplicate name: `"@ + d + "`"@),
                None => TemplateResult::TOk(comps),
            },
        }
    }
}

/// A template that could not be compiled: the offending template and the
/// reason.
#[derive(Debug, Clone)]
pub struct ParseError {
    pub path: String,
    pub message: String,
}

impl ParseError {
    pub fn new(path: &str, message: &str) -> (r: ParseError)
        ensures
            r.path@ == path@,
            r.message@ == message@,
    {
        ParseError { path: path.to_owned(), message: message.to_owned() }
    }

    /// The full display form of the error.
    pub fn render(&self) -> (r: String)
        ensures
            r@ == "error while parsing path matcher `"@ + self.path@ + "`: "@ + self.message@,
    {
        let mut out = String::from_str("error while parsing path matcher `");
        out.append(self.path.as_str());
        out.append("`: ");
        out.append(self.message.as_str());
        proof {
            assert(out@ =~= "error while parsing path matcher `"@ + self.path@ + "`: "@
                + self.message@);
        }
        out
    }

    /// The constant summary of this error kind.
    pub fn description(&self) -> (r: String)
        ensures
            r@ == "error while parsing path matcher"@,
    {
        String::from_str("error while parsing path matcher")
    }
}

/// A compiled template: its components in order, and the set of its
/// variable names (`bindings`), which are pairwise distinct.
#[derive(Debug, Clone, PartialEq, Eq)]
pub struct PathPattern {
    components: Vec<PathComponent>,
    bindings: Vec<String>,
}

impl View for PathPattern {
    type V = Seq<CompView>;

    closed spec fn view(&self) -> Seq<CompView> {
        self.components.deep_view()
    }
}

impl PathPattern {
    /// Internal shape: the recorded bindings are exactly the variable
    /// names, which do not repeat.
    pub closed spec fn wf(&self) -> bool {
        &&& self.bindings.deep_view() == var_names(self@)
        &&& first_dup(var_names(self@)) is None
    }

    /// The variable names of the pattern, in order of appearance.
    pub fn bindings(&self) -> (r: &Vec<String>)
        requires
            self.wf(),
        ensures
            r.deep_view() == var_names(self@),
    {
        &self.bindings
    }

    /// The components of the pattern, in order.
    pub fn components(&self) -> (r: &Vec<PathComponent>)
        ensures
            r.deep_view() == self@,
    {
        &self.components
    }
}

/// Parses one already-split segment, as `seg_parse` describes.
fn parse_segment(seg: &str) -> (r: Result<PathComponent, &'static str>)
    ensures
        r matches Ok(c) ==> seg_parse(seg@) == (match c@ {
            CompView::Lit(t) => SegResult::SegLit(t),
            CompView::Var(v) => SegResult::SegVar(v),
        }),
        r matches Err(m) ==> seg_parse(seg@) == SegResult::SegErr(m@),
{
    let has_open = str_contains_char(seg, '{');
    let has_close = str_contains_char(seg, '}');
    if !has_open && !has_close {
        return Ok(PathComponent::Lit(seg.to_owned()));
    }
    let n = seg.unicode_len();
    proof {
        assert(n > 0);
    }
    if !(seg.get_char(0) == '{' && seg.get_char(n - 1) == '}' && n >= 2) {
        return Err("variable must span the whole path component");
    }
    let inner = seg.substring_char(1, n - 1);
    if str_contains_char(inner, '{') || str_contains_char(inner, '}') {
        return Err("variable must span the whole path component");
    }
    if inner.unicode_len() == 0 {
        return Err("variable must contain variable name");
    }
    if !is_ident(inner) {
        return Err("variable must be /[a-zA-Z_][a-zA-Z0-9_]*/");
    }
    Ok(PathComponent::Var(inner.to_owned()))
}


/// Whether `v` holds a string whose characters equal `s`.
pub(crate) fn vec_contains_str(v: &Vec<String>, s: &str) -> (r: bool)
    ensures
        r == v.deep_view().contains(s@),
{
    let n = v.len();
    let mut i: usize = 0;
    while i < n
        invariant
            i <= n,
            n == v@.len(),
            forall|j: int| 0 <= j < i ==> v.deep_view()[j] != s@,
        decreases n - i,
    {
        if str_eq(v[i].as_str(), s) {
            proof {
                assert(v.deep_view()[i as int] == s@);
            }
            return true;
        }
        i = i + 1;
    }
    proof {
        if v.deep_view().contains(s@) {
            let j = choose|j: int| 0 <= j < v.deep_view().len() && v.deep_view()[j] == s@;
            assert(v.deep_view()[j] != s@);
        }
    }
    false
}

/// The variable names of a concatenation are the concatenated variable
/// names.
pub proof fn lemma_var_names_concat(a: Seq<CompView>, b: Seq<CompView>)
    ensures
        var_names(a + b) == var_names(a) + var_names(b),
    decreases b.len(),
{
    if b.len() == 0 {
        assert(a + b =~= a);
        assert(var_names(a) + var_names(b) =~= var_names(a));
    } else {
        lemma_var_names_concat(a, b.drop_last());
        assert((a + b).drop_last() =~= a + b.drop_last());
        assert((a + b).last() == b.last());
        assert(var_names(a + b) =~= var_names(a) + var_names(b));
    }
}

/// A duplicate found in a prefix is the first duplicate of any extension.
pub(crate) proof fn lemma_first_dup_append(ns: Seq<Seq<char>>, more: Seq<Seq<char>>)
    requires
        first_dup(ns) is Some,
    ensures
        first_dup(ns + more) == first_dup(ns),
    decreases more.len(),
{
    if more.len() == 0 {
        assert(ns + more =~= ns);
    } else {
        lemma_first_dup_append(ns, more.drop_last());
        assert((ns + more).drop_last() =~= ns + more.drop_last());
    }
}

impl PathPattern {
    /// Compiles a template, as `template_result` describes: the error, when
    /// there is one, carries the offending template and the exact message.
    #[verifier::loop_isolation(false)]
    pub fn parse(template: &str) -> (r: Result<PathPattern, ParseError>)
        ensures
            r is Ok <==> template_result(template@) is TOk,
            r matches Ok(p) ==> template_result(template@) == TemplateResult::TOk(p@) && p.wf(),
            r matches Err(e) ==> template_result(template@) == TemplateResult::TErr(e.message@)
                && e.path@ == template@,
    {
        let n = template.unicode_len();
        if n == 0 || template.get_char(0) != '/' {
            return Err(ParseError::new(template, "must start with slash"));
        }
        let rest = template.substring_char(1, n);
        proof {
            assert(rest@ =~= template@.drop_first());
        }
        let segs = split_str(rest, '/');
        let ghost sv = segs.deep_view();
        let mut components: Vec<PathComponent> = Vec::new();
        let mut i: usize = 0;
        while i < segs.len()
            invariant
                i <= segs@.len(),
                sv == segs.deep_view(),
                sv.len() == segs@.len(),
                segs_parse(sv, i as int) matches TemplateResult::TOk(rest_comps)
                    ==> segs_parse(sv, 0) == TemplateResult::TOk(
                    components.deep_view() + rest_comps,
                ),
                segs_parse(sv, i as int) matches TemplateResult::TErr(m) ==> segs_parse(sv, 0)
                    == TemplateResult::TErr(m),
            decreases segs@.len() - i,
        {
            proof {
                assert(sv[i as int] == segs@[i as int]@);
            }
            match parse_segment(segs[i].as_str()) {
                Ok(c) => {
                    let ghost old_dv = components.deep_view();
                    components.push(c);
                    proof {
                        assert(components.deep_view() =~= old_dv.push(c@));
                        let after = segs_parse(sv, i + 1);
                        if after is TOk {
                            let rest_comps = after->TOk_0;
                            let head = match c@ {
                                CompView::Lit(t) => seq![CompView::Lit(t)],
                                CompView::Var(v) => seq![CompView::Var(v)],
                            };
                            assert(head =~= seq![c@]);
                            assert(segs_parse(sv, i as int) == TemplateResult::TOk(
                                seq![c@] + rest_comps,
                            ));
                            assert(old_dv + (seq![c@] + rest_comps) =~= components.deep_view()
                                + rest_comps);
                        }
                    }
                },
                Err(m) => {
                    proof {
                        assert(segs_parse(sv, i as int) == TemplateResult::TErr(m@));
                    }
                    return Err(ParseError::new(template, m));
                },
            }
            i = i + 1;
        }
        let ghost cdv = components.deep_view();
        proof {
            assert(segs_parse(sv, sv.len() as int) == TemplateResult::TOk(
                Seq::<CompView>::empty(),
            ));
            assert(cdv + Seq::<CompView>::empty() =~= cdv);
            assert(segs_parse(sv, 0) == TemplateResult::TOk(cdv));
            assert(var_names(cdv.take(0)) =~= Seq::<Seq<char>>::empty());
        }
        let mut bindings: Vec<String> = Vec::new();
        let mut j: usize = 0;
        let num = components.len();
        while j < num
            invariant
                j <= num,
                num == components@.len(),
                cdv == components.deep_view(),
                cdv.len() == components@.len(),
                bindings.deep_view() == var_names(cdv.take(j as int)),
                first_dup(var_names(cdv.take(j as int))) is None,
            decreases num - j,
        {
            let ghost names = var_names(cdv.take(j as int));
            proof {
                assert(cdv.take(j + 1).drop_last() =~= cdv.take(j as int));
                assert(cdv.take(j + 1).last() == cdv[j as int]);
                assert(cdv[j as int] == components@[j as int]@);
            }
            let comp: &PathComponent = &components[j];
            match comp {
                PathComponent::Var(name) => {
                    let ghost new_names = var_names(cdv.take(j + 1));
                    proof {
                        assert(new_names =~= names.push(name@));
                        assert(new_names.drop_last() =~= names);
                        assert(new_names.last() == name@);
                    }
                    if vec_contains_str(&bindings, name.as_str()) {
                        proof {
                            assert(first_dup(new_names) == Some(name@));
                            lemma_first_dup_append(new_names, var_names(cdv.skip(j + 1)));
                            lemma_var_names_concat(cdv.take(j + 1), cdv.skip(j + 1));
                            assert(cdv.take(j + 1) + cdv.skip(j + 1) =~= cdv);
                            assert(first_dup(var_names(cdv)) == Some(name@));
                        }
                        let mut msg = String::from_str("duplicate name: `");
                        msg.append(name.as_str());
                        msg.append("`");
                        proof {
                            assert(msg@ =~= "duplicate name: `"@ + name@ + "`"@);
                        }
                        return Err(ParseError { path: template.to_owned(), message: msg });
                    }
                    let ghost old_b = bindings.deep_view();
                    bindings.push(name.clone());
                    proof {
                        assert(bindings.deep_view() =~= old_b.push(name@));
                        assert(bindings.deep_view() =~= var_names(cdv.take(j + 1)));
                    }
                },
                PathComponent::Lit(_) => {
                    proof {
                        assert(var_names(cdv.take(j + 1)) =~= names);
                    }
                },
            }
            j = j + 1;
        }
        proof {
            assert(cdv.take(num as int) =~= cdv);
        }
        Ok(PathPattern { components, bindings })
    }
}


/// The static prefix hint of a pattern: `/` and each literal component up
/// to and including the `/` before the first variable; the full literal
/// path when there is no variable.
pub open spec fn prefix_spec(comps: Seq<CompView>) -> Seq<char>
    decreases comps.len(),
{
    if comps.len() == 0 {
        Seq::<char>::empty()
    } else {
        match comps[0] {
            CompView::Lit(s) => seq!['/'] + s + prefix_spec(comps.drop_first()),
            CompView::Var(_) => seq!['/'],
        }
    }
}

/// Whether each literal component equals its path component; a variable
/// component accepts anything here.
pub open spec fn components_match(comps: Seq<CompView>, parts: Seq<Seq<char>>) -> bool {
    comps.len() == parts.len() && (forall|i: int|
        0 <= i < comps.len() ==> (match #[trigger] comps[i] {
            CompView::Lit(s) => parts[i] == s,
            CompView::Var(_) => true,
        }))
}

/// The structural match predicate of a pattern: the path starts with `/`
/// and its components line up with the pattern's.
pub open spec fn pattern_matches(comps: Seq<CompView>, path: Seq<char>) -> bool {
    path.len() > 0 && path[0] == '/' && components_match(comps, split_on(path.drop_first(), '/'))
}

/// The path components in variable positions, in order.
pub open spec fn var_components(comps: Seq<CompView>, parts: Seq<Seq<char>>) -> Seq<Seq<char>>
    recommends
        comps.len() == parts.len(),
    decreases comps.len(),
{
    if comps.len() == 0 || parts.len() == 0 {
        Seq::<Seq<char>>::empty()
    } else {
        var_components(comps.drop_last(), parts.drop_last()) + (match comps.last() {
            CompView::Var(_) => seq![parts.last()],
            CompView::Lit(_) => Seq::<Seq<char>>::empty(),
        })
    }
}

/// A pattern captures as many components as it has variable names.
pub proof fn lemma_var_components_len(comps: Seq<CompView>, parts: Seq<Seq<char>>)
    requires
        comps.len() == parts.len(),
    ensures
        var_components(comps, parts).len() == var_names(comps).len(),
    decreases comps.len(),
{
    if comps.len() > 0 {
        lemma_var_components_len(comps.drop_last(), parts.drop_last());
    }
}

impl PathPattern {
    /// The static prefix hint, as `prefix_spec` describes.
    #[verifier::loop_isolation(false)]
    pub fn path_prefix(&self) -> (r: String)
        ensures
            r@ == prefix_spec(self@),
    {
        proof {
            reveal_strlit("/");
        }
        let mut prefix = String::new();
        let n = self.components.len();
        let mut i: usize = 0;
        proof {
            assert(self@.skip(0) =~= self@);
            assert(prefix@ + prefix_spec(self@) =~= prefix_spec(self@));
        }
        while i < n
            invariant
                i <= n,
                prefix_spec(self@) == prefix@ + prefix_spec(self@.skip(i as int)),
            decreases n - i,
        {
            let ghost suf = self@.skip(i as int);
            proof {
                assert(suf[0] == self@[i as int]);
                assert(suf.drop_first() =~= self@.skip(i + 1));
                assert("/"@ =~= seq!['/']);
            }
            let comp: &PathComponent = &self.components[i];
            proof {
                assert(comp@ == self@[i as int]);
            }
            match comp {
                PathComponent::Lit(t) => {
                    prefix.append("/");
                    prefix.append(t.as_str());
                    proof {
                        assert(prefix_spec(suf) == seq!['/'] + t@ + prefix_spec(
                            self@.skip(i + 1),
                        ));
                        assert(prefix_spec(self@) =~= prefix@ + prefix_spec(
                            self@.skip(i + 1),
                        ));
                    }
                },
                PathComponent::Var(_) => {
                    prefix.append("/");
                    proof {
                        assert(prefix_spec(suf) == seq!['/']);
                        assert(prefix_spec(self@) =~= prefix@);
                    }
                    return prefix;
                },
            }
            i = i + 1;
        }
        proof {
            assert(self@.skip(n as int) =~= Seq::<CompView>::empty());
            assert(prefix_spec(self@) =~= prefix@);
        }
        prefix
    }

    /// The structural match predicate, as `pattern_matches` describes.
    #[verifier::loop_isolation(false)]
    pub fn matches(&self, path: &str) -> (r: bool)
        ensures
            r == pattern_matches(self@, path@),
    {
        let n = path.unicode_len();
        if n == 0 || path.get_char(0) != '/' {
            return false;
        }
        let rest = path.substring_char(1, n);
        proof {
            assert(rest@ =~= path@.drop_first());
        }
        let parts = split_str(rest, '/');
        let ghost pv = parts.deep_view();
        if parts.len() != self.components.len() {
            return false;
        }
        let m = parts.len();
        let mut i: usize = 0;
        while i < m
            invariant
                i <= m,
                forall|j: int|
                    0 <= j < i ==> (match #[trigger] self@[j] {
                        CompView::Lit(t) => pv[j] == t,
                        CompView::Var(_) => true,
                    }),
            decreases m - i,
        {
            let comp: &PathComponent = &self.components[i];
            proof {
                assert(comp@ == self@[i as int]);
                assert(pv[i as int] == parts@[i as int]@);
            }
            match comp {
                PathComponent::Lit(t) => {
                    if !str_eq(t.as_str(), parts[i].as_str()) {
                        return false;
                    }
                },
                PathComponent::Var(_) => {},
            }
            i = i + 1;
        }
        true
    }

    /// The positional extractor: the raw path component in each variable
    /// position, in order.  A path the pattern matches always extracts.
    #[verifier::loop_isolation(false)]
    pub fn extract(&self, path: &str) -> (r: Vec<String>)
        requires
            pattern_matches(self@, path@),
        ensures
            r.deep_view() == var_components(self@, split_on(path@.drop_first(), '/')),
            r.deep_view().len() == var_names(self@).len(),
    {
        let n = path.unicode_len();
        let rest = path.substring_char(1, n);
        proof {
            assert(rest@ =~= path@.drop_first());
        }
        let parts = split_str(rest, '/');
        let ghost pv = parts.deep_view();
        let m = self.components.len();
        proof {
            assert(pv.len() == m);
            assert(var_components(self@.take(0), pv.take(0)) =~= Seq::<Seq<char>>::empty());
        }
        let mut out: Vec<String> = Vec::new();
        let mut i: usize = 0;
        while i < m
            invariant
                i <= m,
                out.deep_view() == var_components(self@.take(i as int), pv.take(i as int)),
            decreases m - i,
        {
            let ghost ctake = self@.take(i + 1);
            let ghost ptake = pv.take(i + 1);
            proof {
                assert(ctake.drop_last() =~= self@.take(i as int));
                assert(ptake.drop_last() =~= pv.take(i as int));
                assert(ctake.last() == self@[i as int]);
                assert(ptake.last() == pv[i as int]);
                assert(pv[i as int] == parts@[i as int]@);
            }
            let comp: &PathComponent = &self.components[i];
            proof {
                assert(comp@ == self@[i as int]);
            }
            match comp {
                PathComponent::Var(_) => {
                    let ghost old_out = out.deep_view();
                    out.push(parts[i].clone());
                    proof {
                        assert(out.deep_view() =~= old_out.push(pv[i as int]));
                        assert(out.deep_view() =~= var_components(ctake, ptake));
                    }
                },
                PathComponent::Lit(_) => {
                    proof {
                        assert(var_components(ctake, ptake) =~= out.deep_view());
                    }
                },
            }
            i = i + 1;
        }
        proof {
            assert(self@.take(m as int) =~= self@);
            assert(pv.take(m as int) =~= pv);
            lemma_var_components_len(self@, pv);
        }
        out
    }
}


/// How segments and parsed components correspond: a literal component
/// carries its segment's text, a variable component's segment is its name
/// in braces.
pub proof fn lemma_segs_parse_ok(segs: Seq<Seq<char>>, i: int, comps: Seq<CompView>)
    requires
        0 <= i <= segs.len(),
        segs_parse(segs, i) == TemplateResult::TOk(comps),
    ensures
        comps.len() == segs.len() - i,
        forall|j: int|
            0 <= j < comps.len() ==> (match #[trigger] comps[j] {
                CompView::Lit(t) => t == segs[i + j],
                CompView::Var(v) => segs[i + j] == seq!['{'] + v + seq!['}'],
            }),
    decreases segs.len() - i,
{
    if i < segs.len() {
        match seg_parse(segs[i]) {
            SegResult::SegErr(_) => {
                assert(false);
            },
            SegResult::SegLit(t) => {
                let rest = segs_parse(segs, i + 1)->TOk_0;
                lemma_segs_parse_ok(segs, i + 1, rest);
                assert(comps == seq![CompView::Lit(t)] + rest);
                assert(comps[0] == CompView::Lit(t));
                assert forall|j: int| 0 <= j < comps.len() implies (match #[trigger] comps[j] {
                    CompView::Lit(t2) => t2 == segs[i + j],
                    CompView::Var(v) => segs[i + j] == seq!['{'] + v + seq!['}'],
                }) by {
                    if j > 0 {
                        assert(comps[j] == rest[j - 1]);
                    }
                }
            },
            SegResult::SegVar(v) => {
                let rest = segs_parse(segs, i + 1)->TOk_0;
                lemma_segs_parse_ok(segs, i + 1, rest);
                assert(comps == seq![CompView::Var(v)] + rest);
                assert(comps[0] == CompView::Var(v));
                assert(segs[i] =~= seq!['{'] + v + seq!['}']);
                assert forall|j: int| 0 <= j < comps.len() implies (match #[trigger] comps[j] {
                    CompView::Lit(t2) => t2 == segs[i + j],
                    CompView::Var(v2) => segs[i + j] == seq!['{'] + v2 + seq!['}'],
                }) by {
                    if j > 0 {
                        assert(comps[j] == rest[j - 1]);
                    }
                }
            },
        }
    }
}

/// The prefix of an all-literal pattern is `/` and the joined literals.
proof fn lemma_prefix_all_lit(comps: Seq<CompView>, parts: Seq<Seq<char>>)
    requires
        comps.len() == parts.len(),
        comps.len() >= 1,
        forall|j: int| 0 <= j < comps.len() ==> #[trigger] comps[j] == CompView::Lit(parts[j]),
    ensures
        prefix_spec(comps) == seq!['/'] + join_with(parts, '/'),
    decreases comps.len(),
{
    assert(comps[0] == CompView::Lit(parts[0]));
    if comps.len() == 1 {
        assert(join_with(parts, '/') == parts[0]);
        assert(comps.drop_first().len() == 0);
        assert(prefix_spec(comps.drop_first()) == Seq::<char>::empty());
        assert(prefix_spec(comps) == seq!['/'] + parts[0] + prefix_spec(comps.drop_first()));
        assert(prefix_spec(comps) =~= seq!['/'] + parts[0]);
    } else {
        assert forall|j: int| 0 <= j < comps.drop_first().len() implies #[trigger] comps.drop_first()[j]
            == CompView::Lit(parts.drop_first()[j]) by {
            assert(comps.drop_first()[j] == comps[j + 1]);
            assert(parts.drop_first()[j] == parts[j + 1]);
        }
        lemma_prefix_all_lit(comps.drop_first(), parts.drop_first());
        crate::strutil::lemma_join_front(parts, '/');
        assert(prefix_spec(comps) =~= seq!['/'] + join_with(parts, '/'));
    }
}

/// A component list with a variable has at least one variable name.
proof fn lemma_var_names_positive(comps: Seq<CompView>, k: int)
    requires
        0 <= k < comps.len(),
        comps[k] is Var,
    ensures
        var_names(comps).len() > 0,
    decreases comps.len(),
{
    if k < comps.len() - 1 {
        lemma_var_names_positive(comps.drop_last(), k);
    }
}

/// A template without variables matches itself as a path, and its static
/// prefix is the whole template.
pub proof fn lemma_novar_template(t: Seq<char>)
    requires
        template_result(t) is TOk,
        var_names(template_result(t)->TOk_0).len() == 0,
    ensures
        pattern_matches(template_result(t)->TOk_0, t),
        prefix_spec(template_result(t)->TOk_0) == t,
{
    let comps = template_result(t)->TOk_0;
    let parts = split_on(t.drop_first(), '/');
    assert(t.len() > 0 && t[0] == '/');
    assert(segs_parse(parts, 0) == TemplateResult::TOk(comps));
    crate::strutil::lemma_split_on_len(t.drop_first(), '/');
    lemma_segs_parse_ok(parts, 0, comps);
    assert forall|j: int| 0 <= j < comps.len() implies #[trigger] comps[j] == CompView::Lit(
        parts[j],
    ) by {
        if comps[j] is Var {
            lemma_var_names_positive(comps, j);
        }
        assert(comps[j] matches CompView::Lit(x) ==> x == parts[0 + j]);
    }
    assert(components_match(comps, parts));
    lemma_prefix_all_lit(comps, parts);
    crate::strutil::lemma_join_split(t.drop_first(), '/');
    assert(seq!['/'] + t.drop_first() =~= t);
}

/// The prefix of a pattern whose first variable stands at position `k` is
/// the prefix of its literal head plus the `/` before the variable.
proof fn lemma_prefix_upto_var(comps: Seq<CompView>, k: int)
    requires
        0 <= k < comps.len(),
        comps[k] is Var,
        forall|j: int| 0 <= j < k ==> (#[trigger] comps[j]) is Lit,
    ensures
        prefix_spec(comps) == prefix_spec(comps.take(k)) + seq!['/'],
    decreases k,
{
    if k == 0 {
        assert(comps.take(0).len() == 0);
        assert(prefix_spec(comps) =~= prefix_spec(comps.take(0)) + seq!['/']);
    } else {
        let df = comps.drop_first();
        assert(comps[0] is Lit);
        assert forall|j: int| 0 <= j < k - 1 implies (#[trigger] df[j]) is Lit by {
            assert(df[j] == comps[j + 1]);
        }
        assert(df[k - 1] == comps[k]);
        lemma_prefix_upto_var(df, k - 1);
        let t0 = comps[0]->Lit_0;
        assert(prefix_spec(comps) == seq!['/'] + t0 + prefix_spec(df));
        assert(comps.take(k)[0] == comps[0]);
        assert(comps.take(k).drop_first() =~= df.take(k - 1));
        assert(prefix_spec(comps.take(k)) == seq!['/'] + t0 + prefix_spec(df.take(k - 1)));
        assert(prefix_spec(comps) =~= prefix_spec(comps.take(k)) + seq!['/']);
    }
}

/// With exactly one variable segment, the static prefix is the literal
/// prefix of the template up to and including the `/` before the variable,
/// whose opening brace follows it immediately.
pub proof fn lemma_one_var_prefix(t: Seq<char>, k: int)
    requires
        template_result(t) is TOk,
        0 <= k < template_result(t)->TOk_0.len(),
        template_result(t)->TOk_0[k] is Var,
        forall|j: int|
            0 <= j < template_result(t)->TOk_0.len() && j != k ==> (
            #[trigger] template_result(t)->TOk_0[j]) is Lit,
    ensures
        prefix_spec(template_result(t)->TOk_0).len() < t.len(),
        prefix_spec(template_result(t)->TOk_0) == t.take(
            prefix_spec(template_result(t)->TOk_0).len() as int,
        ),
        t[prefix_spec(template_result(t)->TOk_0).len() as int] == '{',
{
    let comps = template_result(t)->TOk_0;
    let parts = split_on(t.drop_first(), '/');
    assert(t.len() > 0 && t[0] == '/');
    assert(segs_parse(parts, 0) == TemplateResult::TOk(comps));
    crate::strutil::lemma_split_on_len(t.drop_first(), '/');
    lemma_segs_parse_ok(parts, 0, comps);
    crate::strutil::lemma_join_split(t.drop_first(), '/');
    lemma_prefix_upto_var(comps, k);
    let v = comps[k]->Var_0;
    assert(parts[0 + k] == seq!['{'] + v + seq!['}']);
    assert(parts[k].len() >= 2);
    assert(parts[k][0] == '{');
    let prefix = prefix_spec(comps);
    if k == 0 {
        assert(prefix =~= seq!['/']);
        if parts.len() == 1 {
            assert(join_with(parts, '/') == parts[0]);
        } else {
            crate::strutil::lemma_join_front(parts, '/');
        }
        assert(join_with(parts, '/')[0] == parts[0][0]);
        assert(t =~= seq!['/'] + join_with(parts, '/'));
        assert(t[1] == '{');
        assert(prefix =~= t.take(1));
    } else {
        let head = parts.take(k);
        let tail = parts.skip(k);
        assert(head + tail =~= parts);
        assert forall|j: int| 0 <= j < k implies #[trigger] comps.take(k)[j] == CompView::Lit(
            head[j],
        ) by {
            assert(comps.take(k)[j] == comps[j]);
            assert(comps[j] is Lit);
            assert(comps[j] matches CompView::Lit(x) ==> x == parts[0 + j]);
            assert(head[j] == parts[j]);
        }
        lemma_prefix_all_lit(comps.take(k), head);
        crate::strutil::lemma_join_concat(head, tail, '/');
        assert(join_with(parts, '/') == join_with(head, '/') + seq!['/'] + join_with(
            tail,
            '/',
        ));
        assert(t =~= seq!['/'] + join_with(parts, '/'));
        assert(prefix =~= seq!['/'] + join_with(head, '/') + seq!['/']);
        assert(t =~= prefix + join_with(tail, '/'));
        if tail.len() == 1 {
            assert(join_with(tail, '/') == tail[0]);
        } else {
            crate::strutil::lemma_join_front(tail, '/');
        }
        assert(tail[0] == parts[k]);
        assert(join_with(tail, '/')[0] == parts[k][0]);
        assert(join_with(tail, '/').len() >= 1);
        assert(prefix.len() < t.len());
        assert(t[prefix.len() as int] == '{');
        assert(prefix =~= t.take(prefix.len() as int));
    }
}

/// A name list without a first duplicate has pairwise distinct names.
pub(crate) proof fn lemma_first_dup_none_distinct(ns: Seq<Seq<char>>)
    requires
        first_dup(ns) is None,
    ensures
        forall|i: int, j: int| 0 <= i < j < ns.len() ==> ns[i] != ns[j],
    decreases ns.len(),
{
    if ns.len() > 0 {
        lemma_first_dup_none_distinct(ns.drop_last());
        assert forall|i: int, j: int| 0 <= i < j < ns.len() implies ns[i] != ns[j] by {
            if j < ns.len() - 1 {
                assert(ns.drop_last()[i] == ns[i] && ns.drop_last()[j] == ns[j]);
            } else {
                assert(!ns.drop_last().contains(ns.last()));
                assert(ns.drop_last()[i] == ns[i]);
                if ns[i] == ns[j] {
                    assert(ns.drop_last().contains(ns.last()));
                }
            }
        }
    }
}

/// The name of the variable at `k` stands in the name list at the position
/// counting the variables before `k`.
pub(crate) proof fn lemma_var_name_index(comps: Seq<CompView>, k: int)
    requires
        0 <= k < comps.len(),
        comps[k] is Var,
    ensures
        var_names(comps.take(k)).len() < var_names(comps).len(),
        var_names(comps)[var_names(comps.take(k)).len() as int] == comps[k]->Var_0,
        var_names(comps.take(k + 1)).len() == var_names(comps.take(k)).len() + 1,
{
    let head = comps.take(k + 1);
    let tail = comps.skip(k + 1);
    assert(head + tail =~= comps);
    lemma_var_names_concat(head, tail);
    assert(head.drop_last() =~= comps.take(k));
    assert(head.last() == comps[k]);
    assert(var_names(head) =~= var_names(comps.take(k)).push(comps[k]->Var_0));
    let idx = var_names(comps.take(k)).len() as int;
    assert(var_names(head)[idx] == comps[k]->Var_0);
    assert(var_names(comps)[idx] == var_names(head)[idx]);
}

/// Two variable segments with the same name make the whole template fail
/// with a duplicate-name error, however the rest of it is formed.
pub proof fn lemma_duplicate_names_rejected(t: Seq<char>, k1: int, k2: int)
    requires
        t.len() > 0,
        t[0] == '/',
        segs_parse(split_on(t.drop_first(), '/'), 0) is TOk,
        0 <= k1 < k2 < segs_parse(split_on(t.drop_first(), '/'), 0)->TOk_0.len(),
        segs_parse(split_on(t.drop_first(), '/'), 0)->TOk_0[k1] is Var,
        segs_parse(split_on(t.drop_first(), '/'), 0)->TOk_0[k2] is Var,
        segs_parse(split_on(t.drop_first(), '/'), 0)->TOk_0[k1]->Var_0 == segs_parse(
            split_on(t.drop_first(), '/'),
            0,
        )->TOk_0[k2]->Var_0,
    ensures
        template_result(t) is TErr,
{
    let comps = segs_parse(split_on(t.drop_first(), '/'), 0)->TOk_0;
    let ns = var_names(comps);
    lemma_var_name_index(comps, k1);
    lemma_var_name_index(comps, k2);
    let i1 = var_names(comps.take(k1)).len() as int;
    let i2 = var_names(comps.take(k2)).len() as int;
    assert(comps.take(k1 + 1) + comps.skip(k1 + 1).take(k2 - k1 - 1) =~= comps.take(k2));
    lemma_var_names_concat(comps.take(k1 + 1), comps.skip(k1 + 1).take(k2 - k1 - 1));
    assert(var_names(comps.take(k2)).len() >= var_names(comps.take(k1 + 1)).len());
    assert(i1 < i2);
    if first_dup(ns) is None {
        lemma_first_dup_none_distinct(ns);
        assert(ns[i1] != ns[i2]);
        assert(false);
    }
}


/// The position of the first occurrence of `name` in `names`.
pub open spec fn name_index(names: Seq<Seq<char>>, name: Seq<char>) -> int
    decreases names.len(),
{
    if names.len() == 0 {
        0
    } else if names[0] == name {
        0
    } else {
        1 + name_index(names.drop_first(), name)
    }
}

pub proof fn lemma_name_index_found(names: Seq<Seq<char>>, name: Seq<char>, k: int)
    requires
        0 <= k < names.len(),
        names[k] == name,
        forall|j: int| 0 <= j < k ==> names[j] != name,
    ensures
        name_index(names, name) == k,
    decreases k,
{
    if k > 0 {
        assert(names[0] != name);
        assert(names.drop_first()[k - 1] == names[k]);
        assert forall|j: int| 0 <= j < k - 1 implies names.drop_first()[j] != name by {
            assert(names.drop_first()[j] == names[j + 1]);
        }
        lemma_name_index_found(names.drop_first(), name, k - 1);
    }
}

/// Captured components concatenate along a split of the pattern.
pub proof fn lemma_var_components_concat(
    ac: Seq<CompView>,
    ap: Seq<Seq<char>>,
    bc: Seq<CompView>,
    bp: Seq<Seq<char>>,
)
    requires
        ac.len() == ap.len(),
        bc.len() == bp.len(),
    ensures
        var_components(ac + bc, ap + bp) == var_components(ac, ap) + var_components(bc, bp),
    decreases bc.len(),
{
    if bc.len() == 0 {
        assert(ac + bc =~= ac);
        assert(ap + bp =~= ap);
        assert(var_components(ac, ap) + var_components(bc, bp) =~= var_components(ac, ap));
    } else {
        lemma_var_components_concat(ac, ap, bc.drop_last(), bp.drop_last());
        assert((ac + bc).drop_last() =~= ac + bc.drop_last());
        assert((ap + bp).drop_last() =~= ap + bp.drop_last());
        assert((ac + bc).last() == bc.last());
        assert((ap + bp).last() == bp.last());
        assert(var_components(ac + bc, ap + bp) =~= var_components(ac, ap) + var_components(
            bc,
            bp,
        ));
    }
}

/// The component captured for the variable at pattern position `p` is the
/// path component in that position, and it stands in the captured list at
/// the position counting the variables before `p`.
pub proof fn lemma_var_component_at(comps: Seq<CompView>, parts: Seq<Seq<char>>, p: int)
    requires
        comps.len() == parts.len(),
        0 <= p < comps.len(),
        comps[p] is Var,
    ensures
        var_names(comps.take(p)).len() < var_components(comps, parts).len(),
        var_components(comps, parts)[var_names(comps.take(p)).len() as int] == parts[p],
{
    let head_c = comps.take(p + 1);
    let head_p = parts.take(p + 1);
    let tail_c = comps.skip(p + 1);
    let tail_p = parts.skip(p + 1);
    assert(head_c + tail_c =~= comps);
    assert(head_p + tail_p =~= parts);
    lemma_var_components_concat(head_c, head_p, tail_c, tail_p);
    assert(head_c.drop_last() =~= comps.take(p));
    assert(head_p.drop_last() =~= parts.take(p));
    assert(head_c.last() == comps[p]);
    assert(head_p.last() == parts[p]);
    assert(var_components(head_c, head_p) =~= var_components(
        comps.take(p),
        parts.take(p),
    ).push(parts[p]));
    lemma_var_components_len(comps.take(p), parts.take(p));
    let idx = var_names(comps.take(p)).len() as int;
    assert(var_components(head_c, head_p)[idx] == parts[p]);
    assert(var_components(comps, parts)[idx] == var_components(head_c, head_p)[idx]);
}

/// A name stands among the variable names exactly when some component
/// declares it.
pub proof fn lemma_var_names_contains(comps: Seq<CompView>, n: Seq<char>)
    ensures
        var_names(comps).contains(n) <==> exists|p: int|
            0 <= p < comps.len() && ((#[trigger] comps[p]) matches CompView::Var(v) && v == n),
    decreases comps.len(),
{
    if comps.len() == 0 {
    } else {
        lemma_var_names_contains(comps.drop_last(), n);
        let dl = comps.drop_last();
        if var_names(comps).contains(n) {
            let k = choose|k: int| 0 <= k < var_names(comps).len() && var_names(comps)[k] == n;
            if k < var_names(dl).len() {
                assert(var_names(dl).contains(n)) by {
                    assert(var_names(dl)[k] == var_names(comps)[k]);
                }
                let p = choose|p: int|
                    0 <= p < dl.len() && ((#[trigger] dl[p]) matches CompView::Var(v) && v
                        == n);
                assert(comps[p] == dl[p]);
            } else {
                assert(comps.last() matches CompView::Var(v) && v == n);
                assert(comps[comps.len() - 1] == comps.last());
            }
        }
        if exists|p: int|
            0 <= p < comps.len() && ((#[trigger] comps[p]) matches CompView::Var(v) && v == n) {
            let p = choose|p: int|
                0 <= p < comps.len() && ((#[trigger] comps[p]) matches CompView::Var(v) && v
                    == n);
            if p < comps.len() - 1 {
                assert(dl[p] == comps[p]);
                assert(var_names(dl).contains(n));
                let k = choose|k: int| 0 <= k < var_names(dl).len() && var_names(dl)[k] == n;
                assert(var_names(comps)[k] == n);
            } else {
                lemma_var_name_index(comps, p);
            }
        }
    }
}

impl PathPattern {
    /// A well-formed pattern's variable names do not repeat.
    pub proof fn lemma_wf_names(&self)
        requires
            self.wf(),
        ensures
            first_dup(var_names(self@)) is None,
    {
    }
}

} // verus!
