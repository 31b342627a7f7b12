use vstd::prelude::*;

use crate::consts::{DocstringMarker, Placeholder};
use crate::text;

verus! {

// ---------------------------------------------------------------------------
// Parameters and fields
// ---------------------------------------------------------------------------

/// Mathematical image of a `PyParam`.
#[verifier::ext_equal]
pub struct ParamView {
    pub name: Seq<char>,
    pub dtype: Option<Seq<char>>,
    pub default: Option<Seq<char>>,
}

/// One method parameter or one class field: a name, an optional type
/// annotation and an optional default value.
#[derive(Debug, Clone)]
pub struct PyParam {
    pub name: String,
    pub dtype: Option<String>,
    pub default: Option<String>,
}

impl View for PyParam {
    type V = ParamView;

    open spec fn view(&self) -> ParamView {
        ParamView {
            name: self.name@,
            dtype: self.dtype.deep_view(),
            default: self.default.deep_view(),
        }
    }
}

impl DeepView for PyParam {
    type V = ParamView;

    open spec fn deep_view(&self) -> ParamView {
        self.view()
    }
}

// ---------------------------------------------------------------------------
// Methods
// ---------------------------------------------------------------------------

/// Whether a method is rendered with a `+` or a `-` glyph.
#[derive(Debug, Clone, Copy, PartialEq, Eq, Structural)]
pub enum PyMethodAccess {
    Public,
    Private,
}

/// Mathematical image of a `PyMethod`.
#[verifier::ext_equal]
pub struct MethodView {
    pub name: Seq<char>,
    pub args: Seq<ParamView>,
    pub returns: Option<Seq<char>>,
    pub access: PyMethodAccess,
}

/// One parsed method signature.
#[derive(Debug, Clone)]
pub struct PyMethod {
    pub name: String,
    pub args: Vec<PyParam>,
    pub returns: Option<String>,
    pub access: PyMethodAccess,
}

impl View for PyMethod {
    type V = MethodView;

    open spec fn view(&self) -> MethodView {
        MethodView {
            name: self.name@,
            args: self.args.deep_view(),
            returns: self.returns.deep_view(),
            access: self.access,
        }
    }
}

impl DeepView for PyMethod {
    type V = MethodView;

    open spec fn deep_view(&self) -> MethodView {
        self.view()
    }
}

/// A name of the `__x__` shape opens and closes with a double underscore.
pub open spec fn is_dunder_spec(name: Seq<char>) -> bool {
    text::starts_with_spec(name, "__"@) && text::ends_with_spec(name, "__"@)
}

impl PyMethod {
    /// Dunder methods are excluded from rendered diagrams.
    pub fn is_dunder(&self) -> (r: bool)
        ensures
            r == is_dunder_spec(self.name@),
    {
        text::starts_with(self.name.as_str(), "__") && text::ends_with(self.name.as_str(), "__")
    }
}

// ---------------------------------------------------------------------------
// Classes
// ---------------------------------------------------------------------------

/// Mathematical image of a `PyClass`.
#[verifier::ext_equal]
pub struct ClassView {
    pub name: Seq<char>,
    pub parents: Seq<Seq<char>>,
    pub fields: Seq<ParamView>,
    pub methods: Seq<MethodView>,
}

/// One parsed class: its name, the parents written in its header, and its
/// fields and methods in source declaration order.
#[derive(Debug, Clone)]
pub struct PyClass {
    pub name: String,
    pub parents: Vec<String>,
    pub fields: Vec<PyParam>,
    pub methods: Vec<PyMethod>,
}

impl View for PyClass {
    type V = ClassView;

    open spec fn view(&self) -> ClassView {
        ClassView {
            name: self.name@,
            parents: self.parents.deep_view(),
            fields: self.fields.deep_view(),
            methods: self.methods.deep_view(),
        }
    }
}

impl DeepView for PyClass {
    type V = ClassView;

    open spec fn deep_view(&self) -> ClassView {
        self.view()
    }
}

// ---------------------------------------------------------------------------
// Deduplication: the first definition of a name wins
// ---------------------------------------------------------------------------

/// Names already taken by earlier classes.
pub open spec fn class_names(s: Seq<ClassView>) -> Set<Seq<char>> {
    s.map(|i: int, c: ClassView| c.name).to_set()
}

pub open spec fn dedup_rec(s: Seq<ClassView>, seen: Set<Seq<char>>) -> Seq<ClassView>
    decreases s.len(),
{
    if s.len() == 0 {
        Seq::empty()
    } else if seen.contains(s[0].name) {
        dedup_rec(s.drop_first(), seen)
    } else {
        seq![s[0]] + dedup_rec(s.drop_first(), seen.insert(s[0].name))
    }
}

/// The class list with every repeated name dropped: the earliest definition
/// of each name is kept, later ones are discarded in full.
pub open spec fn dedup_spec(s: Seq<ClassView>) -> Seq<ClassView> {
    dedup_rec(s, Set::empty())
}

/// No element of the deduplicated list carries a name from `seen`, and no
/// two elements share a name.
pub proof fn lemma_dedup_rec_unique(s: Seq<ClassView>, seen: Set<Seq<char>>)
    ensures
        forall|k: int|
            0 <= k < dedup_rec(s, seen).len() ==> !seen.contains(
                #[trigger] dedup_rec(s, seen)[k].name,
            ),
        forall|a: int, b: int|
            0 <= a < b < dedup_rec(s, seen).len() ==> dedup_rec(s, seen)[a].name != dedup_rec(
                s,
                seen,
            )[b].name,
    decreases s.len(),
{
    if s.len() == 0 {
    } else if seen.contains(s[0].name) {
        lemma_dedup_rec_unique(s.drop_first(), seen);
        let d = dedup_rec(s, seen);
        let t = dedup_rec(s.drop_first(), seen);
        assert(d == t);
        assert forall|k: int| 0 <= k < d.len() implies !seen.contains(#[trigger] d[k].name) by {
            assert(!seen.contains(t[k].name));
        }
        assert forall|a: int, b: int| 0 <= a < b < d.len() implies d[a].name != d[b].name by {
            assert(t[a].name != t[b].name);
        }
    } else {
        let seen2 = seen.insert(s[0].name);
        lemma_dedup_rec_unique(s.drop_first(), seen2);
        let d = dedup_rec(s, seen);
        let tail = dedup_rec(s.drop_first(), seen2);
        assert(d[0] == s[0]);
        assert forall|k: int| 0 <= k < d.len() implies !seen.contains(#[trigger] d[k].name) by {
            if k > 0 {
                assert(d[k] == tail[k - 1]);
                assert(!seen2.contains(tail[k - 1].name));
            }
        }
        assert forall|a: int, b: int| 0 <= a < b < d.len() implies d[a].name != d[b].name by {
            assert(d[b] == tail[b - 1]);
            if a == 0 {
                assert(!seen2.contains(tail[b - 1].name));
                assert(seen2.contains(s[0].name));
            } else {
                assert(d[a] == tail[a - 1]);
            }
        }
    }
}

/// Dedup keeps the first definition: every retained class is some element
/// of the input, and no earlier input element carried its name.
pub proof fn lemma_dedup_first_wins(s: Seq<ClassView>, k: int)
    requires
        0 <= k < dedup_spec(s).len(),
    ensures
        exists|i: int|
            0 <= i < s.len() && s[i] == dedup_spec(s)[k] && forall|j: int|
                0 <= j < i ==> (#[trigger] s[j]).name != dedup_spec(s)[k].name,
{
    lemma_dedup_first_wins_rec(s, Set::empty(), k);
}

proof fn lemma_dedup_first_wins_rec(s: Seq<ClassView>, seen: Set<Seq<char>>, k: int)
    requires
        0 <= k < dedup_rec(s, seen).len(),
    ensures
        exists|i: int|
            0 <= i < s.len() && s[i] == dedup_rec(s, seen)[k] && forall|j: int|
                0 <= j < i ==> (#[trigger] s[j]).name != dedup_rec(s, seen)[k].name,
    decreases s.len(),
{
    let d = dedup_rec(s, seen);
    lemma_dedup_rec_unique(s, seen);
    if seen.contains(s[0].name) {
        let tail = dedup_rec(s.drop_first(), seen);
        lemma_dedup_first_wins_rec(s.drop_first(), seen, k);
        let i0 = choose|i0: int|
            0 <= i0 < s.drop_first().len() && s.drop_first()[i0] == tail[k] && forall|j: int|
                0 <= j < i0 ==> (#[trigger] s.drop_first()[j]).name != tail[k].name;
        let i = i0 + 1;
        assert(s[i] == tail[k]);
        assert(!seen.contains(d[k].name));
        assert forall|j: int| 0 <= j < i implies (#[trigger] s[j]).name != d[k].name by {
            if j == 0 {
                assert(seen.contains(s[0].name));
            } else {
                assert(s.drop_first()[j - 1].name != tail[k].name);
            }
        }
    } else {
        let seen2 = seen.insert(s[0].name);
        if k == 0 {
            assert(d[0] == s[0]);
            assert(s[0] == d[k] && forall|j: int|
                0 <= j < 0 ==> (#[trigger] s[j]).name != d[k].name);
        } else {
            let tail = dedup_rec(s.drop_first(), seen2);
            assert(d[k] == tail[k - 1]);
            lemma_dedup_first_wins_rec(s.drop_first(), seen2, k - 1);
            let i0 = choose|i0: int|
                0 <= i0 < s.drop_first().len() && s.drop_first()[i0] == tail[k - 1] && forall|
                    j: int,
                |
                    0 <= j < i0 ==> (#[trigger] s.drop_first()[j]).name != tail[k - 1].name;
            let i = i0 + 1;
            assert(s[i] == d[k]);
            lemma_dedup_rec_unique(s.drop_first(), seen2);
            assert(!seen2.contains(tail[k - 1].name));
            assert forall|j: int| 0 <= j < i implies (#[trigger] s[j]).name != d[k].name by {
                if j == 0 {
                    assert(seen2.contains(s[0].name));
                } else {
                    assert(s.drop_first()[j - 1].name != tail[k - 1].name);
                }
            }
        }
    }
}

/// True when some class in `out` carries this name.
fn contains_name(out: &Vec<PyClass>, name: &String) -> (r: bool)
    ensures
        r == class_names(out.deep_view()).contains(name@),
{
    let mut i: usize = 0;
    let n = out.len();
    while i < n
        invariant
            n == out.len(),
            i <= n,
            forall|j: int| 0 <= j < i ==> out.deep_view()[j].name != name@,
        decreases n - i,
    {
        if text::str_eq(out[i].name.as_str(), name.as_str()) {
            assert(out.deep_view()[i as int].name == name@);
            assert(out.deep_view().map(|k: int, c: ClassView| c.name)[i as int] == name@);
            return true;
        }
        i += 1;
    }
    proof {
        let m = out.deep_view().map(|k: int, c: ClassView| c.name);
        assert forall|j: int| 0 <= j < m.len() implies #[trigger] m[j] != name@ by {
            assert(out.deep_view()[j].name != name@);
        }
        assert(!m.contains(name@));
    }
    false
}

/// A list whose repeated entries can be dropped in place.
pub trait UniqueVec {
    fn remove_dups(&mut self);
}

impl UniqueVec for Vec<PyClass> {
    /// Drop every class whose name already appeared earlier in the list.
    fn remove_dups(&mut self)
        ensures
            final(self).deep_view() == dedup_spec(old(self).deep_view()),
    {
        remove_dups(self)
    }
}

/// Drop every class whose name already appeared earlier in the list.
pub fn remove_dups(models: &mut Vec<PyClass>)
    ensures
        final(models).deep_view() == dedup_spec(old(models).deep_view()),
{
    let ghost orig: Seq<ClassView> = models.deep_view();
    let mut out: Vec<PyClass> = Vec::new();
    let mut i: usize = 0;
    let n = models.len();
    proof {
        assert(orig.skip(0) =~= orig);
        assert(out.deep_view().map(|k: int, c: ClassView| c.name) =~= Seq::<Seq<char>>::empty());
        assert(class_names(out.deep_view()) =~= Set::<Seq<char>>::empty());
        assert(out.deep_view() + dedup_rec(orig, class_names(out.deep_view())) =~= dedup_rec(
            orig,
            class_names(out.deep_view()),
        ));
    }
    while i < n
        invariant
            n == models.len(),
            models.deep_view() == orig,
            i <= n,
            dedup_spec(orig) == out.deep_view() + dedup_rec(
                orig.skip(i as int),
                class_names(out.deep_view()),
            ),
        decreases n - i,
    {
        let ghost seen = class_names(out.deep_view());
        let ghost rest = orig.skip(i as int);
        proof {
            assert(rest[0] == orig[i as int]);
            assert(rest.drop_first() =~= orig.skip(i as int + 1));
        }
        let dup = contains_name(&out, &models[i].name);
        if !dup {
            let ghost prev = out.deep_view();
            let item = PyClass {
                name: models[i].name.clone(),
                parents: models[i].parents.clone(),
                fields: clone_params(&models[i].fields),
                methods: clone_methods(&models[i].methods),
            };
            assert(item.deep_view() == orig[i as int]);
            out.push(item);
            proof {
                assert(out.deep_view() =~= prev + seq![orig[i as int]]);
                assert(class_names(out.deep_view()) =~= seen.insert(orig[i as int].name)) by {
                    let m = out.deep_view().map(|k: int, c: ClassView| c.name);
                    let p = prev.map(|k: int, c: ClassView| c.name);
                    assert(m =~= p + seq![orig[i as int].name]);
                    assert forall|x: Seq<char>| m.to_set().contains(x) implies seen.insert(
                        orig[i as int].name,
                    ).contains(x) by {
                        let j = choose|j: int| 0 <= j < m.len() && m[j] == x;
                        if j < p.len() {
                            assert(p[j] == x);
                        }
                    }
                    assert forall|x: Seq<char>| seen.insert(orig[i as int].name).contains(x)
                        implies m.to_set().contains(x) by {
                        if seen.contains(x) {
                            let j = choose|j: int| 0 <= j < p.len() && p[j] == x;
                            assert(m[j] == x);
                        } else {
                            assert(m[m.len() - 1] == x);
                        }
                    }
                }
                assert(out.deep_view() + dedup_rec(rest.drop_first(), class_names(out.deep_view()))
                    =~= prev + (seq![rest[0]] + dedup_rec(
                    rest.drop_first(),
                    seen.insert(rest[0].name),
                )));
            }
        }
        i += 1;
    }
    proof {
        assert(orig.skip(n as int) =~= Seq::empty());
        assert(dedup_spec(orig) =~= out.deep_view());
    }
    *models = out;
}

/// Field-for-field copy with a known image.
fn clone_params(v: &Vec<PyParam>) -> (r: Vec<PyParam>)
    ensures
        r.deep_view() == v.deep_view(),
{
    let mut r: Vec<PyParam> = Vec::new();
    let mut i: usize = 0;
    let n = v.len();
    while i < n
        invariant
            n == v.len(),
            i <= n,
            r.deep_view() == v.deep_view().take(i as int),
        decreases n - i,
    {
        let ghost prev = r.deep_view();
        r.push(
            PyParam {
                name: v[i].name.clone(),
                dtype: clone_opt(&v[i].dtype),
                default: clone_opt(&v[i].default),
            },
        );
        assert(r.deep_view() =~= v.deep_view().take(i as int + 1)) by {
            assert(r.deep_view() =~= prev + seq![v.deep_view()[i as int]]);
        }
        i += 1;
    }
    assert(v.deep_view().take(n as int) =~= v.deep_view());
    r
}

/// Method-for-method copy with a known image.
fn clone_methods(v: &Vec<PyMethod>) -> (r: Vec<PyMethod>)
    ensures
        r.deep_view() == v.deep_view(),
{
    let mut r: Vec<PyMethod> = Vec::new();
    let mut i: usize = 0;
    let n = v.len();
    while i < n
        invariant
            n == v.len(),
            i <= n,
            r.deep_view() == v.deep_view().take(i as int),
        decreases n - i,
    {
        let ghost prev = r.deep_view();
        r.push(
            PyMethod {
                name: v[i].name.clone(),
                args: clone_params(&v[i].args),
                returns: clone_opt(&v[i].returns),
                access: v[i].access,
            },
        );
        assert(r.deep_view() =~= v.deep_view().take(i as int + 1)) by {
            assert(r.deep_view() =~= prev + seq![v.deep_view()[i as int]]);
        }
        i += 1;
    }
    assert(v.deep_view().take(n as int) =~= v.deep_view());
    r
}

fn clone_opt(o: &Option<String>) -> (r: Option<String>)
    ensures
        r.deep_view() == o.deep_view(),
{
    match o {
        Some(s) => Some(s.clone()),
        None => None,
    }
}

// ---------------------------------------------------------------------------
// Base-model recognition
// ---------------------------------------------------------------------------

/// The two spellings under which the shared model base class is referenced.
pub open spec fn is_base_model_spec(name: Seq<char>) -> bool {
    name == "pydantic.BaseModel"@ || name == "BaseModel"@
}

/// Mathematical image of a `PydanticModel`.
#[verifier::ext_equal]
pub struct PydanticView {
    pub class_name: Seq<char>,
    pub parents: Seq<Seq<char>>,
    pub fields: Seq<(Seq<char>, Seq<char>)>,
    pub methods: Seq<MethodView>,
}

/// A class restricted to the shared-base-model dialect: fields always carry
/// a type and never a default.
#[derive(Debug, Clone)]
pub struct PydanticModel {
    pub class_name: String,
    pub parents: Vec<String>,
    pub fields: Vec<(String, String)>,
    pub methods: Vec<PyMethod>,
}

impl View for PydanticModel {
    type V = PydanticView;

    open spec fn view(&self) -> PydanticView {
        PydanticView {
            class_name: self.class_name@,
            parents: self.parents.deep_view(),
            fields: self.fields.deep_view(),
            methods: self.methods.deep_view(),
        }
    }
}

impl PydanticModel {
    pub fn is_base_model(class_name: &String) -> (r: bool)
        ensures
            r == is_base_model_spec(class_name@),
    {
        text::str_eq(class_name.as_str(), "pydantic.BaseModel") || text::str_eq(
            class_name.as_str(),
            "BaseModel",
        )
    }

    /// True when some declared parent references the shared base model.
    pub fn inherits_base_model(&self) -> (r: bool)
        ensures
            r == exists|i: int|
                0 <= i < self.parents@.len() && is_base_model_spec(#[trigger] self.parents@[i]@),
    {
        let mut i: usize = 0;
        let n = self.parents.len();
        while i < n
            invariant
                n == self.parents@.len(),
                i <= n,
                forall|j: int| 0 <= j < i ==> !is_base_model_spec(#[trigger] self.parents@[j]@),
            decreases n - i,
        {
            if Self::is_base_model(&self.parents[i]) {
                return true;
            }
            i += 1;
        }
        false
    }
}

// ---------------------------------------------------------------------------
// Line classification: stateless predicates over one line of source
// ---------------------------------------------------------------------------

pub open spec fn is_import_spec(s: Seq<char>) -> bool {
    text::starts_with_spec(text::trim_spec(s), "import"@) || text::starts_with_spec(
        text::trim_spec(s),
        "from"@,
    )
}

/// The line is an import statement.
pub fn is_import(s: &str) -> (r: bool)
    ensures
        r == is_import_spec(s@),
{
    let t = text::trim(s);
    text::starts_with(t, "import") || text::starts_with(t, "from")
}

pub open spec fn is_comment_spec(s: Seq<char>) -> bool {
    text::starts_with_spec(text::trim_spec(s), "#"@)
}

/// The line is a comment.
pub fn is_comment(s: &str) -> (r: bool)
    ensures
        r == is_comment_spec(s@),
{
    text::starts_with(text::trim(s), "#")
}

pub open spec fn is_decorator_spec(s: Seq<char>) -> bool {
    text::starts_with_spec(text::trim_spec(s), "@"@)
}

/// The line is a decorator.
pub fn is_decorator(s: &str) -> (r: bool)
    ensures
        r == is_decorator_spec(s@),
{
    text::starts_with(text::trim(s), "@")
}

pub open spec fn is_docstring_spec(s: Seq<char>) -> bool {
    text::starts_with_spec(text::trim_spec(s), "'''"@) || text::starts_with_spec(
        text::trim_spec(s),
        "\"\"\""@,
    )
}

/// The line opens (or wholly is) a docstring.
pub fn is_docstring(s: &str) -> (r: bool)
    ensures
        r == is_docstring_spec(s@),
{
    let t = text::trim(s);
    text::starts_with(t, DocstringMarker::SINGLE) || text::starts_with(t, DocstringMarker::DOUBLE)
}

pub open spec fn is_full_docstring_spec(s: Seq<char>) -> bool {
    let t = text::trim_spec(s);
    (text::starts_with_spec(t, "'''"@) && text::ends_with_spec(t, "'''"@) && t.len() >= 6) || (
    text::starts_with_spec(t, "\"\"\""@) && text::ends_with_spec(t, "\"\"\""@) && t.len() >= 6)
}

/// The line is a complete single-line docstring.
pub fn is_full_docstring(s: &str) -> (r: bool)
    ensures
        r == is_full_docstring_spec(s@),
{
    let t = text::trim(s);
    let n = t.unicode_len();
    (text::starts_with(t, DocstringMarker::SINGLE) && text::ends_with(t, DocstringMarker::SINGLE)
        && n >= 6) || (text::starts_with(t, DocstringMarker::DOUBLE) && text::ends_with(
        t,
        DocstringMarker::DOUBLE,
    ) && n >= 6)
}

pub open spec fn is_placeholder_spec(s: Seq<char>) -> bool {
    text::trim_spec(s) == "pass"@ || text::trim_spec(s) == "..."@
}

/// The trimmed line is exactly `pass` or `...`.
pub fn is_placeholder(s: &str) -> (r: bool)
    ensures
        r == is_placeholder_spec(s@),
{
    let t = text::trim(s);
    text::str_eq(t, Placeholder::PASS) || text::str_eq(t, Placeholder::ELLIPSIS)
}

pub open spec fn is_method_def_spec(s: Seq<char>) -> bool {
    text::first_token_spec(s) == "def"@
}

/// The first whitespace-delimited token is `def`.
pub fn is_method_def(s: &str) -> (r: bool)
    ensures
        r == is_method_def_spec(s@),
{
    text::str_eq(text::first_token(s), "def")
}

pub open spec fn is_class_def_spec(s: Seq<char>) -> bool {
    text::first_token_spec(s) == "class"@
}

/// The first whitespace-delimited token is `class`.
pub fn is_class_def(s: &str) -> (r: bool)
    ensures
        r == is_class_def_spec(s@),
{
    text::str_eq(text::first_token(s), "class")
}

/// ASCII letters and digits; enumeration members are bare names of these.
pub open spec fn is_alnum_char(c: char) -> bool {
    (48 <= c as u32 && c as u32 <= 57) || (97 <= c as u32 && c as u32 <= 122) || (65 <= c as u32
        && c as u32 <= 90)
}

fn is_alnum(c: char) -> (r: bool)
    ensures
        r == is_alnum_char(c),
{
    let u = c as u32;
    (48 <= u && u <= 57) || (97 <= u && u <= 122) || (65 <= u && u <= 90)
}

pub open spec fn is_enum_variant_spec(s: Seq<char>) -> bool {
    forall|j: int| 0 <= j < text::trim_spec(s).len() ==> is_alnum_char(#[trigger] text::trim_spec(
        s,
    )[j])
}

/// The trimmed line is made of letters and digits alone.
pub fn is_enum_variant(s: &str) -> (r: bool)
    ensures
        r == is_enum_variant_spec(s@),
{
    let t = text::trim(s);
    let n = t.unicode_len();
    let mut i: usize = 0;
    while i < n
        invariant
            n == t@.len(),
            t@ == text::trim_spec(s@),
            i <= n,
            forall|j: int| 0 <= j < i ==> is_alnum_char(#[trigger] t@[j]),
        decreases n - i,
    {
        if !is_alnum(t.get_char(i)) {
            return false;
        }
        i += 1;
    }
    true
}

/// Whole leading four-space units: the semantic nesting depth of the line.
pub open spec fn indent_count_spec(s: Seq<char>) -> nat
    decreases s.len(),
{
    if s.len() >= 4 && s[0] == ' ' && s[1] == ' ' && s[2] == ' ' && s[3] == ' ' {
        1 + indent_count_spec(s.skip(4))
    } else {
        0
    }
}

#[verifier::loop_isolation(false)]
pub fn indent_count(s: &str) -> (r: usize)
    ensures
        r as nat == indent_count_spec(s@),
{
    let n = s.unicode_len();
    let mut k: usize = 0;
    proof {
        assert(s@.skip(0) =~= s@);
    }
    while n - k >= 4 && s.get_char(k) == ' ' && s.get_char(k + 1) == ' ' && s.get_char(k + 2) == ' '
        && s.get_char(k + 3) == ' '
        invariant
            k <= n,
            k % 4 == 0,
            indent_count_spec(s@) == k / 4 + indent_count_spec(s@.skip(k as int)),
        decreases n - k,
    {
        proof {
            assert(s@.skip(k as int)[0] == s@[k as int]);
            assert(s@.skip(k as int)[1] == s@[k as int + 1]);
            assert(s@.skip(k as int)[2] == s@[k as int + 2]);
            assert(s@.skip(k as int)[3] == s@[k as int + 3]);
            assert(s@.skip(k as int).skip(4) =~= s@.skip(k as int + 4));
        }
        k += 4;
    }
    proof {
        assert(indent_count_spec(s@.skip(k as int)) == 0);
    }
    k / 4
}

pub open spec fn is_class_field_spec(s: Seq<char>) -> bool {
    !is_class_def_spec(s) && indent_count_spec(s) == 1 && (text::find_char_spec(s, '=') >= 0
        || text::find_char_spec(s, ':') >= 0 || is_enum_variant_spec(s))
}

/// A direct class member that can be read as a field: one indent unit deep
/// and carrying `=`, `:`, or a bare enumeration name.
pub fn is_class_field(s: &str) -> (r: bool)
    ensures
        r == is_class_field_spec(s@),
{
    !is_class_def(s) && indent_count(s) == 1 && (text::contains_char(s, '=') || text::contains_char(
        s,
        ':',
    ) || is_enum_variant(s))
}

// ---------------------------------------------------------------------------
// The classifiers as methods on a line
// ---------------------------------------------------------------------------

/// The line classifiers, callable method-style on a borrowed line.
pub trait PyLine {
    fn is_docstring(&self) -> bool;

    fn is_full_docstring(&self) -> bool;

    fn is_placeholder(&self) -> bool;

    fn is_decorator(&self) -> bool;

    fn is_method_def(&self) -> bool;

    fn is_class_def(&self) -> bool;

    fn is_class_field(&self) -> bool;

    fn is_import(&self) -> bool;

    fn is_comment(&self) -> bool;

    fn indent_count(&self) -> usize;

    fn starts_with_token(&self, token: &str) -> bool;

    fn is_enum_variant(&self) -> bool;
}

impl PyLine for &str {
    fn is_docstring(&self) -> (r: bool)
        ensures
            r == is_docstring_spec(self@),
    {
        is_docstring(self)
    }

    fn is_full_docstring(&self) -> (r: bool)
        ensures
            r == is_full_docstring_spec(self@),
    {
        is_full_docstring(self)
    }

    fn is_placeholder(&self) -> (r: bool)
        ensures
            r == is_placeholder_spec(self@),
    {
        is_placeholder(self)
    }

    fn is_decorator(&self) -> (r: bool)
        ensures
            r == is_decorator_spec(self@),
    {
        is_decorator(self)
    }

    fn is_method_def(&self) -> (r: bool)
        ensures
            r == is_method_def_spec(self@),
    {
        is_method_def(self)
    }

    fn is_class_def(&self) -> (r: bool)
        ensures
            r == is_class_def_spec(self@),
    {
        is_class_def(self)
    }

    fn is_class_field(&self) -> (r: bool)
        ensures
            r == is_class_field_spec(self@),
    {
        is_class_field(self)
    }

    fn is_import(&self) -> (r: bool)
        ensures
            r == is_import_spec(self@),
    {
        is_import(self)
    }

    fn is_comment(&self) -> (r: bool)
        ensures
            r == is_comment_spec(self@),
    {
        is_comment(self)
    }

    fn indent_count(&self) -> (r: usize)
        ensures
            r as nat == indent_count_spec(self@),
    {
        indent_count(self)
    }

    fn starts_with_token(&self, token: &str) -> (r: bool)
        ensures
            r == (text::first_token_spec(self@) == token@),
    {
        text::str_eq(text::first_token(self), token)
    }

    fn is_enum_variant(&self) -> (r: bool)
        ensures
            r == is_enum_variant_spec(self@),
    {
        is_enum_variant(self)
    }
}

} // verus!
