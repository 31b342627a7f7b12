use vstd::prelude::*;

use crate::consts::DocstringMarker;
use crate::models;
use crate::models::{ClassView, MethodView, ParamView, PyClass, PyParam};
use crate::scanner;
use crate::text;
use crate::text::lemma_find_char_props;

verus! {

/// A structural fault that aborts the whole transformation: a class header
/// without its terminator, an unclosed bracket, an unreadable signature.
#[derive(Debug)]
pub struct ParseError(pub String);

// ---------------------------------------------------------------------------
// Preprocessing: the lines structural parsing will see
// ---------------------------------------------------------------------------

/// Lines that survive preprocessing: not empty, and neither imports,
/// comments, complete single-line docstrings nor decorators.
pub open spec fn keep_line_spec(l: Seq<char>) -> bool {
    l.len() > 0 && !models::is_import_spec(l) && !models::is_comment_spec(l)
        && !models::is_full_docstring_spec(l) && !models::is_decorator_spec(l)
}

pub open spec fn filter_lines_spec(ls: Seq<Seq<char>>) -> Seq<Seq<char>>
    decreases ls.len(),
{
    if ls.len() == 0 {
        Seq::empty()
    } else if keep_line_spec(ls[0]) {
        seq![ls[0]] + filter_lines_spec(ls.drop_first())
    } else {
        filter_lines_spec(ls.drop_first())
    }
}

/// The split and filtered line sequence every later stage works on.
pub open spec fn preprocess_spec(src: Seq<char>) -> Seq<Seq<char>> {
    filter_lines_spec(text::split_lines_spec(src))
}

/// Split the source into lines and drop every ignorable one.
#[verifier::loop_isolation(false)]
pub fn preprocess(source: &str) -> (r: Vec<String>)
    ensures
        r.deep_view() == preprocess_spec(source@),
{
    let lines = text::split_lines(source);
    let ghost ls = lines.deep_view();
    let mut out: Vec<String> = Vec::new();
    let mut i: usize = 0;
    let n = lines.len();
    proof {
        assert(ls.skip(0) =~= ls);
        assert(out.deep_view() + filter_lines_spec(ls) =~= filter_lines_spec(ls));
    }
    while i < n
        invariant
            i <= n,
            filter_lines_spec(ls) == out.deep_view() + filter_lines_spec(ls.skip(i as int)),
        decreases n - i,
    {
        proof {
            assert(ls.skip(i as int)[0] == ls[i as int]);
            assert(ls.skip(i as int).drop_first() =~= ls.skip(i as int + 1));
        }
        let l: &str = lines[i].as_str();
        let keep = l.unicode_len() > 0 && !models::is_import(l) && !models::is_comment(l)
            && !models::is_full_docstring(l) && !models::is_decorator(l);
        if keep {
            let ghost prev = out.deep_view();
            out.push(lines[i].clone());
            proof {
                let tail_f = filter_lines_spec(ls.skip(i as int + 1));
                assert(prev + (seq![ls[i as int]] + tail_f) =~= (prev + seq![ls[i as int]])
                    + tail_f);
                assert(out.deep_view() =~= prev + seq![ls[i as int]]);
            }
        }
        i += 1;
    }
    proof {
        assert(ls.skip(n as int) =~= Seq::<Seq<char>>::empty());
        assert(out.deep_view() + filter_lines_spec(ls.skip(n as int)) =~= out.deep_view());
    }
    out
}

// ---------------------------------------------------------------------------
// Docstring and placeholder skipping
// ---------------------------------------------------------------------------

/// The line closes a docstring: it ends with either marker.
pub open spec fn ends_doc_spec(l: Seq<char>) -> bool {
    text::ends_with_spec(text::trim_spec(l), "'''"@) || text::ends_with_spec(
        text::trim_spec(l),
        "\"\"\""@,
    )
}

/// First index at or after `j` whose line closes a docstring; the length of
/// the input when none does.
pub open spec fn find_doc_close_spec(lines: Seq<Seq<char>>, j: int) -> int
    decreases lines.len() - j,
{
    if j < 0 || j >= lines.len() {
        lines.len() as int
    } else if ends_doc_spec(lines[j]) {
        j
    } else {
        find_doc_close_spec(lines, j + 1)
    }
}

pub proof fn lemma_find_doc_close_range(lines: Seq<Seq<char>>, j: int)
    requires
        0 <= j <= lines.len(),
    ensures
        j <= find_doc_close_spec(lines, j) <= lines.len(),
    decreases lines.len() - j,
{
    if j < lines.len() && !ends_doc_spec(lines[j]) {
        lemma_find_doc_close_range(lines, j + 1);
    }
}

/// Where the cursor stands after skipping a docstring that opens at `i`:
/// one past the line that closes it, or the end of input when it never
/// closes.  A line that opens no docstring is left alone.
pub open spec fn skip_docstring_spec(lines: Seq<Seq<char>>, i: int) -> int {
    if !models::is_docstring_spec(lines[i]) {
        i
    } else {
        let c = find_doc_close_spec(lines, i + 1);
        if c < lines.len() {
            c + 1
        } else {
            lines.len() as int
        }
    }
}

/// Skip a multi-line docstring: past its opening line, then forward until a
/// line ends with a docstring marker, then past that line too.
#[verifier::loop_isolation(false)]
pub fn skip_multiline_docstring(lines: &Vec<String>, curr_pos: &mut usize)
    requires
        *old(curr_pos) < lines@.len(),
    ensures
        *final(curr_pos) as int == skip_docstring_spec(lines.deep_view(), *old(curr_pos) as int),
        *old(curr_pos) <= *final(curr_pos) <= lines@.len(),
{
    let ghost ldv = lines.deep_view();
    let n = lines.len();
    if !models::is_docstring(lines[*curr_pos].as_str()) {
        return ;
    }
    let start = *curr_pos;
    let mut j = start + 1;
    while j < n && !ends_doc(lines[j].as_str())
        invariant
            start + 1 <= j <= n,
            find_doc_close_spec(ldv, start as int + 1) == find_doc_close_spec(ldv, j as int),
        decreases n - j,
    {
        j += 1;
    }
    proof {
        lemma_find_doc_close_range(ldv, start as int + 1);
    }
    if j < n {
        *curr_pos = j + 1;
    } else {
        *curr_pos = n;
    }
}

fn ends_doc(l: &str) -> (r: bool)
    ensures
        r == ends_doc_spec(l@),
{
    let t = text::trim(l);
    text::ends_with(t, DocstringMarker::SINGLE) || text::ends_with(t, DocstringMarker::DOUBLE)
}

/// Skip one `pass` or `...` line.
pub fn skip_placeholder(lines: &Vec<String>, curr_pos: &mut usize)
    requires
        *old(curr_pos) < lines@.len(),
    ensures
        *final(curr_pos) as int == if models::is_placeholder_spec(
            lines.deep_view()[*old(curr_pos) as int],
        ) {
            *old(curr_pos) + 1
        } else {
            *old(curr_pos) as int
        },
{
    let _n = lines.len();
    if models::is_placeholder(lines[*curr_pos].as_str()) {
        *curr_pos += 1;
    }
}

// ---------------------------------------------------------------------------
// Fields
// ---------------------------------------------------------------------------

/// Read one class field and advance the cursor one line.  A field has the
/// same three shapes as a parameter token: `name`, `name: type`,
/// `name = default` or `name: type = default`; missing parts stay absent.
pub fn parse_class_field(lines: &Vec<String>, curr_pos: &mut usize) -> (r: PyParam)
    requires
        *old(curr_pos) < lines@.len(),
    ensures
        r@ == scanner::parse_param_spec(lines.deep_view()[*old(curr_pos) as int]),
        *final(curr_pos) == *old(curr_pos) + 1,
{
    let _n = lines.len();
    let r = scanner::parse_param(lines[*curr_pos].as_str());
    *curr_pos += 1;
    r
}

// ---------------------------------------------------------------------------
// Class headers
// ---------------------------------------------------------------------------

/// The class name and ordered parent list of a header line.  With a `(` in
/// the token following `class`, the parents are the comma-split contents up
/// to the first `)`; without one, the name runs up to the first `:` and the
/// parent list is empty.  `None` when the terminator (or the `)`) is missing.
pub open spec fn parse_class_def_spec(l: Seq<char>) -> Option<(Seq<char>, Seq<Seq<char>>)> {
    let t = text::trim_spec(l);
    let sp = text::find_char_spec(t, ' ');
    if sp < 0 {
        None
    } else {
        let rest = t.skip(sp + 1);
        let f2 = text::find_char_spec(rest, ' ');
        let tok = if f2 < 0 {
            rest
        } else {
            rest.take(f2)
        };
        let lp = text::find_char_spec(tok, '(');
        if lp >= 0 {
            let rp = text::find_char_spec(rest, ')');
            if rp > lp {
                Some((tok.take(lp), scanner::split_string_spec(rest.subrange(lp + 1, rp), ',')))
            } else {
                None
            }
        } else {
            let cp = text::find_char_spec(tok, ':');
            if cp < 0 {
                None
            } else {
                Some((tok.take(cp), Seq::empty()))
            }
        }
    }
}

/// Parse a class header line and advance the cursor past it.
pub fn parse_class_def(lines: &Vec<String>, curr_pos: &mut usize) -> (r: Result<
    (String, Vec<String>),
    ParseError,
>)
    requires
        *old(curr_pos) < lines@.len(),
    ensures
        match parse_class_def_spec(lines.deep_view()[*old(curr_pos) as int]) {
            Some((nm, ps)) => r matches Ok(v) && v.0@ == nm && v.1.deep_view() == ps
                && *final(curr_pos) == *old(curr_pos) + 1,
            None => r is Err,
        },
{
    let _n = lines.len();
    let line: &str = lines[*curr_pos].as_str();
    let t = text::trim(line);
    let tn = t.unicode_len();
    let sp = match text::find_char(t, ' ') {
        Some(sp) => sp,
        None => {
            return Err(
                ParseError(String::from_str("failed to identify the class name terminator (:)")),
            );
        },
    };
    proof {
        lemma_find_char_props(t@, ' ');
    }
    let rest: &str = t.substring_char(sp + 1, tn);
    proof {
        assert(rest@ == t@.skip(sp as int + 1));
    }
    let rn = rest.unicode_len();
    let tok: &str = match text::find_char(rest, ' ') {
        Some(f2) => {
            proof {
                lemma_find_char_props(rest@, ' ');
            }
            rest.substring_char(0, f2)
        },
        None => rest,
    };
    match text::find_char(tok, '(') {
        Some(lp) => {
            proof {
                lemma_find_char_props(tok@, '(');
            }
            match text::find_char(rest, ')') {
                Some(rp) if rp > lp => {
                    proof {
                        lemma_find_char_props(rest@, ')');
                    }
                    let inner: &str = rest.substring_char(lp + 1, rp);
                    let parents = scanner::split_string(inner, ',');
                    let name = tok.substring_char(0, lp).to_owned();
                    *curr_pos += 1;
                    Ok((name, parents))
                },
                _ => Err(
                    ParseError(
                        String::from_str("failed to find the closing ) of the parent list"),
                    ),
                ),
            }
        },
        None => {
            match text::find_char(tok, ':') {
                Some(cp) => {
                    proof {
                        lemma_find_char_props(tok@, ':');
                    }
                    let name = tok.substring_char(0, cp).to_owned();
                    let parents: Vec<String> = Vec::new();
                    *curr_pos += 1;
                    proof {
                        assert(parents.deep_view() =~= Seq::<Seq<char>>::empty());
                    }
                    Ok((name, parents))
                },
                None => Err(
                    ParseError(
                        String::from_str("failed to identify the class name terminator (:)"),
                    ),
                ),
            }
        },
    }
}

// ---------------------------------------------------------------------------
// Methods
// ---------------------------------------------------------------------------

/// Parse one method signature inside a class body, mapping a scan fault to
/// the parser's error type.
pub fn parse_class_method(lines: &Vec<String>, curr_pos: &mut usize) -> (r: Result<
    crate::models::PyMethod,
    ParseError,
>)
    requires
        *old(curr_pos) < lines@.len(),
    ensures
        match scanner::scan_method_spec(lines.deep_view(), *old(curr_pos) as int) {
            Some((mv, e)) => r matches Ok(m) && m@ == mv && *final(curr_pos) as int == e && e
                <= lines@.len() && e > *old(curr_pos),
            None => r is Err,
        },
{
    match scanner::scan_method(lines, curr_pos) {
        Ok(m) => Ok(m),
        Err(e) => Err(ParseError(e.0)),
    }
}

// ---------------------------------------------------------------------------
// Class bodies
// ---------------------------------------------------------------------------

/// The cursor after one step that claims to land on `j`: it always moves at
/// least one line forward and never past the end of input.
pub open spec fn step_to(i: int, j: int, n: int) -> int {
    let a = if j > i {
        j
    } else {
        i + 1
    };
    if a > n {
        n
    } else {
        a
    }
}

/// The body scan from line `i`: fields and methods accumulate in source
/// order; the scan stops at the first module-level line or at the end of
/// input; `None` when a method signature cannot be scanned.
pub open spec fn scan_body_spec(
    lines: Seq<Seq<char>>,
    i: int,
    fields: Seq<ParamView>,
    methods: Seq<MethodView>,
) -> Option<(Seq<ParamView>, Seq<MethodView>, int)>
    decreases lines.len() - i,
{
    if i < 0 || i >= lines.len() {
        Some((fields, methods, lines.len() as int))
    } else {
        let l = lines[i];
        let d = models::indent_count_spec(l);
        if d == 0 {
            Some((fields, methods, i))
        } else if d > 1 {
            scan_body_spec(lines, i + 1, fields, methods)
        } else if models::is_method_def_spec(l) {
            match scanner::scan_method_spec(lines, i) {
                None => None,
                Some((m, j)) => scan_body_spec(
                    lines,
                    step_to(i, j, lines.len() as int),
                    fields,
                    methods.push(m),
                ),
            }
        } else if models::is_docstring_spec(l) {
            scan_body_spec(
                lines,
                step_to(i, skip_docstring_spec(lines, i), lines.len() as int),
                fields,
                methods,
            )
        } else if models::is_placeholder_spec(l) {
            scan_body_spec(lines, i + 1, fields, methods)
        } else if models::is_class_field_spec(l) {
            scan_body_spec(lines, i + 1, fields.push(scanner::parse_param_spec(l)), methods)
        } else {
            scan_body_spec(lines, i + 1, fields, methods)
        }
    }
}

/// The scan never ends before the line it started on.
pub proof fn lemma_scan_body_end(
    lines: Seq<Seq<char>>,
    i: int,
    fields: Seq<ParamView>,
    methods: Seq<MethodView>,
)
    requires
        0 <= i <= lines.len(),
    ensures
        match scan_body_spec(lines, i, fields, methods) {
            Some((f, m, j)) => i <= j <= lines.len(),
            None => true,
        },
    decreases lines.len() - i,
{
    if i < lines.len() {
        let l = lines[i];
        let d = models::indent_count_spec(l);
        if d == 0 {
        } else if d > 1 {
            lemma_scan_body_end(lines, i + 1, fields, methods);
        } else if models::is_method_def_spec(l) {
            match scanner::scan_method_spec(lines, i) {
                None => {},
                Some((m, j)) => {
                    lemma_scan_body_end(
                        lines,
                        step_to(i, j, lines.len() as int),
                        fields,
                        methods.push(m),
                    );
                },
            }
        } else if models::is_docstring_spec(l) {
            lemma_scan_body_end(
                lines,
                step_to(i, skip_docstring_spec(lines, i), lines.len() as int),
                fields,
                methods,
            );
        } else if models::is_placeholder_spec(l) {
            lemma_scan_body_end(lines, i + 1, fields, methods);
        } else if models::is_class_field_spec(l) {
            lemma_scan_body_end(lines, i + 1, fields.push(scanner::parse_param_spec(l)), methods);
        } else {
            lemma_scan_body_end(lines, i + 1, fields, methods);
        }
    }
}

/// One whole class: its header line, then its indented body.
pub open spec fn parse_class_spec(lines: Seq<Seq<char>>, i: int) -> Option<(ClassView, int)> {
    match parse_class_def_spec(lines[i]) {
        None => None,
        Some((nm, ps)) => match scan_body_spec(lines, i + 1, Seq::empty(), Seq::empty()) {
            None => None,
            Some((fs, ms, j)) => Some(
                (ClassView { name: nm, parents: ps, fields: fs, methods: ms }, j),
            ),
        },
    }
}

/// Parse the class whose header stands at the cursor.  On success the
/// cursor rests on the first line after the class body (a module-level
/// line, possibly the next class header, or the end of input).
#[verifier::loop_isolation(false)]
pub fn parse_class(lines: &Vec<String>, curr_pos: &mut usize) -> (r: Result<PyClass, ParseError>)
    requires
        *old(curr_pos) < lines@.len(),
    ensures
        match parse_class_spec(lines.deep_view(), *old(curr_pos) as int) {
            Some((cv, j)) => r matches Ok(c) && c@ == cv && *final(curr_pos) as int == j && *old(
                curr_pos,
            ) < j <= lines@.len(),
            None => r is Err,
        },
{
    let ghost ldv = lines.deep_view();
    let ghost start = *curr_pos as int;
    let n = lines.len();
    let (name, parents) = match parse_class_def(lines, curr_pos) {
        Ok(v) => v,
        Err(e) => {
            return Err(e);
        },
    };
    let mut fields: Vec<PyParam> = Vec::new();
    let mut methods: Vec<crate::models::PyMethod> = Vec::new();
    proof {
        lemma_scan_body_end(ldv, start + 1, Seq::empty(), Seq::empty());
        assert(fields.deep_view() =~= Seq::<ParamView>::empty());
        assert(methods.deep_view() =~= Seq::<MethodView>::empty());
    }
    while *curr_pos < n
        invariant
            start + 1 <= *curr_pos <= n,
            scan_body_spec(ldv, start + 1, Seq::empty(), Seq::empty()) == scan_body_spec(
                ldv,
                *curr_pos as int,
                fields.deep_view(),
                methods.deep_view(),
            ),
        decreases n - *curr_pos,
    {
        let l: &str = lines[*curr_pos].as_str();
        let d = models::indent_count(l);
        if d == 0 {
            break ;
        } else if d > 1 {
            *curr_pos += 1;
        } else if models::is_method_def(l) {
            let ghost before = *curr_pos as int;
            match parse_class_method(lines, curr_pos) {
                Ok(m) => {
                    let ghost prev = methods.deep_view();
                    methods.push(m);
                    proof {
                        let (mv, j) = scanner::scan_method_spec(ldv, before)->Some_0;
                        assert(methods.deep_view() =~= prev.push(mv));
                        assert(step_to(before, j, n as int) == j);
                    }
                },
                Err(e) => {
                    return Err(e);
                },
            }
        } else if models::is_docstring(l) {
            let ghost before = *curr_pos as int;
            skip_multiline_docstring(lines, curr_pos);
            proof {
                lemma_find_doc_close_range(ldv, before + 1);
                assert(step_to(before, skip_docstring_spec(ldv, before), n as int) == *curr_pos);
            }
        } else if models::is_placeholder(l) {
            skip_placeholder(lines, curr_pos);
        } else if models::is_class_field(l) {
            let ghost prev = fields.deep_view();
            let f = parse_class_field(lines, curr_pos);
            fields.push(f);
            proof {
                assert(fields.deep_view() =~= prev.push(
                    scanner::parse_param_spec(ldv[*curr_pos as int - 1]),
                ));
            }
        } else {
            *curr_pos += 1;
        }
    }
    let c = PyClass { name, parents, fields, methods };
    proof {
        let (cv, j) = parse_class_spec(ldv, start)->Some_0;
        assert(c@ =~= cv);
    }
    Ok(c)
}

// ---------------------------------------------------------------------------
// The module scan
// ---------------------------------------------------------------------------

/// The module-level scan: skip docstrings and loose statements, parse each
/// depth-zero class header, and collect the classes in source order.
pub open spec fn parse_all_spec(lines: Seq<Seq<char>>, i: int, acc: Seq<ClassView>) -> Option<
    Seq<ClassView>,
>
    decreases lines.len() - i,
{
    if i < 0 || i >= lines.len() {
        Some(acc)
    } else if models::is_docstring_spec(lines[i]) {
        parse_all_spec(lines, step_to(i, skip_docstring_spec(lines, i), lines.len() as int), acc)
    } else if models::is_class_def_spec(lines[i]) && models::indent_count_spec(lines[i]) == 0 {
        match parse_class_spec(lines, i) {
            None => None,
            Some((c, j)) => parse_all_spec(lines, step_to(i, j, lines.len() as int), acc.push(c)),
        }
    } else {
        parse_all_spec(lines, i + 1, acc)
    }
}

/// What `parse` returns: the preprocessed source scanned for classes, then
/// deduplicated so the earliest definition of each name wins.
pub open spec fn parse_spec(src: Seq<char>) -> Option<Seq<ClassView>> {
    match parse_all_spec(preprocess_spec(src), 0, Seq::empty()) {
        None => None,
        Some(cs) => Some(models::dedup_spec(cs)),
    }
}

/// Parse a whole source text into its ordered, deduplicated class list.
/// Fails if and only if some class is structurally broken: a header without
/// its terminator, an unclosed bracket, or an unreadable method signature.
#[verifier::loop_isolation(false)]
pub fn parse(source: String) -> (r: Result<Vec<PyClass>, ParseError>)
    ensures
        match parse_spec(source@) {
            Some(cs) => r matches Ok(v) && v.deep_view() == cs,
            None => r is Err,
        },
{
    let lines = preprocess(source.as_str());
    let ghost ldv = lines.deep_view();
    let mut models_out: Vec<PyClass> = Vec::new();
    let mut i: usize = 0;
    let n = lines.len();
    proof {
        assert(models_out.deep_view() =~= Seq::<ClassView>::empty());
    }
    while i < n
        invariant
            i <= n,
            parse_all_spec(ldv, 0, Seq::empty()) == parse_all_spec(
                ldv,
                i as int,
                models_out.deep_view(),
            ),
        decreases n - i,
    {
        let l: &str = lines[i].as_str();
        if models::is_docstring(l) {
            let ghost before = i as int;
            let mut cursor = i;
            skip_multiline_docstring(&lines, &mut cursor);
            proof {
                lemma_find_doc_close_range(ldv, before + 1);
                assert(step_to(before, skip_docstring_spec(ldv, before), n as int)
                    == cursor as int);
            }
            i = cursor;
        } else if models::is_class_def(l) && models::indent_count(l) == 0 {
            let ghost before = i as int;
            let mut cursor = i;
            match parse_class(&lines, &mut cursor) {
                Ok(c) => {
                    let ghost prev = models_out.deep_view();
                    models_out.push(c);
                    proof {
                        let (cv, j) = parse_class_spec(ldv, before)->Some_0;
                        assert(models_out.deep_view() =~= prev.push(cv));
                        assert(step_to(before, j, n as int) == cursor as int);
                    }
                },
                Err(e) => {
                    return Err(e);
                },
            }
            i = cursor;
        } else {
            i += 1;
        }
    }
    models::remove_dups(&mut models_out);
    Ok(models_out)
}

// ---------------------------------------------------------------------------
// What holds of everything the parser produces
// ---------------------------------------------------------------------------

/// Every method in the list derives its access from its own name: a leading
/// underscore means private, anything else public.
pub open spec fn methods_access_derived(ms: Seq<MethodView>) -> bool {
    forall|k: int|
        0 <= k < ms.len() ==> (#[trigger] ms[k]).access == scanner::access_of_spec(ms[k].name)
}

/// Every class in the list carries only methods with derived access.
pub open spec fn classes_access_derived(cs: Seq<ClassView>) -> bool {
    forall|k: int| 0 <= k < cs.len() ==> methods_access_derived((#[trigger] cs[k]).methods)
}

proof fn lemma_scan_body_access(
    lines: Seq<Seq<char>>,
    i: int,
    fields: Seq<ParamView>,
    methods: Seq<MethodView>,
)
    requires
        methods_access_derived(methods),
    ensures
        match scan_body_spec(lines, i, fields, methods) {
            Some((f, m, j)) => methods_access_derived(m),
            None => true,
        },
    decreases lines.len() - i,
{
    if i < 0 || i >= lines.len() {
    } else {
        let l = lines[i];
        let d = models::indent_count_spec(l);
        if d == 0 {
        } else if d > 1 {
            lemma_scan_body_access(lines, i + 1, fields, methods);
        } else if models::is_method_def_spec(l) {
            match scanner::scan_method_spec(lines, i) {
                None => {},
                Some((m, j)) => {
                    let ms2 = methods.push(m);
                    assert(m.access == scanner::access_of_spec(m.name));
                    assert forall|k: int| 0 <= k < ms2.len() implies (#[trigger] ms2[k]).access
                        == scanner::access_of_spec(ms2[k].name) by {
                        if k < methods.len() {
                            assert(ms2[k] == methods[k]);
                        }
                    }
                    lemma_scan_body_access(lines, step_to(i, j, lines.len() as int), fields, ms2);
                },
            }
        } else if models::is_docstring_spec(l) {
            lemma_scan_body_access(
                lines,
                step_to(i, skip_docstring_spec(lines, i), lines.len() as int),
                fields,
                methods,
            );
        } else if models::is_placeholder_spec(l) {
            lemma_scan_body_access(lines, i + 1, fields, methods);
        } else if models::is_class_field_spec(l) {
            lemma_scan_body_access(
                lines,
                i + 1,
                fields.push(scanner::parse_param_spec(l)),
                methods,
            );
        } else {
            lemma_scan_body_access(lines, i + 1, fields, methods);
        }
    }
}

proof fn lemma_parse_all_access(lines: Seq<Seq<char>>, i: int, acc: Seq<ClassView>)
    requires
        classes_access_derived(acc),
    ensures
        match parse_all_spec(lines, i, acc) {
            Some(cs) => classes_access_derived(cs),
            None => true,
        },
    decreases lines.len() - i,
{
    if i < 0 || i >= lines.len() {
    } else if models::is_docstring_spec(lines[i]) {
        lemma_parse_all_access(
            lines,
            step_to(i, skip_docstring_spec(lines, i), lines.len() as int),
            acc,
        );
    } else if models::is_class_def_spec(lines[i]) && models::indent_count_spec(lines[i]) == 0 {
        match parse_class_spec(lines, i) {
            None => {},
            Some((c, j)) => {
                assert(methods_access_derived(Seq::<MethodView>::empty()));
                lemma_scan_body_access(lines, i + 1, Seq::empty(), Seq::empty());
                let acc2 = acc.push(c);
                assert forall|k: int| 0 <= k < acc2.len() implies methods_access_derived(
                    (#[trigger] acc2[k]).methods,
                ) by {
                    if k < acc.len() {
                        assert(acc2[k] == acc[k]);
                    } else {
                        assert(acc2[k] == c);
                    }
                }
                lemma_parse_all_access(lines, step_to(i, j, lines.len() as int), acc2);
            },
        }
    } else {
        lemma_parse_all_access(lines, i + 1, acc);
    }
}

/// Access is never stored state that can drift: whatever `parse` returns,
/// every method's access is the pure function of its name.
pub proof fn lemma_parse_access_derived(src: Seq<char>)
    ensures
        match parse_spec(src) {
            Some(cs) => classes_access_derived(cs),
            None => true,
        },
{
    let lines = preprocess_spec(src);
    assert(classes_access_derived(Seq::<ClassView>::empty()));
    lemma_parse_all_access(lines, 0, Seq::empty());
    match parse_all_spec(lines, 0, Seq::empty()) {
        None => {},
        Some(cs) => {
            let d = models::dedup_spec(cs);
            assert forall|k: int| 0 <= k < d.len() implies methods_access_derived(
                (#[trigger] d[k]).methods,
            ) by {
                models::lemma_dedup_first_wins(cs, k);
                let i = choose|i: int|
                    0 <= i < cs.len() && cs[i] == d[k] && forall|j: int|
                        0 <= j < i ==> (#[trigger] cs[j]).name != d[k].name;
                assert(methods_access_derived(cs[i].methods));
            }
        },
    }
}

} // verus!
