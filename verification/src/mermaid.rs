use vstd::prelude::*;

use crate::models;
use crate::models::{ClassView, MethodView, ParamView, PyClass};
use crate::text;

verus! {

/// Rendering takes already well-formed class models and cannot fail; the
/// type remains as the renderer's error channel.
#[derive(Debug)]
pub struct MermaidError(pub String);

// ---------------------------------------------------------------------------
// One line of output at a time
// ---------------------------------------------------------------------------

/// A field line: `+name type` when a type is present, else `+name = default`
/// when a default is present, else the bare `+name`; two indent units deep.
pub open spec fn render_field_line(f: ParamView) -> Seq<char> {
    match (f.dtype, f.default) {
        (Some(t), _) => "        +"@ + f.name + " "@ + t,
        (None, Some(d)) => "        +"@ + f.name + " = "@ + d,
        (None, None) => "        +"@ + f.name,
    }
}

/// A parameter inside a method line: `type name` when the type is known,
/// else just the name.
pub open spec fn render_arg(a: ParamView) -> Seq<char> {
    match a.dtype {
        Some(t) => t + " "@ + a.name,
        None => a.name,
    }
}

/// The comma-joined parameter list.
pub open spec fn join_args(args: Seq<ParamView>) -> Seq<char>
    decreases args.len(),
{
    if args.len() == 0 {
        Seq::empty()
    } else if args.len() == 1 {
        render_arg(args[0])
    } else {
        render_arg(args[0]) + ", "@ + join_args(args.drop_first())
    }
}

pub proof fn lemma_join_args_snoc(args: Seq<ParamView>, x: ParamView)
    ensures
        join_args(args.push(x)) == if args.len() == 0 {
            render_arg(x)
        } else {
            join_args(args) + ", "@ + render_arg(x)
        },
    decreases args.len(),
{
    if args.len() == 0 {
        assert(args.push(x)[0] == x);
    } else {
        assert(args.push(x).drop_first() =~= args.drop_first().push(x));
        assert(args.push(x)[0] == args[0]);
        lemma_join_args_snoc(args.drop_first(), x);
        if args.len() == 1 {
            assert(args.drop_first() =~= Seq::<ParamView>::empty());
        } else {
            assert((render_arg(args[0]) + ", "@ + join_args(args.drop_first())) + ", "@
                + render_arg(x) =~= render_arg(args[0]) + ", "@ + (join_args(args.drop_first())
                + ", "@ + render_arg(x)));
        }
    }
}

/// A method line: the access glyph (`+` public, `-` private) before the
/// name, the joined parameter list in parentheses, and, when present, one
/// space and the return type.
pub open spec fn render_method_line(m: MethodView) -> Seq<char> {
    (if m.access == models::PyMethodAccess::Private {
        "        -"@
    } else {
        "        +"@
    }) + m.name + "("@ + join_args(m.args) + ")"@ + (match m.returns {
        Some(rt) => " "@ + rt,
        None => Seq::<char>::empty(),
    })
}

/// A relationship line, one per declared parent: `` `Parent` <|-- Name ``.
/// The backticks keep dotted parent names one diagram node.
pub open spec fn render_parent_line(parent: Seq<char>, name: Seq<char>) -> Seq<char> {
    "    `"@ + parent + "` <|-- "@ + name
}

/// All relationship lines of one class, in the order of its parent list; a
/// class with an empty parent list produces none.
pub open spec fn relationship_lines_spec(c: ClassView) -> Seq<Seq<char>> {
    c.parents.map(|i: int, p: Seq<char>| render_parent_line(p, c.name))
}

/// No-parent case: a class with an empty parent list produces zero
/// relationship lines.
pub proof fn lemma_no_parent_no_relationships(c: ClassView)
    requires
        c.parents.len() == 0,
    ensures
        relationship_lines_spec(c).len() == 0,
{
}

/// For any source the parser accepts, every method of every parsed class
/// renders with `-` right after the indent exactly when its name starts
/// with an underscore, and with `+` otherwise.
pub proof fn lemma_parsed_method_glyph(src: Seq<char>, ci: int, mi: int)
    requires
        crate::parser::parse_spec(src) is Some,
        0 <= ci < crate::parser::parse_spec(src)->Some_0.len(),
        0 <= mi < crate::parser::parse_spec(src)->Some_0[ci].methods.len(),
    ensures
        ({
            let m = crate::parser::parse_spec(src)->Some_0[ci].methods[mi];
            render_method_line(m).len() > 8 && render_method_line(m)[8] == if m.name.len() > 0
                && m.name[0] == '_' {
                '-'
            } else {
                '+'
            }
        }),
{
    crate::parser::lemma_parse_access_derived(src);
    let m = crate::parser::parse_spec(src)->Some_0[ci].methods[mi];
    assert(m.access == crate::scanner::access_of_spec(m.name));
    lemma_access_glyph(m);
}

// ---------------------------------------------------------------------------
// Blocks of lines
// ---------------------------------------------------------------------------

/// Every field of the model, one line each, in declaration order.
pub open spec fn make_class_fields_spec(fs: Seq<ParamView>) -> Seq<Seq<char>> {
    fs.map(|i: int, f: ParamView| render_field_line(f))
}

/// The methods that a diagram shows: dunder methods are dropped, the rest
/// keep their order.
pub open spec fn non_dunder(ms: Seq<MethodView>) -> Seq<MethodView>
    decreases ms.len(),
{
    if ms.len() == 0 {
        Seq::empty()
    } else if models::is_dunder_spec(ms[0].name) {
        non_dunder(ms.drop_first())
    } else {
        seq![ms[0]] + non_dunder(ms.drop_first())
    }
}

/// The method lines of one class followed by the block's closing brace.
pub open spec fn make_class_methods_spec(ms: Seq<MethodView>) -> Seq<Seq<char>> {
    non_dunder(ms).map(|i: int, m: MethodView| render_method_line(m)) + seq!["    }"@]
}

/// Order preservation (fields): every field of the model renders, one line
/// each, in declaration order.
pub proof fn lemma_field_order(fs: Seq<ParamView>)
    ensures
        make_class_fields_spec(fs).len() == fs.len(),
        forall|i: int|
            0 <= i < fs.len() ==> make_class_fields_spec(fs)[i] == render_field_line(fs[i]),
{
}

/// Order preservation (methods): the shown methods of two adjoined method
/// lists are those of the first, in order, followed by those of the second.
pub proof fn lemma_non_dunder_concat(a: Seq<MethodView>, b: Seq<MethodView>)
    ensures
        non_dunder(a + b) == non_dunder(a) + non_dunder(b),
    decreases a.len(),
{
    if a.len() == 0 {
        assert(a + b =~= b);
        assert(non_dunder(a) + non_dunder(b) =~= non_dunder(b));
    } else {
        assert((a + b)[0] == a[0]);
        assert((a + b).drop_first() =~= a.drop_first() + b);
        lemma_non_dunder_concat(a.drop_first(), b);
        if !models::is_dunder_spec(a[0].name) {
            assert(seq![a[0]] + (non_dunder(a.drop_first()) + non_dunder(b)) =~= (seq![a[0]]
                + non_dunder(a.drop_first())) + non_dunder(b));
        }
    }
}

/// Dunder exclusion: a dunder method contributes no line; every other
/// method contributes exactly its own.
pub proof fn lemma_dunder_excluded(m: MethodView)
    ensures
        models::is_dunder_spec(m.name) ==> non_dunder(seq![m]) == Seq::<MethodView>::empty(),
        !models::is_dunder_spec(m.name) ==> non_dunder(seq![m]) == seq![m],
{
    assert(seq![m].len() == 1);
    assert(seq![m][0] == m);
    assert(seq![m].drop_first() =~= Seq::<MethodView>::empty());
    assert(non_dunder(Seq::<MethodView>::empty()) =~= Seq::<MethodView>::empty());
    assert(non_dunder(seq![m].drop_first()) =~= Seq::<MethodView>::empty());
    if !models::is_dunder_spec(m.name) {
        assert(seq![m] + Seq::<MethodView>::empty() =~= seq![m]);
    }
}

/// Order preservation, sharply: every non-dunder method is shown, and it
/// stands exactly at the position given by the number of methods shown
/// before it in declaration order.
pub proof fn lemma_non_dunder_position(ms: Seq<MethodView>, i: int)
    requires
        0 <= i < ms.len(),
        !models::is_dunder_spec(ms[i].name),
    ensures
        ({
            let p = non_dunder(ms.take(i)).len() as int;
            p < non_dunder(ms).len() && non_dunder(ms)[p] == ms[i]
        }),
{
    let head = ms.take(i);
    let tail = seq![ms[i]] + ms.skip(i + 1);
    assert(ms =~= head + tail);
    lemma_non_dunder_concat(head, tail);
    lemma_non_dunder_concat(seq![ms[i]], ms.skip(i + 1));
    lemma_dunder_excluded(ms[i]);
    let p = non_dunder(head).len() as int;
    assert(non_dunder(ms) == non_dunder(head) + (seq![ms[i]] + non_dunder(ms.skip(i + 1))));
    assert(non_dunder(ms)[p] == (seq![ms[i]] + non_dunder(ms.skip(i + 1)))[0]);
}

/// No rendered method line comes from a dunder method.
pub proof fn lemma_methods_all_non_dunder(ms: Seq<MethodView>)
    ensures
        forall|k: int|
            0 <= k < non_dunder(ms).len() ==> !models::is_dunder_spec(
                #[trigger] non_dunder(ms)[k].name,
            ),
    decreases ms.len(),
{
    if ms.len() > 0 {
        lemma_methods_all_non_dunder(ms.drop_first());
        if !models::is_dunder_spec(ms[0].name) {
            assert forall|k: int| 0 <= k < non_dunder(ms).len() implies !models::is_dunder_spec(
                non_dunder(ms)[k].name,
            ) by {
                if k > 0 {
                    assert(non_dunder(ms)[k] == non_dunder(ms.drop_first())[k - 1]);
                }
            }
        }
    }
}

/// Access glyph: right after the indent, a method line carries `-` exactly
/// when the method's name starts with an underscore, `+` otherwise —
/// provided access was derived from the name, as the parser derives it.
pub proof fn lemma_access_glyph(m: MethodView)
    requires
        m.access == crate::scanner::access_of_spec(m.name),
    ensures
        render_method_line(m).len() > 8,
        render_method_line(m)[8] == if m.name.len() > 0 && m.name[0] == '_' {
            '-'
        } else {
            '+'
        },
{
    reveal_strlit("        -");
    reveal_strlit("        +");
    let line = render_method_line(m);
    if m.access == models::PyMethodAccess::Private {
        assert(("        -"@).len() == 9);
        assert(("        -"@)[8] == '-');
        assert(line[8] == ("        -"@)[8]);
    } else {
        assert(("        +"@).len() == 9);
        assert(("        +"@)[8] == '+');
        assert(line[8] == ("        +"@)[8]);
    }
}

/// The lines of one class: the block opener, its fields, its methods with
/// the closing brace, then its relationship lines.
pub open spec fn render_class_lines(c: ClassView) -> Seq<Seq<char>> {
    seq!["    class "@ + c.name + "{"@] + make_class_fields_spec(c.fields)
        + make_class_methods_spec(c.methods) + relationship_lines_spec(c)
}

pub open spec fn render_all_rec(cs: Seq<ClassView>) -> Seq<Seq<char>>
    decreases cs.len(),
{
    if cs.len() == 0 {
        Seq::empty()
    } else {
        render_class_lines(cs[0]) + render_all_rec(cs.drop_first())
    }
}

pub proof fn lemma_render_all_snoc(cs: Seq<ClassView>, c: ClassView)
    ensures
        render_all_rec(cs.push(c)) == render_all_rec(cs) + render_class_lines(c),
    decreases cs.len(),
{
    if cs.len() == 0 {
        assert(cs.push(c)[0] == c);
        assert(cs.push(c).drop_first() =~= Seq::<ClassView>::empty());
        assert(render_all_rec(cs) + render_class_lines(c) =~= render_class_lines(c));
        assert(render_class_lines(c) + render_all_rec(Seq::<ClassView>::empty())
            =~= render_class_lines(c));
    } else {
        assert(cs.push(c).drop_first() =~= cs.drop_first().push(c));
        assert(cs.push(c)[0] == cs[0]);
        lemma_render_all_snoc(cs.drop_first(), c);
        assert((render_class_lines(cs[0]) + render_all_rec(cs.drop_first()))
            + render_class_lines(c) =~= render_class_lines(cs[0]) + (render_all_rec(
            cs.drop_first(),
        ) + render_class_lines(c)));
    }
}

/// Output lines joined with `\r\n`.
pub open spec fn join_crlf(lines: Seq<Seq<char>>) -> Seq<char>
    decreases lines.len(),
{
    if lines.len() == 0 {
        Seq::empty()
    } else if lines.len() == 1 {
        lines[0]
    } else {
        lines[0] + "\r\n"@ + join_crlf(lines.drop_first())
    }
}

pub proof fn lemma_join_crlf_snoc(lines: Seq<Seq<char>>, x: Seq<char>)
    ensures
        join_crlf(lines.push(x)) == if lines.len() == 0 {
            x
        } else {
            join_crlf(lines) + "\r\n"@ + x
        },
    decreases lines.len(),
{
    if lines.len() == 0 {
        assert(lines.push(x)[0] == x);
    } else {
        assert(lines.push(x).drop_first() =~= lines.drop_first().push(x));
        assert(lines.push(x)[0] == lines[0]);
        lemma_join_crlf_snoc(lines.drop_first(), x);
        if lines.len() == 1 {
            assert(lines.drop_first() =~= Seq::<Seq<char>>::empty());
        } else {
            assert((lines[0] + "\r\n"@ + join_crlf(lines.drop_first())) + "\r\n"@ + x =~= lines[0]
                + "\r\n"@ + (join_crlf(lines.drop_first()) + "\r\n"@ + x));
        }
    }
}

/// The whole diagram: exactly one `classDiagram` directive, then every class
/// block with its relationship lines, joined with `\r\n`.
pub open spec fn render_spec(cs: Seq<ClassView>) -> Seq<char> {
    join_crlf(seq!["classDiagram"@] + render_all_rec(cs))
}

// ---------------------------------------------------------------------------
// The executable renderer
// ---------------------------------------------------------------------------

/// The diagram builder.
pub struct ClassDiagram;

impl ClassDiagram {
    /// Render the class list as Mermaid `classDiagram` text.  Rendering
    /// well-formed models cannot fail: the result is always `Ok`.
    #[verifier::loop_isolation(false)]
    pub fn make(models_in: Vec<PyClass>) -> (r: Result<String, MermaidError>)
        ensures
            r matches Ok(out) && out@ == render_spec(models_in.deep_view()),
    {
        let ghost cvs = models_in.deep_view();
        let mut lines: Vec<String> = Vec::new();
        lines.push(String::from_str("classDiagram"));
        proof {
            assert(lines.deep_view() =~= seq!["classDiagram"@] + render_all_rec(cvs.take(0)));
        }
        let mut i: usize = 0;
        let n = models_in.len();
        while i < n
            invariant
                i <= n,
                lines.deep_view() == seq!["classDiagram"@] + render_all_rec(cvs.take(i as int)),
            decreases n - i,
        {
            let model = &models_in[i];
            let ghost prev = lines.deep_view();
            // The block opener.
            let mut opener = String::from_str("    class ");
            opener.append(model.name.as_str());
            opener.append("{");
            lines.push(opener);
            // Field lines, method lines, the closing brace.
            let mut fl = Self::make_class_fields(model);
            lines.append(&mut fl);
            let mut ml = Self::make_class_methods(model);
            lines.append(&mut ml);
            // One relationship line per declared parent.
            let mut p: usize = 0;
            let np = model.parents.len();
            let ghost mid = lines.deep_view();
            while p < np
                invariant
                    p <= np,
                    np == model.parents@.len(),
                    models_in.deep_view() == cvs,
                    i < n == models_in@.len(),
                    model == models_in[i as int],
                    lines.deep_view() == mid + relationship_lines_spec(cvs[i as int]).take(
                        p as int,
                    ),
                decreases np - p,
            {
                let ghost lprev = lines.deep_view();
                let mut rel = String::from_str("    `");
                rel.append(model.parents[p].as_str());
                rel.append("` <|-- ");
                rel.append(model.name.as_str());
                lines.push(rel);
                proof {
                    assert(rel@ == render_parent_line(
                        cvs[i as int].parents[p as int],
                        cvs[i as int].name,
                    ));
                    assert(lines.deep_view() =~= lprev.push(rel@));
                    assert(lines.deep_view() =~= mid + relationship_lines_spec(cvs[i as int]).take(
                        p as int + 1,
                    ));
                }
                p += 1;
            }
            proof {
                let c = cvs[i as int];
                assert(relationship_lines_spec(c).take(np as int) =~= relationship_lines_spec(c));
                assert(opener@ == "    class "@ + c.name + "{"@);
                assert(mid =~= prev + (seq!["    class "@ + c.name + "{"@]
                    + make_class_fields_spec(c.fields) + make_class_methods_spec(c.methods)));
                assert(lines.deep_view() =~= prev + render_class_lines(c));
                lemma_render_all_snoc(cvs.take(i as int), c);
                assert(cvs.take(i as int).push(c) =~= cvs.take(i as int + 1));
                assert(lines.deep_view() =~= seq!["classDiagram"@] + render_all_rec(
                    cvs.take(i as int + 1),
                ));
            }
            i += 1;
        }
        proof {
            assert(cvs.take(n as int) =~= cvs);
        }
        // Join everything with CRLF line breaks.
        let mut out = String::new();
        let mut k: usize = 0;
        let m = lines.len();
        proof {
            assert(lines.deep_view().take(0) =~= Seq::<Seq<char>>::empty());
        }
        while k < m
            invariant
                k <= m,
                m == lines@.len(),
                lines.deep_view() == seq!["classDiagram"@] + render_all_rec(cvs),
                out@ == join_crlf(lines.deep_view().take(k as int)),
            decreases m - k,
        {
            if k > 0 {
                out.append("\r\n");
            }
            out.append(lines[k].as_str());
            proof {
                lemma_join_crlf_snoc(lines.deep_view().take(k as int), lines.deep_view()[k as int]);
                assert(lines.deep_view().take(k as int).push(lines.deep_view()[k as int])
                    =~= lines.deep_view().take(k as int + 1));
            }
            k += 1;
        }
        proof {
            assert(lines.deep_view().take(m as int) =~= lines.deep_view());
        }
        Ok(out)
    }

    /// One line per field, two indent units deep, in declaration order.
    #[verifier::loop_isolation(false)]
    fn make_class_fields(model: &PyClass) -> (r: Vec<String>)
        ensures
            r.deep_view() == make_class_fields_spec(model@.fields),
    {
        let mut out: Vec<String> = Vec::new();
        let mut i: usize = 0;
        let n = model.fields.len();
        proof {
            assert(out.deep_view() =~= make_class_fields_spec(model@.fields).take(0));
        }
        while i < n
            invariant
                i <= n,
                n == model.fields@.len(),
                out.deep_view() == make_class_fields_spec(model@.fields).take(i as int),
            decreases n - i,
        {
            let f = &model.fields[i];
            let ghost prev = out.deep_view();
            let mut line = String::from_str("        +");
            line.append(f.name.as_str());
            match &f.dtype {
                Some(t) => {
                    line.append(" ");
                    line.append(t.as_str());
                },
                None => {
                    match &f.default {
                        Some(d) => {
                            line.append(" = ");
                            line.append(d.as_str());
                        },
                        None => {},
                    }
                },
            }
            out.push(line);
            proof {
                assert(out.deep_view() =~= prev.push(render_field_line(model@.fields[i as int])));
                assert(out.deep_view() =~= make_class_fields_spec(model@.fields).take(i as int + 1));
            }
            i += 1;
        }
        proof {
            let sp = make_class_fields_spec(model@.fields);
            assert(sp.take(n as int) =~= sp);
        }
        out
    }

    /// One line per non-dunder method, then the block's closing brace.
    #[verifier::loop_isolation(false)]
    fn make_class_methods(model: &PyClass) -> (r: Vec<String>)
        ensures
            r.deep_view() == make_class_methods_spec(model@.methods),
    {
        let ghost ms = model@.methods;
        let mut out: Vec<String> = Vec::new();
        let mut i: usize = 0;
        let n = model.methods.len();
        proof {
            assert(ms.skip(0) =~= ms);
            assert(out.deep_view() + non_dunder(ms).map(
                |k: int, m: MethodView| render_method_line(m),
            ) =~= non_dunder(ms).map(|k: int, m: MethodView| render_method_line(m)));
        }
        while i < n
            invariant
                i <= n,
                n == model.methods@.len(),
                non_dunder(ms).map(|k: int, m: MethodView| render_method_line(m)) == out.deep_view()
                    + non_dunder(ms.skip(i as int)).map(
                    |k: int, m: MethodView| render_method_line(m),
                ),
            decreases n - i,
        {
            let method = &model.methods[i];
            proof {
                assert(ms.skip(i as int)[0] == ms[i as int]);
                assert(ms.skip(i as int).drop_first() =~= ms.skip(i as int + 1));
            }
            if !method.is_dunder() {
                let ghost prev = out.deep_view();
                let mut line = if matches!(method.access, models::PyMethodAccess::Private) {
                    String::from_str("        -")
                } else {
                    String::from_str("        +")
                };
                line.append(method.name.as_str());
                line.append("(");
                let args_str = Self::join_method_args(&method.args);
                line.append(args_str.as_str());
                line.append(")");
                match &method.returns {
                    Some(rt) => {
                        line.append(" ");
                        line.append(rt.as_str());
                    },
                    None => {},
                }
                out.push(line);
                proof {
                    assert(line@ == render_method_line(ms[i as int]));
                    assert(out.deep_view() =~= prev.push(render_method_line(ms[i as int])));
                    let tail_m = non_dunder(ms.skip(i as int + 1)).map(
                        |k: int, m: MethodView| render_method_line(m),
                    );
                    assert(non_dunder(ms.skip(i as int)).map(
                        |k: int, m: MethodView| render_method_line(m),
                    ) =~= seq![render_method_line(ms[i as int])] + tail_m);
                    assert(prev + (seq![render_method_line(ms[i as int])] + tail_m) =~= (prev
                        + seq![render_method_line(ms[i as int])]) + tail_m);
                }
            }
            i += 1;
        }
        out.push(String::from_str("    }"));
        proof {
            assert(ms.skip(n as int) =~= Seq::<MethodView>::empty());
            assert(non_dunder(Seq::<MethodView>::empty()).map(
                |k: int, m: MethodView| render_method_line(m),
            ) =~= Seq::<Seq<char>>::empty());
            assert(out.deep_view() =~= make_class_methods_spec(ms));
        }
        out
    }

    /// The comma-joined parameter list of one method line.
    #[verifier::loop_isolation(false)]
    fn join_method_args(args: &Vec<crate::models::PyParam>) -> (r: String)
        ensures
            r@ == join_args(args.deep_view()),
    {
        let ghost avs = args.deep_view();
        let mut out = String::new();
        let mut i: usize = 0;
        let n = args.len();
        proof {
            assert(avs.take(0) =~= Seq::<ParamView>::empty());
        }
        while i < n
            invariant
                i <= n,
                n == args@.len(),
                out@ == join_args(avs.take(i as int)),
            decreases n - i,
        {
            if i > 0 {
                out.append(", ");
            }
            match &args[i].dtype {
                Some(t) => {
                    out.append(t.as_str());
                    out.append(" ");
                },
                None => {},
            }
            out.append(args[i].name.as_str());
            proof {
                lemma_join_args_snoc(avs.take(i as int), avs[i as int]);
                assert(avs.take(i as int).push(avs[i as int]) =~= avs.take(i as int + 1));
                assert(out@ =~= join_args(avs.take(i as int + 1)));
            }
            i += 1;
        }
        proof {
            assert(avs.take(n as int) =~= avs);
        }
        out
    }
}

} // verus!
