use vstd::prelude::*;

use crate::text;
use crate::text::{find_char_spec, lemma_find_char_props, trim_spec};

verus! {

/// A structural fault found while scanning: an unreadable declaration or an
/// unclosed bracket.
#[derive(Debug)]
pub struct ScanError(pub String);

// ---------------------------------------------------------------------------
// Quoted literals
// ---------------------------------------------------------------------------

pub open spec fn is_quote_char(c: char) -> bool {
    c == '\'' || c == '"'
}

fn is_quote(c: char) -> (r: bool)
    ensures
        r == is_quote_char(c),
{
    c == '\'' || c == '"'
}

/// Index of the first quote character of either kind, or -1 when absent.
pub open spec fn find_quote_spec(s: Seq<char>) -> int
    decreases s.len(),
{
    if s.len() == 0 {
        -1
    } else if is_quote_char(s[0]) {
        0
    } else {
        let r = find_quote_spec(s.drop_first());
        if r < 0 {
            -1
        } else {
            1 + r
        }
    }
}

pub proof fn lemma_find_quote_props(s: Seq<char>)
    ensures
        find_quote_spec(s) == -1 ==> forall|j: int| 0 <= j < s.len() ==> !is_quote_char(s[j]),
        find_quote_spec(s) != -1 ==> {
            let f = find_quote_spec(s);
            0 <= f < s.len() && is_quote_char(s[f]) && forall|j: int|
                0 <= j < f ==> !is_quote_char(s[j])
        },
    decreases s.len(),
{
    if s.len() == 0 {
    } else if is_quote_char(s[0]) {
    } else {
        lemma_find_quote_props(s.drop_first());
        let fd = find_quote_spec(s.drop_first());
        if fd == -1 {
            assert forall|j: int| 0 <= j < s.len() implies !is_quote_char(s[j]) by {
                if j > 0 {
                    assert(!is_quote_char(s.drop_first()[j - 1]));
                }
            }
        } else {
            assert(s[fd + 1] == s.drop_first()[fd]);
            assert forall|j: int| 0 <= j < fd + 1 implies !is_quote_char(s[j]) by {
                if j > 0 {
                    assert(!is_quote_char(s.drop_first()[j - 1]));
                }
            }
        }
    }
}

fn find_quote(s: &str) -> (r: Option<usize>)
    ensures
        match r {
            Some(i) => i == find_quote_spec(s@),
            None => find_quote_spec(s@) == -1,
        },
{
    let n = s.unicode_len();
    let mut i: usize = 0;
    while i < n
        invariant
            n == s@.len(),
            i <= n,
            forall|j: int| 0 <= j < i ==> !is_quote_char(s@[j]),
        decreases n - i,
    {
        if is_quote(s.get_char(i)) {
            proof {
                lemma_find_quote_props(s@);
            }
            return Some(i);
        }
        i += 1;
    }
    proof {
        lemma_find_quote_props(s@);
    }
    None
}

/// The prefix of the line that runs through the end of its first quoted
/// literal; the whole line when no literal opens or the literal never closes.
pub open spec fn scan_pystr_spec(s: Seq<char>) -> Seq<char> {
    let fq = find_quote_spec(s);
    if fq < 0 {
        s
    } else {
        let f2 = find_char_spec(s.skip(fq + 1), s[fq]);
        if f2 < 0 {
            s
        } else {
            s.take(fq + 1 + f2 + 1)
        }
    }
}

/// Copy the line up to and including the close of its first quoted literal.
pub fn scan_pystr(line: &str) -> (r: String)
    ensures
        r@ == scan_pystr_spec(line@),
{
    let n = line.unicode_len();
    match find_quote(line) {
        None => line.to_owned(),
        Some(fq) => {
            proof {
                lemma_find_quote_props(line@);
            }
            let q = line.get_char(fq);
            let tail = line.substring_char(fq + 1, n);
            match text::find_char(tail, q) {
                None => line.to_owned(),
                Some(f2) => {
                    proof {
                        lemma_find_char_props(tail@, q);
                    }
                    line.substring_char(0, fq + 1 + f2 + 1).to_owned()
                },
            }
        },
    }
}

// ---------------------------------------------------------------------------
// Quote-aware splitting
// ---------------------------------------------------------------------------

/// The given prefix glued onto the first returned segment.
pub open spec fn prepend_seg(p: Seq<char>, r: Seq<Seq<char>>) -> Seq<Seq<char>> {
    seq![p + r[0]] + r.drop_first()
}

/// Split on `delim`, treating each quoted literal as opaque: a delimiter
/// between a quote character and its matching close never splits.  Segments
/// are returned untrimmed; there is always at least one.
pub open spec fn split_qa_rec(s: Seq<char>, delim: char) -> Seq<Seq<char>>
    decreases s.len(),
{
    if s.len() == 0 {
        seq![Seq::<char>::empty()]
    } else if is_quote_char(s[0]) {
        let f = find_char_spec(s.drop_first(), s[0]);
        if 0 <= f < s.drop_first().len() {
            prepend_seg(s.take(f + 2), split_qa_rec(s.skip(f + 2), delim))
        } else {
            seq![s]
        }
    } else if s[0] == delim {
        seq![Seq::<char>::empty()] + split_qa_rec(s.drop_first(), delim)
    } else {
        prepend_seg(seq![s[0]], split_qa_rec(s.drop_first(), delim))
    }
}

pub proof fn lemma_split_qa_nonempty(s: Seq<char>, delim: char)
    ensures
        split_qa_rec(s, delim).len() >= 1,
    decreases s.len(),
{
    if s.len() == 0 {
    } else if is_quote_char(s[0]) {
        let f = find_char_spec(s.drop_first(), s[0]);
        if 0 <= f < s.drop_first().len() {
            lemma_split_qa_nonempty(s.skip(f + 2), delim);
        }
    } else if s[0] == delim {
        lemma_split_qa_nonempty(s.drop_first(), delim);
    } else {
        lemma_split_qa_nonempty(s.drop_first(), delim);
    }
}

/// The quote-aware split with every segment trimmed.
pub open spec fn split_string_spec(s: Seq<char>, delim: char) -> Seq<Seq<char>> {
    split_qa_rec(s, delim).map(|i: int, seg: Seq<char>| trim_spec(seg))
}

/// Quote safety: a string that is one whole quoted literal splits into a
/// single segment, no matter how many delimiters stand inside the quotes.
pub proof fn lemma_split_quoted_opaque(mid: Seq<char>, q: char, delim: char)
    requires
        is_quote_char(q),
        !mid.contains(q),
    ensures
        split_string_spec(seq![q] + mid + seq![q], delim).len() == 1,
{
    let s = seq![q] + mid + seq![q];
    assert(s.len() == mid.len() + 2);
    assert(s[0] == q);
    let d = s.drop_first();
    assert(d =~= mid + seq![q]);
    assert(d[mid.len() as int] == q);
    assert forall|j: int| 0 <= j < mid.len() implies d[j] != q by {
        assert(d[j] == mid[j]);
        assert(!mid.contains(q));
        if mid[j] == q {
            assert(mid.contains(q));
        }
    }
    lemma_find_char_props(d, q);
    let f = find_char_spec(d, q);
    if f == -1 {
        assert(d[mid.len() as int] != q);
        assert(false);
    }
    assert(f == mid.len()) by {
        if f < mid.len() {
            assert(d[f] != q);
        }
        if f > mid.len() {
            assert(d[mid.len() as int] != q);
        }
    }
    assert(0 <= f < d.len());
    assert(s.skip(f + 2) =~= Seq::<char>::empty());
    assert(split_qa_rec(s.skip(f + 2), delim) =~= seq![Seq::<char>::empty()]);
    assert(split_qa_rec(s, delim).len() == 1);
}

fn split_raw(s: &str, delim: char) -> (r: Vec<String>)
    ensures
        r.deep_view() == split_qa_rec(s@, delim),
    decreases s@.len(),
{
    let n = s.unicode_len();
    if n == 0 {
        let mut v: Vec<String> = Vec::new();
        v.push(String::new());
        assert(v.deep_view() =~= split_qa_rec(s@, delim));
        return v;
    }
    let c0 = s.get_char(0);
    if is_quote(c0) {
        let tail = s.substring_char(1, n);
        assert(tail@ == s@.drop_first());
        match text::find_char(tail, c0) {
            Some(f) => {
                proof {
                    lemma_find_char_props(tail@, c0);
                }
                let lit = s.substring_char(0, f + 2);
                let rest = s.substring_char(f + 2, n);
                assert(lit@ == s@.take(f + 2));
                assert(rest@ == s@.skip(f + 2));
                let mut r = split_raw(rest, delim);
                proof {
                    lemma_split_qa_nonempty(rest@, delim);
                }
                let first = r.remove(0);
                let combined = lit.to_owned().concat(first.as_str());
                r.insert(0, combined);
                assert(r.deep_view() =~= split_qa_rec(s@, delim));
                r
            },
            None => {
                let mut v: Vec<String> = Vec::new();
                v.push(s.to_owned());
                assert(v.deep_view() =~= split_qa_rec(s@, delim));
                v
            },
        }
    } else if c0 == delim {
        let rest = s.substring_char(1, n);
        assert(rest@ == s@.drop_first());
        let mut r = split_raw(rest, delim);
        r.insert(0, String::new());
        assert(r.deep_view() =~= split_qa_rec(s@, delim));
        r
    } else {
        let rest = s.substring_char(1, n);
        assert(rest@ == s@.drop_first());
        let mut r = split_raw(rest, delim);
        proof {
            lemma_split_qa_nonempty(rest@, delim);
        }
        let first = r.remove(0);
        let head = s.substring_char(0, 1);
        assert(head@ =~= seq![s@[0]]);
        let combined = head.to_owned().concat(first.as_str());
        r.insert(0, combined);
        assert(r.deep_view() =~= split_qa_rec(s@, delim));
        r
    }
}

/// Quote-aware split on `delim`; every returned segment is trimmed.
pub fn split_string(line: &str, delim: char) -> (r: Vec<String>)
    ensures
        r.deep_view() == split_string_spec(line@, delim),
{
    let raw = split_raw(line, delim);
    let mut out: Vec<String> = Vec::new();
    let mut i: usize = 0;
    let n = raw.len();
    while i < n
        invariant
            n == raw.len(),
            i <= n,
            raw.deep_view() == split_qa_rec(line@, delim),
            out.deep_view() == split_string_spec(line@, delim).take(i as int),
        decreases n - i,
    {
        let ghost prev = out.deep_view();
        out.push(text::trim(raw[i].as_str()).to_owned());
        proof {
            assert(out.deep_view() =~= prev.push(trim_spec(raw.deep_view()[i as int])));
            assert(split_string_spec(line@, delim)[i as int] == trim_spec(
                raw.deep_view()[i as int],
            ));
            assert(out.deep_view() =~= split_string_spec(line@, delim).take(i as int + 1));
        }
        i += 1;
    }
    proof {
        assert(split_string_spec(line@, delim).take(n as int) =~= split_string_spec(line@, delim));
    }
    out
}

// ---------------------------------------------------------------------------
// Bracket pairs
// ---------------------------------------------------------------------------

/// The three bracket pairs the scanner balances.
pub struct BoundToken;

impl BoundToken {
    pub const PAREN_L: char = '(';

    pub const PAREN_R: char = ')';

    pub const BRACKET_L: char = '[';

    pub const BRACKET_R: char = ']';

    pub const BRACE_L: char = '{';

    pub const BRACE_R: char = '}';
}

pub open spec fn is_left_token(c: char) -> bool {
    c == '(' || c == '[' || c == '{'
}

pub open spec fn right_of(left: char) -> char {
    if left == '(' {
        ')'
    } else if left == '[' {
        ']'
    } else {
        '}'
    }
}

impl BoundToken {
    /// The closing token that matches an opening one.
    pub fn get_right(left: &char) -> (r: char)
        requires
            is_left_token(*left),
        ensures
            r == right_of(*left),
    {
        if *left == '(' {
            ')'
        } else if *left == '[' {
            ']'
        } else {
            '}'
        }
    }

    /// The first opening token on the line, searched by kind: any parenthesis
    /// wins over any square bracket, which wins over any brace.
    pub fn find_left(line: &str) -> (r: Option<(char, usize)>)
        ensures
            match r {
                Some((c, p)) => find_left_spec(line@) == Some((c, p as int)),
                None => find_left_spec(line@) is None,
            },
    {
        if let Some(p) = text::find_char(line, '(') {
            Some(('(', p))
        } else if let Some(p) = text::find_char(line, '[') {
            Some(('[', p))
        } else if let Some(p) = text::find_char(line, '{') {
            Some(('{', p))
        } else {
            None
        }
    }
}

pub open spec fn find_left_spec(s: Seq<char>) -> Option<(char, int)> {
    if find_char_spec(s, '(') >= 0 {
        Some(('(', find_char_spec(s, '(')))
    } else if find_char_spec(s, '[') >= 0 {
        Some(('[', find_char_spec(s, '[')))
    } else if find_char_spec(s, '{') >= 0 {
        Some(('{', find_char_spec(s, '{')))
    } else {
        None
    }
}

// ---------------------------------------------------------------------------
// Balanced scanning for the matching close token
// ---------------------------------------------------------------------------

/// Nesting depth after one character.  The depth saturates at `usize::MAX`,
/// which keeps the definition total; real inputs never come near it.
pub open spec fn step_depth(c: char, open: char, close: char, d: nat) -> nat {
    if c == close {
        if d > 0 {
            (d - 1) as nat
        } else {
            0
        }
    } else if c == open {
        if d < usize::MAX as nat {
            d + 1
        } else {
            d
        }
    } else {
        d
    }
}

/// Index of the close token that brings the depth down from `d` to zero,
/// counting further same-kind opens on the way; -1 when the line has none.
pub open spec fn find_close_spec(s: Seq<char>, open: char, close: char, d: nat) -> int
    decreases s.len(),
{
    if s.len() == 0 {
        -1
    } else if s[0] == close && d == 1 {
        0
    } else {
        let r = find_close_spec(s.drop_first(), open, close, step_depth(s[0], open, close, d));
        if r < 0 {
            -1
        } else {
            1 + r
        }
    }
}

/// Nesting depth left after scanning the whole line.
pub open spec fn depth_after_spec(s: Seq<char>, open: char, close: char, d: nat) -> nat
    decreases s.len(),
{
    if s.len() == 0 {
        d
    } else {
        depth_after_spec(s.drop_first(), open, close, step_depth(s[0], open, close, d))
    }
}

pub proof fn lemma_find_close_props(s: Seq<char>, open: char, close: char, d: nat)
    ensures
        find_close_spec(s, open, close, d) >= -1,
        find_close_spec(s, open, close, d) >= 0 ==> {
            let f = find_close_spec(s, open, close, d);
            f < s.len() && s[f] == close
        },
    decreases s.len(),
{
    if s.len() == 0 {
    } else if s[0] == close && d == 1 {
    } else {
        lemma_find_close_props(s.drop_first(), open, close, step_depth(s[0], open, close, d));
    }
}

/// A line without the terminating close token leaves the depth positive.
pub proof fn lemma_depth_after_pos(s: Seq<char>, open: char, close: char, d: nat)
    requires
        d >= 1,
        find_close_spec(s, open, close, d) == -1,
    ensures
        depth_after_spec(s, open, close, d) >= 1,
    decreases s.len(),
{
    if s.len() == 0 {
    } else {
        assert(!(s[0] == close && d == 1));
        let d2 = step_depth(s[0], open, close, d);
        assert(d2 >= 1);
        lemma_find_close_props(s.drop_first(), open, close, d2);
        lemma_depth_after_pos(s.drop_first(), open, close, d2);
    }
}

/// One line of the balanced scan: the position of the terminating close
/// token, or the depth the line leaves behind.
fn scan_line_close(s: &str, open: char, close: char, d0: usize) -> (r: (Option<usize>, usize))
    requires
        d0 >= 1,
    ensures
        match r.0 {
            Some(i) => i == find_close_spec(s@, open, close, d0 as nat),
            None => find_close_spec(s@, open, close, d0 as nat) == -1 && r.1 as nat
                == depth_after_spec(s@, open, close, d0 as nat),
        },
{
    let n = s.unicode_len();
    let mut i: usize = 0;
    let mut d: usize = d0;
    proof {
        assert(s@.skip(0) =~= s@);
        lemma_find_close_props(s@, open, close, d0 as nat);
    }
    while i < n
        invariant
            n == s@.len(),
            i <= n,
            find_close_spec(s@, open, close, d0 as nat) == {
                let r = find_close_spec(s@.skip(i as int), open, close, d as nat);
                if r < 0 {
                    -1int
                } else {
                    i + r
                }
            },
            depth_after_spec(s@, open, close, d0 as nat) == depth_after_spec(
                s@.skip(i as int),
                open,
                close,
                d as nat,
            ),
        decreases n - i,
    {
        let c = s.get_char(i);
        proof {
            assert(s@.skip(i as int)[0] == s@[i as int]);
            assert(s@.skip(i as int).drop_first() =~= s@.skip(i as int + 1));
        }
        if c == close && d == 1 {
            return (Some(i), 0);
        }
        let d2: usize = if c == close {
            if d > 0 {
                d - 1
            } else {
                0
            }
        } else if c == open {
            if d < usize::MAX {
                d + 1
            } else {
                d
            }
        } else {
            d
        };
        proof {
            assert(d2 as nat == step_depth(c, open, close, d as nat));
        }
        i += 1;
        d = d2;
    }
    proof {
        assert(s@.skip(n as int) =~= Seq::<char>::empty());
    }
    (None, d)
}

// ---------------------------------------------------------------------------
// The multi-line fragment scan
// ---------------------------------------------------------------------------

/// Fragments gathered from line `i` on, starting inside the brackets with
/// `cur` still to scan at depth `d`; `None` when input ends first.
pub open spec fn scan_frags_spec(
    lines: Seq<Seq<char>>,
    i: int,
    cur: Seq<char>,
    open: char,
    close: char,
    d: nat,
) -> Option<(Seq<Seq<char>>, int)>
    decreases lines.len() - i,
{
    let f = find_close_spec(cur, open, close, d);
    if f >= 0 {
        Some((seq![cur.take(f)], i))
    } else if i + 1 < lines.len() {
        match scan_frags_spec(
            lines,
            i + 1,
            lines[i + 1],
            open,
            close,
            depth_after_spec(cur, open, close, d),
        ) {
            None => None,
            Some((fr, e)) => Some((seq![cur] + fr, e)),
        }
    } else {
        None
    }
}

/// A trimmed fragment that ends in a comma gets one space back, so a
/// parameter list split across lines re-joins as single-line syntax.
pub open spec fn join_one(t: Seq<char>) -> Seq<char> {
    if t.len() > 0 && t.last() == ',' {
        t.push(' ')
    } else {
        t
    }
}

pub open spec fn join_frags_spec(fr: Seq<Seq<char>>) -> Seq<char>
    decreases fr.len(),
{
    if fr.len() == 0 {
        Seq::empty()
    } else {
        join_one(trim_spec(fr[0])) + join_frags_spec(fr.drop_first())
    }
}

pub proof fn lemma_join_snoc(fr: Seq<Seq<char>>, x: Seq<char>)
    ensures
        join_frags_spec(fr.push(x)) == join_frags_spec(fr) + join_one(trim_spec(x)),
    decreases fr.len(),
{
    if fr.len() == 0 {
        assert(fr.push(x)[0] == x);
        assert(fr.push(x).drop_first() =~= Seq::<Seq<char>>::empty());
        assert(join_frags_spec(fr) + join_one(trim_spec(x)) =~= join_one(trim_spec(x)));
        assert(join_one(trim_spec(x)) + join_frags_spec(Seq::<Seq<char>>::empty()) =~= join_one(
            trim_spec(x),
        ));
    } else {
        assert(fr.push(x).drop_first() =~= fr.drop_first().push(x));
        lemma_join_snoc(fr.drop_first(), x);
        assert(fr.push(x)[0] == fr[0]);
        assert((join_one(trim_spec(fr[0])) + join_frags_spec(fr.drop_first())) + join_one(
            trim_spec(x),
        ) =~= join_one(trim_spec(fr[0])) + (join_frags_spec(fr.drop_first()) + join_one(
            trim_spec(x),
        )));
    }
}

/// What `scan_enclosed` returns: the enclosed text re-joined to one line and
/// the index of the line holding the matching close token.
pub open spec fn scan_enclosed_spec(
    lines: Seq<Seq<char>>,
    pos: int,
    cpos: int,
    inclusive: bool,
) -> Option<(Seq<char>, int)> {
    let first = lines[pos].skip(cpos);
    match find_left_spec(first) {
        None => None,
        Some((open, lp)) => {
            let close = right_of(open);
            match scan_frags_spec(lines, pos, first.skip(lp + 1), open, close, 1) {
                None => None,
                Some((fr, e)) => {
                    let j = join_frags_spec(fr);
                    Some(
                        (
                            if inclusive {
                                seq![open] + trim_spec(j) + seq![close]
                            } else {
                                j
                            },
                            e,
                        ),
                    )
                },
            }
        },
    }
}

/// Scan from the first opening token at or after `char_pos` on the current
/// line to its matching close, balancing further same-kind opens, advancing
/// the cursor to the line that holds the close.  Fragments are trimmed and
/// re-joined; `inclusive` wraps the result back in its brackets.
///
/// Fails when the current line has no opening token, or when input ends
/// before the close appears.
#[verifier::loop_isolation(false)]
pub fn scan_enclosed(
    lines: &Vec<String>,
    line_pos: &mut usize,
    char_pos: Option<usize>,
    inclusive: bool,
) -> (r: Result<String, ScanError>)
    requires
        *old(line_pos) < lines@.len(),
        match char_pos {
            Some(p) => p <= lines@[*old(line_pos) as int]@.len(),
            None => true,
        },
    ensures
        ({
            let cpos = match char_pos {
                Some(p) => p as int,
                None => 0,
            };
            match scan_enclosed_spec(lines.deep_view(), *old(line_pos) as int, cpos, inclusive) {
                Some((txt, e)) => r matches Ok(out) && out@ == txt && *final(line_pos) == e && e
                    < lines@.len() && e >= *old(line_pos),
                None => r is Err && *final(line_pos) == *old(line_pos),
            }
        }),
{
    let ghost ldv = lines.deep_view();
    let ghost start = *line_pos as int;
    let cp: usize = match char_pos {
        Some(p) => p,
        None => 0,
    };
    let n = lines.len();
    let line0: &str = lines[*line_pos].as_str();
    let first: &str = line0.substring_char(cp, line0.unicode_len());
    proof {
        assert(first@ == ldv[start].skip(cp as int));
    }
    let found = BoundToken::find_left(first);
    if found.is_none() {
        return Err(
            ScanError(String::from_str("left boundary token not found on the current line")),
        );
    }
    let (open, lp) = found.unwrap();
    proof {
        assert(find_left_spec(first@) == Some((open, lp as int)));
        assert(is_left_token(open));
        lemma_find_char_props(first@, '(');
        lemma_find_char_props(first@, '[');
        lemma_find_char_props(first@, '{');
    }
    let close = BoundToken::get_right(&open);
    let mut cur: String = first.substring_char(lp + 1, first.unicode_len()).to_owned();
    let mut frags: Vec<String> = Vec::new();
    let mut d: usize = 1;
    let mut i: usize = *line_pos;
    let ghost spec_result = scan_frags_spec(ldv, start, first@.skip(lp + 1), open, close, 1 as nat);
    proof {
        assert(cur@ == first@.skip(lp + 1));
        assert(frags.deep_view() =~= Seq::<Seq<char>>::empty());
        if scan_frags_spec(ldv, start, cur@, open, close, 1 as nat) is Some {
            let (fr, e) = scan_frags_spec(ldv, start, cur@, open, close, 1 as nat)->Some_0;
            assert(frags.deep_view() + fr =~= fr);
        }
    }
    loop
        invariant
            start <= i < n,
            *line_pos == *old(line_pos),
            n == lines@.len(),
            d >= 1,
            ldv == lines.deep_view(),
            close == right_of(open),
            is_left_token(open),
            spec_result == match scan_frags_spec(ldv, i as int, cur@, open, close, d as nat) {
                None => None::<(Seq<Seq<char>>, int)>,
                Some((fr, e)) => Some((frags.deep_view() + fr, e)),
            },
        decreases n - i,
    {
        let (close_at, d2) = scan_line_close(cur.as_str(), open, close, d);
        match close_at {
            Some(ci) => {
                proof {
                    lemma_find_close_props(cur@, open, close, d as nat);
                }
                let last = cur.as_str().substring_char(0, ci).to_owned();
                let ghost prev = frags.deep_view();
                frags.push(last);
                set_cursor(line_pos, i);
                proof {
                    assert(frags.deep_view() =~= prev + seq![cur@.take(ci as int)]);
                    assert(scan_frags_spec(ldv, i as int, cur@, open, close, d as nat) == Some(
                        (seq![cur@.take(ci as int)], i as int),
                    ));
                }
                let out = join_and_wrap(&frags, open, close, inclusive);
                proof {
                    assert(spec_result == Some((frags.deep_view(), i as int)));
                    assert(cp as int == match char_pos {
                        Some(p) => p as int,
                        None => 0int,
                    });
                    assert(scan_enclosed_spec(ldv, start, cp as int, inclusive) == Some(
                        (out@, i as int),
                    ));
                }
                return Ok(out);
            },
            None => {
                if i + 1 < n {
                    proof {
                        lemma_depth_after_pos(cur@, open, close, d as nat);
                    }
                    let ghost prev = frags.deep_view();
                    let ghost cur_prev = cur@;
                    frags.push(cur);
                    cur = index_string(lines, i + 1);
                    i += 1;
                    d = d2;
                    proof {
                        assert(frags.deep_view() =~= prev.push(cur_prev));
                        assert(cur@ == ldv[i as int]);
                        if scan_frags_spec(ldv, i as int, cur@, open, close, d as nat) is Some {
                            let (fr, e) = scan_frags_spec(
                                ldv,
                                i as int,
                                cur@,
                                open,
                                close,
                                d as nat,
                            )->Some_0;
                            assert(prev + (seq![cur_prev] + fr) =~= frags.deep_view() + fr);
                        }
                    }
                } else {
                    proof {
                        assert(scan_frags_spec(ldv, i as int, cur@, open, close, d as nat)
                            is None);
                        assert(spec_result is None);
                    }
                    return Err(
                        ScanError(
                            String::from_str(
                                "failed to scan bounded lexeme: right boundary token not found",
                            ),
                        ),
                    );
                }
            },
        }
    }
}

/// A clone of one line, with its image stated.
fn index_string(lines: &Vec<String>, i: usize) -> (r: String)
    requires
        i < lines@.len(),
    ensures
        r@ == lines.deep_view()[i as int],
{
    lines[i].clone()
}

// ---------------------------------------------------------------------------
// Declaration names
// ---------------------------------------------------------------------------

/// The token between the introducing keyword (`def` or `class`) and the
/// first `(` of the declaration line; `None` when the line is not such a
/// declaration or holds no parenthesis.
pub open spec fn get_declr_name_spec(s: Seq<char>) -> Option<Seq<char>> {
    if (crate::models::is_method_def_spec(s) || crate::models::is_class_def_spec(s))
        && find_char_spec(s, '(') >= 0 {
        let t = trim_spec(s);
        let sp = find_char_spec(t, ' ');
        if sp < 0 {
            None
        } else {
            let rest = t.skip(sp + 1);
            let lp = find_char_spec(rest, '(');
            if lp < 0 {
                None
            } else {
                Some(trim_spec(rest.take(lp)))
            }
        }
    } else {
        None
    }
}

/// Extract the declared name from a `def` or `class` line.
pub fn get_declr_name(line: &str) -> (r: Result<String, ScanError>)
    ensures
        match get_declr_name_spec(line@) {
            Some(nm) => r matches Ok(v) && v@ == nm,
            None => r is Err,
        },
{
    let is_decl = crate::models::is_method_def(line) || crate::models::is_class_def(line);
    if !is_decl || !text::contains_char(line, '(') {
        return Err(ScanError(String::from_str("attempted to parse an invalid declaration")));
    }
    let t = text::trim(line);
    match text::find_char(t, ' ') {
        None => Err(ScanError(String::from_str("failed to parse declaration: invalid format"))),
        Some(sp) => {
            let tn = t.unicode_len();
            proof {
                lemma_find_char_props(t@, ' ');
            }
            let rest = t.substring_char(sp + 1, tn);
            proof {
                assert(rest@ == t@.skip(sp as int + 1));
            }
            match text::find_char(rest, '(') {
                None => Err(
                    ScanError(String::from_str("failed to parse declaration: invalid format")),
                ),
                Some(lp) => {
                    proof {
                        lemma_find_char_props(rest@, '(');
                    }
                    Ok(text::trim(rest.substring_char(0, lp)).to_owned())
                },
            }
        },
    }
}

// ---------------------------------------------------------------------------
// Parameter tokens
// ---------------------------------------------------------------------------

/// One parameter token split into name, optional type and optional default:
/// `name`, `name: type`, `name = default` or `name: type = default`.
/// Absence of `=` or `:` simply leaves the matching field out.
pub open spec fn parse_param_spec(tok: Seq<char>) -> crate::models::ParamView {
    let ad = split_string_spec(tok, '=');
    let nt = split_string_spec(ad[0], ':');
    crate::models::ParamView {
        name: nt[0],
        dtype: if nt.len() >= 2 {
            Some(nt[1])
        } else {
            None
        },
        default: if ad.len() >= 2 {
            Some(ad[1])
        } else {
            None
        },
    }
}

pub(crate) fn parse_param(tok: &str) -> (r: crate::models::PyParam)
    ensures
        r@ == parse_param_spec(tok@),
{
    proof {
        lemma_split_qa_nonempty(tok@, '=');
    }
    let ad = split_string(tok, '=');
    proof {
        lemma_split_qa_nonempty(ad.deep_view()[0], ':');
    }
    let nt = split_string(ad[0].as_str(), ':');
    let r = crate::models::PyParam {
        name: nt[0].clone(),
        dtype: if nt.len() >= 2 {
            Some(nt[1].clone())
        } else {
            None
        },
        default: if ad.len() >= 2 {
            Some(ad[1].clone())
        } else {
            None
        },
    };
    proof {
        assert(r@ =~= parse_param_spec(tok@));
    }
    r
}

/// Every parameter of a re-joined parameter list, in order.
pub open spec fn parse_params_spec(param_str: Seq<char>) -> Seq<crate::models::ParamView> {
    split_string_spec(param_str, ',').map(|i: int, t: Seq<char>| parse_param_spec(t))
}

fn parse_params(param_str: &str) -> (r: Vec<crate::models::PyParam>)
    ensures
        r.deep_view() == parse_params_spec(param_str@),
{
    let toks = split_string(param_str, ',');
    let mut out: Vec<crate::models::PyParam> = Vec::new();
    let mut k: usize = 0;
    let n = toks.len();
    while k < n
        invariant
            n == toks.len(),
            toks.deep_view() == split_string_spec(param_str@, ','),
            k <= n,
            out.deep_view() == parse_params_spec(param_str@).take(k as int),
        decreases n - k,
    {
        let ghost prev = out.deep_view();
        out.push(parse_param(toks[k].as_str()));
        proof {
            assert(out.deep_view() =~= prev.push(parse_param_spec(toks.deep_view()[k as int])));
            assert(out.deep_view() =~= parse_params_spec(param_str@).take(k as int + 1));
        }
        k += 1;
    }
    proof {
        assert(parse_params_spec(param_str@).take(n as int) =~= parse_params_spec(param_str@));
    }
    out
}

// ---------------------------------------------------------------------------
// Return-type text
// ---------------------------------------------------------------------------

/// The sequence with every occurrence of `c` removed.
pub open spec fn remove_char_spec(s: Seq<char>, c: char) -> Seq<char>
    decreases s.len(),
{
    if s.len() == 0 {
        s
    } else if s[0] == c {
        remove_char_spec(s.drop_first(), c)
    } else {
        seq![s[0]] + remove_char_spec(s.drop_first(), c)
    }
}

#[verifier::loop_isolation(false)]
fn remove_char(s: &str, c: char) -> (r: String)
    ensures
        r@ == remove_char_spec(s@, c),
{
    let n = s.unicode_len();
    let mut out = String::new();
    let mut i: usize = 0;
    proof {
        assert(s@.skip(0) =~= s@);
    }
    while i < n
        invariant
            i <= n,
            remove_char_spec(s@, c) == out@ + remove_char_spec(s@.skip(i as int), c),
        decreases n - i,
    {
        proof {
            assert(s@.skip(i as int)[0] == s@[i as int]);
            assert(s@.skip(i as int).drop_first() =~= s@.skip(i as int + 1));
        }
        if s.get_char(i) != c {
            let piece = s.substring_char(i, i + 1);
            proof {
                assert(piece@ =~= seq![s@[i as int]]);
            }
            let ghost prev = out@;
            out.append(piece);
            proof {
                let tail_rc = remove_char_spec(s@.skip(i as int + 1), c);
                assert(prev + (seq![s@[i as int]] + tail_rc) =~= (prev + seq![s@[i as int]])
                    + tail_rc);
                assert(out@ == prev + seq![s@[i as int]]);
            }
        }
        i += 1;
    }
    proof {
        assert(s@.skip(n as int) =~= Seq::<char>::empty());
        assert(out@ + remove_char_spec(s@.skip(n as int), c) =~= out@);
    }
    out
}

/// The sequence with every `->` pair removed, scanning left to right.
pub open spec fn remove_arrow_spec(s: Seq<char>) -> Seq<char>
    decreases s.len(),
{
    if s.len() >= 2 && s[0] == '-' && s[1] == '>' {
        remove_arrow_spec(s.skip(2))
    } else if s.len() == 0 {
        s
    } else {
        seq![s[0]] + remove_arrow_spec(s.drop_first())
    }
}

#[verifier::loop_isolation(false)]
fn remove_arrow(s: &str) -> (r: String)
    ensures
        r@ == remove_arrow_spec(s@),
{
    let n = s.unicode_len();
    let mut out = String::new();
    let mut i: usize = 0;
    proof {
        assert(s@.skip(0) =~= s@);
    }
    while i < n
        invariant
            i <= n,
            remove_arrow_spec(s@) == out@ + remove_arrow_spec(s@.skip(i as int)),
        decreases n - i,
    {
        proof {
            assert(s@.skip(i as int)[0] == s@[i as int]);
            if i + 1 < n {
                assert(s@.skip(i as int)[1] == s@[i as int + 1]);
                assert(s@.skip(i as int).skip(2) =~= s@.skip(i as int + 2));
            }
            assert(s@.skip(i as int).drop_first() =~= s@.skip(i as int + 1));
        }
        if n - i >= 2 && s.get_char(i) == '-' && s.get_char(i + 1) == '>' {
            i += 2;
        } else {
            let piece = s.substring_char(i, i + 1);
            proof {
                assert(piece@ =~= seq![s@[i as int]]);
            }
            let ghost prev = out@;
            out.append(piece);
            proof {
                let tail_ra = remove_arrow_spec(s@.skip(i as int + 1));
                assert(prev + (seq![s@[i as int]] + tail_ra) =~= (prev + seq![s@[i as int]])
                    + tail_ra);
                assert(out@ == prev + seq![s@[i as int]]);
            }
            i += 1;
        }
    }
    proof {
        assert(s@.skip(n as int) =~= Seq::<char>::empty());
        assert(out@ + remove_arrow_spec(s@.skip(n as int)) =~= out@);
    }
    out
}

/// Return-annotation text: the tail of the close line with every `)`, then
/// every `->`, then every `:` removed, finally trimmed.
pub open spec fn strip_return_spec(s: Seq<char>) -> Seq<char> {
    trim_spec(remove_char_spec(remove_arrow_spec(remove_char_spec(s, ')')), ':'))
}

fn strip_return(s: &str) -> (r: String)
    ensures
        r@ == strip_return_spec(s@),
{
    let a = remove_char(s, ')');
    let b = remove_arrow(a.as_str());
    let c = remove_char(b.as_str(), ':');
    text::trim(c.as_str()).to_owned()
}

// ---------------------------------------------------------------------------
// Whole method signatures
// ---------------------------------------------------------------------------

/// Access is derived from the name alone: a leading underscore means private.
pub open spec fn access_of_spec(name: Seq<char>) -> crate::models::PyMethodAccess {
    if name.len() > 0 && name[0] == '_' {
        crate::models::PyMethodAccess::Private
    } else {
        crate::models::PyMethodAccess::Public
    }
}

/// The parsed method and the line index one past the line that closed the
/// signature; `None` on a malformed declaration or an unclosed bracket.
pub open spec fn scan_method_spec(lines: Seq<Seq<char>>, pos: int) -> Option<
    (crate::models::MethodView, int),
> {
    match get_declr_name_spec(lines[pos]) {
        None => None,
        Some(name) => match scan_enclosed_spec(lines, pos, 0, false) {
            None => None,
            Some((param_str, p1)) => {
                let args = parse_params_spec(param_str);
                let line = lines[p1];
                let rp = find_char_spec(line, ')');
                if rp < 0 {
                    None
                } else {
                    let r0 = strip_return_spec(line.skip(rp + 1));
                    if r0.len() == 0 {
                        Some(
                            (
                                crate::models::MethodView {
                                    name,
                                    args,
                                    returns: None,
                                    access: access_of_spec(name),
                                },
                                p1 + 1,
                            ),
                        )
                    } else {
                        let tq = find_char_spec(r0, '[');
                        if tq < 0 {
                            Some(
                                (
                                    crate::models::MethodView {
                                        name,
                                        args,
                                        returns: Some(r0),
                                        access: access_of_spec(name),
                                    },
                                    p1 + 1,
                                ),
                            )
                        } else {
                            match scan_enclosed_spec(lines, p1, 0, true) {
                                None => None,
                                Some((t_concat, p2)) => Some(
                                    (
                                        crate::models::MethodView {
                                            name,
                                            args,
                                            returns: Some(r0.take(tq) + t_concat),
                                            access: access_of_spec(name),
                                        },
                                        p2 + 1,
                                    ),
                                ),
                            }
                        }
                    }
                }
            },
        },
    }
}

/// Scan one full (possibly multi-line) method signature: name, parameters,
/// return annotation.  The cursor advances one line past the line holding
/// the closing parenthesis (or the end of a multi-line return annotation).
#[verifier::loop_isolation(false)]
pub fn scan_method(lines: &Vec<String>, curr_pos: &mut usize) -> (r: Result<
    crate::models::PyMethod,
    ScanError,
>)
    requires
        *old(curr_pos) < lines@.len(),
    ensures
        match scan_method_spec(lines.deep_view(), *old(curr_pos) as int) {
            Some((mv, e)) => r matches Ok(m) && m@ == mv && *final(curr_pos) == e && e
                <= lines@.len() && e > *old(curr_pos),
            None => r is Err,
        },
{
    let ghost ldv = lines.deep_view();
    let ghost start = *curr_pos as int;
    let name: String = match get_declr_name(lines[*curr_pos].as_str()) {
        Ok(n) => n,
        Err(e) => {
            return Err(e);
        },
    };
    let param_str: String = match scan_enclosed(lines, curr_pos, None, false) {
        Ok(s) => s,
        Err(e) => {
            return Err(e);
        },
    };
    let args = parse_params(param_str.as_str());
    let line: &str = lines[*curr_pos].as_str();
    let rp = match text::find_char(line, ')') {
        Some(rp) => rp,
        None => {
            return Err(
                ScanError(
                    String::from_str("expected a closing parenthesis after the parameter scan"),
                ),
            );
        },
    };
    let ln = line.unicode_len();
    proof {
        lemma_find_char_props(line@, ')');
    }
    let after = line.substring_char(rp + 1, ln);
    proof {
        assert(after@ == line@.skip(rp as int + 1));
    }
    let r0 = strip_return(after);
    let ret_ann: Option<String>;
    if r0.unicode_len() == 0 {
        ret_ann = None;
    } else {
        match text::find_char(r0.as_str(), '[') {
            None => {
                ret_ann = Some(r0);
            },
            Some(tq) => {
                proof {
                    lemma_find_char_props(r0@, '[');
                }
                let t_concat: String = match scan_enclosed(lines, curr_pos, None, true) {
                    Ok(s) => s,
                    Err(e) => {
                        return Err(e);
                    },
                };
                let head = r0.as_str().substring_char(0, tq).to_owned();
                ret_ann = Some(head.concat(t_concat.as_str()));
            },
        }
    }
    let e = bump_pos(curr_pos, lines.len());
    let access = if text::starts_with(name.as_str(), "_") {
        crate::models::PyMethodAccess::Private
    } else {
        crate::models::PyMethodAccess::Public
    };
    proof {
        reveal_strlit("_");
        if name@.len() > 0 {
            assert(name@.subrange(0, 1) =~= seq![name@[0]]);
            assert(seq![name@[0]][0] == name@[0]);
            assert(("_"@).len() == 1);
            assert(("_"@)[0] == '_');
            if name@[0] == '_' {
                assert(name@.subrange(0, 1) =~= "_"@);
            }
        }
        assert(access == access_of_spec(name@));
    }
    let m = crate::models::PyMethod { name, args, returns: ret_ann, access };
    proof {
        let (mv, me) = scan_method_spec(ldv, start)->Some_0;
        assert(m@ =~= mv);
    }
    Ok(m)
}

/// Advance the cursor one line past the signature's final line.
fn bump_pos(curr_pos: &mut usize, len: usize) -> (r: usize)
    requires
        *old(curr_pos) < len,
    ensures
        *final(curr_pos) == *old(curr_pos) + 1,
        r == *final(curr_pos),
{
    *curr_pos += 1;
    *curr_pos
}

/// Leave the cursor on the line that held the matching close token.
fn set_cursor(line_pos: &mut usize, i: usize)
    ensures
        *final(line_pos) == i,
{
    *line_pos = i;
}

/// Trim every fragment, give a trailing comma its space back, concatenate,
/// and optionally wrap the result back in its brackets.
fn join_and_wrap(frags: &Vec<String>, open: char, close: char, inclusive: bool) -> (r: String)
    requires
        is_left_token(open),
        close == right_of(open),
    ensures
        r@ == if inclusive {
            seq![open] + trim_spec(join_frags_spec(frags.deep_view())) + seq![close]
        } else {
            join_frags_spec(frags.deep_view())
        },
{
    let mut joined = String::new();
    let mut k: usize = 0;
    let n = frags.len();
    while k < n
        invariant
            n == frags.len(),
            k <= n,
            joined@ == join_frags_spec(frags.deep_view().take(k as int)),
        decreases n - k,
    {
        let ghost before = joined@;
        let t = text::trim(frags[k].as_str());
        proof {
            reveal_strlit(",");
            reveal_strlit(" ");
            let tv = trim_spec(frags.deep_view()[k as int]);
            assert(t@ == tv);
            if tv.len() > 0 {
                assert(tv.subrange(tv.len() - 1, tv.len() as int) =~= seq![tv.last()]);
                assert(","@ =~= seq![',']);
            }
        }
        joined.append(t);
        if text::ends_with(t, ",") {
            joined.append(" ");
            proof {
                let tv = trim_spec(frags.deep_view()[k as int]);
                assert(tv.subrange(tv.len() - 1, tv.len() as int) == ","@);
                assert(seq![tv.last()][0] == tv.last());
                assert((","@)[0] == ',');
                assert(tv.len() > 0 && tv.last() == ',');
                assert(joined@ =~= before + join_one(tv));
            }
        } else {
            proof {
                let tv = trim_spec(frags.deep_view()[k as int]);
                if tv.len() > 0 && tv.last() == ',' {
                    assert(tv.subrange(tv.len() - 1, tv.len() as int) == ","@);
                    assert(false);
                }
                assert(joined@ =~= before + join_one(tv));
            }
        }
        proof {
            assert(frags.deep_view().take(k as int).push(frags.deep_view()[k as int])
                =~= frags.deep_view().take(k as int + 1));
            lemma_join_snoc(frags.deep_view().take(k as int), frags.deep_view()[k as int]);
        }
        k += 1;
    }
    proof {
        assert(frags.deep_view().take(n as int) =~= frags.deep_view());
    }
    if inclusive {
        let open_str: &str = if open == '(' {
            "("
        } else if open == '[' {
            "["
        } else {
            "{"
        };
        let close_str: &str = if close == ')' {
            ")"
        } else if close == ']' {
            "]"
        } else {
            "}"
        };
        proof {
            reveal_strlit("(");
            reveal_strlit("[");
            reveal_strlit("{");
            reveal_strlit(")");
            reveal_strlit("]");
            reveal_strlit("}");
        }
        let mut out = open_str.to_owned();
        out.append(text::trim(joined.as_str()));
        out.append(close_str);
        proof {
            assert(out@ =~= seq![open] + trim_spec(join_frags_spec(frags.deep_view())) + seq![
                close,
            ]);
        }
        out
    } else {
        joined
    }
}

} // verus!
