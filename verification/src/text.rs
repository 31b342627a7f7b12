use vstd::prelude::*;

verus! {

// ---------------------------------------------------------------------------
// Character classes
// ---------------------------------------------------------------------------

/// Whitespace as far as line trimming is concerned.
pub open spec fn is_space_char(c: char) -> bool {
    c == ' ' || c == '\t' || c == '\r' || c == '\n'
}

pub fn is_space(c: char) -> (r: bool)
    ensures
        r == is_space_char(c),
{
    c == ' ' || c == '\t' || c == '\r' || c == '\n'
}

// ---------------------------------------------------------------------------
// Trimming
// ---------------------------------------------------------------------------

pub open spec fn trim_start_spec(s: Seq<char>) -> Seq<char>
    decreases s.len(),
{
    if s.len() > 0 && is_space_char(s[0]) {
        trim_start_spec(s.drop_first())
    } else {
        s
    }
}

pub open spec fn trim_end_spec(s: Seq<char>) -> Seq<char>
    decreases s.len(),
{
    if s.len() > 0 && is_space_char(s.last()) {
        trim_end_spec(s.drop_last())
    } else {
        s
    }
}

/// The line with surrounding whitespace removed.
pub open spec fn trim_spec(s: Seq<char>) -> Seq<char> {
    trim_end_spec(trim_start_spec(s))
}

/// When the first `k` characters are spaces and the `k`-th is not,
/// trimming from the start drops exactly those `k` characters.
pub proof fn lemma_trim_start_skip(s: Seq<char>, k: int)
    requires
        0 <= k <= s.len(),
        forall|j: int| 0 <= j < k ==> is_space_char(s[j]),
        k == s.len() || !is_space_char(s[k]),
    ensures
        trim_start_spec(s) == s.skip(k),
    decreases k,
{
    if k == 0 {
        assert(s.skip(0) =~= s);
    } else {
        lemma_trim_start_skip(s.drop_first(), k - 1);
        assert(s.drop_first().skip(k - 1) =~= s.skip(k));
    }
}

/// When the characters from `k` on are spaces and the one before `k` is not,
/// trimming from the end keeps exactly the first `k` characters.
pub proof fn lemma_trim_end_take(s: Seq<char>, k: int)
    requires
        0 <= k <= s.len(),
        forall|j: int| k <= j < s.len() ==> is_space_char(s[j]),
        k == 0 || !is_space_char(s[k - 1]),
    ensures
        trim_end_spec(s) == s.take(k),
    decreases s.len() - k,
{
    if k == s.len() {
        assert(s.take(k) =~= s);
    } else {
        lemma_trim_end_take(s.drop_last(), k);
        assert(s.drop_last().take(k) =~= s.take(k));
    }
}

pub fn trim(s: &str) -> (r: &str)
    ensures
        r@ == trim_spec(s@),
{
    let n = s.unicode_len();
    let mut lo: usize = 0;
    while lo < n && is_space(s.get_char(lo))
        invariant
            n == s@.len(),
            lo <= n,
            forall|j: int| 0 <= j < lo ==> is_space_char(s@[j]),
        decreases n - lo,
    {
        lo += 1;
    }
    let mut hi: usize = n;
    while hi > lo && is_space(s.get_char(hi - 1))
        invariant
            n == s@.len(),
            lo <= hi <= n,
            forall|j: int| hi <= j < n ==> is_space_char(s@[j]),
        decreases hi,
    {
        hi -= 1;
    }
    proof {
        lemma_trim_start_skip(s@, lo as int);
        lemma_trim_end_take(s@.skip(lo as int), hi - lo);
        assert(s@.skip(lo as int).take(hi - lo) =~= s@.subrange(lo as int, hi as int));
    }
    s.substring_char(lo, hi)
}

// ---------------------------------------------------------------------------
// Searching
// ---------------------------------------------------------------------------

/// Index of the first occurrence of `c` in `s`, or -1 when absent.
pub open spec fn find_char_spec(s: Seq<char>, c: char) -> int
    decreases s.len(),
{
    if s.len() == 0 {
        -1
    } else if s[0] == c {
        0
    } else {
        let r = find_char_spec(s.drop_first(), c);
        if r < 0 {
            -1
        } else {
            1 + r
        }
    }
}

/// `find_char_spec` names the first occurrence, when there is one.
pub proof fn lemma_find_char_props(s: Seq<char>, c: char)
    ensures
        find_char_spec(s, c) == -1 ==> forall|j: int| 0 <= j < s.len() ==> s[j] != c,
        find_char_spec(s, c) != -1 ==> {
            let f = find_char_spec(s, c);
            0 <= f < s.len() && s[f] == c && forall|j: int| 0 <= j < f ==> s[j] != c
        },
    decreases s.len(),
{
    if s.len() == 0 {
    } else if s[0] == c {
    } else {
        lemma_find_char_props(s.drop_first(), c);
        let fd = find_char_spec(s.drop_first(), c);
        if fd == -1 {
            assert forall|j: int| 0 <= j < s.len() implies s[j] != c by {
                if j > 0 {
                    assert(s.drop_first()[j - 1] != c);
                }
            }
        } else {
            assert(s[fd + 1] == s.drop_first()[fd]);
            assert forall|j: int| 0 <= j < fd + 1 implies s[j] != c by {
                if j > 0 {
                    assert(s.drop_first()[j - 1] != c);
                }
            }
        }
    }
}

pub fn find_char(s: &str, c: char) -> (r: Option<usize>)
    ensures
        match r {
            Some(i) => i == find_char_spec(s@, c),
            None => find_char_spec(s@, c) == -1,
        },
{
    let n = s.unicode_len();
    let mut i: usize = 0;
    while i < n
        invariant
            n == s@.len(),
            i <= n,
            forall|j: int| 0 <= j < i ==> s@[j] != c,
        decreases n - i,
    {
        if s.get_char(i) == c {
            proof {
                lemma_find_char_props(s@, c);
            }
            return Some(i);
        }
        i += 1;
    }
    proof {
        lemma_find_char_props(s@, c);
    }
    None
}

pub fn contains_char(s: &str, c: char) -> (r: bool)
    ensures
        r == (find_char_spec(s@, c) >= 0),
{
    find_char(s, c).is_some()
}

// ---------------------------------------------------------------------------
// Prefix and suffix tests
// ---------------------------------------------------------------------------

pub open spec fn starts_with_spec(s: Seq<char>, p: Seq<char>) -> bool {
    p.len() <= s.len() && s.subrange(0, p.len() as int) == p
}

pub open spec fn ends_with_spec(s: Seq<char>, p: Seq<char>) -> bool {
    p.len() <= s.len() && s.subrange(s.len() - p.len(), s.len() as int) == p
}

pub fn starts_with(s: &str, p: &str) -> (r: bool)
    ensures
        r == starts_with_spec(s@, p@),
{
    let n = s.unicode_len();
    let np = p.unicode_len();
    if np > n {
        return false;
    }
    let mut i: usize = 0;
    while i < np
        invariant
            n == s@.len(),
            np == p@.len(),
            np <= n,
            i <= np,
            forall|j: int| 0 <= j < i ==> s@[j] == p@[j],
        decreases np - i,
    {
        if s.get_char(i) != p.get_char(i) {
            assert(s@.subrange(0, np as int)[i as int] != p@[i as int]);
            return false;
        }
        i += 1;
    }
    assert(s@.subrange(0, np as int) =~= p@);
    true
}

pub fn ends_with(s: &str, p: &str) -> (r: bool)
    ensures
        r == ends_with_spec(s@, p@),
{
    let n = s.unicode_len();
    let np = p.unicode_len();
    if np > n {
        return false;
    }
    let off = n - np;
    let mut i: usize = 0;
    while i < np
        invariant
            n == s@.len(),
            np == p@.len(),
            off == n - np,
            i <= np,
            forall|j: int| 0 <= j < i ==> s@[off + j] == p@[j],
        decreases np - i,
    {
        if s.get_char(off + i) != p.get_char(i) {
            assert(s@.subrange(off as int, n as int)[i as int] != p@[i as int]);
            return false;
        }
        i += 1;
    }
    assert(s@.subrange(off as int, n as int) =~= p@);
    true
}

/// True when the two string slices hold the same characters.
pub fn str_eq(a: &str, b: &str) -> (r: bool)
    ensures
        r == (a@ == b@),
{
    let na = a.unicode_len();
    let nb = b.unicode_len();
    if na != nb {
        assert(a@ != b@);
        return false;
    }
    let mut i: usize = 0;
    while i < na
        invariant
            na == a@.len(),
            na == b@.len(),
            i <= na,
            forall|j: int| 0 <= j < i ==> a@[j] == b@[j],
        decreases na - i,
    {
        if a.get_char(i) != b.get_char(i) {
            return false;
        }
        i += 1;
    }
    assert(a@ =~= b@);
    true
}

// ---------------------------------------------------------------------------
// Plain splitting on one character
// ---------------------------------------------------------------------------

/// Split on every occurrence of `c`; always returns at least one segment.
pub open spec fn split_char_spec(s: Seq<char>, c: char) -> Seq<Seq<char>>
    decreases s.len(),
{
    let f = find_char_spec(s, c);
    // `f < s.len()` always holds when `f >= 0`; stating it here keeps the
    // recursion self-evidently well-founded.
    if 0 <= f < s.len() {
        seq![s.take(f)] + split_char_spec(s.skip(f + 1), c)
    } else {
        seq![s]
    }
}

pub fn split_char(s: &str, c: char) -> (r: Vec<String>)
    ensures
        r.deep_view() == split_char_spec(s@, c),
    decreases s@.len(),
{
    let n = s.unicode_len();
    match find_char(s, c) {
        None => {
            let mut r: Vec<String> = Vec::new();
            r.push(s.to_owned());
            assert(r.deep_view() =~= split_char_spec(s@, c));
            r
        },
        Some(f) => {
            proof {
                lemma_find_char_props(s@, c);
            }
            let head = s.substring_char(0, f).to_owned();
            let rest = s.substring_char(f + 1, n);
            let mut r = split_char(rest, c);
            r.insert(0, head);
            assert(head@ == s@.take(f as int));
            assert(rest@ == s@.skip(f as int + 1));
            assert(r.deep_view() =~= split_char_spec(s@, c));
            r
        },
    }
}

// ---------------------------------------------------------------------------
// Lines
// ---------------------------------------------------------------------------

/// One carriage return at the end of a line is part of the line break.
pub open spec fn strip_cr_spec(l: Seq<char>) -> Seq<char> {
    if l.len() > 0 && l.last() == '\r' {
        l.drop_last()
    } else {
        l
    }
}

/// The text split into lines: segments between `\n` characters, a final line
/// break producing no extra empty line, and one trailing `\r` dropped per
/// line.
pub open spec fn split_lines_spec(s: Seq<char>) -> Seq<Seq<char>> {
    let raw = split_char_spec(s, '\n');
    let cut = if raw.len() > 0 && raw.last().len() == 0 {
        raw.drop_last()
    } else {
        raw
    };
    cut.map(|i: int, l: Seq<char>| strip_cr_spec(l))
}

pub fn split_lines(s: &str) -> (r: Vec<String>)
    ensures
        r.deep_view() == split_lines_spec(s@),
{
    let mut raw = split_char(s, '\n');
    let ghost raw0 = raw.deep_view();
    if raw.len() > 0 && raw[raw.len() - 1].as_str().unicode_len() == 0 {
        let _ = raw.pop();
        proof {
            assert(raw.deep_view() =~= raw0.drop_last());
        }
    }
    let ghost cut = raw.deep_view();
    let mut out: Vec<String> = Vec::new();
    let mut i: usize = 0;
    let n = raw.len();
    while i < n
        invariant
            n == raw.len(),
            raw.deep_view() == cut,
            i <= n,
            out.deep_view() == cut.map(|k: int, l: Seq<char>| strip_cr_spec(l)).take(i as int),
        decreases n - i,
    {
        let ghost prev = out.deep_view();
        let l: &str = raw[i].as_str();
        let ln = l.unicode_len();
        proof {
            reveal_strlit("\r");
            if l@.len() > 0 {
                assert(l@.subrange(l@.len() - 1, l@.len() as int) =~= seq![l@.last()]);
                assert(("\r"@)[0] == '\r');
                if l@.last() == '\r' {
                    assert(l@.subrange(l@.len() - 1, l@.len() as int) =~= "\r"@);
                }
            }
        }
        if ends_with(l, "\r") {
            let head = l.substring_char(0, ln - 1);
            proof {
                assert(head@ =~= strip_cr_spec(l@));
            }
            out.push(head.to_owned());
        } else {
            proof {
                assert(l@ == strip_cr_spec(l@));
            }
            out.push(l.to_owned());
        }
        proof {
            assert(out.deep_view() =~= prev.push(strip_cr_spec(cut[i as int])));
            assert(out.deep_view() =~= cut.map(|k: int, l: Seq<char>| strip_cr_spec(l)).take(
                i as int + 1,
            ));
        }
        i += 1;
    }
    proof {
        let m = cut.map(|k: int, l: Seq<char>| strip_cr_spec(l));
        assert(m.take(n as int) =~= m);
        assert(out.deep_view() =~= split_lines_spec(s@));
    }
    out
}

// ---------------------------------------------------------------------------
// Tokens
// ---------------------------------------------------------------------------

/// The first space-delimited token of the trimmed line.
pub open spec fn first_token_spec(s: Seq<char>) -> Seq<char> {
    let t = trim_spec(s);
    let f = find_char_spec(t, ' ');
    if f < 0 {
        t
    } else {
        t.take(f)
    }
}

pub fn first_token(s: &str) -> (r: &str)
    ensures
        r@ == first_token_spec(s@),
{
    let t = trim(s);
    match find_char(t, ' ') {
        None => t,
        Some(f) => {
            proof {
                lemma_find_char_props(t@, ' ');
            }
            t.substring_char(0, f)
        },
    }
}

} // verus!
