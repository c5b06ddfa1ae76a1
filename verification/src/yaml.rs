//! Pure text pieces of the YAML preprocessor: quoting an evaluator
//! expression into a templated string, escaping, trimming, and substring
//! search. The preprocessor's line machinery interleaves with file reads
//! and lives with the host program; these are the rules it applies.

use vstd::prelude::*;

verus! {

broadcast use vstd::std_specs::vec::group_vec_axioms, vstd::seq::group_seq_axioms;

/// Relies on `str::chars`: the characters of the string, in order.
#[verifier::external_body]
pub fn str_chars(s: &str) -> (r: Vec<char>)
    ensures
        r@ == s@,
{
    s.chars().collect()
}

/// Relies on `String::from_iter`: the string holding exactly these
/// characters.
#[verifier::external_body]
pub fn chars_to_string(v: &Vec<char>) -> (r: String)
    ensures
        r@ == v@,
{
    v.iter().collect()
}

/// ASCII whitespace, as the preprocessor understands it.
pub open spec fn is_space(c: char) -> bool {
    c == ' ' || c == '\t' || c == '\r' || c == '\n'
}

pub fn char_is_space(c: char) -> (r: bool)
    ensures
        r == is_space(c),
{
    c == ' ' || c == '\t' || c == '\r' || c == '\n'
}

/// Every `"` doubled into `\"`.
pub open spec fn escape_quotes_spec(s: Seq<char>) -> Seq<char>
    decreases s.len(),
{
    if s.len() == 0 {
        Seq::empty()
    } else {
        (if s[0] == '"' {
            seq!['\\', '"']
        } else {
            seq![s[0]]
        }) + escape_quotes_spec(s.drop_first())
    }
}

/// The text with ASCII whitespace removed at both ends.
pub open spec fn trim_spec(s: Seq<char>) -> Seq<char>
    decreases s.len(),
{
    if s.len() == 0 {
        s
    } else if is_space(s[0]) {
        trim_spec(s.drop_first())
    } else if is_space(s[s.len() - 1]) {
        trim_spec(s.drop_last())
    } else {
        s
    }
}

/// First occurrence of the pattern, or -1.
pub open spec fn find_sub_spec(s: Seq<char>, pat: Seq<char>, from: int) -> int
    decreases s.len() - from + 1,
{
    if from < 0 || from + pat.len() > s.len() {
        -1
    } else if s.subrange(from, from + pat.len()) == pat {
        from
    } else {
        find_sub_spec(s, pat, from + 1)
    }
}

/// Escape the quotes of an expression.
#[verifier::loop_isolation(false)]
pub fn escape_quotes(s: &Vec<char>) -> (r: Vec<char>)
    ensures
        r@ == escape_quotes_spec(s@),
{
    let ghost sv = s@;
    let n = s.len();
    let mut out: Vec<char> = Vec::new();
    let mut i: usize = 0;
    proof {
        assert(sv.subrange(0, n as int) =~= sv);
    }
    while i < n
        invariant
            0 <= i <= n,
            escape_quotes_spec(sv) == out@ + escape_quotes_spec(sv.subrange(i as int, n as int)),
        decreases n - i,
    {
        let ghost restv = sv.subrange(i as int, n as int);
        proof {
            assert(restv[0] == sv[i as int]);
            assert(restv.drop_first() =~= sv.subrange(i as int + 1, n as int));
        }
        let c = s[i];
        let ghost prev = out@;
        if c == '"' {
            out.push('\\');
            out.push('"');
            proof {
                assert(out@ =~= prev + seq!['\\', '"']);
                assert(prev + (seq!['\\', '"'] + escape_quotes_spec(restv.drop_first()))
                    =~= (prev + seq!['\\', '"']) + escape_quotes_spec(restv.drop_first()));
            }
        } else {
            out.push(c);
            proof {
                assert(out@ =~= prev + seq![c]);
                assert(prev + (seq![c] + escape_quotes_spec(restv.drop_first())) =~= (prev + seq![
                    c,
                ]) + escape_quotes_spec(restv.drop_first()));
            }
        }
        i = i + 1;
    }
    proof {
        assert(sv.subrange(i as int, n as int) =~= Seq::<char>::empty());
        assert(out@ + Seq::<char>::empty() =~= out@);
    }
    out
}

/// Trim ASCII whitespace at both ends.
#[verifier::loop_isolation(false)]
pub fn trim_chars(s: &Vec<char>) -> (r: Vec<char>)
    ensures
        r@ == trim_spec(s@),
{
    let n = s.len();
    proof {
        assert(s@.subrange(0, n as int) =~= s@);
    }
    let mut lo: usize = 0;
    while lo < n && char_is_space(s[lo])
        invariant
            0 <= lo <= n,
            trim_spec(s@) == trim_spec(s@.subrange(lo as int, n as int)),
            forall|j: int| 0 <= j < lo ==> is_space(s@[j]),
        decreases n - lo,
    {
        proof {
            let cur = s@.subrange(lo as int, n as int);
            assert(cur[0] == s@[lo as int]);
            assert(cur.drop_first() =~= s@.subrange(lo as int + 1, n as int));
        }
        lo = lo + 1;
    }
    let mut hi: usize = n;
    while hi > lo && char_is_space(s[hi - 1])
        invariant
            lo <= hi <= n,
            trim_spec(s@) == trim_spec(s@.subrange(lo as int, hi as int)),
            lo < n ==> !is_space(s@[lo as int]),
            lo == hi ==> trim_spec(s@) == Seq::<char>::empty(),
        decreases hi,
    {
        proof {
            let cur = s@.subrange(lo as int, hi as int);
            assert(cur[cur.len() - 1] == s@[hi as int - 1]);
            assert(cur.drop_last() =~= s@.subrange(lo as int, hi as int - 1));
            if cur.len() > 0 {
                assert(cur[0] == s@[lo as int]);
            }
        }
        hi = hi - 1;
    }
    let mut out: Vec<char> = Vec::new();
    let mut i: usize = lo;
    while i < hi
        invariant
            lo <= i <= hi <= n,
            out@ =~= s@.subrange(lo as int, i as int),
        decreases hi - i,
    {
        out.push(s[i]);
        proof {
            assert(out@ =~= s@.subrange(lo as int, i as int + 1));
        }
        i = i + 1;
    }
    proof {
        let cur = s@.subrange(lo as int, hi as int);
        if lo < hi {
            assert(cur[0] == s@[lo as int]);
            assert(cur[cur.len() - 1] == s@[hi as int - 1]);
            assert(trim_spec(cur) == cur);
        }
        assert(out@ =~= cur);
    }
    out
}

/// First occurrence of the pattern at or after `from`, as executable
/// search.
#[verifier::loop_isolation(false)]
pub fn find_sub(s: &Vec<char>, pat: &Vec<char>, from: usize) -> (r: Option<usize>)
    ensures
        match r {
            Some(i) => from <= i && i + pat@.len() <= s@.len() && find_sub_spec(
                s@,
                pat@,
                from as int,
            ) == i,
            None => find_sub_spec(s@, pat@, from as int) == -1,
        },
{
    let n = s.len();
    let m = pat.len();
    if from > n || m > n - from {
        proof {
            assert(find_sub_spec(s@, pat@, from as int) == -1);
        }
        return None;
    }
    if m == 0 {
        proof {
            assert(s@.subrange(from as int, from as int) =~= pat@);
        }
        return Some(from);
    }
    let mut i: usize = from;
    while i <= n - m
        invariant
            from <= i,
            1 <= m <= n,
            i <= n - m + 1,
            find_sub_spec(s@, pat@, from as int) == find_sub_spec(s@, pat@, i as int),
        decreases n - i,
    {
        let mut k: usize = 0;
        let mut matched: bool = true;
        while k < m
            invariant
                0 <= k <= m,
                i + m <= n,
                matched ==> forall|j: int| 0 <= j < k ==> s@[i + j] == pat@[j],
                !matched ==> s@.subrange(i as int, i as int + m as int) != pat@,
            decreases m - k,
        {
            if s[i + k] != pat[k] {
                proof {
                    assert(s@.subrange(i as int, i as int + m as int)[k as int] == s@[i + k]);
                }
                matched = false;
                k = m;
            } else {
                k = k + 1;
            }
        }
        if matched {
            proof {
                assert(s@.subrange(i as int, i as int + m as int) =~= pat@);
            }
            return Some(i);
        }
        proof {
            assert(find_sub_spec(s@, pat@, i as int) == find_sub_spec(s@, pat@, i as int + 1));
        }
        i = i + 1;
    }
    proof {
        assert(find_sub_spec(s@, pat@, i as int) == -1);
    }
    None
}

/// An expression wrapped for the run-time evaluator: `"{{ expr }}"`, the
/// expression's quotes escaped.
pub open spec fn wrap_eval_spec(expr: Seq<char>) -> Seq<char> {
    seq!['"', '{', '{', ' '] + escape_quotes_spec(expr) + seq![' ', '}', '}', '"']
}

/// Wrap an evaluator expression into a quoted template.
pub fn wrap_eval(expr: &Vec<char>) -> (r: Vec<char>)
    ensures
        r@ == wrap_eval_spec(expr@),
{
    let mut out: Vec<char> = Vec::new();
    out.push('"');
    out.push('{');
    out.push('{');
    out.push(' ');
    let escaped = escape_quotes(expr);
    let n = escaped.len();
    let mut i: usize = 0;
    while i < n
        invariant
            0 <= i <= n,
            n == escaped@.len(),
            out@ =~= seq!['"', '{', '{', ' '] + escaped@.subrange(0, i as int),
        decreases n - i,
    {
        out.push(escaped[i]);
        proof {
            assert(escaped@.subrange(0, i as int + 1) =~= escaped@.subrange(0, i as int).push(
                escaped@[i as int],
            ));
        }
        i = i + 1;
    }
    out.push(' ');
    out.push('}');
    out.push('}');
    out.push('"');
    proof {
        assert(escaped@.subrange(0, n as int) =~= escaped@);
        assert(out@ =~= wrap_eval_spec(expr@));
    }
    out
}


/// The `!eval` marker.
pub open spec fn eval_marker() -> Seq<char> {
    seq!['!', 'e', 'v', 'a', 'l']
}

/// A markdown-style fence.
pub open spec fn fence() -> Seq<char> {
    seq!['`', '`', '`']
}

/// `n` spaces.
pub open spec fn spaces(n: int) -> Seq<char> {
    Seq::new(n as nat, |i: int| ' ')
}

/// A line without a trailing carriage return.
pub open spec fn strip_cr(l: Seq<char>) -> Seq<char> {
    if l.len() > 0 && l[l.len() - 1] == '\r' {
        l.drop_last()
    } else {
        l
    }
}

/// The lines of a text, split at newlines; a trailing newline opens no
/// extra line.
pub open spec fn split_lines_spec(s: Seq<char>) -> Seq<Seq<char>>
    decreases s.len(),
{
    if s.len() == 0 {
        Seq::empty()
    } else {
        let d = crate::value::find_char(s, '\n');
        if d == -1 {
            seq![strip_cr(s)]
        } else {
            proof {
                crate::value::lemma_find_char_bounds(s, '\n');
            }
            seq![strip_cr(s.subrange(0, d))] + split_lines_spec(s.subrange(d + 1, s.len() as int))
        }
    }
}

/// Lines joined with newlines.
pub open spec fn join_nl(lines: Seq<Seq<char>>) -> Seq<char>
    decreases lines.len(),
{
    if lines.len() == 0 {
        Seq::empty()
    } else if lines.len() == 1 {
        lines[0]
    } else {
        lines[0] + seq!['\n'] + join_nl(lines.drop_first())
    }
}

/// Lines joined with single spaces.
pub open spec fn join_sp(lines: Seq<Seq<char>>) -> Seq<char>
    decreases lines.len(),
{
    if lines.len() == 0 {
        Seq::empty()
    } else if lines.len() == 1 {
        lines[0]
    } else {
        lines[0] + seq![' '] + join_sp(lines.drop_first())
    }
}

/// The number of leading ASCII whitespace characters.
pub open spec fn lead_ws(l: Seq<char>) -> int
    decreases l.len(),
{
    if l.len() == 0 || !is_space(l[0]) {
        0
    } else {
        1 + lead_ws(l.drop_first())
    }
}

/// The tail of a line from `k` on; short lines give nothing.
pub open spec fn skip_safe(l: Seq<char>, k: int) -> Seq<char> {
    if k >= l.len() {
        Seq::empty()
    } else {
        l.subrange(k, l.len() as int)
    }
}

/// A fenced block: the trimmed lines up to the closing fence, and how
/// many lines that consumed, the fence included.
pub open spec fn fence_take(rest: Seq<Seq<char>>) -> (Seq<Seq<char>>, int)
    decreases rest.len(),
{
    if rest.len() == 0 {
        (Seq::empty(), 0)
    } else if trim_spec(rest[0]) == fence() {
        (Seq::empty(), 1)
    } else {
        let r = fence_take(rest.drop_first());
        (seq![trim_spec(rest[0])] + r.0, r.1 + 1)
    }
}

/// An indented block under position `pos`: blank lines and lines indented
/// past `pos`, each taken from `pos + 1` on and trimmed, and how many
/// lines that consumed.
pub open spec fn indent_take(rest: Seq<Seq<char>>, pos: int) -> (Seq<Seq<char>>, int)
    decreases rest.len(),
{
    if rest.len() == 0 {
        (Seq::empty(), 0)
    } else {
        let l = rest[0];
        if trim_spec(l).len() == 0 || lead_ws(l) > pos {
            let r = indent_take(rest.drop_first(), pos);
            (seq![trim_spec(skip_safe(l, pos + 1))] + r.0, r.1 + 1)
        } else {
            (Seq::empty(), 0)
        }
    }
}

pub proof fn lemma_fence_take_bounds(rest: Seq<Seq<char>>)
    ensures
        0 <= fence_take(rest).1 <= rest.len(),
    decreases rest.len(),
{
    if rest.len() > 0 && trim_spec(rest[0]) != fence() {
        lemma_fence_take_bounds(rest.drop_first());
    }
}

pub proof fn lemma_indent_take_bounds(rest: Seq<Seq<char>>, pos: int)
    ensures
        0 <= indent_take(rest, pos).1 <= rest.len(),
    decreases rest.len(),
{
    if rest.len() > 0 {
        lemma_indent_take_bounds(rest.drop_first(), pos);
    }
}

/// The line an `!eval` directive leaves behind, and how many of the
/// following lines it consumed.
pub open spec fn eval_line_out(l: Seq<char>, rest: Seq<Seq<char>>, p: int) -> (Seq<char>, int) {
    let before = l.subrange(0, p);
    let after = trim_spec(skip_safe(l, p + 5));
    if after.len() >= 3 && after.subrange(0, 3) == fence() {
        if after.len() == 3 {
            let t = fence_take(rest);
            let content = join_sp(t.0);
            if trim_spec(before).len() == 0 {
                (spaces(p) + wrap_eval_spec(content), t.1)
            } else {
                (before + wrap_eval_spec(content), t.1)
            }
        } else {
            let inner = skip_safe(after, 3);
            let e = find_sub_spec(inner, fence(), 0);
            let content = if e == -1 {
                Seq::<char>::empty()
            } else {
                trim_spec(inner.subrange(0, e))
            };
            if trim_spec(before).len() == 0 {
                (spaces(p) + wrap_eval_spec(content), 0)
            } else {
                (before + wrap_eval_spec(content), 0)
            }
        }
    } else if after.len() > 0 {
        (before + wrap_eval_spec(after), 0)
    } else {
        let t = indent_take(rest, p);
        (spaces(p) + wrap_eval_spec(join_sp(t.0)), t.1)
    }
}

/// The `!eval` rewriting, line by line: a line without the marker passes
/// through; one with it becomes a quoted template of the expression,
/// taken from the line itself, a fenced block, or an indented block.
pub open spec fn eval_lines_spec(lines: Seq<Seq<char>>) -> Seq<Seq<char>>
    decreases lines.len(),
{
    if lines.len() == 0 {
        Seq::empty()
    } else {
        let l = lines[0];
        let rest = lines.drop_first();
        let p = find_sub_spec(l, eval_marker(), 0);
        if p == -1 {
            seq![l] + eval_lines_spec(rest)
        } else {
            let out = eval_line_out(l, rest, p);
            proof {
                lemma_fence_take_bounds(rest);
                lemma_indent_take_bounds(rest, p);
            }
            // The consumed count always lies within the remaining lines
            // (see the bounds lemmas above); the test keeps the recursion
            // measure decreasing.
            if 0 <= out.1 <= rest.len() {
                seq![out.0] + eval_lines_spec(rest.skip(out.1))
            } else {
                seq![out.0] + eval_lines_spec(rest)
            }
        }
    }
}


/// The model of a list of lines.
pub open spec fn view_lines(ls: Seq<Vec<char>>) -> Seq<Seq<char>> {
    Seq::new(ls.len(), |i: int| ls[i]@)
}

/// Copy a character range.
#[verifier::loop_isolation(false)]
pub(crate) fn copy_range(s: &Vec<char>, a: usize, b: usize) -> (r: Vec<char>)
    requires
        a <= b <= s@.len(),
    ensures
        r@ == s@.subrange(a as int, b as int),
{
    let mut out: Vec<char> = Vec::new();
    let mut i: usize = a;
    while i < b
        invariant
            a <= i <= b,
            out@ =~= s@.subrange(a as int, i as int),
        decreases b - i,
    {
        out.push(s[i]);
        proof {
            assert(out@ =~= s@.subrange(a as int, i as int + 1));
        }
        i = i + 1;
    }
    out
}

/// Equality of two character lists.
#[verifier::loop_isolation(false)]
pub(crate) fn chars_eq(a: &Vec<char>, b: &Vec<char>) -> (r: bool)
    ensures
        r == (a@ == b@),
{
    let n = a.len();
    if n != b.len() {
        return false;
    }
    let mut i: usize = 0;
    while i < n
        invariant
            0 <= i <= n,
            forall|j: int| 0 <= j < i ==> a@[j] == b@[j],
        decreases n - i,
    {
        if a[i] != b[i] {
            return false;
        }
        i = i + 1;
    }
    proof {
        assert(a@ =~= b@);
    }
    true
}

#[verifier::loop_isolation(false)]
fn spaces_exec(n: usize) -> (r: Vec<char>)
    ensures
        r@ == spaces(n as int),
{
    let mut out: Vec<char> = Vec::new();
    let mut i: usize = 0;
    while i < n
        invariant
            0 <= i <= n,
            out@ =~= spaces(i as int),
        decreases n - i,
    {
        out.push(' ');
        proof {
            assert(out@ =~= spaces(i as int + 1));
        }
        i = i + 1;
    }
    out
}

/// The tail of a line from `k` on.
fn skip_safe_exec(l: &Vec<char>, k: usize) -> (r: Vec<char>)
    ensures
        r@ == skip_safe(l@, k as int),
{
    if k >= l.len() {
        proof {
            assert(Seq::<char>::empty() =~= skip_safe(l@, k as int));
        }
        Vec::new()
    } else {
        copy_range(l, k, l.len())
    }
}

/// Leading ASCII whitespace of the tail of a line.
fn lead_ws_exec(l: &Vec<char>, k: usize) -> (r: usize)
    requires
        k <= l@.len(),
    ensures
        r as int == lead_ws(l@.skip(k as int)),
        r <= l@.len() - k,
    decreases l@.len() - k,
{
    let ghost tail = l@.skip(k as int);
    if k == l.len() || !char_is_space(l[k]) {
        proof {
            if tail.len() > 0 {
                assert(tail[0] == l@[k as int]);
            }
        }
        0
    } else {
        proof {
            assert(tail[0] == l@[k as int]);
            assert(tail.drop_first() =~= l@.skip(k as int + 1));
        }
        let rest = lead_ws_exec(l, k + 1);
        1 + rest
    }
}

fn join_sp_from(lines: &Vec<Vec<char>>, k: usize) -> (r: Vec<char>)
    requires
        k <= lines@.len(),
    ensures
        r@ == join_sp(view_lines(lines@).skip(k as int)),
    decreases lines@.len() - k,
{
    let ghost tail = view_lines(lines@).skip(k as int);
    if k >= lines.len() {
        proof {
            assert(tail =~= Seq::<Seq<char>>::empty());
        }
        Vec::new()
    } else if k == lines.len() - 1 {
        proof {
            assert(tail.len() == 1);
            assert(tail[0] == lines@[k as int]@);
        }
        let line = &lines[k];
        copy_range(line, 0, line.len())
    } else {
        proof {
            assert(tail[0] == lines@[k as int]@);
            assert(tail.drop_first() =~= view_lines(lines@).skip(k as int + 1));
        }
        let line = &lines[k];
        let mut out = copy_range(line, 0, line.len());
        out.push(' ');
        let mut rest = join_sp_from(lines, k + 1);
        out.append(&mut rest);
        proof {
            assert(out@ =~= tail[0] + seq![' '] + join_sp(tail.drop_first()));
        }
        out
    }
}

fn join_nl_from(lines: &Vec<Vec<char>>, k: usize) -> (r: Vec<char>)
    requires
        k <= lines@.len(),
    ensures
        r@ == join_nl(view_lines(lines@).skip(k as int)),
    decreases lines@.len() - k,
{
    let ghost tail = view_lines(lines@).skip(k as int);
    if k >= lines.len() {
        proof {
            assert(tail =~= Seq::<Seq<char>>::empty());
        }
        Vec::new()
    } else if k == lines.len() - 1 {
        proof {
            assert(tail.len() == 1);
            assert(tail[0] == lines@[k as int]@);
        }
        let line = &lines[k];
        copy_range(line, 0, line.len())
    } else {
        proof {
            assert(tail[0] == lines@[k as int]@);
            assert(tail.drop_first() =~= view_lines(lines@).skip(k as int + 1));
        }
        let line = &lines[k];
        let mut out = copy_range(line, 0, line.len());
        out.push('\n');
        let mut rest = join_nl_from(lines, k + 1);
        out.append(&mut rest);
        proof {
            assert(out@ =~= tail[0] + seq!['\n'] + join_nl(tail.drop_first()));
        }
        out
    }
}

/// Split a text into lines from position `start` on.
#[verifier::loop_isolation(false)]
fn split_from(s: &Vec<char>, start: usize) -> (r: Vec<Vec<char>>)
    requires
        start <= s@.len(),
    ensures
        view_lines(r@) == split_lines_spec(s@.skip(start as int)),
    decreases s@.len() - start,
{
    let ghost tail = s@.skip(start as int);
    if start == s.len() {
        proof {
            assert(tail =~= Seq::<char>::empty());
            assert(view_lines(Seq::<Vec<char>>::empty()) =~= Seq::<Seq<char>>::empty());
        }
        return Vec::new();
    }
    // find the next newline
    let n = s.len();
    let mut d: usize = start;
    while d < n && s[d] != '\n'
        invariant
            start <= d <= n,
            forall|j: int| start <= j < d ==> s@[j] != '\n',
        decreases n - d,
    {
        d = d + 1;
    }
    proof {
        assert forall|j: int| 0 <= j < d - start implies tail[j] != '\n' by {
            assert(tail[j] == s@[start + j]);
        }
        if d < n {
            assert(tail[d - start] == s@[d as int]);
            crate::value::lemma_find_char_first(tail, '\n', d as int - start as int);
        } else {
            crate::value::lemma_find_char_none(tail, '\n');
        }
    }
    let mut line = copy_range(s, start, d);
    proof {
        assert(line@ =~= tail.subrange(0, d as int - start as int));
    }
    let line_len = line.len();
    if line_len > 0 && line[line_len - 1] == '\r' {
        line.pop();
    }
    proof {
        assert(line@ =~= strip_cr(tail.subrange(0, d as int - start as int)));
        if d == n {
            assert(tail.subrange(0, d as int - start as int) =~= tail);
        }
    }
    if d == n {
        let mut out: Vec<Vec<char>> = Vec::new();
        out.push(line);
        proof {
            assert(view_lines(out@) =~= seq![strip_cr(tail)]);
        }
        out
    } else {
        let mut rest = split_from(s, d + 1);
        proof {
            assert(s@.skip(d as int + 1) =~= tail.subrange(
                d as int - start as int + 1,
                tail.len() as int,
            ));
        }
        let mut out: Vec<Vec<char>> = Vec::new();
        out.push(line);
        let ghost head_view = view_lines(out@);
        proof {
            lemma_view_lines_append(out@, rest@);
        }
        out.append(&mut rest);
        proof {
            assert(view_lines(out@) =~= split_lines_spec(tail));
        }
        out
    }
}

/// Views distribute over appending line lists.
proof fn lemma_view_lines_append(a: Seq<Vec<char>>, b: Seq<Vec<char>>)
    ensures
        view_lines(a + b) == view_lines(a) + view_lines(b),
{
    assert(view_lines(a + b) =~= view_lines(a) + view_lines(b));
}


/// Collect a fenced block from line `j` on.
fn fence_collect(lines: &Vec<Vec<char>>, j: usize) -> (r: (Vec<Vec<char>>, usize))
    requires
        j <= lines@.len(),
    ensures
        view_lines(r.0@) == fence_take(view_lines(lines@).skip(j as int)).0,
        r.1 as int == fence_take(view_lines(lines@).skip(j as int)).1,
        j + r.1 <= lines@.len(),
    decreases lines@.len() - j,
{
    let ghost tail = view_lines(lines@).skip(j as int);
    if j == lines.len() {
        proof {
            assert(tail =~= Seq::<Seq<char>>::empty());
            assert(view_lines(Seq::<Vec<char>>::empty()) =~= Seq::<Seq<char>>::empty());
        }
        return (Vec::new(), 0);
    }
    proof {
        assert(tail[0] == lines@[j as int]@);
        assert(tail.drop_first() =~= view_lines(lines@).skip(j as int + 1));
    }
    let line = &lines[j];
    let t = trim_chars(line);
    let f: Vec<char> = vec!['`', '`', '`'];
    proof {
        assert(f@ =~= fence());
    }
    if chars_eq(&t, &f) {
        proof {
            assert(view_lines(Seq::<Vec<char>>::empty()) =~= Seq::<Seq<char>>::empty());
        }
        (Vec::new(), 1)
    } else {
        let rest = fence_collect(lines, j + 1);
        let (mut block, consumed) = rest;
        let mut out: Vec<Vec<char>> = Vec::new();
        out.push(t);
        proof {
            lemma_view_lines_append(out@, block@);
        }
        out.append(&mut block);
        proof {
            assert(view_lines(out@) =~= fence_take(tail).0);
        }
        (out, consumed + 1)
    }
}

/// Collect an indented block under position `pos` from line `j` on.
fn indent_collect(lines: &Vec<Vec<char>>, j: usize, pos: usize) -> (r: (Vec<Vec<char>>, usize))
    requires
        j <= lines@.len(),
        pos < usize::MAX,
    ensures
        view_lines(r.0@) == indent_take(view_lines(lines@).skip(j as int), pos as int).0,
        r.1 as int == indent_take(view_lines(lines@).skip(j as int), pos as int).1,
        j + r.1 <= lines@.len(),
    decreases lines@.len() - j,
{
    let ghost tail = view_lines(lines@).skip(j as int);
    if j == lines.len() {
        proof {
            assert(tail =~= Seq::<Seq<char>>::empty());
            assert(view_lines(Seq::<Vec<char>>::empty()) =~= Seq::<Seq<char>>::empty());
        }
        return (Vec::new(), 0);
    }
    proof {
        assert(tail[0] == lines@[j as int]@);
        assert(tail.drop_first() =~= view_lines(lines@).skip(j as int + 1));
    }
    let line = &lines[j];
    let t = trim_chars(line);
    let lw = lead_ws_exec(line, 0);
    proof {
        assert(line@.skip(0) =~= line@);
    }
    if t.len() == 0 || lw > pos {
        let sliced = skip_safe_exec(line, pos + 1);
        let element = trim_chars(&sliced);
        let rest = indent_collect(lines, j + 1, pos);
        let (mut block, consumed) = rest;
        let mut out: Vec<Vec<char>> = Vec::new();
        out.push(element);
        proof {
            lemma_view_lines_append(out@, block@);
        }
        out.append(&mut block);
        proof {
            assert(view_lines(out@) =~= indent_take(tail, pos as int).0);
        }
        (out, consumed + 1)
    } else {
        proof {
            assert(view_lines(Seq::<Vec<char>>::empty()) =~= Seq::<Seq<char>>::empty());
        }
        (Vec::new(), 0)
    }
}

/// Rewrite the lines from `i` on.
fn eval_from(lines: &Vec<Vec<char>>, i: usize) -> (r: Vec<Vec<char>>)
    requires
        i <= lines@.len(),
    ensures
        view_lines(r@) == eval_lines_spec(view_lines(lines@).skip(i as int)),
    decreases lines@.len() - i,
{
    let ghost tail = view_lines(lines@).skip(i as int);
    if i == lines.len() {
        proof {
            assert(tail =~= Seq::<Seq<char>>::empty());
            assert(view_lines(Seq::<Vec<char>>::empty()) =~= Seq::<Seq<char>>::empty());
        }
        return Vec::new();
    }
    proof {
        assert(tail[0] == lines@[i as int]@);
        assert(tail.drop_first() =~= view_lines(lines@).skip(i as int + 1));
    }
    let line = &lines[i];
    let marker: Vec<char> = vec!['!', 'e', 'v', 'a', 'l'];
    proof {
        assert(marker@ =~= eval_marker());
    }
    let p = match find_sub(line, &marker, 0) {
        None => {
            let copy = copy_range(line, 0, line.len());
            proof {
                assert(copy@ =~= tail[0]);
            }
            let mut rest = eval_from(lines, i + 1);
            let mut out: Vec<Vec<char>> = Vec::new();
            out.push(copy);
            proof {
                lemma_view_lines_append(out@, rest@);
            }
            out.append(&mut rest);
            proof {
                assert(view_lines(out@) =~= eval_lines_spec(tail));
            }
            return out;
        },
        Some(p) => p,
    };
    let before = copy_range(line, 0, p);
    let line_len = line.len();
    proof {
        assert(p + 5 <= line_len as int);
    }
    let after_raw = skip_safe_exec(line, p + 5);
    let after = trim_chars(&after_raw);
    let ghost rest_spec = tail.drop_first();
    let ghost out_spec = eval_line_out(tail[0], rest_spec, p as int);
    proof {
        lemma_fence_take_bounds(rest_spec);
        lemma_indent_take_bounds(rest_spec, p as int);
    }
    let is_fenced: bool = after.len() >= 3 && after[0] == '`' && after[1] == '`'
        && after[2] == '`';
    proof {
        if after.len() >= 3 {
            if after[0] == '`' && after[1] == '`' && after[2] == '`' {
                assert(after@.subrange(0, 3) =~= fence());
            } else {
                assert(after@.subrange(0, 3) != fence()) by {
                    if after@.subrange(0, 3) == fence() {
                        assert(after@.subrange(0, 3)[0] == after@[0]);
                        assert(after@.subrange(0, 3)[1] == after@[1]);
                        assert(after@.subrange(0, 3)[2] == after@[2]);
                    }
                }
            }
        }
    }
    let (out_line, consumed): (Vec<char>, usize) = if is_fenced {
        if after.len() == 3 {
            let collected = fence_collect(lines, i + 1);
            let (block, consumed) = collected;
            let content = join_sp_from(&block, 0);
            proof {
                assert(view_lines(block@).skip(0) =~= view_lines(block@));
            }
            let wrapped = wrap_eval(&content);
            let tb = trim_chars(&before);
            if tb.len() == 0 {
                let mut o = spaces_exec(p);
                let mut w = wrapped;
                o.append(&mut w);
                (o, consumed)
            } else {
                let mut o = before;
                let mut w = wrapped;
                o.append(&mut w);
                (o, consumed)
            }
        } else {
            let inner = skip_safe_exec(&after, 3);
            let f: Vec<char> = vec!['`', '`', '`'];
            proof {
                assert(f@ =~= fence());
            }
            let content: Vec<char> = match find_sub(&inner, &f, 0) {
                None => Vec::new(),
                Some(e) => {
                    let piece = copy_range(&inner, 0, e);
                    trim_chars(&piece)
                },
            };
            let wrapped = wrap_eval(&content);
            let tb = trim_chars(&before);
            if tb.len() == 0 {
                let mut o = spaces_exec(p);
                let mut w = wrapped;
                o.append(&mut w);
                (o, 0)
            } else {
                let mut o = before;
                let mut w = wrapped;
                o.append(&mut w);
                (o, 0)
            }
        }
    } else if after.len() > 0 {
        let wrapped = wrap_eval(&after);
        let mut o = before;
        let mut w = wrapped;
        o.append(&mut w);
        (o, 0)
    } else {
        let collected = indent_collect(lines, i + 1, p);
        let (block, consumed) = collected;
        let content = join_sp_from(&block, 0);
        proof {
            assert(view_lines(block@).skip(0) =~= view_lines(block@));
        }
        let wrapped = wrap_eval(&content);
        let mut o = spaces_exec(p);
        let mut w = wrapped;
        o.append(&mut w);
        (o, consumed)
    };
    proof {
        assert(out_line@ == out_spec.0);
        assert(consumed as int == out_spec.1);
        assert(view_lines(lines@).skip(i as int + 1 + consumed as int) =~= rest_spec.skip(
            consumed as int,
        ));
    }
    let mut rest = eval_from(lines, i + 1 + consumed);
    let mut out: Vec<Vec<char>> = Vec::new();
    out.push(out_line);
    proof {
        lemma_view_lines_append(out@, rest@);
    }
    out.append(&mut rest);
    proof {
        assert(view_lines(out@) =~= eval_lines_spec(tail));
    }
    out
}

/// Rewrite every `!eval` macro of a text into a quoted template for the
/// run-time evaluator, handling the inline form, fenced blocks and
/// indented blocks.
pub fn yaml_helpers_eval(yaml: &str) -> (r: String)
    ensures
        r@ == join_nl(eval_lines_spec(split_lines_spec(yaml@))),
{
    let chars = str_chars(yaml);
    proof {
        assert(chars@.skip(0) =~= chars@);
    }
    let lines = split_from(&chars, 0);
    let out_lines = eval_from(&lines, 0);
    proof {
        assert(view_lines(lines@).skip(0) =~= view_lines(lines@));
        assert(view_lines(out_lines@).skip(0) =~= view_lines(out_lines@));
    }
    let joined = join_nl_from(&out_lines, 0);
    chars_to_string(&joined)
}

} // verus!
