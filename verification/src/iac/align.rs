//! `terraform fmt`-style alignment: consecutive `key = value` lines at one
//! indent get their `=` signs lined up.

use vstd::prelude::*;

use crate::text::{
    chars_of, first_occurrence, has_sub, is_ws, join, join_exec, lemma_first_occurrence_exists,
    lemma_split_once_parts, lemma_trim_start_at, lemma_trim_start_suffix, lemma_trim_start_ws,
    occurs_at, push_char, split_once, split_once_exec, str_eq, string_of, trim_start, views,
};

verus! {

broadcast use vstd::string::group_string_axioms;

/// Whether `char::is_alphanumeric` holds of `c` (the Unicode `Alphabetic` or
/// `Numeric` property).
pub uninterp spec fn alphanumeric(c: char) -> bool;

/// Trusted: calls `char::is_alphanumeric`, whose result depends on the
/// character alone (its Unicode properties); the contract names that result
/// and says nothing more about it.
#[verifier::external_body]
fn is_alphanumeric(c: char) -> (b: bool)
    ensures
        b == alphanumeric(c),
{
    c.is_alphanumeric()
}

/// A key that can be aligned: a bare identifier, or a quoted string.
pub open spec fn key_ok(key: Seq<char>) -> bool {
    ||| (key.len() > 0 && forall|i: int|
        0 <= i < key.len() ==> alphanumeric(#[trigger] key[i]) || key[i] == '_')
    ||| (key.len() >= 2 && key[0] == '"' && key.last() == '"')
}

/// `(indent, key, value)` for an alignable `key = value` line whose value does
/// not open a block; `None` for comments and every other line.
#[verifier::opaque]
pub open spec fn spec_split_attr(line: Seq<char>) -> Option<(Seq<char>, Seq<char>, Seq<char>)> {
    let trimmed = trim_start(line);
    if trimmed.len() > 0 && trimmed[0] == '#' {
        None
    } else {
        match split_once(trimmed, " = "@) {
            Some(kv) => if kv.1.len() > 0 && kv.1.last() == '{' {
                None
            } else if key_ok(kv.0) {
                Some((line.take(line.len() - trimmed.len()), kv.0, kv.1))
            } else {
                None
            },
            None => None,
        }
    }
}

fn key_ok_exec(key: &str) -> (b: bool)
    ensures
        b == key_ok(key@),
{
    let cs = chars_of(key);
    let n = cs.len();
    if n >= 2 && cs[0] == '"' && cs[n - 1] == '"' {
        return true;
    }
    assert(!(key@.len() >= 2 && key@[0] == '"' && key@.last() == '"'));
    if n == 0 {
        return false;
    }
    let mut i: usize = 0;
    while i < n
        invariant
            cs@ == key@,
            n == cs@.len(),
            0 <= i <= n,
            forall|j: int| 0 <= j < i ==> alphanumeric(#[trigger] key@[j]) || key@[j] == '_',
            !(key@.len() >= 2 && key@[0] == '"' && key@.last() == '"'),
        decreases n - i,
    {
        if !is_alphanumeric(cs[i]) && cs[i] != '_' {
            assert(!(alphanumeric(key@[i as int]) || key@[i as int] == '_'));
            return false;
        }
        i = i + 1;
    }
    true
}

/// How many whitespace characters `cs` starts with.
fn leading_ws(cs: &Vec<char>) -> (a: usize)
    ensures
        a <= cs@.len(),
        trim_start(cs@) == cs@.skip(a as int),
        a < cs@.len() ==> trim_start(cs@)[0] == cs@[a as int],
{
    let mut a: usize = 0;
    while a < cs.len() && crate::text::is_ws_exec(cs[a])
        invariant
            0 <= a <= cs@.len(),
            forall|j: int| 0 <= j < a ==> is_ws(cs@[j]),
        decreases cs@.len() - a,
    {
        a = a + 1;
    }
    proof {
        lemma_trim_start_at(cs@, a as int);
        let rest = cs@.skip(a as int);
        if rest.len() > 0 {
            assert(rest[0] == cs@[a as int]);
        }
        assert(trim_start(rest) == rest);
    }
    a
}

/// `(indent, key, value)` for an alignable `key = value` line whose value is
/// not a block opener; otherwise `None`.
#[verifier::rlimit(30)]
pub fn split_attr(line: &str) -> (r: Option<(String, String, String)>)
    ensures
        match r {
            Some(p) => spec_split_attr(line@) == Some((p.0@, p.1@, p.2@)),
            None => spec_split_attr(line@) is None,
        },
{
    let cs = chars_of(line);
    let a = leading_ws(&cs);
    let ghost t = trim_start(line@);
    let trimmed = string_of(&cs, a, cs.len());
    assert(trimmed@ =~= t);
    if a < cs.len() && cs[a] == '#' {
        assert(t.len() > 0 && t[0] == '#');
        assert(spec_split_attr(line@) is None) by {
            reveal(spec_split_attr);
        }
        return None;
    }
    assert(!(t.len() > 0 && t[0] == '#'));
    match split_once_exec(trimmed.as_str(), " = ") {
        None => {
            assert(split_once(t, " = "@) is None);
            assert(spec_split_attr(line@) is None) by {
                reveal(spec_split_attr);
            }
            None
        },
        Some((key, val)) => {
            assert(split_once(t, " = "@) == Some((key@, val@)));
            let vc = chars_of(val.as_str());
            if vc.len() > 0 && vc[vc.len() - 1] == '{' {
                assert(val@.len() > 0 && val@.last() == '{');
                assert(spec_split_attr(line@) is None) by {
                    reveal(spec_split_attr);
                }
                return None;
            }
            assert(!(val@.len() > 0 && val@.last() == '{'));
            if !key_ok_exec(key.as_str()) {
                assert(spec_split_attr(line@) is None) by {
                    reveal(spec_split_attr);
                }
                return None;
            }
            let indent = string_of(&cs, 0, a);
            assert(indent@ =~= line@.take(line@.len() - t.len()));
            assert(spec_split_attr(line@) == Some((indent@, key@, val@))) by {
                reveal(spec_split_attr);
            }
            Some((indent, key, val))
        },
    }
}

// ---------------------------------------------------------------------------
// Lines
// ---------------------------------------------------------------------------

/// `s` split at every `'\n'` (so `k` newlines give `k + 1` pieces).
pub open spec fn split_lines(s: Seq<char>) -> Seq<Seq<char>>
    decreases s.len(),
{
    if s.len() == 0 {
        seq![Seq::empty()]
    } else {
        let p = split_lines(s.drop_last());
        if s.last() == '\n' {
            p.push(Seq::empty())
        } else {
            p.update(p.len() - 1, p.last().push(s.last()))
        }
    }
}

proof fn lemma_split_lines_nonempty(s: Seq<char>)
    ensures
        split_lines(s).len() >= 1,
    decreases s.len(),
{
    if s.len() > 0 {
        lemma_split_lines_nonempty(s.drop_last());
    }
}

/// The pieces of `s` between newlines.
fn split_lines_exec(s: &str) -> (v: Vec<String>)
    ensures
        views(v@) == split_lines(s@),
{
    let cs = chars_of(s);
    let mut done: Vec<String> = Vec::new();
    let mut cur = String::new();
    let mut i: usize = 0;
    while i < cs.len()
        invariant
            cs@ == s@,
            0 <= i <= cs@.len(),
            views(done@).push(cur@) == split_lines(s@.take(i as int)),
        decreases cs@.len() - i,
    {
        let ghost before = views(done@).push(cur@);
        let c = cs[i];
        proof {
            lemma_split_lines_nonempty(s@.take(i as int));
            assert(s@.take(i + 1).drop_last() =~= s@.take(i as int));
            assert(s@.take(i + 1).last() == c);
        }
        if c == '\n' {
            let line = cur;
            done.push(line);
            cur = String::new();
            assert(views(done@).push(cur@) =~= before.push(Seq::empty()));
        } else {
            let ghost d = views(done@);
            push_char(&mut cur, c);
            assert(views(done@).push(cur@) =~= before.update(before.len() - 1, before.last().push(c)));
        }
        i = i + 1;
    }
    assert(s@.take(cs@.len() as int) =~= s@);
    let ghost fin = views(done@).push(cur@);
    done.push(cur);
    assert(views(done@) =~= fin);
    done
}

// ---------------------------------------------------------------------------
// Runs
// ---------------------------------------------------------------------------

/// Line `k` is alignable with indent `ind`.
pub open spec fn attr_at(lines: Seq<Seq<char>>, k: int, ind: Seq<char>) -> bool {
    match spec_split_attr(lines[k]) {
        Some(p) => p.0 == ind,
        None => false,
    }
}

/// Where the run of alignable lines with indent `ind` starting at `k` ends.
pub open spec fn run_end(lines: Seq<Seq<char>>, k: int, ind: Seq<char>) -> int
    decreases lines.len() - k,
{
    if 0 <= k < lines.len() && attr_at(lines, k, ind) {
        run_end(lines, k + 1, ind)
    } else {
        k
    }
}

pub proof fn lemma_run_end_at_least(lines: Seq<Seq<char>>, k: int, ind: Seq<char>)
    ensures
        run_end(lines, k, ind) >= k,
        run_end(lines, k, ind) <= if k <= lines.len() {
            lines.len() as int
        } else {
            k
        },
    decreases lines.len() - k,
{
    if 0 <= k < lines.len() && attr_at(lines, k, ind) {
        lemma_run_end_at_least(lines, k + 1, ind);
    }
}

/// The length of a line's key (zero when it is not alignable).
pub open spec fn key_len(line: Seq<char>) -> nat {
    match spec_split_attr(line) {
        Some(p) => p.1.len(),
        None => 0,
    }
}

/// The longest key among lines `i..j`.
pub open spec fn key_width(lines: Seq<Seq<char>>, i: int, j: int) -> nat
    decreases j - i,
{
    if j <= i {
        0
    } else {
        let w = key_width(lines, i, j - 1);
        let k = key_len(lines[j - 1]);
        if k > w {
            k
        } else {
            w
        }
    }
}

/// `n` spaces.
pub open spec fn blanks(n: nat) -> Seq<char> {
    Seq::new(n, |_k: int| ' ')
}

/// An alignable line with its key padded to width `w`.
pub open spec fn aligned(line: Seq<char>, w: nat) -> Seq<char> {
    match spec_split_attr(line) {
        Some(p) => p.0 + p.1 + blanks((w - p.1.len()) as nat) + " = "@ + p.2,
        None => line,
    }
}

/// Lines `i..` with every run aligned.
pub open spec fn align_from(lines: Seq<Seq<char>>, i: int) -> Seq<Seq<char>>
    decreases lines.len() - i,
{
    if i < 0 || i >= lines.len() {
        Seq::empty()
    } else {
        match spec_split_attr(lines[i]) {
            None => seq![lines[i]] + align_from(lines, i + 1),
            Some(p) => {
                let j = run_end(lines, i, p.0);
                proof {
                    lemma_run_end_at_least(lines, i + 1, p.0);
                }
                let w = key_width(lines, i, j);
                Seq::new((j - i) as nat, |k: int| aligned(lines[i + k], w)) + align_from(lines, j)
            },
        }
    }
}

/// The alignment of a whole text.
pub open spec fn spec_align(src: Seq<char>) -> Seq<char> {
    join(align_from(split_lines(src), 0), "\n"@)
}


proof fn lemma_key_width_bound(lines: Seq<Seq<char>>, i: int, j: int, k: int)
    requires
        i <= k < j,
    ensures
        key_len(lines[k]) <= key_width(lines, i, j),
    decreases j - i,
{
    if k < j - 1 {
        lemma_key_width_bound(lines, i, j - 1, k);
    }
}

/// Append `n` spaces.
fn push_blanks(s: &mut String, n: usize)
    ensures
        final(s)@ == old(s)@ + blanks(n as nat),
{
    let mut k: usize = 0;
    while k < n
        invariant
            0 <= k <= n,
            s@ == old(s)@ + blanks(k as nat),
        decreases n - k,
    {
        push_char(s, ' ');
        assert(s@ =~= old(s)@ + blanks((k + 1) as nat));
        k = k + 1;
    }
}

/// Line `k` of a run, with its key padded to width `w`.
fn render_aligned(line: &str, w: usize) -> (r: String)
    requires
        spec_split_attr(line@) is Some,
        key_len(line@) <= w,
    ensures
        r@ == aligned(line@, w as nat),
{
    match split_attr(line) {
        Some((ind, key, val)) => {
            let mut out = crate::text::cat(ind.as_str(), key.as_str());
            let klen = key.as_str().unicode_len();
            push_blanks(&mut out, w - klen);
            out.append(" = ");
            out.append(val.as_str());
            out
        },
        None => crate::text::owned(line),
    }
}

/// Align consecutive `key = value` runs on the `=`, the way `terraform fmt`
/// does: a run is broken by any blank line, comment, block opener/closer, or a
/// change of indent.
pub fn align(src: &str) -> (r: String)
    ensures
        r@ == spec_align(src@),
{
    let lines = split_lines_exec(src);
    let ghost ls = views(lines@);
    let mut out: Vec<String> = Vec::new();
    let mut i: usize = 0;
    assert(views(out@) + align_from(ls, 0) =~= align_from(ls, 0));
    while i < lines.len()
        invariant
            ls == views(lines@),
            0 <= i <= ls.len(),
            views(out@) + align_from(ls, i as int) == align_from(ls, 0),
        decreases ls.len() - i,
    {
        let ghost before = views(out@);
        assert(ls[i as int] == lines@[i as int]@);
        match split_attr(lines[i].as_str()) {
            None => {
                out.push(lines[i].clone());
                assert(views(out@) =~= before.push(ls[i as int]));
                assert(align_from(ls, i as int) =~= seq![ls[i as int]] + align_from(ls, i + 1));
                assert(views(out@) + align_from(ls, i + 1) =~= before + align_from(ls, i as int));
                i = i + 1;
            },
            Some((ind, key0, _val0)) => {
                let ghost iv = ind@;
                let mut j: usize = i + 1;
                let mut w: usize = key0.as_str().unicode_len();
                let mut more = true;
                assert(attr_at(ls, i as int, iv));
                assert(key_width(ls, i as int, i as int) == 0);
                assert(key_width(ls, i as int, i + 1) == key_len(ls[i as int]));
                while more && j < lines.len()
                    invariant
                        ls == views(lines@),
                        i < j <= ls.len(),
                        iv == ind@,
                        run_end(ls, i as int, iv) == run_end(ls, j as int, iv),
                        w == key_width(ls, i as int, j as int),
                        !more ==> !attr_at(ls, j as int, iv),
                        forall|k: int| i <= k < j ==> attr_at(ls, k, iv),
                    decreases ls.len() - j + if more {
                        1int
                    } else {
                        0int
                    },
                {
                    assert(ls[j as int] == lines@[j as int]@);
                    match split_attr(lines[j].as_str()) {
                        Some((ind2, key2, _v2)) => {
                            if str_eq(ind2.as_str(), ind.as_str()) {
                                let k2 = key2.as_str().unicode_len();
                                if k2 > w {
                                    w = k2;
                                }
                                j = j + 1;
                            } else {
                                more = false;
                            }
                        },
                        None => {
                            more = false;
                        },
                    }
                }
                proof {
                    assert(run_end(ls, j as int, iv) == j);
                    lemma_run_end_at_least(ls, i + 1, iv);
                }
                let ghost run = Seq::new((j - i) as nat, |k: int| aligned(ls[i + k], w as nat));
                assert(align_from(ls, i as int) == run + align_from(ls, j as int));
                let mut k: usize = i;
                while k < j
                    invariant
                        ls == views(lines@),
                        i <= k <= j <= ls.len(),
                        w == key_width(ls, i as int, j as int),
                        forall|m: int| i <= m < j ==> attr_at(ls, m, iv),
                        run == Seq::new((j - i) as nat, |m: int| aligned(ls[i + m], w as nat)),
                        views(out@) == before + run.take(k - i),
                    decreases j - k,
                {
                    assert(ls[k as int] == lines@[k as int]@);
                    proof {
                        lemma_key_width_bound(ls, i as int, j as int, k as int);
                        assert(attr_at(ls, k as int, iv));
                    }
                    let line = render_aligned(lines[k].as_str(), w);
                    let ghost prev = views(out@);
                    out.push(line);
                    assert(views(out@) =~= prev.push(run[k - i]));
                    assert(run.take(k + 1 - i) =~= run.take(k - i).push(run[k - i]));
                    k = k + 1;
                }
                assert(run.take(j - i) =~= run);
                assert(views(out@) + align_from(ls, j as int) =~= before + align_from(ls, i as int));
                i = j;
            },
        }
    }
    assert(align_from(ls, i as int) =~= Seq::<Seq<char>>::empty());
    assert(views(out@) =~= align_from(ls, 0));
    join_exec(&out, "\n")
}

// ---------------------------------------------------------------------------
// What alignment keeps
// ---------------------------------------------------------------------------

/// `s` holds no line break.
pub open spec fn one_line(s: Seq<char>) -> bool {
    forall|i: int| 0 <= i < s.len() ==> s[i] != '\n'
}

/// `out` is `line` itself, or, where `line` is an alignable `key = value`
/// line, `line` with spaces inserted just before the ` = ` that follows its
/// key.
pub open spec fn padded(line: Seq<char>, out: Seq<char>) -> bool {
    match spec_split_attr(line) {
        None => out == line,
        Some(p) => line == p.0 + p.1 + " = "@ + p.2 && exists|n: nat|
            out == p.0 + p.1 + blanks(n) + " = "@ + p.2,
    }
}

/// An alignable line is its indent, key, ` = ` and value.
proof fn lemma_split_attr_parts(line: Seq<char>)
    requires
        spec_split_attr(line) is Some,
    ensures
        line == spec_split_attr(line).unwrap().0 + spec_split_attr(line).unwrap().1 + " = "@
            + spec_split_attr(line).unwrap().2,
{
    reveal(spec_split_attr);
    let t = trim_start(line);
    lemma_trim_start_suffix(line);
    lemma_split_once_parts(t, " = "@);
    assert(line =~= line.take(line.len() - t.len()) + t);
}

proof fn lemma_padded_aligned(line: Seq<char>, w: nat)
    requires
        key_len(line) <= w,
    ensures
        padded(line, aligned(line, w)),
{
    if spec_split_attr(line) is Some {
        lemma_split_attr_parts(line);
        let p = spec_split_attr(line).unwrap();
        let n = (w - p.1.len()) as nat;
        assert(aligned(line, w) == p.0 + p.1 + blanks(n) + " = "@ + p.2);
    }
}

proof fn lemma_padded_one_line(line: Seq<char>, out: Seq<char>)
    requires
        padded(line, out),
        one_line(line),
    ensures
        one_line(out),
{
    if spec_split_attr(line) is Some {
        let p = spec_split_attr(line).unwrap();
        let n = choose|n: nat| out == p.0 + p.1 + blanks(n) + " = "@ + p.2;
        reveal_strlit(" = ");
        let a = p.0 + p.1;
        let b = " = "@ + p.2;
        assert forall|i: int| 0 <= i < out.len() implies out[i] != '\n' by {
            if i < a.len() {
                assert(out[i] == line[i]);
            } else if i < a.len() + n {
                assert(out[i] == ' ');
            } else {
                assert(out[i] == line[i - n]);
            }
        }
    }
}

/// A run ends at the first line that does not continue it.
proof fn lemma_run_end_stops(lines: Seq<Seq<char>>, k: int, ind: Seq<char>)
    ensures
        !(0 <= run_end(lines, k, ind) < lines.len() && attr_at(lines, run_end(lines, k, ind), ind)),
    decreases lines.len() - k,
{
    if 0 <= k < lines.len() && attr_at(lines, k, ind) {
        lemma_run_end_stops(lines, k + 1, ind);
    }
}

/// Lines `k..` of a run all have the run's indent.
proof fn lemma_run_members(lines: Seq<Seq<char>>, k: int, ind: Seq<char>, m: int)
    requires
        k <= m < run_end(lines, k, ind),
    ensures
        attr_at(lines, m, ind),
    decreases lines.len() - k,
{
    if 0 <= k < lines.len() && attr_at(lines, k, ind) {
        if m > k {
            lemma_run_members(lines, k + 1, ind, m);
        }
    }
}

proof fn lemma_align_from(lines: Seq<Seq<char>>, i: int)
    requires
        0 <= i <= lines.len(),
    ensures
        align_from(lines, i).len() == lines.len() - i,
        forall|k: int|
            0 <= k < lines.len() - i ==> padded(lines[i + k], #[trigger] align_from(lines, i)[k]),
    decreases lines.len() - i,
{
    if i < lines.len() {
        match spec_split_attr(lines[i]) {
            None => {
                lemma_align_from(lines, i + 1);
                let rest = align_from(lines, i + 1);
                assert(align_from(lines, i) == seq![lines[i]] + rest);
                assert forall|k: int| 0 <= k < lines.len() - i implies padded(
                    lines[i + k],
                    #[trigger] align_from(lines, i)[k],
                ) by {
                    if k > 0 {
                        assert(align_from(lines, i)[k] == rest[k - 1]);
                        assert(lines[i + k] == lines[(i + 1) + (k - 1)]);
                    }
                }
            },
            Some(p) => {
                let j = run_end(lines, i, p.0);
                assert(attr_at(lines, i, p.0));
                lemma_run_end_at_least(lines, i + 1, p.0);
                let w = key_width(lines, i, j);
                let run = Seq::new((j - i) as nat, |k: int| aligned(lines[i + k], w));
                lemma_align_from(lines, j);
                let rest = align_from(lines, j);
                assert(align_from(lines, i) == run + rest);
                assert forall|k: int| 0 <= k < lines.len() - i implies padded(
                    lines[i + k],
                    #[trigger] align_from(lines, i)[k],
                ) by {
                    if k < j - i {
                        lemma_key_width_bound(lines, i, j, i + k);
                        lemma_padded_aligned(lines[i + k], w);
                    } else {
                        assert(align_from(lines, i)[k] == rest[k - (j - i)]);
                        assert(lines[i + k] == lines[j + (k - (j - i))]);
                    }
                }
            },
        }
    }
}

proof fn lemma_split_lines_one_line(s: Seq<char>)
    ensures
        forall|k: int| 0 <= k < split_lines(s).len() ==> one_line(#[trigger] split_lines(s)[k]),
    decreases s.len(),
{
    lemma_split_lines_nonempty(s);
    if s.len() > 0 {
        lemma_split_lines_one_line(s.drop_last());
        lemma_split_lines_nonempty(s.drop_last());
        let p = split_lines(s.drop_last());
        if s.last() != '\n' {
            assert forall|k: int| 0 <= k < split_lines(s).len() implies one_line(
                #[trigger] split_lines(s)[k],
            ) by {
                if k == p.len() - 1 {
                    assert(one_line(p[k]));
                    assert(split_lines(s)[k] == p.last().push(s.last()));
                }
            }
        } else {
            assert forall|k: int| 0 <= k < split_lines(s).len() implies one_line(
                #[trigger] split_lines(s)[k],
            ) by {
                if k < p.len() {
                    assert(split_lines(s)[k] == p[k]);
                }
            }
        }
    }
}

/// Appending text without a line break extends the last line.
proof fn lemma_split_lines_append(s: Seq<char>, t: Seq<char>)
    requires
        one_line(t),
    ensures
        split_lines(s + t) == split_lines(s).update(
            split_lines(s).len() - 1,
            split_lines(s).last() + t,
        ),
    decreases t.len(),
{
    lemma_split_lines_nonempty(s);
    if t.len() == 0 {
        assert(s + t =~= s);
        assert(split_lines(s).last() + t =~= split_lines(s).last());
        assert(split_lines(s).update(split_lines(s).len() - 1, split_lines(s).last() + t)
            =~= split_lines(s));
    } else {
        let t0 = t.drop_last();
        lemma_split_lines_append(s, t0);
        assert((s + t).drop_last() =~= s + t0);
        assert((s + t).last() == t.last());
        assert(t.last() != '\n');
        let big = split_lines(s);
        let q = split_lines(s + t0);
        assert(q.len() == big.len());
        assert(q.last() == big.last() + t0);
        assert(split_lines(s + t) == q.update(q.len() - 1, q.last().push(t.last())));
        assert(q.last().push(t.last()) =~= big.last() + t);
        assert(split_lines(s + t) =~= big.update(big.len() - 1, big.last() + t));
    }
}

/// Splitting lines joined with line breaks gives them back.
proof fn lemma_split_join(xs: Seq<Seq<char>>)
    requires
        xs.len() >= 1,
        forall|k: int| 0 <= k < xs.len() ==> one_line(#[trigger] xs[k]),
    ensures
        split_lines(join(xs, "\n"@)) == xs,
    decreases xs.len(),
{
    reveal_strlit("\n");
    if xs.len() == 1 {
        assert(one_line(xs[0]));
        lemma_split_lines_append(Seq::empty(), xs[0]);
        assert(Seq::<char>::empty() + xs[0] =~= xs[0]);
        assert(split_lines(xs[0]) =~= xs);
    } else {
        let h = xs.drop_last();
        assert forall|k: int| 0 <= k < h.len() implies one_line(#[trigger] h[k]) by {
            assert(h[k] == xs[k]);
        }
        lemma_split_join(h);
        let jh = join(h, "\n"@);
        let s = jh + "\n"@;
        assert(s.drop_last() =~= jh);
        assert(s.last() == '\n');
        assert(split_lines(s) == split_lines(jh).push(Seq::empty()));
        assert(one_line(xs[xs.len() - 1]));
        lemma_split_lines_append(s, xs.last());
        assert(join(xs, "\n"@) == s + xs.last());
        assert(Seq::<char>::empty() + xs.last() =~= xs.last());
        assert(split_lines(join(xs, "\n"@)) =~= xs);
    }
}

/// Alignment keeps the number of lines, and each line of the result is the
/// line it came from, or that line with spaces inserted just before the
/// ` = ` after its key.
pub proof fn law_align_keeps_lines(src: Seq<char>)
    ensures
        split_lines(spec_align(src)).len() == split_lines(src).len(),
        forall|k: int|
            0 <= k < split_lines(src).len() ==> padded(
                split_lines(src)[k],
                #[trigger] split_lines(spec_align(src))[k],
            ),
{
    let ls = split_lines(src);
    lemma_align_lines(src);
    lemma_align_from(ls, 0);
    assert forall|k: int| 0 <= k < ls.len() implies padded(
        ls[k],
        #[trigger] split_lines(spec_align(src))[k],
    ) by {
        assert(ls[0 + k] == ls[k]);
    }
}

/// Whitespace in front of text that starts with a non-space is what
/// `trim_start` removes.
proof fn lemma_trim_after_indent(ind: Seq<char>, x: Seq<char>)
    requires
        forall|j: int| 0 <= j < ind.len() ==> is_ws(#[trigger] ind[j]),
        x.len() > 0,
        !is_ws(x[0]),
    ensures
        trim_start(ind + x) == x,
{
    let s = ind + x;
    assert forall|j: int| 0 <= j < ind.len() implies is_ws(s[j]) by {
        assert(s[j] == ind[j]);
    }
    lemma_trim_start_at(s, ind.len() as int);
    assert(s.skip(ind.len() as int) =~= x);
}

/// Padding a key that holds no ` = ` with spaces leaves the ` = ` after it
/// the first one.
#[verifier::spinoff_prover]
#[verifier::rlimit(40)]
proof fn lemma_pad_keeps_first_sep(k: Seq<char>, v: Seq<char>, n: nat)
    requires
        k.len() > 0,
        forall|j: int| 0 <= j < k.len() ==> !occurs_at(k + " = "@ + v, " = "@, j),
    ensures
        split_once(k + blanks(n) + " = "@ + v, " = "@) == Some((k + blanks(n), v)),
{
    reveal_strlit(" = ");
    let sep = " = "@;
    let t = k + sep + v;
    let key2 = k + blanks(n);
    let x = key2 + sep + v;
    let k0 = k.len() as int;
    let m = key2.len() as int;
    assert(x.subrange(m, m + 3) =~= sep);
    assert(occurs_at(x, sep, m));
    assert forall|j: int| 0 <= j < m implies !occurs_at(x, sep, j) by {
        if occurs_at(x, sep, j) {
            assert(x.subrange(j, j + 3)[1] == sep[1]);
            assert(x[j + 1] == '=');
            if j + 2 <= k0 {
                assert forall|q: int| j <= q < j + 3 implies x[q] == t[q] by {
                    if q < k0 {
                        assert(x[q] == k[q]);
                        assert(t[q] == k[q]);
                    } else {
                        assert(t[q] == sep[0]);
                        if n > 0 {
                            assert(x[q] == blanks(n)[0]);
                        } else {
                            assert(x[q] == sep[0]);
                        }
                    }
                }
                assert(t.subrange(j, j + 3) =~= x.subrange(j, j + 3));
                assert(occurs_at(t, sep, j));
            } else {
                let q = j + 1;
                if q < m {
                    assert(x[q] == blanks(n)[q - k0]);
                } else {
                    assert(x[q] == sep[0]);
                }
            }
        }
    }
    lemma_first_occurrence_exists(x, sep, m);
    let i1 = first_occurrence(x, sep).unwrap();
    assert(occurs_at(x, sep, i1));
    assert(i1 == m);
    assert(x.take(m) =~= key2);
    assert(x.skip(m + 3) =~= v);
}

/// Splitting an alignable line again after its key was padded with `n`
/// spaces finds the same indent and value, and the padded key.
#[verifier::spinoff_prover]
#[verifier::rlimit(60)]
proof fn lemma_resplit(line: Seq<char>, n: nat)
    requires
        spec_split_attr(line) is Some,
    ensures
        ({
            let p = spec_split_attr(line).unwrap();
            spec_split_attr(p.0 + p.1 + blanks(n) + " = "@ + p.2) == if key_ok(p.1 + blanks(n)) {
                Some((p.0, p.1 + blanks(n), p.2))
            } else {
                None
            }
        }),
{
    reveal(spec_split_attr);
    let sep = " = "@;
    let t = trim_start(line);
    let p = spec_split_attr(line).unwrap();
    lemma_trim_start_suffix(line);
    lemma_trim_start_ws(line);
    lemma_split_once_parts(t, sep);
    let key2 = p.1 + blanks(n);
    let x = key2 + sep + p.2;
    let out = p.0 + p.1 + blanks(n) + sep + p.2;
    assert(out =~= p.0 + x);
    assert(p.1.len() > 0);
    assert(t[0] == p.1[0]);
    assert(x[0] == p.1[0]);
    assert(p.0 == line.take(line.len() - t.len()));
    assert forall|j: int| 0 <= j < p.0.len() implies is_ws(#[trigger] p.0[j]) by {
        assert(p.0[j] == line[j]);
    }
    lemma_trim_after_indent(p.0, x);
    lemma_pad_keeps_first_sep(p.1, p.2, n);
    assert(out.take(out.len() - x.len()) =~= p.0);
}

/// Where `l1` and `l2` are alignable at one indent, `o1` and `o2` pad their
/// keys to one width.
pub open spec fn evenly_padded(l1: Seq<char>, l2: Seq<char>, o1: Seq<char>, o2: Seq<char>) -> bool {
    match (spec_split_attr(l1), spec_split_attr(l2)) {
        (Some(p1), Some(p2)) => p1.0 == p2.0 ==> o1.len() - p1.0.len() - p1.2.len() == o2.len()
            - p2.0.len() - p2.2.len(),
        _ => true,
    }
}

/// Lines `k` and `k + 1` of `lines`, rendered from position `i` on as `out`,
/// are evenly padded.
pub open spec fn even_at(lines: Seq<Seq<char>>, out: Seq<Seq<char>>, i: int, k: int) -> bool {
    evenly_padded(lines[k], lines[k + 1], out[k - i], out[k - i + 1])
}

proof fn lemma_aligned_len(line: Seq<char>, w: nat)
    requires
        spec_split_attr(line) is Some,
        key_len(line) <= w,
    ensures
        aligned(line, w).len() - spec_split_attr(line).unwrap().0.len()
            - spec_split_attr(line).unwrap().2.len() == w + 3,
{
    reveal_strlit(" = ");
}

/// Two neighbouring lines at one indent that are both alignable are aligned
/// to one width.
proof fn lemma_align_from_even(lines: Seq<Seq<char>>, i: int)
    requires
        0 <= i <= lines.len(),
    ensures
        forall|k: int| i <= k < lines.len() - 1 ==> #[trigger] even_at(lines, align_from(lines, i), i, k),
    decreases lines.len() - i,
{
    if i < lines.len() {
        lemma_align_from(lines, i);
        match spec_split_attr(lines[i]) {
            None => {
                lemma_align_from_even(lines, i + 1);
                lemma_align_from(lines, i + 1);
                let rest = align_from(lines, i + 1);
                let out = align_from(lines, i);
                assert(out == seq![lines[i]] + rest);
                assert forall|k: int| i <= k < lines.len() - 1 implies #[trigger] even_at(lines, out, i, k) by {
                    if k > i {
                        assert(even_at(lines, rest, i + 1, k));
                        assert(out[k - i] == rest[k - (i + 1)]);
                        assert(out[k - i + 1] == rest[k - (i + 1) + 1]);
                    }
                }
            },
            Some(p) => {
                let j = run_end(lines, i, p.0);
                assert(attr_at(lines, i, p.0));
                lemma_run_end_at_least(lines, i + 1, p.0);
                lemma_run_end_at_least(lines, j, p.0);
                let w = key_width(lines, i, j);
                let run = Seq::new((j - i) as nat, |k: int| aligned(lines[i + k], w));
                lemma_align_from_even(lines, j);
                lemma_align_from(lines, j);
                let rest = align_from(lines, j);
                let out = align_from(lines, i);
                assert(out == run + rest);
                assert forall|k: int| i <= k < lines.len() - 1 implies #[trigger] even_at(lines, out, i, k) by {
                    if k + 1 < j {
                        lemma_run_members(lines, i, p.0, k);
                        lemma_run_members(lines, i, p.0, k + 1);
                        lemma_key_width_bound(lines, i, j, k);
                        lemma_key_width_bound(lines, i, j, k + 1);
                        lemma_aligned_len(lines[k], w);
                        lemma_aligned_len(lines[k + 1], w);
                        assert(out[k - i] == aligned(lines[i + (k - i)], w));
                        assert(out[k - i + 1] == aligned(lines[i + (k - i + 1)], w));
                    } else if k + 1 == j {
                        lemma_run_members(lines, i, p.0, k);
                        lemma_run_end_stops(lines, i, p.0);
                        assert(!attr_at(lines, j, p.0));
                    } else {
                        assert(even_at(lines, rest, j, k));
                        assert(out[k - i] == rest[k - j]);
                        assert(out[k - i + 1] == rest[k - j + 1]);
                    }
                }
            },
        }
    }
}

/// Neighbouring alignable lines at one indent have keys of one length.
pub open spec fn level_at(lines: Seq<Seq<char>>, k: int) -> bool {
    match (spec_split_attr(lines[k]), spec_split_attr(lines[k + 1])) {
        (Some(p1), Some(p2)) => p1.0 == p2.0 ==> p1.1.len() == p2.1.len(),
        _ => true,
    }
}

/// Every run of `lines` has keys of one length.
pub open spec fn level(lines: Seq<Seq<char>>) -> bool {
    forall|k: int| 0 <= k < lines.len() - 1 ==> #[trigger] level_at(lines, k)
}

proof fn lemma_run_level(lines: Seq<Seq<char>>, i: int, ind: Seq<char>, k: int)
    requires
        level(lines),
        i <= k < run_end(lines, i, ind),
    ensures
        key_len(lines[k]) == key_len(lines[i]),
    decreases k - i,
{
    lemma_run_members(lines, i, ind, k);
    if k > i {
        lemma_run_level(lines, i, ind, k - 1);
        lemma_run_members(lines, i, ind, k - 1);
        lemma_run_end_at_least(lines, i, ind);
        assert(level_at(lines, k - 1));
    }
}

proof fn lemma_key_width_level(lines: Seq<Seq<char>>, i: int, j: int, c: nat)
    requires
        i < j,
        forall|k: int| i <= k < j ==> #[trigger] key_len(lines[k]) == c,
    ensures
        key_width(lines, i, j) == c,
    decreases j - i,
{
    if j - 1 > i {
        lemma_key_width_level(lines, i, j - 1, c);
    } else {
        assert(key_width(lines, i, i) == 0);
    }
    assert(key_len(lines[j - 1]) == c);
}

/// Aligning lines whose runs already have keys of one length changes nothing.
proof fn lemma_align_level(lines: Seq<Seq<char>>, i: int)
    requires
        level(lines),
        0 <= i <= lines.len(),
    ensures
        align_from(lines, i) == lines.skip(i),
    decreases lines.len() - i,
{
    if i == lines.len() {
        assert(lines.skip(i) =~= Seq::<Seq<char>>::empty());
    } else {
        match spec_split_attr(lines[i]) {
            None => {
                lemma_align_level(lines, i + 1);
                assert(lines.skip(i) =~= seq![lines[i]] + lines.skip(i + 1));
            },
            Some(p) => {
                let j = run_end(lines, i, p.0);
                assert(attr_at(lines, i, p.0));
                lemma_run_end_at_least(lines, i + 1, p.0);
                let c = key_len(lines[i]);
                assert forall|k: int| i <= k < j implies #[trigger] key_len(lines[k]) == c by {
                    lemma_run_level(lines, i, p.0, k);
                }
                lemma_key_width_level(lines, i, j, c);
                let w = key_width(lines, i, j);
                let run = Seq::new((j - i) as nat, |k: int| aligned(lines[i + k], w));
                lemma_align_level(lines, j);
                assert forall|k: int| 0 <= k < j - i implies run[k] == lines[i + k] by {
                    lemma_run_members(lines, i, p.0, i + k);
                    assert(key_len(lines[i + k]) == c);
                    lemma_split_attr_parts(lines[i + k]);
                    let q = spec_split_attr(lines[i + k]).unwrap();
                    assert(blanks(0) =~= Seq::<char>::empty());
                    assert(aligned(lines[i + k], w) =~= q.0 + q.1 + " = "@ + q.2);
                }
                assert(run =~= lines.subrange(i, j));
                assert(lines.skip(i) =~= lines.subrange(i, j) + lines.skip(j));
            },
        }
    }
}

/// The lines of an aligned text are the aligned lines.
proof fn lemma_align_lines(src: Seq<char>)
    ensures
        split_lines(spec_align(src)) == align_from(split_lines(src), 0),
{
    let ls = split_lines(src);
    let out = align_from(ls, 0);
    lemma_split_lines_nonempty(src);
    lemma_split_lines_one_line(src);
    lemma_align_from(ls, 0);
    assert forall|k: int| 0 <= k < out.len() implies one_line(#[trigger] out[k]) by {
        assert(ls[0 + k] == ls[k]);
        lemma_padded_one_line(ls[k], out[k]);
    }
    lemma_split_join(out);
}

/// An aligned line that is alignable again has its padded key.
proof fn lemma_realigned_key(line: Seq<char>, out: Seq<char>)
    requires
        padded(line, out),
        spec_split_attr(out) is Some,
    ensures
        spec_split_attr(line) is Some,
        spec_split_attr(out).unwrap().0 == spec_split_attr(line).unwrap().0,
        spec_split_attr(out).unwrap().1.len() == out.len() - spec_split_attr(line).unwrap().0.len()
            - spec_split_attr(line).unwrap().2.len() - 3,
{
    let p = spec_split_attr(line).unwrap();
    let n = choose|n: nat| out == p.0 + p.1 + blanks(n) + " = "@ + p.2;
    lemma_resplit(line, n);
    reveal_strlit(" = ");
}

/// Aligning an aligned text changes nothing.
pub proof fn law_align_idempotent(src: Seq<char>)
    ensures
        spec_align(spec_align(src)) == spec_align(src),
{
    let ls = split_lines(src);
    let out = align_from(ls, 0);
    lemma_align_lines(src);
    lemma_align_from(ls, 0);
    lemma_align_from_even(ls, 0);
    assert forall|k: int| 0 <= k < out.len() - 1 implies #[trigger] level_at(out, k) by {
        if spec_split_attr(out[k]) is Some && spec_split_attr(out[k + 1]) is Some {
            assert(ls[0 + k] == ls[k]);
            assert(ls[0 + (k + 1)] == ls[k + 1]);
            lemma_realigned_key(ls[k], out[k]);
            lemma_realigned_key(ls[k + 1], out[k + 1]);
            assert(even_at(ls, out, 0, k));
        }
    }
    lemma_align_level(out, 0);
    assert(out.skip(0) =~= out);
}

} // verus!
