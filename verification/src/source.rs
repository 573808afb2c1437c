//! The source lines shown around a diagnostic.
use vstd::prelude::*;

use crate::text::{push_char, to_chars};

verus! {

/// A source line shown with a diagnostic: its number, its text with each tab
/// written as three spaces, and whether it is the line the diagnostic is about.
#[derive(Debug)]
pub struct ExcerptLine {
    pub number: u32,
    pub text: String,
    pub current: bool,
}

pub struct SpecExcerptLine {
    pub number: u32,
    pub text: Seq<char>,
    pub current: bool,
}

impl View for ExcerptLine {
    type V = SpecExcerptLine;

    open spec fn view(&self) -> SpecExcerptLine {
        SpecExcerptLine { number: self.number, text: self.text@, current: self.current }
    }
}

pub open spec fn excerpt_view(s: Seq<ExcerptLine>) -> Seq<SpecExcerptLine> {
    s.map_values(|l: ExcerptLine| l@)
}

/// A line without the carriage return that may end it.
pub open spec fn strip_cr(l: Seq<char>) -> Seq<char> {
    if l.len() > 0 && l.last() == '\r' {
        l.drop_last()
    } else {
        l
    }
}

/// The lines of `s` from the line that starts at `start`, where `s[start..i]`
/// holds no line feed: a line ends at a line feed (and a carriage return
/// right before it is not part of it); text after the last line feed is a last line.
pub open spec fn lines_from(s: Seq<char>, start: int, i: int) -> Seq<Seq<char>>
    decreases s.len() - i,
{
    if i >= s.len() {
        if start < s.len() {
            seq![s.subrange(start, s.len() as int)]
        } else {
            seq![]
        }
    } else if s[i] == '\n' {
        seq![strip_cr(s.subrange(start, i))] + lines_from(s, i + 1, i + 1)
    } else {
        lines_from(s, start, i + 1)
    }
}

/// The lines of a text.
pub open spec fn source_lines(s: Seq<char>) -> Seq<Seq<char>> {
    lines_from(s, 0, 0)
}

/// A line with each tab written as three spaces.
pub open spec fn expand_tabs(l: Seq<char>) -> Seq<char>
    decreases l.len(),
{
    if l.len() == 0 {
        seq![]
    } else {
        expand_tabs(l.drop_last()) + if l.last() == '\t' {
            seq![' ', ' ', ' ']
        } else {
            seq![l.last()]
        }
    }
}

/// The first line shown for a diagnostic on line `line`.
pub open spec fn excerpt_start(line: int) -> int {
    if line <= 2 {
        1
    } else {
        line - 1
    }
}

/// One past the last line shown for a diagnostic on line `line`, in a text
/// of `count` lines.
pub open spec fn excerpt_end(count: int, line: int) -> int {
    if line + 2 < count + 1 {
        line + 2
    } else {
        count + 1
    }
}

/// The lines shown for a diagnostic on line `line`: the lines numbered from
/// `excerpt_start(line)` up to `line + 1`, as far as the text has them.
pub open spec fn spec_excerpt(s: Seq<char>, line: u32) -> Seq<SpecExcerptLine> {
    let ls = source_lines(s);
    let start = excerpt_start(line as int);
    let count = excerpt_end(ls.len() as int, line as int) - start;
    Seq::new(
        if count > 0 { count as nat } else { 0 },
        |k: int|
            SpecExcerptLine {
                number: (start + k) as u32,
                text: expand_tabs(ls[start + k - 1]),
                current: start + k == line,
            },
    )
}

pub open spec fn lines_view(s: Seq<Vec<char>>) -> Seq<Seq<char>> {
    s.map_values(|l: Vec<char>| l@)
}

fn split_lines(chars: &Vec<char>) -> (r: Vec<Vec<char>>)
    ensures
        lines_view(r@) == source_lines(chars@),
{
    let ghost s = chars@;
    let n = chars.len();
    let mut out: Vec<Vec<char>> = Vec::new();
    let mut cur: Vec<char> = Vec::new();
    let ghost mut start: int = 0;
    let mut i: usize = 0;
    assert(lines_view(out@) =~= seq![]);
    assert(cur@ =~= s.subrange(0, 0));
    while i < n
        invariant
            s == chars@,
            n == s.len(),
            0 <= start <= i <= n,
            cur@ == s.subrange(start, i as int),
            source_lines(s) == lines_view(out@) + lines_from(s, start, i as int),
        decreases n - i,
    {
        if chars[i] == '\n' {
            let mut line = cur;
            if line.len() > 0 && line[line.len() - 1] == '\r' {
                line.pop();
                assert(line@ =~= strip_cr(s.subrange(start, i as int)));
            }
            assert(line@ == strip_cr(s.subrange(start, i as int)));
            let ghost before = out@;
            out.push(line);
            assert(lines_view(out@) =~= lines_view(before) + seq![strip_cr(s.subrange(start, i as int))]);
            assert(lines_view(before) + (seq![strip_cr(s.subrange(start, i as int))] + lines_from(s, i + 1, i + 1))
                =~= lines_view(out@) + lines_from(s, i + 1, i + 1));
            cur = Vec::new();
            proof {
                start = i + 1;
            }
            i += 1;
            assert(cur@ =~= s.subrange(start, i as int));
        } else {
            cur.push(chars[i]);
            i += 1;
            assert(cur@ =~= s.subrange(start, i as int));
        }
    }
    if cur.len() > 0 {
        let ghost before = out@;
        out.push(cur);
        assert(lines_view(out@) =~= lines_view(before) + seq![s.subrange(start, n as int)]);
    } else {
        assert(lines_view(out@) + seq![] =~= lines_view(out@));
    }
    out
}

fn expand(l: &Vec<char>) -> (r: String)
    ensures
        r@ == expand_tabs(l@),
{
    let mut out = String::new();
    let mut k: usize = 0;
    assert(l@.take(0) =~= seq![]);
    while k < l.len()
        invariant
            0 <= k <= l@.len(),
            out@ == expand_tabs(l@.take(k as int)),
        decreases l@.len() - k,
    {
        assert(l@.take(k + 1).drop_last() =~= l@.take(k as int));
        if l[k] == '\t' {
            push_char(&mut out, ' ');
            push_char(&mut out, ' ');
            push_char(&mut out, ' ');
        } else {
            push_char(&mut out, l[k]);
        }
        k += 1;
        assert(out@ =~= expand_tabs(l@.take(k as int)));
    }
    assert(l@.take(l@.len() as int) =~= l@);
    out
}

/// The source lines shown for a diagnostic on line `line`.
pub fn source_excerpt(source: &str, line: u32) -> (r: Vec<ExcerptLine>)
    requires
        line + 2 <= u32::MAX,
    ensures
        excerpt_view(r@) == spec_excerpt(source@, line),
{
    let chars = to_chars(source);
    let lines = split_lines(&chars);
    let ghost ls = source_lines(source@);
    let start: u32 = if line <= 2 {
        1
    } else {
        line - 1
    };
    let finish: u32 = line + 2;
    let mut out: Vec<ExcerptLine> = Vec::new();
    let mut n: u32 = start;
    assert(excerpt_view(out@) =~= seq![]);
    while n < finish && ((n - 1) as usize) < lines.len()
        invariant
            ls == lines_view(lines@),
            ls == source_lines(source@),
            start == excerpt_start(line as int),
            finish == line + 2,
            start <= n <= finish,
            n - 1 <= lines@.len() || n == start,
            excerpt_view(out@) =~= spec_excerpt(source@, line).take(n - start),
        decreases finish - n,
    {
        let text = expand(&lines[(n - 1) as usize]);
        let l = ExcerptLine { number: n, text, current: n == line };
        let ghost before = out@;
        proof {
            let e = spec_excerpt(source@, line);
            assert(e[n - start] == l@);
            assert(e.take(n - start + 1) =~= e.take(n - start).push(l@));
        }
        out.push(l);
        assert(excerpt_view(out@) =~= excerpt_view(before).push(l@));
        n += 1;
    }
    assert(excerpt_view(out@) =~= spec_excerpt(source@, line));
    out
}

proof fn lemma_lines_free(s: Seq<char>, start: int, i: int)
    requires
        0 <= start <= i <= s.len(),
        forall|k: int| start <= k < i ==> s[k] != '\n',
    ensures
        forall|m: int, k: int|
            0 <= m < lines_from(s, start, i).len() && 0 <= k < lines_from(s, start, i)[m].len()
                ==> #[trigger] lines_from(s, start, i)[m][k] != '\n',
    decreases s.len() - i,
{
    if i < s.len() {
        if s[i] == '\n' {
            lemma_lines_free(s, i + 1, i + 1);
            let sub = s.subrange(start, i);
            let l = strip_cr(sub);
            assert(l.len() <= sub.len());
            assert forall|k: int| 0 <= k < l.len() implies l[k] != '\n' by {
                assert(l[k] == sub[k]);
                assert(sub[k] == s[start + k]);
            }
            let rest = lines_from(s, i + 1, i + 1);
            assert(lines_from(s, start, i) == seq![l] + rest);
            assert forall|m: int, k: int|
                0 <= m < lines_from(s, start, i).len() && 0 <= k < lines_from(s, start, i)[m].len()
                    implies #[trigger] lines_from(s, start, i)[m][k] != '\n' by {
                if m > 0 {
                    assert(lines_from(s, start, i)[m] == rest[m - 1]);
                    assert(rest[m - 1][k] != '\n');
                } else {
                    assert(lines_from(s, start, i)[m] == l);
                }
            }
        } else {
            lemma_lines_free(s, start, i + 1);
            assert(lines_from(s, start, i) == lines_from(s, start, i + 1));
        }
    } else {
        if start < s.len() {
            let l = s.subrange(start, s.len() as int);
            assert(lines_from(s, start, i) == seq![l]);
            assert forall|m: int, k: int|
                0 <= m < lines_from(s, start, i).len() && 0 <= k < lines_from(s, start, i)[m].len()
                    implies #[trigger] lines_from(s, start, i)[m][k] != '\n' by {
                assert(lines_from(s, start, i)[m] == l);
                assert(l[k] == s[start + k]);
            }
        }
    }
}

proof fn lemma_expand_free(l: Seq<char>)
    requires
        forall|k: int| 0 <= k < l.len() ==> l[k] != '\n',
    ensures
        forall|k: int| 0 <= k < expand_tabs(l).len() ==> #[trigger] expand_tabs(l)[k] != '\n' && expand_tabs(l)[k]
            != '\t',
    decreases l.len(),
{
    if l.len() > 0 {
        let d = l.drop_last();
        assert forall|k: int| 0 <= k < d.len() implies d[k] != '\n' by {
            assert(d[k] == l[k]);
        }
        lemma_expand_free(d);
        let tail = if l.last() == '\t' { seq![' ', ' ', ' '] } else { seq![l.last()] };
        assert forall|k: int| 0 <= k < expand_tabs(l).len() implies #[trigger] expand_tabs(l)[k] != '\n'
            && expand_tabs(l)[k] != '\t' by {
            if k >= expand_tabs(d).len() {
                assert(expand_tabs(l)[k] == tail[k - expand_tabs(d).len()]);
            } else {
                assert(expand_tabs(l)[k] == expand_tabs(d)[k]);
            }
        }
    }
}

/// The lines shown with a diagnostic: at most three, numbered one after the
/// other from the line before `line` (or the first line), marked current
/// exactly where the number is `line`, including `line` whenever the text has
/// that line; each shows a line of the text, which holds no line feed, with
/// its tabs written as spaces.
pub proof fn law_excerpt(s: Seq<char>, line: u32)
    requires
        line + 2 <= u32::MAX,
    ensures
        ({
            let e = spec_excerpt(s, line);
            let count = source_lines(s).len();
            &&& e.len() <= 3
            &&& forall|k: int| 0 <= k < e.len() ==> #[trigger] e[k].number == (if line <= 2 { 1 } else { line - 1 }) + k
            &&& forall|k: int| 0 <= k < e.len() ==> (#[trigger] e[k].current <==> e[k].number == line)
            &&& 1 <= line <= count ==> exists|k: int| 0 <= k < e.len() && #[trigger] e[k].number == line
            &&& forall|k: int| 0 <= k < e.len() ==> 1 <= #[trigger] e[k].number <= count
            &&& forall|k: int, c: int| 0 <= k < e.len() && 0 <= c < e[k].text.len() ==> #[trigger] e[k].text[c]
                != '\n' && e[k].text[c] != '\t'
        }),
{
    let e = spec_excerpt(s, line);
    let ls = source_lines(s);
    lemma_lines_free(s, 0, 0);
    assert forall|k: int, c: int| 0 <= k < e.len() && 0 <= c < e[k].text.len() implies #[trigger] e[k].text[c]
        != '\n' && e[k].text[c] != '\t' by {
        let n = excerpt_start(line as int) + k;
        let l = ls[n - 1];
        assert forall|j: int| 0 <= j < l.len() implies l[j] != '\n' by {
            assert(ls[n - 1][j] != '\n');
        }
        lemma_expand_free(l);
    }
    if 1 <= line <= ls.len() {
        let k = line - excerpt_start(line as int);
        assert(e[k].number == line);
    }
}

} // verus!
