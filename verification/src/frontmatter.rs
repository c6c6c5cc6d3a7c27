//! Front matter: the YAML block between the first two `---` lines of a page.
//!
//! The YAML text itself is read by a YAML parser outside this module; here the
//! page is framed: which lines form the header that is handed to the parser,
//! and where the body starts.
use vstd::prelude::*;
use crate::path::chars_of;
use crate::text::{
    pieces, lemma_pieces_nonempty, lemma_pieces_concat, lemma_pieces_without_separator,
    lemma_pieces_avoid, lemma_first_piece_is_prefix,
};

verus! {

/// The metadata of a page.
pub struct Meta {
    pub title: String,
    pub desc: Option<String>,
    pub keywords: Option<String>,
}

/// A page: its metadata and its body.
pub struct Frontmatter {
    pub meta: Meta,
    pub body: String,
}

impl Default for Meta {
    fn default() -> (m: Meta)
        ensures
            m.title@ == Seq::<char>::empty(),
            m.desc is None,
            m.keywords is None,
    {
        Meta { title: String::new(), desc: None, keywords: None }
    }
}

impl Default for Frontmatter {
    fn default() -> (f: Frontmatter)
        ensures
            f.meta.title@ == Seq::<char>::empty(),
            f.meta.desc is None,
            f.meta.keywords is None,
            f.body@ == Seq::<char>::empty(),
    {
        Frontmatter { meta: Meta::default(), body: String::new() }
    }
}

/// A line without the `\r` that ended it, if there was one.
pub open spec fn strip_cr(l: Seq<char>) -> Seq<char> {
    if l.len() > 0 && l.last() == '\r' {
        l.drop_last()
    } else {
        l
    }
}

/// The lines of `s`, as `str::lines` gives them: the text is cut at each `\n`,
/// a line that ended with `\n` loses one `\r` before it, and a final empty
/// piece is no line.
pub open spec fn lines(s: Seq<char>) -> Seq<Seq<char>> {
    let p = pieces(s, '\n');
    let ended = p.drop_last().map_values(|l: Seq<char>| strip_cr(l));
    if p.last().len() == 0 {
        ended
    } else {
        ended.push(p.last())
    }
}

/// The marker line that opens and closes front matter.
pub open spec fn marker() -> Seq<char> {
    seq!['-', '-', '-']
}

/// The index of the first marker line of `ls` at or after `from`, or the number of lines if there is none.
pub open spec fn next_marker(ls: Seq<Seq<char>>, from: int) -> int
    decreases ls.len() - from,
{
    if from >= ls.len() {
        ls.len() as int
    } else if ls[from] == marker() {
        from
    } else {
        next_marker(ls, from + 1)
    }
}

/// The lines strictly between the first marker line and the next one (or the
/// end of the text, if there is no second marker); none if there is no marker.
pub open spec fn header_lines(ls: Seq<Seq<char>>) -> Seq<Seq<char>> {
    let m1 = next_marker(ls, 0);
    if m1 >= ls.len() {
        seq![]
    } else {
        ls.subrange(m1 + 1, next_marker(ls, m1 + 1))
    }
}

/// The lines, each followed by `\n`.
pub open spec fn with_newlines(ls: Seq<Seq<char>>) -> Seq<char>
    decreases ls.len(),
{
    if ls.len() == 0 {
        seq![]
    } else {
        with_newlines(ls.drop_last()) + ls.last() + seq!['\n']
    }
}

/// The header text of a page: its header lines, each followed by `\n`.
pub open spec fn header_of(s: Seq<char>) -> Seq<char> {
    with_newlines(header_lines(lines(s)))
}

/// The text of `s` after its first `k` line breaks; empty where it has fewer.
pub open spec fn after_breaks(s: Seq<char>, k: nat) -> Seq<char>
    decreases k,
{
    if k == 0 {
        s
    } else if pieces(s, '\n').len() <= 1 {
        seq![]
    } else {
        after_breaks(s.skip(pieces(s, '\n')[0].len() + 1int), (k - 1) as nat)
    }
}

/// The body of a page: the text after the line that closes its front matter
/// (the second marker line), from the start of the next line on; the whole
/// page where there is no closing marker line.
pub open spec fn body_of(s: Seq<char>) -> Seq<char> {
    let ls = lines(s);
    let m1 = next_marker(ls, 0);
    let m2 = next_marker(ls, m1 + 1);
    if m1 < ls.len() && m2 < ls.len() {
        after_breaks(s, (m2 + 1) as nat)
    } else {
        s
    }
}

/// The text of a span of characters.
pub open spec fn span_text(s: Seq<char>, sp: (usize, usize)) -> Seq<char> {
    s.subrange(sp.0 as int, sp.1 as int)
}

/// Whether the spans of `s` are those of its lines.
pub open spec fn spans_of_lines(s: Seq<char>, spans: Seq<(usize, usize)>) -> bool {
    &&& spans.len() == lines(s).len()
    &&& forall|i: int|
        0 <= i < spans.len() ==> {
            &&& (#[trigger] spans[i]).0 <= spans[i].1 <= s.len()
            &&& span_text(s, spans[i]) == lines(s)[i]
        }
}

proof fn lemma_marker_lines_bounded(ls: Seq<Seq<char>>, from: int)
    ensures
        next_marker(ls, from) <= ls.len(),
        from <= ls.len() ==> from <= next_marker(ls, from),
        next_marker(ls, from) < ls.len() ==> ls[next_marker(ls, from)] == marker(),
    decreases ls.len() - from,
{
    if from < ls.len() && ls[from] != marker() {
        lemma_marker_lines_bounded(ls, from + 1);
    }
}

/// The spans, in characters, of the lines of `s`.
fn line_spans(s: &str, chars: &Vec<char>) -> (spans: Vec<(usize, usize)>)
    requires
        chars@ == s@,
    ensures
        spans_of_lines(s@, spans@),
{
    let n = chars.len();
    let mut spans: Vec<(usize, usize)> = Vec::new();
    let mut start: usize = 0;
    let mut i: usize = 0;
    assert(s@.take(0) =~= Seq::<char>::empty());
    while i < n
        invariant
            chars@ == s@,
            n == s@.len(),
            start <= i <= n,
            pieces(s@.take(i as int), '\n').len() >= 1,
            pieces(s@.take(i as int), '\n').last() == s@.subrange(start as int, i as int),
            spans@.len() == pieces(s@.take(i as int), '\n').len() - 1,
            forall|j: int|
                0 <= j < spans@.len() ==> {
                    &&& (#[trigger] spans@[j]).0 <= spans@[j].1 <= start
                    &&& span_text(s@, spans@[j]) == strip_cr(pieces(s@.take(i as int), '\n')[j])
                },
        decreases n - i,
    {
        let ghost prev = pieces(s@.take(i as int), '\n');
        let ghost next = s@.take(i + 1);
        assert(next.drop_last() =~= s@.take(i as int));
        assert(next.last() == chars@[i as int]);
        if chars[i] == '\n' {
            let end = if i > start && chars[i - 1] == '\r' {
                i - 1
            } else {
                i
            };
            proof {
                let piece = s@.subrange(start as int, i as int);
                if i > start && chars@[i - 1] == '\r' {
                    assert(piece.last() == chars@[i - 1]);
                    assert(s@.subrange(start as int, end as int) =~= piece.drop_last());
                }
                assert(s@.subrange(start as int, end as int) == strip_cr(piece));
            }
            spans.push((start, end));
            start = i + 1;
            proof {
                let p2 = pieces(next, '\n');
                assert(p2 == prev.push(Seq::<char>::empty()));
                assert(p2.last() =~= s@.subrange(start as int, i + 1));
            }
        } else {
            proof {
                let p2 = pieces(next, '\n');
                assert(p2.last() =~= s@.subrange(start as int, i + 1));
                assert forall|j: int| 0 <= j < spans@.len() implies p2[j] == prev[j] by {}
            }
        }
        i = i + 1;
    }
    assert(s@.take(n as int) =~= s@);
    let ghost p = pieces(s@, '\n');
    let ghost ended = p.drop_last().map_values(|l: Seq<char>| strip_cr(l));
    if start < n {
        spans.push((start, n));
    }
    proof {
        assert(start < n <==> p.last().len() != 0);
        assert forall|j: int| 0 <= j < spans@.len() implies {
            &&& (#[trigger] spans@[j]).0 <= spans@[j].1 <= s@.len()
            &&& span_text(s@, spans@[j]) == lines(s@)[j]
        } by {
            if j < ended.len() {
                assert(lines(s@)[j] == ended[j]);
            }
        }
    }
    spans
}

/// Whether the span `sp` of `s` is a marker line.
fn is_marker_span(chars: &Vec<char>, sp: (usize, usize)) -> (r: bool)
    requires
        sp.0 <= sp.1 <= chars@.len(),
    ensures
        r == (span_text(chars@, sp) == marker()),
{
    let ghost t = span_text(chars@, sp);
    if sp.1 - sp.0 == 3 && chars[sp.0] == '-' && chars[sp.0 + 1] == '-' && chars[sp.0 + 2] == '-' {
        assert(t =~= marker());
        true
    } else {
        assert(t != marker()) by {
            if t.len() == 3 {
                assert(t[0] == chars@[sp.0 as int]);
                assert(t[1] == chars@[sp.0 + 1]);
                assert(t[2] == chars@[sp.0 + 2]);
            }
        }
        false
    }
}

/// The index of the first marker line at or after `from`, or the number of lines.
fn find_marker(chars: &Vec<char>, spans: &Vec<(usize, usize)>, from: usize) -> (r: usize)
    requires
        spans_of_lines(chars@, spans@),
    ensures
        r == next_marker(lines(chars@), from as int),
{
    let ghost ls = lines(chars@);
    if from >= spans.len() {
        return spans.len();
    }
    let mut i = from;
    while i < spans.len()
        invariant
            spans_of_lines(chars@, spans@),
            ls == lines(chars@),
            from <= i <= spans@.len(),
            next_marker(ls, from as int) == next_marker(ls, i as int),
        decreases spans@.len() - i,
    {
        if is_marker_span(chars, spans[i]) {
            return i;
        }
        i = i + 1;
    }
    i
}

/// The header text of the page `data`: the lines between its first two marker
/// lines, each followed by `\n`. This is the text that is read as YAML.
pub fn header_text(data: &str) -> (h: String)
    ensures
        h@ == header_of(data@),
{
    let chars = chars_of(data);
    let spans = line_spans(data, &chars);
    let ghost ls = lines(data@);
    let m1 = find_marker(&chars, &spans, 0);
    let mut h = String::new();
    if m1 >= spans.len() {
        return h;
    }
    proof {
        lemma_marker_lines_bounded(ls, m1 + 1);
    }
    let m2 = find_marker(&chars, &spans, m1 + 1);
    let mut i = m1 + 1;
    assert(ls.subrange(m1 + 1, i as int) =~= Seq::<Seq<char>>::empty());
    while i < m2
        invariant
            spans_of_lines(data@, spans@),
            chars@ == data@,
            ls == lines(data@),
            m1 + 1 <= i <= m2 <= ls.len(),
            h@ == with_newlines(ls.subrange(m1 + 1, i as int)),
        decreases m2 - i,
    {
        let sp = spans[i];
        let line = data.substring_char(sp.0, sp.1);
        h.append(line);
        proof {
            reveal_strlit("\n");
        }
        h.append("\n");
        proof {
            let done = ls.subrange(m1 + 1, i + 1);
            assert(done.drop_last() =~= ls.subrange(m1 + 1, i as int));
            assert(done.last() == ls[i as int]);
        }
        i = i + 1;
    }
    h
}

/// Splitting at the first line break, found at `j`: the first piece is the
/// text before it, the others are the pieces of the text after it.
proof fn lemma_split_at_first_break(t: Seq<char>, j: int)
    requires
        0 <= j < t.len(),
        t[j] == '\n',
        forall|x: int| 0 <= x < j ==> t[x] != '\n',
    ensures
        pieces(t, '\n') == seq![t.take(j)] + pieces(t.skip(j + 1), '\n'),
        pieces(t, '\n')[0].len() == j,
        pieces(t, '\n').len() > 1,
{
    let a = t.take(j);
    let b = t.skip(j + 1);
    assert(t =~= a + seq!['\n'] + b);
    assert(!a.contains('\n')) by {
        if a.contains('\n') {
            let x = choose|x: int| 0 <= x < a.len() && a[x] == '\n';
            assert(t[x] == '\n');
        }
    }
    lemma_pieces_without_separator('\n', a);
    lemma_pieces_concat('\n', a, b);
    lemma_pieces_nonempty(b, '\n');
}

/// Where the pieces of `s` are more than one, `s` is its first piece, a line
/// break, and a rest whose pieces are the others.
proof fn lemma_break_split(s: Seq<char>)
    requires
        pieces(s, '\n').len() > 1,
    ensures
        pieces(s, '\n')[0].len() < s.len(),
        s == pieces(s, '\n')[0] + seq!['\n'] + s.skip(pieces(s, '\n')[0].len() + 1int),
        pieces(s.skip(pieces(s, '\n')[0].len() + 1int), '\n') == pieces(s, '\n').drop_first(),
    decreases s.len(),
{
    let s0 = s.drop_last();
    let c = s.last();
    lemma_pieces_nonempty(s0, '\n');
    let prev = pieces(s0, '\n');
    let p = pieces(s, '\n');
    if c == '\n' {
        if prev.len() == 1 {
            lemma_first_piece_is_prefix('\n', s0);
            let r = s.skip(s0.len() + 1int);
            assert(r =~= Seq::<char>::empty());
            assert(s =~= s0 + seq!['\n'] + r);
            assert(p.drop_first() =~= seq![Seq::<char>::empty()]);
        } else {
            lemma_break_split(s0);
            let p0 = prev[0];
            let r0 = s0.skip(p0.len() + 1int);
            let r = s.skip(p0.len() + 1int);
            assert(p[0] == p0);
            assert(s =~= s0.push('\n'));
            assert(s0 == p0 + seq!['\n'] + r0);
            assert((p0 + seq!['\n'] + r0).push('\n') =~= p0 + seq!['\n'] + r0.push('\n'));
            assert(r =~= r0.push('\n'));
            assert(r.drop_last() =~= r0);
            assert(s =~= p0 + seq!['\n'] + r);
            assert(pieces(r, '\n') =~= p.drop_first());
        }
    } else {
        let p0 = prev[0];
        lemma_break_split(s0);
        let r0 = s0.skip(p0.len() + 1int);
        let r = s.skip(p0.len() + 1int);
        lemma_pieces_nonempty(r0, '\n');
        assert(p[0] == p0);
        assert(s =~= s0.push(c));
        assert(s0 == p0 + seq!['\n'] + r0);
        assert((p0 + seq!['\n'] + r0).push(c) =~= p0 + seq!['\n'] + r0.push(c));
        assert(r =~= r0.push(c));
        assert(r.drop_last() =~= r0);
        assert(r.last() == c);
        assert(s =~= p0 + seq!['\n'] + r);
        assert(pieces(r, '\n') =~= p.drop_first());
    }
}

/// Skipping the line breaks of `a`, then the one after it, leaves `b`.
pub(crate) proof fn lemma_after_breaks_concat(a: Seq<char>, b: Seq<char>, k: nat)
    ensures
        after_breaks(a + seq!['\n'] + b, (pieces(a, '\n').len() + k) as nat) == after_breaks(b, k),
    decreases a.len(),
{
    let s = a + seq!['\n'] + b;
    lemma_pieces_concat('\n', a, b);
    lemma_pieces_nonempty(a, '\n');
    lemma_pieces_nonempty(b, '\n');
    let pa = pieces(a, '\n');
    let p0 = pa[0];
    assert(pieces(s, '\n')[0] == p0);
    if pa.len() == 1 {
        lemma_first_piece_is_prefix('\n', a);
        assert(s.skip(p0.len() + 1int) =~= b);
    } else {
        lemma_break_split(a);
        let a2 = a.skip(p0.len() + 1int);
        assert(s.skip(p0.len() + 1int) =~= a2 + seq!['\n'] + b);
        assert(pieces(a2, '\n').len() == pa.len() - 1);
        lemma_after_breaks_concat(a2, b, k);
        assert((pieces(a, '\n').len() + k) as nat - 1 == (pieces(a2, '\n').len() + k) as nat);
    }
}

/// Where the first `k` line breaks of `chars` end: the text after them is
/// `after_breaks(chars, k)`.
fn skip_breaks(chars: &Vec<char>, k: usize) -> (pos: usize)
    ensures
        pos <= chars@.len(),
        chars@.skip(pos as int) == after_breaks(chars@, k as nat),
{
    let n = chars.len();
    let mut pos: usize = 0;
    let mut count: usize = 0;
    let mut i: usize = 0;
    assert(chars@.skip(0) =~= chars@);
    while count < k && i < n
        invariant
            n == chars@.len(),
            pos <= i <= n,
            count <= k,
            after_breaks(chars@, k as nat) == after_breaks(chars@.skip(pos as int), (k - count) as nat),
            forall|x: int| pos <= x < i ==> chars@[x] != '\n',
        decreases n - i,
    {
        if chars[i] == '\n' {
            proof {
                let t = chars@.skip(pos as int);
                let j = i - pos;
                assert forall|x: int| 0 <= x < j implies t[x] != '\n' by {
                    assert(t[x] == chars@[pos + x]);
                }
                lemma_split_at_first_break(t, j);
                assert(t.skip(j + 1) =~= chars@.skip(i + 1));
            }
            count = count + 1;
            pos = i + 1;
        }
        i = i + 1;
    }
    if count < k {
        proof {
            let t = chars@.skip(pos as int);
            assert(!t.contains('\n')) by {
                if t.contains('\n') {
                    let x = choose|x: int| 0 <= x < t.len() && t[x] == '\n';
                    assert(chars@[pos + x] == '\n');
                }
            }
            lemma_pieces_without_separator('\n', t);
            assert(chars@.skip(n as int) =~= Seq::<char>::empty());
        }
        return n;
    }
    pos
}

/// The body of the page `data`: the text after its closing marker line, or
/// the whole page where there is none.
pub fn body_text(data: &str) -> (b: String)
    ensures
        b@ == body_of(data@),
{
    let chars = chars_of(data);
    let spans = line_spans(data, &chars);
    let ghost ls = lines(data@);
    let m1 = find_marker(&chars, &spans, 0);
    proof {
        lemma_marker_lines_bounded(ls, 0);
    }
    if m1 >= spans.len() {
        return data.to_string();
    }
    let m2 = find_marker(&chars, &spans, m1 + 1);
    proof {
        lemma_marker_lines_bounded(ls, m1 + 1);
    }
    if m2 >= spans.len() {
        return data.to_string();
    }
    let start = skip_breaks(&chars, m2 + 1);
    let n = chars.len();
    let body = data.substring_char(start, n);
    assert(data@.subrange(start as int, n as int) =~= data@.skip(start as int));
    body.to_string()
}

impl Frontmatter {
    /// The page `data` with the metadata `meta`, which was read from
    /// `header_text(data)`; the body is the text after the closing marker line.
    pub fn new(meta: Meta, data: &str) -> (f: Frontmatter)
        ensures
            f.meta == meta,
            f.body@ == body_of(data@),
    {
        let body = body_text(data);
        Frontmatter { meta, body }
    }
}

/// Lines without a line break, each followed by one, then any text: the
/// pieces are the lines, then the pieces of the text.
proof fn lemma_pieces_of_lines(hs: Seq<Seq<char>>, t: Seq<char>)
    requires
        forall|i: int| 0 <= i < hs.len() ==> !(#[trigger] hs[i]).contains('\n'),
    ensures
        pieces(with_newlines(hs) + t, '\n') == hs + pieces(t, '\n'),
    decreases hs.len(),
{
    if hs.len() == 0 {
        assert(with_newlines(hs) + t =~= t);
        assert(hs + pieces(t, '\n') =~= pieces(t, '\n'));
    } else {
        let last = hs.last();
        let front = hs.drop_last();
        assert(!last.contains('\n'));
        assert forall|i: int| 0 <= i < front.len() implies !(#[trigger] front[i]).contains('\n') by {
            assert(front[i] == hs[i]);
        }
        assert(with_newlines(hs) + t =~= with_newlines(front) + (last + seq!['\n'] + t));
        lemma_pieces_of_lines(front, last + seq!['\n'] + t);
        lemma_pieces_concat('\n', last, t);
        lemma_pieces_without_separator('\n', last);
        assert(front + (seq![last] + pieces(t, '\n')) =~= hs + pieces(t, '\n'));
    }
}

/// A page written as a marker line, header lines, a marker line and a body
/// reads back: its header text is the header lines, each followed by `\n`,
/// and its body is the body as written. The header lines hold no line break,
/// none is a marker line, and none ends with a carriage return.
pub proof fn lemma_page_reads_back(hs: Seq<Seq<char>>, body: Seq<char>)
    requires
        forall|i: int|
            0 <= i < hs.len() ==> {
                &&& !(#[trigger] hs[i]).contains('\n')
                &&& hs[i] != marker()
                &&& !(hs[i].len() > 0 && hs[i].last() == '\r')
            },
    ensures
        header_of(marker() + seq!['\n'] + with_newlines(hs) + marker() + seq!['\n'] + body) == with_newlines(hs),
        body_of(marker() + seq!['\n'] + with_newlines(hs) + marker() + seq!['\n'] + body) == body,
{
    let m = marker();
    let nl = seq!['\n'];
    let page = m + nl + with_newlines(hs) + m + nl + body;
    let n = hs.len() as int;
    assert(!m.contains('\n')) by {
        if m.contains('\n') {
            let k = choose|k: int| 0 <= k < m.len() && m[k] == '\n';
            assert(m[k] == '-');
        }
    }
    lemma_pieces_without_separator('\n', m);
    lemma_pieces_concat('\n', m, body);
    lemma_pieces_of_lines(hs, m + nl + body);
    assert(page =~= m + nl + (with_newlines(hs) + (m + nl + body)));
    lemma_pieces_concat('\n', m, with_newlines(hs) + (m + nl + body));
    let pb = pieces(body, '\n');
    lemma_pieces_nonempty(body, '\n');
    let p = pieces(page, '\n');
    let mm: Seq<Seq<char>> = seq![m];
    assert(p =~= mm + (hs + (mm + pb)));
    let ls = lines(page);
    assert forall|j: int| 0 <= j < n + 2 implies #[trigger] ls[j] == p[j] by {
        assert(p.drop_last().map_values(|l: Seq<char>| strip_cr(l))[j] == strip_cr(p[j]));
        if j == 0 || j == n + 1 {
            assert(p[j] == m);
            assert(m.last() == '-');
        } else {
            assert(p[j] == hs[j - 1]);
        }
    }
    assert(ls.len() >= n + 2);
    assert(ls[0] == m);
    lemma_next_marker_is(ls, 0, 0);
    assert forall|j: int| 1 <= j < n + 1 implies ls[j] != marker() by {
        assert(ls[j] == p[j]);
        assert(p[j] == hs[j - 1]);
    }
    assert(ls[n + 1] == p[n + 1]);
    lemma_next_marker_is(ls, 1, n + 1);
    assert(ls.subrange(1, n + 1) =~= hs) by {
        assert forall|j: int| 0 <= j < n implies ls.subrange(1, n + 1)[j] == hs[j] by {
            assert(ls[j + 1] == p[j + 1]);
        }
    }
    let a = m + nl + with_newlines(hs) + m;
    lemma_pieces_of_lines(hs, m);
    assert(a =~= m + nl + (with_newlines(hs) + m));
    lemma_pieces_concat('\n', m, with_newlines(hs) + m);
    assert(pieces(a, '\n').len() == n + 2);
    assert(page =~= a + nl + body);
    lemma_after_breaks_concat(a, body, 0);
}

/// Each piece of `s` followed by `\n` gives back `s` followed by `\n`.
pub(crate) proof fn lemma_with_newlines_pieces(s: Seq<char>)
    ensures
        with_newlines(pieces(s, '\n')) == s + seq!['\n'],
    decreases s.len(),
{
    if s.len() == 0 {
        let p = pieces(s, '\n');
        assert(p.drop_last() =~= Seq::<Seq<char>>::empty());
        assert(with_newlines(p.drop_last()) =~= Seq::<char>::empty());
        assert(p.last() =~= s);
        assert(with_newlines(p) =~= s + seq!['\n']);
    } else {
        let s0 = s.drop_last();
        lemma_with_newlines_pieces(s0);
        lemma_pieces_nonempty(s0, '\n');
        let prev = pieces(s0, '\n');
        let p = pieces(s, '\n');
        if s.last() == '\n' {
            assert(p.drop_last() =~= prev);
            assert(with_newlines(p) =~= s + seq!['\n']);
        } else {
            assert(p.drop_last() =~= prev.drop_last());
            let w = with_newlines(prev.drop_last());
            assert(with_newlines(prev) == w + prev.last() + seq!['\n']);
            assert((w + prev.last() + seq!['\n']).drop_last() =~= w + prev.last());
            assert((s0 + seq!['\n']).drop_last() =~= s0);
            assert(w + prev.last() == s0);
            assert(p.last() == prev.last().push(s.last()));
            assert(s0.push(s.last()) =~= s);
            assert(w + prev.last().push(s.last()) =~= s);
            assert(with_newlines(p) =~= s + seq!['\n']);
        }
    }
}

pub(crate) proof fn lemma_with_newlines_concat(a: Seq<Seq<char>>, b: Seq<Seq<char>>)
    ensures
        with_newlines(a + b) == with_newlines(a) + with_newlines(b),
    decreases b.len(),
{
    if b.len() == 0 {
        assert(a + b =~= a);
        assert(with_newlines(a) + with_newlines(b) =~= with_newlines(a));
    } else {
        lemma_with_newlines_concat(a, b.drop_last());
        assert((a + b).drop_last() =~= a + b.drop_last());
        assert((a + b).last() == b.last());
        assert(with_newlines(a + b) =~= with_newlines(a) + with_newlines(b));
    }
}

/// The first marker line at or after `from` is at `to`, when none comes between.
pub(crate) proof fn lemma_next_marker_is(ls: Seq<Seq<char>>, from: int, to: int)
    requires
        0 <= from <= to <= ls.len(),
        forall|j: int| from <= j < to ==> ls[j] != marker(),
        to < ls.len() ==> ls[to] == marker(),
    ensures
        next_marker(ls, from) == to,
    decreases to - from,
{
    if from < to {
        lemma_next_marker_is(ls, from + 1, to);
    }
}

} // verus!
